//! Sequences: the first match, the matches that stay, and the last entries.
use vstd::prelude::*;

verus! {

/// The position of the first element that satisfies `p`.
pub open spec fn first_where<A>(s: Seq<A>, p: spec_fn(A) -> bool) -> Option<int>
    decreases s.len(),
{
    if s.len() == 0 {
        None
    } else if p(s[0]) {
        Some(0)
    } else {
        match first_where(s.drop_first(), p) {
            Some(i) => Some(i + 1),
            None => None,
        }
    }
}

/// What `first_where` finds.
pub proof fn lemma_first_where<A>(s: Seq<A>, p: spec_fn(A) -> bool)
    ensures
        match first_where(s, p) {
            Some(i) => 0 <= i < s.len() && p(s[i]) && forall|j: int|
                0 <= j < i ==> !p(#[trigger] s[j]),
            None => forall|j: int| 0 <= j < s.len() ==> !p(#[trigger] s[j]),
        },
    decreases s.len(),
{
    if s.len() > 0 && !p(s[0]) {
        let t = s.drop_first();
        lemma_first_where(t, p);
        match first_where(t, p) {
            Some(i) => {
                assert(t[i] == s[i + 1]);
                assert forall|j: int| 0 <= j < i + 1 implies !p(#[trigger] s[j]) by {
                    if j > 0 {
                        assert(t[j - 1] == s[j]);
                    }
                }
            },
            None => {
                assert forall|j: int| 0 <= j < s.len() implies !p(#[trigger] s[j]) by {
                    if j > 0 {
                        assert(t[j - 1] == s[j]);
                    }
                }
            },
        }
    }
}

/// The first match is the match that no match precedes.
pub proof fn lemma_first_where_is<A>(s: Seq<A>, p: spec_fn(A) -> bool, i: int)
    requires
        0 <= i <= s.len(),
        forall|j: int| 0 <= j < i ==> !p(#[trigger] s[j]),
        i < s.len() ==> p(s[i]),
    ensures
        first_where(s, p) == if i < s.len() {
            Some(i)
        } else {
            None
        },
{
    lemma_first_where(s, p);
}

/// The elements of `s` that satisfy `p`, in order.
pub open spec fn kept<A>(s: Seq<A>, p: spec_fn(A) -> bool) -> Seq<A>
    decreases s.len(),
{
    if s.len() == 0 {
        Seq::empty()
    } else {
        let rest = kept(s.drop_last(), p);
        if p(s.last()) {
            rest.push(s.last())
        } else {
            rest
        }
    }
}

/// Everything kept was there and satisfies the condition, and everything that
/// was there and satisfies it is kept.
pub proof fn lemma_kept<A>(s: Seq<A>, p: spec_fn(A) -> bool)
    ensures
        kept(s, p).len() <= s.len(),
        forall|x: A| #[trigger] kept(s, p).contains(x) <==> s.contains(x) && p(x),
    decreases s.len(),
{
    if s.len() > 0 {
        let t = s.drop_last();
        lemma_kept(t, p);
        let k = kept(t, p);
        assert forall|x: A| #[trigger] kept(s, p).contains(x) <==> s.contains(x) && p(x) by {
            if s.contains(x) && p(x) {
                let i = choose|i: int| 0 <= i < s.len() && s[i] == x;
                if i < t.len() {
                    assert(t[i] == x);
                    assert(t.contains(x));
                    assert(k.contains(x));
                    let j = choose|j: int| 0 <= j < k.len() && k[j] == x;
                    assert(kept(s, p)[j] == x);
                } else {
                    assert(kept(s, p)[k.len() as int] == x);
                }
            }
            if kept(s, p).contains(x) {
                let j = choose|j: int| 0 <= j < kept(s, p).len() && kept(s, p)[j] == x;
                if j < k.len() {
                    assert(k[j] == x);
                    assert(k.contains(x));
                    assert(t.contains(x));
                    let i = choose|i: int| 0 <= i < t.len() && t[i] == x;
                    assert(s[i] == x);
                } else {
                    assert(s[s.len() - 1] == x);
                }
            }
        }
    }
}

/// What is kept of two lists in a row is kept of each.
pub proof fn lemma_kept_add<A>(a: Seq<A>, b: Seq<A>, p: spec_fn(A) -> bool)
    ensures
        kept(a + b, p) == kept(a, p) + kept(b, p),
    decreases b.len(),
{
    if b.len() == 0 {
        assert(a + b =~= a);
        assert(kept(a, p) + kept(b, p) =~= kept(a, p));
    } else {
        lemma_kept_add(a, b.drop_last(), p);
        assert((a + b).drop_last() =~= a + b.drop_last());
        assert((a + b).last() == b.last());
        assert(kept(a + b, p) =~= kept(a, p) + kept(b, p));
    }
}

/// The last `n` elements of `s`, or all of them.
pub open spec fn last_of<A>(s: Seq<A>, n: nat) -> Seq<A> {
    if s.len() <= n {
        s
    } else {
        s.skip(s.len() - n)
    }
}

/// Removes elements from the front until at most `n` are left.
pub fn keep_last<A>(v: &mut Vec<A>, n: usize)
    ensures
        final(v)@ == last_of(old(v)@, n as nat),
{
    if v.len() > n {
        let at: usize = v.len() - n;
        let tail = v.split_off(at);
        *v = tail;
        assert(v@ =~= last_of(old(v)@, n as nat));
    }
}

/// Whether `le` orders all of `A`.
pub open spec fn is_order<A>(le: spec_fn(A, A) -> bool) -> bool {
    &&& forall|a: A, b: A| #[trigger] le(a, b) || le(b, a)
    &&& forall|a: A, b: A, c: A| #[trigger] le(a, b) && #[trigger] le(b, c) ==> le(a, c)
}

pub open spec fn sorted_by<A>(s: Seq<A>, le: spec_fn(A, A) -> bool) -> bool {
    forall|i: int, j: int| 0 <= i < j < s.len() ==> le(#[trigger] s[i], #[trigger] s[j])
}

/// The elements that `le` puts in the same place as `x`.
pub open spec fn level_with<A>(x: A, le: spec_fn(A, A) -> bool) -> spec_fn(A) -> bool {
    |y: A| le(x, y) && le(y, x)
}

/// Whether `b` is `a` sorted stably: in order, and what is level stays in the
/// order that it had.
pub open spec fn sorted_from<A>(a: Seq<A>, b: Seq<A>, le: spec_fn(A, A) -> bool) -> bool {
    &&& sorted_by(b, le)
    &&& forall|x: A| #[trigger] kept(b, level_with(x, le)) == kept(a, level_with(x, le))
}

proof fn lemma_kept_none<A>(s: Seq<A>, p: spec_fn(A) -> bool)
    requires
        forall|i: int| 0 <= i < s.len() ==> !p(#[trigger] s[i]),
    ensures
        kept(s, p) == Seq::<A>::empty(),
    decreases s.len(),
{
    if s.len() > 0 {
        assert(!p(s[s.len() - 1]));
        assert forall|i: int| 0 <= i < s.drop_last().len() implies !p(
            #[trigger] s.drop_last()[i],
        ) by {
            assert(s.drop_last()[i] == s[i]);
        }
        lemma_kept_none(s.drop_last(), p);
    }
}

/// Putting `x` behind everything that does not come after it keeps a list
/// sorted stably.
pub proof fn lemma_insert_sorted<A>(
    before: Seq<A>,
    s: Seq<A>,
    at: int,
    x: A,
    le: spec_fn(A, A) -> bool,
)
    requires
        is_order(le),
        sorted_from(before, s, le),
        0 <= at <= s.len(),
        forall|i: int| 0 <= i < at ==> le(#[trigger] s[i], x),
        forall|i: int| at <= i < s.len() ==> !le(#[trigger] s[i], x),
    ensures
        sorted_from(before.push(x), s.insert(at, x), le),
{
    let r = s.insert(at, x);
    assert forall|i: int, j: int| 0 <= i < j < r.len() implies le(
        #[trigger] r[i],
        #[trigger] r[j],
    ) by {
        if i == at {
            assert(r[j] == s[j - 1]);
            assert(!le(s[j - 1], x));
        } else if j == at {
            assert(r[i] == s[i]);
        } else {
            let i0 = if i < at {
                i
            } else {
                i - 1
            };
            let j0 = if j < at {
                j
            } else {
                j - 1
            };
            assert(r[i] == s[i0] && r[j] == s[j0]);
        }
    }
    assert forall|y: A| #[trigger] kept(r, level_with(y, le)) == kept(
        before.push(x),
        level_with(y, le),
    ) by {
        let p = level_with(y, le);
        let head = s.take(at);
        let tail = s.skip(at);
        assert(head + tail =~= s);
        lemma_kept_add(head, tail, p);
        assert(r =~= head.push(x) + tail);
        lemma_kept_add(head.push(x), tail, p);
        assert(head.push(x).drop_last() =~= head);
        assert(before.push(x).drop_last() =~= before);
        if p(x) {
            assert forall|i: int| 0 <= i < tail.len() implies !p(#[trigger] tail[i]) by {
                assert(tail[i] == s[at + i]);
                if p(s[at + i]) {
                    assert(le(s[at + i], y) && le(y, x));
                }
            }
            lemma_kept_none(tail, p);
            assert(kept(head, p).push(x) + Seq::<A>::empty() =~= kept(head, p).push(x));
            assert(kept(head, p) + Seq::<A>::empty() =~= kept(head, p));
        }
        assert(kept(before, p) == kept(s, p));
    }
}

/// The views of a list.
pub open spec fn views<A: View>(v: Seq<A>) -> Seq<A::V> {
    v.map_values(|a: A| a@)
}

/// The elements for which `f` holds, `f` deciding `p` of an element's view.
pub(crate) fn keep_where<A: View, F: Fn(&A) -> bool>(
    v: Vec<A>,
    f: F,
    Ghost(p): Ghost<spec_fn(A::V) -> bool>,
) -> (r: Vec<A>)
    requires
        forall|a: &A| f.requires((a,)),
        forall|a: &A, b: bool| f.ensures((a,), b) ==> b == p(a@),
    ensures
        views(r@) == kept(views(v@), p),
{
    let mut r: Vec<A> = Vec::new();
    let ghost all = views(v@);
    assert(views(r@) =~= Seq::empty());
    assert(all.take(0) =~= Seq::empty());
    for x in it: v
        invariant
            it.seq() == v@,
            all == views(v@),
            forall|a: &A| f.requires((a,)),
            forall|a: &A, b: bool| f.ensures((a,), b) ==> b == p(a@),
            views(r@) == kept(all.take(it.index() as int), p),
    {
        let ghost k = it.index() as int;
        let ghost had = views(r@);
        proof {
            assert(all.take(k + 1).drop_last() =~= all.take(k));
            assert(all.take(k + 1).last() == x@);
        }
        if f(&x) {
            r.push(x);
            assert(views(r@) =~= had.push(x@));
        }
    }
    assert(all.take(all.len() as int) =~= all);
    r
}

} // verus!
