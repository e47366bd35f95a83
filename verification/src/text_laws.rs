//! What holds of text: how trimming, splitting, numerals and ordering relate
//! to putting text together.
use vstd::prelude::*;

verus! {

/// Whether a text is nothing but white space.
pub open spec fn is_blank(s: Seq<char>) -> bool {
    forall|i: int| 0 <= i < s.len() ==> crate::text::is_white(#[trigger] s[i])
}

/// Whether a text neither starts nor ends with white space.
pub open spec fn is_bare(s: Seq<char>) -> bool {
    s.len() > 0 ==> !crate::text::is_white(s[0]) && !crate::text::is_white(s.last())
}

/// Whether a text has no white space.
pub open spec fn is_solid(s: Seq<char>) -> bool {
    forall|i: int| 0 <= i < s.len() ==> !crate::text::is_white(#[trigger] s[i])
}

/// Space, tab, line feed and carriage return are white, and no printing ASCII
/// character is.
pub proof fn law_white(c: char)
    ensures
        c == ' ' || c == '\t' || c == '\n' || c == '\r' ==> crate::text::is_white(c),
        0x21 <= c as u32 <= 0x7e ==> !crate::text::is_white(c),
        0x9 <= c as u32 <= 0xd || c as u32 == 0x85 || c as u32 == 0xa0 || c as u32 == 0x3000
            ==> crate::text::is_white(c),
        0xa1 <= c as u32 <= 0x167f || c as u32 > 0x3000 ==> !crate::text::is_white(c),
{
}

proof fn lemma_trimmed_start(a: Seq<char>, s: Seq<char>)
    requires
        is_blank(a),
        s.len() > 0 ==> !crate::text::is_white(s[0]),
    ensures
        crate::text::trimmed_start(a + s) == s,
    decreases a.len(),
{
    if a.len() == 0 {
        assert(a + s =~= s);
    } else {
        let rest = a.drop_first();
        assert forall|i: int| 0 <= i < rest.len() implies crate::text::is_white(
            #[trigger] rest[i],
        ) by {
            assert(rest[i] == a[i + 1]);
        }
        lemma_trimmed_start(rest, s);
        assert(crate::text::is_white(a[0]));
        assert((a + s)[0] == a[0]);
        assert((a + s).drop_first() =~= rest + s);
    }
}

proof fn lemma_trimmed_end(s: Seq<char>, b: Seq<char>)
    requires
        is_blank(b),
        s.len() > 0 ==> !crate::text::is_white(s.last()),
    ensures
        crate::text::trimmed_end(s + b) == s,
    decreases b.len(),
{
    if b.len() == 0 {
        assert(s + b =~= s);
    } else {
        let rest = b.drop_last();
        assert forall|i: int| 0 <= i < rest.len() implies crate::text::is_white(
            #[trigger] rest[i],
        ) by {
            assert(rest[i] == b[i]);
        }
        lemma_trimmed_end(s, rest);
        assert(crate::text::is_white(b[b.len() - 1]));
        assert((s + b).last() == b.last());
        assert((s + b).drop_last() =~= s + rest);
    }
}

/// White space around a text goes, and nothing else does.
pub proof fn law_trimmed(a: Seq<char>, s: Seq<char>, b: Seq<char>)
    requires
        is_blank(a),
        is_blank(b),
        is_bare(s),
    ensures
        crate::text::trimmed(a + s + b) == s,
        crate::text::trimmed(s) == s,
{
    let none = Seq::<char>::empty();
    if s.len() > 0 {
        assert((s + b)[0] == s[0]);
        lemma_trimmed_start(a, s + b);
        assert(a + s + b =~= a + (s + b));
        lemma_trimmed_end(s, b);
    } else {
        let all = a + b;
        assert(a + s + b =~= all + none);
        assert forall|i: int| 0 <= i < all.len() implies crate::text::is_white(
            #[trigger] all[i],
        ) by {
            if i < a.len() {
                assert(all[i] == a[i]);
            } else {
                assert(all[i] == b[i - a.len()]);
            }
        }
        lemma_trimmed_start(all, none);
        lemma_trimmed_end(none, none);
        assert(none + none =~= none);
        assert(s =~= none);
    }
    lemma_trimmed_start(none, s);
    assert(none + s =~= s);
    lemma_trimmed_end(s, none);
    assert(s + none =~= s);
}

proof fn lemma_start_parts(s: Seq<char>) -> (a: Seq<char>)
    ensures
        is_blank(a),
        s == a + crate::text::trimmed_start(s),
    decreases s.len(),
{
    if s.len() > 0 && crate::text::is_white(s[0]) {
        let r = lemma_start_parts(s.drop_first());
        let a = seq![s[0]] + r;
        assert forall|i: int| 0 <= i < a.len() implies crate::text::is_white(#[trigger] a[i]) by {
            if i > 0 {
                assert(a[i] == r[i - 1]);
            }
        }
        let t = crate::text::trimmed_start(s.drop_first());
        assert(crate::text::trimmed_start(s) == t);
        assert(s =~= seq![s[0]] + s.drop_first());
        assert(seq![s[0]] + (r + t) =~= a + t);
        a
    } else {
        assert(s =~= Seq::<char>::empty() + s);
        Seq::empty()
    }
}

proof fn lemma_end_parts(s: Seq<char>) -> (b: Seq<char>)
    ensures
        is_blank(b),
        s == crate::text::trimmed_end(s) + b,
    decreases s.len(),
{
    if s.len() > 0 && crate::text::is_white(s.last()) {
        let r = lemma_end_parts(s.drop_last());
        let b = r.push(s.last());
        assert forall|i: int| 0 <= i < b.len() implies crate::text::is_white(#[trigger] b[i]) by {
            if i < r.len() {
                assert(b[i] == r[i]);
            }
        }
        let t = crate::text::trimmed_end(s.drop_last());
        assert(crate::text::trimmed_end(s) == t);
        assert(s =~= s.drop_last().push(s.last()));
        assert((t + r).push(s.last()) =~= t + b);
        b
    } else {
        assert(s =~= s + Seq::<char>::empty());
        Seq::empty()
    }
}

/// What trimming takes away is white space at either end.
pub proof fn law_trimmed_parts(s: Seq<char>) -> (parts: (Seq<char>, Seq<char>))
    ensures
        is_blank(parts.0),
        is_blank(parts.1),
        s == parts.0 + crate::text::trimmed(s) + parts.1,
{
    let a = lemma_start_parts(s);
    let b = lemma_end_parts(crate::text::trimmed_start(s));
    assert(s =~= a + crate::text::trimmed(s) + b);
    (a, b)
}

proof fn lemma_start_bare(s: Seq<char>)
    ensures
        ({
            let t = crate::text::trimmed_start(s);
            t.len() > 0 ==> !crate::text::is_white(t[0])
        }),
    decreases s.len(),
{
    if s.len() > 0 && crate::text::is_white(s[0]) {
        lemma_start_bare(s.drop_first());
    }
}

proof fn lemma_end_bare(s: Seq<char>)
    ensures
        ({
            let t = crate::text::trimmed_end(s);
            t.len() > 0 ==> !crate::text::is_white(t.last())
        }),
    decreases s.len(),
{
    if s.len() > 0 && crate::text::is_white(s.last()) {
        lemma_end_bare(s.drop_last());
    }
}

/// A trimmed text neither starts nor ends with white space.
pub proof fn law_trimmed_bare(s: Seq<char>)
    ensures
        is_bare(crate::text::trimmed(s)),
{
    let u = crate::text::trimmed_start(s);
    let t = crate::text::trimmed(s);
    lemma_start_bare(s);
    lemma_end_bare(u);
    let b = lemma_end_parts(u);
    if t.len() > 0 {
        assert(u[0] == t[0]);
    }
}

/// The numeral of a number has no leading zero.
pub proof fn law_decimal_shortest(n: nat)
    ensures
        crate::text::decimal(n).len() > 0,
        crate::text::decimal(n)[0] == '0' <==> n == 0,
    decreases n,
{
    if n >= 10 {
        law_decimal_shortest(n / 10);
        assert(crate::text::decimal(n)[0] == crate::text::decimal(n / 10)[0]);
    }
}

/// The numerals of two numbers differ where the numbers do.
pub proof fn law_decimal_tells(a: nat, b: nat)
    ensures
        crate::text::decimal(a) == crate::text::decimal(b) <==> a == b,
{
    crate::text::lemma_decimal_digits(a);
    crate::text::lemma_decimal_digits(b);
}

/// A numeral is no white space and is left alone by trimming.
pub proof fn law_numeral_bare(n: nat)
    ensures
        is_solid(crate::text::decimal(n)),
        crate::text::trimmed(crate::text::decimal(n)) == crate::text::decimal(n),
{
    let d = crate::text::decimal(n);
    crate::text::lemma_decimal_digits(n);
    assert forall|i: int| 0 <= i < d.len() implies !crate::text::is_white(#[trigger] d[i]) by {
        assert(crate::text::is_digit(d[i], 10));
    }
    let none = Seq::<char>::empty();
    law_trimmed(none, d, none);
}

/// A text with a character that is no digit writes no number, but for a sign
/// ahead of the digits; nor does an empty one.
pub proof fn law_no_number(s: Seq<char>, radix: int, max: int, i: int)
    ensures
        crate::text::parsed_number(Seq::empty(), radix, max) is None,
        0 <= i < s.len() && !crate::text::is_digit(s[i], radix) && !(i == 0 && s[0] == '+')
            ==> crate::text::parsed_number(s, radix, max) is None,
{
    if 0 <= i < s.len() && !crate::text::is_digit(s[i], radix) && !(i == 0 && s[0] == '+') {
        let d = crate::text::unsigned_digits(s);
        if s[0] == '+' {
            assert(d[i - 1] == s[i]);
        } else {
            assert(d[i] == s[i]);
        }
    }
}

/// A digit of the hexadecimal system in capital letters.
pub open spec fn hex_char(d: int) -> char {
    if d < 10 {
        (0x30 + d) as u8 as char
    } else {
        (0x41 + d - 10) as u8 as char
    }
}

/// Four hexadecimal digits write their number, the most significant first.
pub proof fn law_hex(a: int, b: int, c: int, d: int)
    requires
        0 <= a < 16,
        0 <= b < 16,
        0 <= c < 16,
        0 <= d < 16,
    ensures
        crate::text::parsed_number(
            seq![hex_char(a), hex_char(b), hex_char(c), hex_char(d)],
            16,
            65535,
        ) == Some(a * 4096 + b * 256 + c * 16 + d),
{
    let s = seq![hex_char(a), hex_char(b), hex_char(c), hex_char(d)];
    let s3 = seq![hex_char(a), hex_char(b), hex_char(c)];
    let s2 = seq![hex_char(a), hex_char(b)];
    let s1 = seq![hex_char(a)];
    assert(s.drop_last() =~= s3);
    assert(s3.drop_last() =~= s2);
    assert(s2.drop_last() =~= s1);
    assert(s1.drop_last() =~= Seq::empty());
    assert(crate::text::digit_of(hex_char(a)) == a);
    assert(crate::text::digit_of(hex_char(b)) == b);
    assert(crate::text::digit_of(hex_char(c)) == c);
    assert(crate::text::digit_of(hex_char(d)) == d);
    assert(crate::text::numeral_value(Seq::empty(), 16) == 0);
    assert(crate::text::numeral_value(s1, 16) == a);
    assert(crate::text::numeral_value(s2, 16) == a * 16 + b);
    assert(crate::text::numeral_value(s3, 16) == (a * 16 + b) * 16 + c);
    assert(crate::text::numeral_value(s, 16) == ((a * 16 + b) * 16 + c) * 16 + d);
    assert(s[0] != '+');
    assert(crate::text::all_digits(s, 16));
}

/// A text of one word is that word, and white space between two texts keeps
/// their words apart.
pub proof fn law_words(a: Seq<char>, c: char, b: Seq<char>)
    requires
        crate::text::is_white(c),
    ensures
        crate::text::words_of(a + seq![c] + b) == crate::text::words_of(a) + crate::text::words_of(
            b,
        ),
        a.len() > 0 && is_solid(a) ==> crate::text::words_of(a) == seq![a],
        is_blank(a) ==> crate::text::words_of(a).len() == 0,
    decreases a.len(),
{
    let s = a + seq![c] + b;
    let none = Seq::<Seq<char>>::empty();
    if a.len() == 0 {
        assert(s[0] == c);
        assert(s.drop_first() =~= b);
        assert(crate::text::words_of(a) =~= none);
        assert(none + crate::text::words_of(b) =~= crate::text::words_of(b));
    } else if crate::text::is_white(a[0]) {
        law_words(a.drop_first(), c, b);
        assert(s[0] == a[0]);
        assert(s.drop_first() =~= a.drop_first() + seq![c] + b);
        if is_blank(a) {
            let rest = a.drop_first();
            assert forall|i: int| 0 <= i < rest.len() implies crate::text::is_white(
                #[trigger] rest[i],
            ) by {
                assert(rest[i] == a[i + 1]);
            }
        }
    } else {
        lemma_word_len(a, c, b);
        let n = crate::text::word_len(a);
        assert(s[0] == a[0]);
        let rest = a.skip(n);
        law_words(rest, c, b);
        assert(s.take(n) =~= a.take(n));
        assert(s.skip(n) =~= rest + seq![c] + b);
        assert(seq![a.take(n)] + (crate::text::words_of(rest) + crate::text::words_of(b))
            =~= seq![a.take(n)] + crate::text::words_of(rest) + crate::text::words_of(b));
        if is_solid(a) {
            assert(n == a.len()) by {
                if n < a.len() {
                    assert(crate::text::is_white(a[n]));
                }
            }
            assert(a.take(n) =~= a);
            assert(rest =~= Seq::empty());
            assert(crate::text::words_of(a) =~= seq![a]);
        }
        if is_blank(a) {
            assert(crate::text::is_white(a[0]));
        }
    }
}

proof fn lemma_word_len(a: Seq<char>, c: char, b: Seq<char>)
    requires
        crate::text::is_white(c),
        a.len() > 0,
        !crate::text::is_white(a[0]),
    ensures
        0 < crate::text::word_len(a) <= a.len(),
        crate::text::word_len(a) < a.len() ==> crate::text::is_white(a[crate::text::word_len(a)]),
        crate::text::word_len(a + seq![c] + b) == crate::text::word_len(a),
    decreases a.len(),
{
    let s = a + seq![c] + b;
    let rest = a.drop_first();
    assert(s[0] == a[0]);
    assert(s.drop_first() =~= rest + seq![c] + b);
    if rest.len() == 0 {
        assert((rest + seq![c] + b)[0] == c);
        assert(crate::text::word_len(rest) == 0);
        assert(crate::text::word_len(s.drop_first()) == 0);
    } else if crate::text::is_white(rest[0]) {
        assert(s.drop_first()[0] == rest[0]);
        assert(crate::text::word_len(rest) == 0);
        assert(crate::text::word_len(s.drop_first()) == 0);
        assert(a[1] == rest[0]);
    } else {
        lemma_word_len(rest, c, b);
        let n = crate::text::word_len(rest);
        if n < rest.len() {
            assert(a[n + 1] == rest[n]);
        }
    }
}

/// Whether a text is within one line.
pub open spec fn is_one_line(s: Seq<char>) -> bool {
    forall|i: int| 0 <= i < s.len() ==> #[trigger] s[i] != '\n'
}

proof fn lemma_line_len(a: Seq<char>, b: Seq<char>)
    requires
        is_one_line(a),
        b.len() > 0 ==> b[0] == '\n',
    ensures
        crate::text::line_len(a + b) == a.len(),
    decreases a.len(),
{
    let s = a + b;
    if a.len() == 0 {
        assert(s =~= b);
    } else {
        let rest = a.drop_first();
        assert forall|i: int| 0 <= i < rest.len() implies #[trigger] rest[i] != '\n' by {
            assert(rest[i] == a[i + 1]);
        }
        lemma_line_len(rest, b);
        assert(a[0] != '\n');
        assert(s[0] == a[0]);
        assert(s.drop_first() =~= rest + b);
    }
}

/// A line feed ends a line, with or without a carriage return ahead of it, and
/// the lines after it are those of the rest; the last line needs none.
pub proof fn law_lines(a: Seq<char>, b: Seq<char>)
    requires
        is_one_line(a),
        a.len() > 0 ==> a.last() != '\r',
    ensures
        crate::text::lines_of(a + seq!['\n'] + b) == seq![a] + crate::text::lines_of(b),
        crate::text::lines_of(a + seq!['\r', '\n'] + b) == seq![a] + crate::text::lines_of(b),
        a.len() > 0 ==> crate::text::lines_of(a) == seq![a],
        crate::text::lines_of(Seq::empty()).len() == 0,
{
    let end = seq!['\n'] + b;
    let s = a + seq!['\n'] + b;
    assert(s =~= a + end);
    lemma_line_len(a, end);
    assert(s.take(a.len() as int) =~= a);
    assert(s.skip(a.len() as int + 1) =~= b);
    let c = a.push('\r');
    let u = a + seq!['\r', '\n'] + b;
    assert(u =~= c + end);
    assert forall|i: int| 0 <= i < c.len() implies #[trigger] c[i] != '\n' by {
        if i < a.len() {
            assert(c[i] == a[i]);
        }
    }
    lemma_line_len(c, end);
    assert(u.take(c.len() as int) =~= c);
    assert(u.skip(c.len() as int + 1) =~= b);
    assert(c.drop_last() =~= a);
    let none = Seq::<char>::empty();
    lemma_line_len(a, none);
    assert(a + none =~= a);
}

/// Text is ordered by the first character in which two texts differ, and a
/// text comes before its own extensions.
pub proof fn law_text_order(p: Seq<char>, x: char, y: char, s: Seq<char>, t: Seq<char>)
    ensures
        crate::text::text_le(p, p + s),
        s.len() > 0 ==> !crate::text::text_le(p + s, p),
        x != y ==> (crate::text::text_le(p + seq![x] + s, p + seq![y] + t) <==> (x as u32) < (
        y as u32)),
    decreases p.len(),
{
    let a = p + seq![x] + s;
    let b = p + seq![y] + t;
    if p.len() == 0 {
        assert(p + s =~= s);
        assert(a[0] == x && b[0] == y);
    } else {
        let q = p.drop_first();
        law_text_order(q, x, y, s, t);
        assert((p + s)[0] == p[0]);
        assert((p + s).drop_first() =~= q + s);
        assert(a[0] == p[0] && b[0] == p[0]);
        assert(a.drop_first() =~= q + seq![x] + s);
        assert(b.drop_first() =~= q + seq![y] + t);
    }
}

/// A text is split at the last occurrence of a character, into what is before
/// it and what is after it.
pub proof fn law_split(a: Seq<char>, c: char, b: Seq<char>)
    requires
        !b.contains(c),
    ensures
        crate::text::split_at_last(a + seq![c] + b, c) == Some((a, b)),
        crate::text::split_at_last(b, c) is None,
    decreases b.len(),
{
    let s = a + seq![c] + b;
    if b.len() == 0 {
        assert(s.last() == c);
        assert(s.drop_last() =~= a);
        assert(b =~= Seq::empty());
    } else {
        let init = b.drop_last();
        assert(!init.contains(c)) by {
            if init.contains(c) {
                let i = choose|i: int| 0 <= i < init.len() && init[i] == c;
                assert(b[i] == c);
            }
        }
        assert(b[b.len() - 1] != c) by {
            if b[b.len() - 1] == c {
                assert(b.contains(c));
            }
        }
        law_split(a, c, init);
        assert(s.last() == b.last());
        assert(s.drop_last() =~= a + seq![c] + init);
        assert(init.push(b.last()) =~= b);
    }
}

/// What stands behind a beginning, or ahead of an ending, is what is left
/// without it; a text without that beginning or ending has nothing left.
pub proof fn law_affixes(a: Seq<char>, b: Seq<char>)
    ensures
        crate::text::without_prefix(a + b, a) == Some(b),
        crate::text::without_suffix(a + b, b) == Some(a),
        crate::text::without_prefix(a, b) matches Some(r) ==> a == b + r,
        crate::text::without_suffix(a, b) matches Some(r) ==> a == r + b,
{
    assert((a + b).take(a.len() as int) =~= a);
    assert((a + b).skip(a.len() as int) =~= b);
    assert((a + b).take((a + b).len() - b.len()) =~= a);
    assert((a + b).skip((a + b).len() - b.len()) =~= b);
    if let Some(r) = crate::text::without_prefix(a, b) {
        assert(a =~= b + r);
    }
    if let Some(r) = crate::text::without_suffix(a, b) {
        assert(a =~= r + b);
    }
}

/// Case does not matter for the letters `A` to `Z`, and for nothing else.
pub proof fn law_case(a: char, b: char)
    ensures
        crate::text::same_ignoring_case(seq![a], seq![b]) <==> a == b || (0x41 <= a as u32 <= 0x5a
            && b as u32 == a as u32 + 0x20) || (0x41 <= b as u32 <= 0x5a && a as u32 == b as u32
            + 0x20),
        forall|s: Seq<char>, t: Seq<char>| #[trigger]
            crate::text::same_ignoring_case(s, t) ==> s.len() == t.len(),
        forall|s: Seq<char>| #[trigger] crate::text::same_ignoring_case(s, s),
{
    let x = seq![a];
    let y = seq![b];
    assert(x[0] == a && y[0] == b);
    if crate::text::same_ignoring_case(x, y) {
        assert(crate::text::lower(x[0]) == crate::text::lower(y[0]));
    }
}


/// A numeral is worth ten times what it was without its last digit, and that
/// digit; a sign ahead of it does not matter, and a number beyond the limit is
/// none.
pub proof fn law_numeral(d: Seq<char>, n: int, max: int)
    requires
        crate::text::all_digits(d, 10),
        d.len() > 0,
        0 <= n < 10,
    ensures
        ({
            let c = (0x30 + n) as u8 as char;
            let more = d.push(c);
            &&& crate::text::numeral_value(more, 10) == crate::text::numeral_value(d, 10) * 10 + n
            &&& crate::text::numeral_value(seq![c], 10) == n
            &&& crate::text::parsed_number(seq!['+'] + d, 10, max) == crate::text::parsed_number(
                d,
                10,
                max,
            )
            &&& crate::text::numeral_value(d, 10) > max <==> crate::text::parsed_number(d, 10, max)
                is None
            &&& crate::text::numeral_value(d, 10) <= max ==> crate::text::parsed_number(d, 10, max)
                == Some(crate::text::numeral_value(d, 10))
        }),
{
    let c = (0x30 + n) as u8 as char;
    let more = d.push(c);
    assert(more.drop_last() =~= d);
    assert(crate::text::digit_of(c) == n);
    assert(seq![c].drop_last() =~= Seq::empty());
    assert(crate::text::numeral_value(Seq::empty(), 10) == 0);
    assert((seq!['+'] + d).drop_first() =~= d);
    assert((seq!['+'] + d)[0] == '+');
    assert(crate::text::is_digit(d[0], 10));
}

} // verus!
