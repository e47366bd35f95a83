//! Text as sequences of characters: trimming, splitting, numerals and ordering.
use vstd::prelude::*;
use vstd::string::*;

verus! {

/// The Unicode `White_Space` property.
pub open spec fn is_white(c: char) -> bool {
    let u = c as u32;
    ||| 0x9 <= u <= 0xd
    ||| u == 0x20
    ||| u == 0x85
    ||| u == 0xa0
    ||| u == 0x1680
    ||| 0x2000 <= u <= 0x200a
    ||| u == 0x2028
    ||| u == 0x2029
    ||| u == 0x202f
    ||| u == 0x205f
    ||| u == 0x3000
}

/// `s` without its leading white space.
pub open spec fn trimmed_start(s: Seq<char>) -> Seq<char>
    decreases s.len(),
{
    if s.len() > 0 && is_white(s[0]) {
        trimmed_start(s.drop_first())
    } else {
        s
    }
}

/// `s` without its trailing white space.
pub open spec fn trimmed_end(s: Seq<char>) -> Seq<char>
    decreases s.len(),
{
    if s.len() > 0 && is_white(s.last()) {
        trimmed_end(s.drop_last())
    } else {
        s
    }
}

/// `s` without white space at either end.
pub open spec fn trimmed(s: Seq<char>) -> Seq<char> {
    trimmed_end(trimmed_start(s))
}

/// The value of a digit: `0` to `9`, then the Latin letters in either case
/// from 10 on; -1 for any other character.
pub open spec fn digit_of(c: char) -> int {
    let u = c as u32 as int;
    if 0x30 <= u <= 0x39 {
        u - 0x30
    } else if 0x41 <= u <= 0x5a {
        u - 0x41 + 10
    } else if 0x61 <= u <= 0x7a {
        u - 0x61 + 10
    } else {
        -1
    }
}

pub open spec fn is_digit(c: char, radix: int) -> bool {
    0 <= digit_of(c) < radix
}

pub open spec fn all_digits(s: Seq<char>, radix: int) -> bool {
    forall|i: int| 0 <= i < s.len() ==> is_digit(#[trigger] s[i], radix)
}

/// The number that a sequence of digits writes in `radix`.
pub open spec fn numeral_value(s: Seq<char>, radix: int) -> int
    decreases s.len(),
{
    if s.len() == 0 {
        0
    } else {
        numeral_value(s.drop_last(), radix) * radix + digit_of(s.last())
    }
}

/// The digits of a numeral: an optional leading `+` is skipped.
pub open spec fn unsigned_digits(s: Seq<char>) -> Seq<char> {
    if s.len() > 0 && s[0] == '+' {
        s.drop_first()
    } else {
        s
    }
}

/// The unsigned number that `s` writes in `radix`, if it is one and is at
/// most `max`: one digit or more, after an optional `+`.
pub open spec fn parsed_number(s: Seq<char>, radix: int, max: int) -> Option<int> {
    let d = unsigned_digits(s);
    if d.len() > 0 && all_digits(d, radix) && numeral_value(d, radix) <= max {
        Some(numeral_value(d, radix))
    } else {
        None
    }
}

pub open spec fn digit_char(d: int) -> char {
    (0x30 + d) as u8 as char
}

/// The shortest decimal numeral of `n`.
pub open spec fn decimal(n: nat) -> Seq<char>
    decreases n,
{
    if n < 10 {
        seq![digit_char(n as int)]
    } else {
        decimal(n / 10).push(digit_char((n % 10) as int))
    }
}

pub open spec fn is_prefix(p: Seq<char>, s: Seq<char>) -> bool {
    p.len() <= s.len() && s.take(p.len() as int) == p
}

pub open spec fn is_suffix(p: Seq<char>, s: Seq<char>) -> bool {
    p.len() <= s.len() && s.skip(s.len() - p.len()) == p
}

pub open spec fn without_prefix(s: Seq<char>, p: Seq<char>) -> Option<Seq<char>> {
    if is_prefix(p, s) {
        Some(s.skip(p.len() as int))
    } else {
        None
    }
}

pub open spec fn without_suffix(s: Seq<char>, p: Seq<char>) -> Option<Seq<char>> {
    if is_suffix(p, s) {
        Some(s.take(s.len() - p.len()))
    } else {
        None
    }
}

/// `s` split at the last occurrence of `c`, which is in neither part.
pub open spec fn split_at_last(s: Seq<char>, c: char) -> Option<(Seq<char>, Seq<char>)>
    decreases s.len(),
{
    if s.len() == 0 {
        None
    } else if s.last() == c {
        Some((s.drop_last(), Seq::empty()))
    } else {
        match split_at_last(s.drop_last(), c) {
            Some((before, after)) => Some((before, after.push(s.last()))),
            None => None,
        }
    }
}

pub open spec fn lower(c: char) -> char {
    if 0x41 <= c as u32 <= 0x5a {
        (c as u32 + 0x20) as char
    } else {
        c
    }
}

/// Equality up to the case of the letters `A` to `Z`.
pub open spec fn same_ignoring_case(a: Seq<char>, b: Seq<char>) -> bool {
    &&& a.len() == b.len()
    &&& forall|i: int| 0 <= i < a.len() ==> lower(#[trigger] a[i]) == lower(b[i])
}

/// What `String::from_utf8_lossy` makes of a sequence of bytes.
pub uninterp spec fn lossy_text(bytes: Seq<u8>) -> Seq<char>;

/// Calls `String::from_utf8_lossy`. Believed of it: the text depends on the
/// bytes alone, and bytes that are valid UTF-8 are decoded unchanged.
#[verifier::external_body]
pub(crate) fn decode_lossy(bytes: &[u8]) -> (r: String)
    ensures
        r@ == lossy_text(bytes@),
        vstd::utf8::valid_utf8(bytes@) ==> r@ == vstd::utf8::decode_utf8(bytes@),
{
    String::from_utf8_lossy(bytes).into_owned()
}

/// The views of a list of strings.
pub open spec fn texts(v: Seq<String>) -> Seq<Seq<char>> {
    v.map_values(|s: String| s@)
}

/// A copy of a list of strings.
pub fn copy_texts(v: &Vec<String>) -> (r: Vec<String>)
    ensures
        texts(r@) == texts(v@),
{
    let mut r: Vec<String> = Vec::new();
    let mut i: usize = 0;
    while i < v.len()
        invariant
            i <= v@.len(),
            texts(r@) == texts(v@).take(i as int),
        decreases v@.len() - i,
    {
        let ghost had = texts(r@);
        r.push(v[i].clone());
        assert(texts(r@) =~= had.push(v@[i as int]@));
        i = i + 1;
        assert(texts(r@) =~= texts(v@).take(i as int));
    }
    assert(texts(v@).take(i as int) =~= texts(v@));
    r
}

pub fn chars_of(s: &str) -> (r: Vec<char>)
    ensures
        r@ == s@,
{
    let mut r: Vec<char> = Vec::new();
    for c in it: s.chars()
        invariant
            r@ == s@.take(it.index() as int),
            it.seq() == s@,
    {
        r.push(c);
    }
    r
}

fn white(c: char) -> (r: bool)
    ensures
        r == is_white(c),
{
    let u: u32 = c as u32;
    (0x9 <= u && u <= 0xd) || u == 0x20 || u == 0x85 || u == 0xa0 || u == 0x1680 || (0x2000 <= u
        && u <= 0x200a) || u == 0x2028 || u == 0x2029 || u == 0x202f || u == 0x205f || u == 0x3000
}

proof fn lemma_trimmed_start(s: Seq<char>, a: int)
    requires
        0 <= a <= s.len(),
        forall|i: int| 0 <= i < a ==> is_white(#[trigger] s[i]),
        a < s.len() ==> !is_white(s[a]),
    ensures
        trimmed_start(s) == s.skip(a),
    decreases s.len(),
{
    if a > 0 {
        lemma_trimmed_start(s.drop_first(), a - 1);
        assert(s.drop_first().skip(a - 1) =~= s.skip(a));
    } else {
        assert(s.skip(0) =~= s);
    }
}

proof fn lemma_trimmed_end(s: Seq<char>, b: int)
    requires
        0 <= b <= s.len(),
        forall|i: int| b <= i < s.len() ==> is_white(#[trigger] s[i]),
        b > 0 ==> !is_white(s[b - 1]),
    ensures
        trimmed_end(s) == s.take(b),
    decreases s.len(),
{
    if b < s.len() {
        lemma_trimmed_end(s.drop_last(), b);
        assert(s.drop_last().take(b) =~= s.take(b));
    } else {
        assert(s.take(b) =~= s);
    }
}

/// `s` without white space at either end.
pub fn trim<'a>(s: &'a str) -> (r: &'a str)
    ensures
        r@ == trimmed(s@),
{
    let cs = chars_of(s);
    let mut a: usize = 0;
    while a < cs.len() && white(cs[a])
        invariant
            0 <= a <= cs@.len(),
            forall|i: int| 0 <= i < a ==> is_white(#[trigger] cs@[i]),
        decreases cs@.len() - a,
    {
        a = a + 1;
    }
    let mut b: usize = cs.len();
    while b > a && white(cs[b - 1])
        invariant
            a <= b <= cs@.len(),
            forall|i: int| b <= i < cs@.len() ==> is_white(#[trigger] cs@[i]),
        decreases b,
    {
        b = b - 1;
    }
    proof {
        lemma_trimmed_start(s@, a as int);
        let t = s@.skip(a as int);
        assert forall|i: int| b - a <= i < t.len() implies is_white(#[trigger] t[i]) by {
            assert(t[i] == cs@[i + a]);
        }
        lemma_trimmed_end(t, b - a);
        assert(t.take(b - a) =~= s@.subrange(a as int, b as int));
    }
    s.substring_char(a, b)
}

fn digit_value(c: char) -> (r: Option<u64>)
    ensures
        match r {
            Some(d) => d == digit_of(c) && d < 36,
            None => digit_of(c) < 0,
        },
{
    let u: u32 = c as u32;
    if 0x30 <= u && u <= 0x39 {
        Some((u - 0x30) as u64)
    } else if 0x41 <= u && u <= 0x5a {
        Some((u - 0x41 + 10) as u64)
    } else if 0x61 <= u && u <= 0x7a {
        Some((u - 0x61 + 10) as u64)
    } else {
        None
    }
}

proof fn lemma_numeral_nonnegative(s: Seq<char>, radix: int)
    requires
        all_digits(s, radix),
        radix > 0,
    ensures
        numeral_value(s, radix) >= 0,
    decreases s.len(),
{
    if s.len() > 0 {
        assert(is_digit(s[s.len() - 1], radix));
        assert forall|i: int| 0 <= i < s.drop_last().len() implies is_digit(
            #[trigger] s.drop_last()[i],
            radix,
        ) by {
            assert(s.drop_last()[i] == s[i]);
        }
        lemma_numeral_nonnegative(s.drop_last(), radix);
        assert(numeral_value(s.drop_last(), radix) * radix >= 0) by (nonlinear_arith)
            requires
                numeral_value(s.drop_last(), radix) >= 0,
                radix > 0,
        ;
    }
}

/// A number that was read is in range.
pub proof fn lemma_parsed_in_range(s: Seq<char>, radix: int, max: int)
    requires
        radix > 0,
    ensures
        parsed_number(s, radix, max) matches Some(n) ==> 0 <= n <= max,
{
    let d = unsigned_digits(s);
    if all_digits(d, radix) {
        lemma_numeral_nonnegative(d, radix);
    }
}

/// Further digits never make a numeral smaller.
proof fn lemma_numeral_grows(s: Seq<char>, n: int, radix: int)
    requires
        all_digits(s, radix),
        radix > 0,
        0 <= n <= s.len(),
    ensures
        0 <= numeral_value(s.take(n), radix) <= numeral_value(s, radix),
    decreases s.len() - n,
{
    assert forall|i: int| 0 <= i < n implies is_digit(#[trigger] s.take(n)[i], radix) by {
        assert(s.take(n)[i] == s[i]);
    }
    lemma_numeral_nonnegative(s.take(n), radix);
    if n < s.len() {
        lemma_numeral_grows(s, n + 1, radix);
        let t = s.take(n + 1);
        assert(t.drop_last() =~= s.take(n));
        assert(is_digit(s[n], radix));
        assert(numeral_value(s.take(n), radix) <= numeral_value(s.take(n), radix) * radix)
            by (nonlinear_arith)
            requires
                numeral_value(s.take(n), radix) >= 0,
                radix > 0,
        ;
    } else {
        assert(s.take(n) =~= s);
    }
}

/// The unsigned number that `s` writes in `radix`, if it is at most `max`.
pub fn parse_number(s: &str, radix: u64, max: u64) -> (r: Option<u64>)
    requires
        2 <= radix <= 36,
    ensures
        r is Some <==> parsed_number(s@, radix as int, max as int) is Some,
        r matches Some(n) ==> parsed_number(s@, radix as int, max as int) == Some(n as int) && n
            <= max,
{
    let cs = chars_of(s);
    let start: usize = if cs.len() > 0 && cs[0] == '+' {
        1
    } else {
        0
    };
    let ghost d = unsigned_digits(s@);
    assert(d =~= cs@.skip(start as int));
    if cs.len() == start {
        return None;
    }
    let mut i: usize = start;
    let mut n: u64 = 0;
    while i < cs.len()
        invariant
            2 <= radix <= 36,
            start <= i <= cs@.len(),
            d == cs@.skip(start as int),
            d == unsigned_digits(s@),
            d.len() > 0,
            all_digits(d.take(i - start), radix as int),
            n == numeral_value(d.take(i - start), radix as int),
            n <= max,
        decreases cs@.len() - i,
    {
        let ghost k = i - start;
        assert(d[k] == cs@[i as int]);
        assert(d.take(k + 1).drop_last() =~= d.take(k));
        match digit_value(cs[i]) {
            Some(v) => {
                if v >= radix {
                    assert(!is_digit(d[k], radix as int));
                    return None;
                }
                assert(all_digits(d.take(k + 1), radix as int));
                assert(numeral_value(d.take(k + 1), radix as int) == n * radix + v);
                let scaled = n.checked_mul(radix);
                let sum = match scaled {
                    Some(m) => m.checked_add(v),
                    None => None,
                };
                match sum {
                    Some(m) if m <= max => {
                        n = m;
                    },
                    _ => {
                        proof {
                            if all_digits(d, radix as int) {
                                lemma_numeral_grows(d, k + 1, radix as int);
                            }
                        }
                        return None;
                    },
                }
            },
            None => {
                assert(!is_digit(d[k], radix as int));
                return None;
            },
        }
        i = i + 1;
    }
    assert(d.take(i - start) =~= d);
    Some(n)
}

/// The order of text: by the first character in which two texts differ, and a
/// text before its own extensions.
pub open spec fn text_le(a: Seq<char>, b: Seq<char>) -> bool
    decreases a.len(),
{
    if a.len() == 0 {
        true
    } else if b.len() == 0 {
        false
    } else if a[0] == b[0] {
        text_le(a.drop_first(), b.drop_first())
    } else {
        (a[0] as u32) < (b[0] as u32)
    }
}

/// The maximal runs of characters that are not white space, in order.
pub open spec fn words_of(s: Seq<char>) -> Seq<Seq<char>>
    decreases s.len(), 1nat,
{
    if s.len() == 0 {
        Seq::empty()
    } else if is_white(s[0]) {
        words_of(s.drop_first())
    } else {
        let n = word_len(s);
        if 0 < n <= s.len() {
            seq![s.take(n)] + words_of(s.skip(n))
        } else {
            Seq::empty()
        }
    }
}

/// How many characters come before the first white space.
pub open spec fn word_len(s: Seq<char>) -> int
    decreases s.len(), 0nat,
{
    if s.len() == 0 || is_white(s[0]) {
        0
    } else {
        1 + word_len(s.drop_first())
    }
}

/// How many characters come before the first line feed.
pub open spec fn line_len(s: Seq<char>) -> int
    decreases s.len(),
{
    if s.len() == 0 || s[0] == '\n' {
        0
    } else {
        1 + line_len(s.drop_first())
    }
}

/// The lines of `s`: each ends at a line feed, which a carriage return may
/// precede, or at the end of `s`; neither mark is part of the line.
pub open spec fn lines_of(s: Seq<char>) -> Seq<Seq<char>>
    decreases s.len(),
{
    if s.len() == 0 {
        Seq::empty()
    } else {
        let n = line_len(s);
        if 0 <= n < s.len() {
            let line = s.take(n);
            let bare = if n > 0 && line.last() == '\r' {
                line.drop_last()
            } else {
                line
            };
            seq![bare] + lines_of(s.skip(n + 1))
        } else {
            seq![s]
        }
    }
}

fn digit_str(d: u64) -> (r: &'static str)
    requires
        d < 10,
    ensures
        r@ == seq![digit_char(d as int)],
{
    proof {
        reveal_strlit("0");
        reveal_strlit("1");
        reveal_strlit("2");
        reveal_strlit("3");
        reveal_strlit("4");
        reveal_strlit("5");
        reveal_strlit("6");
        reveal_strlit("7");
        reveal_strlit("8");
        reveal_strlit("9");
    }
    match d {
        0 => "0",
        1 => "1",
        2 => "2",
        3 => "3",
        4 => "4",
        5 => "5",
        6 => "6",
        7 => "7",
        8 => "8",
        _ => "9",
    }
}

/// The decimal numeral of `n`.
pub fn number(n: u64) -> (r: String)
    ensures
        r@ == decimal(n as nat),
    decreases n,
{
    if n < 10 {
        digit_str(n).to_owned()
    } else {
        let mut r = number(n / 10);
        r.append(digit_str(n % 10));
        assert(r@ =~= decimal((n / 10) as nat).push(digit_char((n % 10) as int)));
        r
    }
}

/// Whether two texts are the same.
pub fn same(a: &str, b: &str) -> (r: bool)
    ensures
        r == (a@ == b@),
{
    a.to_owned() == b.to_owned()
}

pub fn strip_prefix<'a>(s: &'a str, p: &str) -> (r: Option<&'a str>)
    ensures
        match r {
            Some(t) => without_prefix(s@, p@) == Some(t@),
            None => without_prefix(s@, p@) is None,
        },
{
    let n: usize = s.unicode_len();
    let m: usize = p.unicode_len();
    if m <= n && same(s.substring_char(0, m), p) {
        assert(s@.subrange(0, m as int) =~= s@.take(m as int));
        assert(s@.subrange(m as int, n as int) =~= s@.skip(m as int));
        Some(s.substring_char(m, n))
    } else {
        assert(m <= n ==> s@.subrange(0, m as int) =~= s@.take(m as int));
        None
    }
}

pub fn strip_suffix<'a>(s: &'a str, p: &str) -> (r: Option<&'a str>)
    ensures
        match r {
            Some(t) => without_suffix(s@, p@) == Some(t@),
            None => without_suffix(s@, p@) is None,
        },
{
    let n: usize = s.unicode_len();
    let m: usize = p.unicode_len();
    if m <= n && same(s.substring_char(n - m, n), p) {
        assert(s@.subrange(n - m, n as int) =~= s@.skip(n - m));
        assert(s@.subrange(0, n - m) =~= s@.take(n - m));
        Some(s.substring_char(0, n - m))
    } else {
        assert(m <= n ==> s@.subrange(n - m, n as int) =~= s@.skip(n - m));
        None
    }
}

proof fn lemma_split_at_last(s: Seq<char>, c: char, i: int)
    requires
        -1 <= i < s.len(),
        i >= 0 ==> s[i] == c,
        forall|j: int| i < j < s.len() ==> s[j] != c,
    ensures
        i < 0 ==> split_at_last(s, c) is None,
        i >= 0 ==> split_at_last(s, c) == Some((s.take(i), s.skip(i + 1))),
    decreases s.len(),
{
    if s.len() > 0 {
        if i == s.len() - 1 {
            assert(s.take(i) =~= s.drop_last());
            assert(s.skip(i + 1) =~= Seq::<char>::empty());
        } else {
            lemma_split_at_last(s.drop_last(), c, i);
            if i >= 0 {
                assert(s.drop_last().take(i) =~= s.take(i));
                assert(s.drop_last().skip(i + 1).push(s.last()) =~= s.skip(i + 1));
            }
        }
    }
}

/// `s` split at the last occurrence of `c`.
pub fn rsplit_once<'a>(s: &'a str, c: char) -> (r: Option<(&'a str, &'a str)>)
    ensures
        match r {
            Some(t) => split_at_last(s@, c) == Some((t.0@, t.1@)),
            None => split_at_last(s@, c) is None,
        },
{
    let cs = chars_of(s);
    let mut i: usize = cs.len();
    while i > 0
        invariant
            i <= cs@.len(),
            cs@ == s@,
            forall|j: int| i <= j < cs@.len() ==> cs@[j] != c,
        decreases i,
    {
        if cs[i - 1] == c {
            proof {
                lemma_split_at_last(s@, c, i - 1);
                assert(s@.subrange(0, i - 1) =~= s@.take(i - 1));
                assert(s@.subrange(i as int, s@.len() as int) =~= s@.skip(i as int));
            }
            return Some((s.substring_char(0, i - 1), s.substring_char(i, cs.len())));
        }
        i = i - 1;
    }
    proof {
        lemma_split_at_last(s@, c, -1);
    }
    None
}

fn lower_of(c: char) -> (r: u32)
    ensures
        r == lower(c) as u32,
{
    let u: u32 = c as u32;
    if 0x41 <= u && u <= 0x5a {
        u + 0x20
    } else {
        u
    }
}

/// Equality up to the case of the letters `A` to `Z`.
pub fn equal_ignoring_case(a: &str, b: &str) -> (r: bool)
    ensures
        r == same_ignoring_case(a@, b@),
{
    let x = chars_of(a);
    let y = chars_of(b);
    if x.len() != y.len() {
        return false;
    }
    let mut i: usize = 0;
    while i < x.len()
        invariant
            i <= x@.len(),
            x@.len() == y@.len(),
            x@ == a@,
            y@ == b@,
            forall|j: int| 0 <= j < i ==> lower(#[trigger] x@[j]) == lower(y@[j]),
        decreases x@.len() - i,
    {
        if lower_of(x[i]) != lower_of(y[i]) {
            assert(lower(a@[i as int]) != lower(b@[i as int]));
            return false;
        }
        i = i + 1;
    }
    true
}

/// Whether `a` comes before `b` or is the same text.
pub fn ordered(a: &str, b: &str) -> (r: bool)
    ensures
        r == text_le(a@, b@),
{
    let x = chars_of(a);
    let y = chars_of(b);
    let mut i: usize = 0;
    assert(a@.skip(0) =~= a@);
    assert(b@.skip(0) =~= b@);
    while i < x.len() && i < y.len()
        invariant
            i <= x@.len(),
            i <= y@.len(),
            x@ == a@,
            y@ == b@,
            text_le(a@, b@) == text_le(a@.skip(i as int), b@.skip(i as int)),
        decreases x@.len() - i,
    {
        let u: u32 = x[i] as u32;
        let v: u32 = y[i] as u32;
        assert(a@.skip(i as int)[0] == a@[i as int]);
        assert(b@.skip(i as int)[0] == b@[i as int]);
        if u != v {
            return u < v;
        }
        proof {
            vstd::utf8::char_u32_cast(a@[i as int], u);
            vstd::utf8::char_u32_cast(b@[i as int], v);
        }
        assert(a@.skip(i as int).drop_first() =~= a@.skip(i + 1));
        assert(b@.skip(i as int).drop_first() =~= b@.skip(i + 1));
        i = i + 1;
    }
    i == x.len()
}

pub proof fn lemma_text_le_total(a: Seq<char>, b: Seq<char>)
    ensures
        text_le(a, b) || text_le(b, a),
        text_le(a, b) && text_le(b, a) ==> a == b,
        text_le(a, a),
    decreases a.len(),
{
    if a.len() > 0 && b.len() > 0 {
        lemma_text_le_total(a.drop_first(), b.drop_first());
        vstd::utf8::char_u32_cast(a[0], a[0] as u32);
        vstd::utf8::char_u32_cast(b[0], b[0] as u32);
        if a[0] == b[0] && a.drop_first() == b.drop_first() {
            assert(a =~= seq![a[0]] + a.drop_first());
            assert(b =~= seq![b[0]] + b.drop_first());
        }
    } else if a.len() == 0 && b.len() == 0 {
        assert(a =~= b);
    } else if a.len() > 0 {
        lemma_text_le_total(a.drop_first(), a.drop_first());
    }
}

pub proof fn lemma_text_le_transitive(a: Seq<char>, b: Seq<char>, c: Seq<char>)
    requires
        text_le(a, b),
        text_le(b, c),
    ensures
        text_le(a, c),
    decreases a.len(),
{
    if a.len() > 0 && a[0] == b[0] && b[0] == c[0] {
        lemma_text_le_transitive(a.drop_first(), b.drop_first(), c.drop_first());
    }
}

proof fn lemma_word_len(s: Seq<char>, n: int)
    requires
        0 <= n <= s.len(),
        forall|i: int| 0 <= i < n ==> !is_white(#[trigger] s[i]),
        n < s.len() ==> is_white(s[n]),
    ensures
        word_len(s) == n,
    decreases s.len(),
{
    if n > 0 {
        assert(!is_white(s[0]));
        lemma_word_len(s.drop_first(), n - 1);
    }
}

/// The words of `s`, split at white space.
pub fn words(s: &str) -> (r: Vec<String>)
    ensures
        texts(r@) == words_of(s@),
{
    let cs = chars_of(s);
    let mut r: Vec<String> = Vec::new();
    let mut i: usize = 0;
    assert(s@.skip(0) =~= s@);
    assert(texts(r@) =~= Seq::empty());
    assert(Seq::<Seq<char>>::empty() + words_of(s@) =~= words_of(s@));
    while i < cs.len()
        invariant
            i <= cs@.len(),
            cs@ == s@,
            words_of(s@) == texts(r@) + words_of(s@.skip(i as int)),
        decreases cs@.len() - i,
    {
        let ghost t = s@.skip(i as int);
        assert(t[0] == cs@[i as int]);
        if white(cs[i]) {
            assert(t.drop_first() =~= s@.skip(i + 1));
            i = i + 1;
        } else {
            let start: usize = i;
            while i < cs.len() && !white(cs[i])
                invariant
                    start <= i <= cs@.len(),
                    forall|j: int| start <= j < i ==> !is_white(#[trigger] cs@[j]),
                    start < cs@.len() && !is_white(cs@[start as int]),
                decreases cs@.len() - i,
            {
                i = i + 1;
            }
            let ghost before = texts(r@);
            r.push(s.substring_char(start, i).to_owned());
            proof {
                let n = i - start;
                assert forall|j: int| 0 <= j < n implies !is_white(#[trigger] t[j]) by {
                    assert(t[j] == cs@[j + start]);
                }
                lemma_word_len(t, n);
                assert(i > start);
                assert(t.take(n) =~= s@.subrange(start as int, i as int));
                assert(t.skip(n) =~= s@.skip(i as int));
                assert(texts(r@) =~= before.push(t.take(n)));
                assert(before + (seq![t.take(n)] + words_of(t.skip(n))) =~= before.push(t.take(n))
                    + words_of(t.skip(n)));
            }
        }
    }
    assert(s@.skip(i as int) =~= Seq::empty());
    assert(texts(r@) + Seq::<Seq<char>>::empty() =~= texts(r@));
    r
}

proof fn lemma_line_len(s: Seq<char>, n: int)
    requires
        0 <= n <= s.len(),
        forall|i: int| 0 <= i < n ==> #[trigger] s[i] != '\n',
        n < s.len() ==> s[n] == '\n',
    ensures
        line_len(s) == n,
    decreases s.len(),
{
    if n > 0 {
        assert(s[0] != '\n');
        lemma_line_len(s.drop_first(), n - 1);
    }
}

/// The lines of `s`.
pub fn lines(s: &str) -> (r: Vec<String>)
    ensures
        texts(r@) == lines_of(s@),
{
    let cs = chars_of(s);
    let mut r: Vec<String> = Vec::new();
    let mut i: usize = 0;
    assert(s@.skip(0) =~= s@);
    assert(texts(r@) =~= Seq::empty());
    assert(Seq::<Seq<char>>::empty() + lines_of(s@) =~= lines_of(s@));
    while i < cs.len()
        invariant
            i <= cs@.len(),
            cs@ == s@,
            lines_of(s@) == texts(r@) + lines_of(s@.skip(i as int)),
        decreases cs@.len() - i,
    {
        let ghost t = s@.skip(i as int);
        let ghost before = texts(r@);
        let start: usize = i;
        while i < cs.len() && cs[i] != '\n'
            invariant
                start <= i <= cs@.len(),
                forall|j: int| start <= j < i ==> #[trigger] cs@[j] != '\n',
            decreases cs@.len() - i,
        {
            i = i + 1;
        }
        let ghost n = i - start;
        proof {
            assert forall|j: int| 0 <= j < n implies #[trigger] t[j] != '\n' by {
                assert(t[j] == cs@[j + start]);
            }
            assert(n < t.len() ==> t[n] == cs@[i as int]);
            lemma_line_len(t, n);
        }
        if i < cs.len() {
            let end: usize = if i > start && cs[i - 1] == '\r' {
                i - 1
            } else {
                i
            };
            r.push(s.substring_char(start, end).to_owned());
            proof {
                let line = t.take(n);
                let bare = if n > 0 && line.last() == '\r' {
                    line.drop_last()
                } else {
                    line
                };
                assert(n > 0 ==> line.last() == cs@[i - 1]);
                assert(bare =~= s@.subrange(start as int, end as int));
                assert(t.skip(n + 1) =~= s@.skip(i + 1));
                assert(texts(r@) =~= before.push(bare));
                assert(before + (seq![bare] + lines_of(t.skip(n + 1))) =~= before.push(bare)
                    + lines_of(t.skip(n + 1)));
            }
            i = i + 1;
        } else {
            r.push(s.substring_char(start, i).to_owned());
            proof {
                assert(t =~= s@.subrange(start as int, i as int));
                assert(s@.skip(i as int) =~= Seq::empty());
                assert(texts(r@) =~= before.push(t));
                assert(before + seq![t] =~= before.push(t));
                assert(before.push(t) + lines_of(s@.skip(i as int)) =~= before.push(t));
            }
        }
    }
    assert(s@.skip(i as int) =~= Seq::empty());
    assert(texts(r@) + Seq::<Seq<char>>::empty() =~= texts(r@));
    r
}

/// A decimal numeral has only digits, at least one, and writes its number.
pub proof fn lemma_decimal_digits(n: nat)
    ensures
        decimal(n).len() > 0,
        all_digits(decimal(n), 10),
        numeral_value(decimal(n), 10) == n,
    decreases n,
{
    if n < 10 {
        let s = decimal(n);
        assert(s.drop_last() =~= Seq::empty());
        assert(s.last() == digit_char(n as int));
        assert(numeral_value(s.drop_last(), 10) == 0);
        assert(s[0] == digit_char(n as int));
    } else {
        lemma_decimal_digits(n / 10);
        let s = decimal(n);
        assert(s.drop_last() =~= decimal(n / 10));
        assert(digit_of(s.last()) == n % 10);
        assert forall|i: int| 0 <= i < s.len() implies is_digit(#[trigger] s[i], 10) by {
            if i < s.len() - 1 {
                assert(s[i] == decimal(n / 10)[i]);
            }
        }
    }
}

/// Reading back a decimal numeral gives the number it was written for.
pub proof fn law_number_round_trip(n: nat, max: nat)
    requires
        n <= max,
    ensures
        parsed_number(decimal(n), 10, max as int) == Some(n as int),
{
    lemma_decimal_digits(n);
    assert(is_digit(decimal(n)[0], 10));
    assert(unsigned_digits(decimal(n)) == decimal(n));
}

/// A numeral starts and ends with a digit, so trimming leaves it and what
/// stands before its end alone.
pub proof fn lemma_trimmed_numeral(n: nat, rest: Seq<char>)
    ensures
        trimmed(decimal(n) + rest) == decimal(n) + trimmed(decimal(n) + rest).skip(
            decimal(n).len() as int,
        ),
        trimmed(decimal(n) + rest).len() >= decimal(n).len(),
        forall|i: int|
            decimal(n).len() <= i < trimmed(decimal(n) + rest).len() ==> (#[trigger] trimmed(
                decimal(n) + rest,
            )[i]) == rest[i - decimal(n).len()] && i - decimal(n).len() < rest.len(),
        rest.len() == 0 ==> trimmed(decimal(n) + rest) == decimal(n),
    decreases rest.len(),
{
    let d = decimal(n);
    let s = d + rest;
    lemma_decimal_digits(n);
    assert(is_digit(d[0], 10));
    assert(s[0] == d[0]);
    assert(trimmed_start(s) == s);
    if rest.len() == 0 {
        assert(s =~= d);
        assert(is_digit(d[d.len() - 1], 10));
        assert(trimmed_end(s) == s);
    } else if is_white(s.last()) {
        lemma_trimmed_numeral(n, rest.drop_last());
        assert(s.drop_last() =~= d + rest.drop_last());
        assert(trimmed_start(s.drop_last()) == s.drop_last());
        assert(trimmed(s) == trimmed(d + rest.drop_last()));
        assert forall|i: int| d.len() <= i < trimmed(s).len() implies (#[trigger] trimmed(s)[i])
            == rest[i - d.len()] && i - d.len() < rest.len() by {
            assert(trimmed(d + rest.drop_last())[i] == rest.drop_last()[i - d.len()]);
        }
    } else {
        assert(trimmed(s) == s);
    }
    assert(trimmed(s) =~= d + trimmed(s).skip(d.len() as int));
}

} // verus!
