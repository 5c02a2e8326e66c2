//! Text as sequences of characters: the small vocabulary of operations that the
//! rest of the library is specified and written in.
use vstd::prelude::*;

verus! {

/// `String::push`: appends one character at the end.
pub assume_specification[ String::push ](s: &mut String, c: char)
    ensures
        final(s)@ == old(s)@.push(c),
;

/// The characters of Unicode's `White_Space` property.
pub open spec fn is_white(c: char) -> bool {
    ||| '\u{9}' <= c <= '\u{d}'
    ||| c == ' '
    ||| c == '\u{85}'
    ||| c == '\u{a0}'
    ||| c == '\u{1680}'
    ||| '\u{2000}' <= c <= '\u{200a}'
    ||| c == '\u{2028}'
    ||| c == '\u{2029}'
    ||| c == '\u{202f}'
    ||| c == '\u{205f}'
    ||| c == '\u{3000}'
}

/// `s` without the white space it begins with.
pub open spec fn trim_start(s: Seq<char>) -> Seq<char>
    decreases s.len(),
{
    if s.len() > 0 && is_white(s.first()) {
        trim_start(s.drop_first())
    } else {
        s
    }
}

/// `s` without the white space it ends with.
pub open spec fn trim_end(s: Seq<char>) -> Seq<char>
    decreases s.len(),
{
    if s.len() > 0 && is_white(s.last()) {
        trim_end(s.drop_last())
    } else {
        s
    }
}

/// `s` without the white space around it.
pub open spec fn trimmed(s: Seq<char>) -> Seq<char> {
    trim_end(trim_start(s))
}

/// Whether `c` is white space.
pub fn white(c: char) -> (r: bool)
    ensures
        r == is_white(c),
{
    ('\u{9}' <= c && c <= '\u{d}') || c == ' ' || c == '\u{85}' || c == '\u{a0}' || c == '\u{1680}'
        || ('\u{2000}' <= c && c <= '\u{200a}') || c == '\u{2028}' || c == '\u{2029}'
        || c == '\u{202f}' || c == '\u{205f}' || c == '\u{3000}'
}

/// The characters of `s`.
pub fn chars_of(s: &str) -> (r: Vec<char>)
    ensures
        r@ == s@,
{
    let mut out: Vec<char> = Vec::new();
    for c in it: s.chars()
        invariant
            out@ == it.seq().take(it.index() as int),
            it.seq() == s@,
    {
        out.push(c);
    }
    out
}

/// The string made of the characters `cs`.
pub fn string_of(cs: &[char]) -> (r: String)
    ensures
        r@ == cs@,
{
    let mut out = String::new();
    let mut i: usize = 0;
    while i < cs.len()
        invariant
            i <= cs.len(),
            out@ == cs@.take(i as int),
        decreases cs.len() - i,
    {
        out.push(cs[i]);
        i = i + 1;
    }
    assert(cs@.take(i as int) == cs@);
    out
}

/// The slice of `s` without the white space around it.
pub fn trim(s: &[char]) -> (r: &[char])
    ensures
        r@ == trimmed(s@),
{
    let mut a: usize = 0;
    assert(s@.subrange(0, s@.len() as int) == s@);
    while a < s.len() && white(s[a])
        invariant
            a <= s.len(),
            trim_start(s@) == trim_start(s@.subrange(a as int, s@.len() as int)),
        decreases s.len() - a,
    {
        assert(s@.subrange(a as int, s@.len() as int).drop_first() == s@.subrange(
            a + 1,
            s@.len() as int,
        ));
        a = a + 1;
    }
    let mut b: usize = s.len();
    while a < b && white(s[b - 1])
        invariant
            a <= b <= s.len(),
            trimmed(s@) == trim_end(s@.subrange(a as int, b as int)),
        decreases b,
    {
        assert(s@.subrange(a as int, b as int).drop_last() == s@.subrange(a as int, b - 1));
        b = b - 1;
    }
    &s[a..b]
}

/// The index of the first `c` in `s`, or the length of `s` if there is none.
pub open spec fn find(s: Seq<char>, c: char) -> int
    decreases s.len(),
{
    if s.len() == 0 || s.first() == c {
        0
    } else {
        1 + find(s.drop_first(), c)
    }
}

/// What `find` promises: everything before the index differs from `c`, and the
/// character at the index, if there is one, is `c`.
pub proof fn lemma_find(s: Seq<char>, c: char)
    ensures
        0 <= find(s, c) <= s.len(),
        forall|j: int| 0 <= j < find(s, c) ==> s[j] != c,
        find(s, c) < s.len() ==> s[find(s, c)] == c,
    decreases s.len(),
{
    if s.len() > 0 && s.first() != c {
        lemma_find(s.drop_first(), c);
        assert forall|j: int| 0 <= j < find(s, c) implies s[j] != c by {
            if j > 0 {
                assert(s.drop_first()[j - 1] == s[j]);
            }
        }
    }
}

/// The only index with those properties is the one `find` gives.
pub proof fn lemma_find_unique(s: Seq<char>, c: char, n: int)
    requires
        0 <= n <= s.len(),
        forall|j: int| 0 <= j < n ==> s[j] != c,
        n < s.len() ==> s[n] == c,
    ensures
        find(s, c) == n,
{
    lemma_find(s, c);
    let f = find(s, c);
    if f < n {
        assert(s[f] != c);
    } else if n < f {
        assert(s[n] != c);
    }
}

/// The index of the first `c` in `s`, or the length of `s`.
pub fn index_of(s: &[char], c: char) -> (r: usize)
    ensures
        r == find(s@, c),
        r <= s.len(),
{
    let mut i: usize = 0;
    while i < s.len() && s[i] != c
        invariant
            i <= s.len(),
            forall|j: int| 0 <= j < i ==> s@[j] != c,
        decreases s.len() - i,
    {
        i = i + 1;
    }
    proof {
        lemma_find_unique(s@, c, i as int);
    }
    i
}

/// Whether `s` begins with `p`.
pub open spec fn starts_with(s: Seq<char>, p: Seq<char>) -> bool {
    s.len() >= p.len() && s.take(p.len() as int) == p
}

/// Whether `s` begins with `p`.
pub fn has_prefix(s: &[char], p: &[char]) -> (r: bool)
    ensures
        r == starts_with(s@, p@),
{
    if s.len() < p.len() {
        return false;
    }
    let mut i: usize = 0;
    while i < p.len()
        invariant
            i <= p.len() <= s.len(),
            forall|j: int| 0 <= j < i ==> s@[j] == p@[j],
        decreases p.len() - i,
    {
        if s[i] != p[i] {
            assert(s@.take(p@.len() as int)[i as int] != p@[i as int]);
            return false;
        }
        i = i + 1;
    }
    assert(s@.take(p@.len() as int) == p@);
    true
}

/// Trimming never changes what stands between the outermost characters that are
/// not white space.
pub proof fn lemma_trim_start(s: Seq<char>)
    ensures
        trim_start(s).len() <= s.len(),
        trim_start(s) == s.skip(s.len() - trim_start(s).len()),
        trim_start(s).len() > 0 ==> !is_white(trim_start(s).first()),
        forall|j: int| 0 <= j < s.len() - trim_start(s).len() ==> is_white(s[j]),
    decreases s.len(),
{
    if s.len() > 0 && is_white(s.first()) {
        let t = s.drop_first();
        lemma_trim_start(t);
        assert(trim_start(s) == s.skip(s.len() - trim_start(s).len()));
        assert forall|j: int| 0 <= j < s.len() - trim_start(s).len() implies is_white(s[j]) by {
            if j > 0 {
                assert(t[j - 1] == s[j]);
            }
        }
    } else {
        assert(s.skip(0) == s);
    }
}

/// The mirror image of `lemma_trim_start`.
pub proof fn lemma_trim_end(s: Seq<char>)
    ensures
        trim_end(s).len() <= s.len(),
        trim_end(s) == s.take(trim_end(s).len() as int),
        trim_end(s).len() > 0 ==> !is_white(trim_end(s).last()),
        forall|j: int| trim_end(s).len() <= j < s.len() ==> is_white(s[j]),
    decreases s.len(),
{
    if s.len() > 0 && is_white(s.last()) {
        let t = s.drop_last();
        lemma_trim_end(t);
        assert(trim_end(s) == s.take(trim_end(s).len() as int));
        assert forall|j: int| trim_end(s).len() <= j < s.len() implies is_white(s[j]) by {
            if j < t.len() {
                assert(t[j] == s[j]);
            }
        }
    } else {
        assert(s.take(s.len() as int) == s);
    }
}

/// A trimmed text neither begins nor ends with white space, and is a stretch of
/// the text it was cut from.
pub proof fn lemma_trimmed(s: Seq<char>)
    ensures
        trimmed(s).len() > 0 ==> !is_white(trimmed(s).first()) && !is_white(trimmed(s).last()),
        ({
            let a = s.len() - trim_start(s).len();
            0 <= a && a + trimmed(s).len() <= s.len() && trimmed(s) == s.subrange(
                a,
                a + trimmed(s).len(),
            )
        }),
{
    lemma_trim_start(s);
    lemma_trim_end(trim_start(s));
    let a = s.len() - trim_start(s).len();
    assert(trimmed(s) == s.subrange(a, a + trimmed(s).len()));
}

/// A text that neither begins nor ends with white space is its own trimming.
pub proof fn lemma_trimmed_fixed(s: Seq<char>)
    requires
        s.len() > 0 ==> !is_white(s.first()) && !is_white(s.last()),
    ensures
        trimmed(s) == s,
{
}

/// `s` without the `c`s it ends with.
pub open spec fn strip_tail(s: Seq<char>, c: char) -> Seq<char>
    decreases s.len(),
{
    if s.len() > 0 && s.last() == c {
        strip_tail(s.drop_last(), c)
    } else {
        s
    }
}

/// The slice of `s` without the `c`s it ends with.
pub fn trim_tail(s: &[char], c: char) -> (r: &[char])
    ensures
        r@ == strip_tail(s@, c),
{
    let mut n: usize = s.len();
    assert(s@.subrange(0, n as int) == s@);
    while n > 0 && s[n - 1] == c
        invariant
            n <= s.len(),
            strip_tail(s@.subrange(0, n as int), c) == strip_tail(s@, c),
        decreases n,
    {
        assert(s@.subrange(0, n as int).drop_last() == s@.subrange(0, n - 1));
        n = n - 1;
    }
    &s[0..n]
}

/// The decimal digit for `d`.
pub open spec fn digit(d: nat) -> char {
    (('0' as int) + d) as char
}

/// `n` in decimal notation.
pub open spec fn decimal(n: nat) -> Seq<char>
    decreases n,
{
    if n < 10 {
        seq![digit(n)]
    } else {
        decimal(n / 10).push(digit(n % 10))
    }
}

fn digit_char(d: u32) -> (r: char)
    requires
        d < 10,
    ensures
        r == digit(d as nat),
{
    let b: u8 = 48 + d as u8;
    b as char
}

/// `n` in decimal notation.
pub fn decimal_of(n: u32) -> (r: String)
    ensures
        r@ == decimal(n as nat),
    decreases n,
{
    if n < 10 {
        let mut out = String::new();
        out.push(digit_char(n));
        assert(out@ == decimal(n as nat));
        out
    } else {
        let mut out = decimal_of(n / 10);
        out.push(digit_char(n % 10));
        out
    }
}

/// Whether two texts are the same.
pub fn same(a: &str, b: &str) -> (r: bool)
    ensures
        r == (a@ == b@),
{
    let ca = chars_of(a);
    let cb = chars_of(b);
    if ca.len() != cb.len() {
        return false;
    }
    let r = has_prefix(ca.as_slice(), cb.as_slice());
    assert(a@.take(b@.len() as int) == a@);
    r
}

/// The text `s` without the white space around it.
pub fn trim_str(s: &str) -> (r: String)
    ensures
        r@ == trimmed(s@),
{
    let cs = chars_of(s);
    string_of(trim(cs.as_slice()))
}

/// White space in front does not matter to what is left without it.
pub proof fn lemma_trim_start_skips(a: Seq<char>, rest: Seq<char>)
    requires
        forall|i: int| 0 <= i < a.len() ==> is_white(#[trigger] a[i]),
    ensures
        trim_start(a + rest) == trim_start(rest),
    decreases a.len(),
{
    if a.len() == 0 {
        assert(a + rest == rest);
    } else {
        let d = a.drop_first();
        assert((a + rest).drop_first() == d + rest);
        assert forall|i: int| 0 <= i < d.len() implies is_white(#[trigger] d[i]) by {
            assert(d[i] == a[i + 1]);
        }
        assert(is_white(a[0]));
        lemma_trim_start_skips(d, rest);
    }
}

/// A text that ends with something else than white space keeps all of itself,
/// whatever follows.
pub proof fn lemma_trim_end_keeps(a: Seq<char>, b: Seq<char>)
    requires
        a.len() > 0,
        !is_white(a.last()),
    ensures
        trim_end(a + b) == a + trim_end(b),
    decreases b.len(),
{
    if b.len() == 0 {
        assert(a + b == a);
        assert(a + trim_end(b) == a);
    } else {
        assert((a + b).drop_last() == a + b.drop_last());
        lemma_trim_end_keeps(a, b.drop_last());
    }
}

proof fn lemma_trim_end_white(b: Seq<char>)
    requires
        forall|i: int| 0 <= i < b.len() ==> is_white(#[trigger] b[i]),
    ensures
        trim_end(b).len() == 0,
    decreases b.len(),
{
    if b.len() > 0 {
        let d = b.drop_last();
        assert forall|i: int| 0 <= i < d.len() implies is_white(#[trigger] d[i]) by {
            assert(d[i] == b[i]);
        }
        assert(is_white(b[b.len() - 1]));
        lemma_trim_end_white(d);
    }
}

/// Trimming takes off the white space at both ends, all of it, and nothing else.
pub proof fn law_trimming_takes_white_space_off(a: Seq<char>, m: Seq<char>, b: Seq<char>)
    requires
        forall|i: int| 0 <= i < a.len() ==> is_white(#[trigger] a[i]),
        forall|i: int| 0 <= i < b.len() ==> is_white(#[trigger] b[i]),
        m.len() > 0 ==> !is_white(m.first()) && !is_white(m.last()),
    ensures
        trimmed(a + m + b) == m,
{
    assert(a + m + b == a + (m + b));
    lemma_trim_start_skips(a, m + b);
    if m.len() > 0 {
        assert((m + b).first() == m.first());
        assert(trim_start(m + b) == m + b);
        lemma_trim_end_keeps(m, b);
        lemma_trim_end_white(b);
        assert(m + trim_end(b) == m);
    } else {
        assert(m + b == b + Seq::<char>::empty());
        lemma_trim_start_skips(b, Seq::empty());
        assert(trim_start(m + b).len() == 0);
        assert(trimmed(a + m + b) == m);
    }
}

/// A text with white space at its end trims like the text without it.
pub proof fn lemma_trimmed_of_trim_end(v: Seq<char>)
    ensures
        trimmed(trim_end(v)) == trimmed(v),
{
    lemma_trim_start(v);
    lemma_trim_end(trim_start(v));
    lemma_trim_end(v);
    let t = trim_end(v);
    let k = v.len() - trim_start(v).len();
    let a = v.take(k);
    let m = trimmed(v);
    assert(m == v.subrange(k, k + m.len()));
    assert forall|i: int| 0 <= i < a.len() implies is_white(#[trigger] a[i]) by {}
    if m.len() > 0 {
        let b = v.skip(k + m.len());
        assert forall|i: int| 0 <= i < b.len() implies is_white(#[trigger] b[i]) by {
            assert(b[i] == trim_start(v)[m.len() + i]);
        }
        assert(v == (a + m) + b);
        lemma_trim_end_keeps(a + m, b);
        lemma_trim_end_white(b);
        assert(t == a + m + Seq::<char>::empty());
        law_trimming_takes_white_space_off(a, m, Seq::empty());
    } else {
        assert forall|i: int| 0 <= i < v.len() implies is_white(#[trigger] v[i]) by {
            if i >= k {
                assert(v[i] == trim_start(v)[i - k]);
            }
        }
        lemma_trim_end_white(v);
    }
}

/// Every repetition of `c` at the end goes, and nothing else.
pub proof fn law_tail_goes(s: Seq<char>, n: nat, c: char)
    requires
        s.len() > 0 ==> s.last() != c,
    ensures
        strip_tail(s + Seq::new(n, |i: int| c), c) == s,
    decreases n,
{
    let t = s + Seq::new(n, |i: int| c);
    if n > 0 {
        assert(t.last() == c);
        assert(t.drop_last() == s + Seq::new((n - 1) as nat, |i: int| c));
        law_tail_goes(s, (n - 1) as nat, c);
    } else {
        assert(t == s);
    }
}

/// The number that a text of decimal digits stands for.
pub open spec fn number(digits: Seq<char>) -> int
    decreases digits.len(),
{
    if digits.len() == 0 {
        0
    } else {
        10 * number(digits.drop_last()) + (digits.last() as int - '0' as int)
    }
}

/// The decimal notation of a number has only digits, no needless zero in front, and
/// stands for the number.
pub proof fn law_decimal_stands_for_number(n: nat)
    ensures
        number(decimal(n)) == n,
        decimal(n).len() > 0,
        forall|i: int| 0 <= i < decimal(n).len() ==> '0' <= #[trigger] decimal(n)[i] <= '9',
        decimal(n).first() == '0' ==> n == 0 && decimal(n).len() == 1,
    decreases n,
{
    if n < 10 {
        reveal_with_fuel(number, 2);
        assert(decimal(n).drop_last().len() == 0);
        assert(decimal(n).last() == digit(n));
    } else {
        law_decimal_stands_for_number(n / 10);
        assert(decimal(n).drop_last() == decimal(n / 10));
        assert(decimal(n).last() == digit(n % 10));
        assert(decimal(n).first() == decimal(n / 10).first());
    }
}

/// A text begins with `p` exactly if it is `p` and something behind it.
pub proof fn law_prefix(s: Seq<char>, p: Seq<char>, rest: Seq<char>)
    ensures
        starts_with(p + rest, p),
        starts_with(s, p) ==> s == p + s.skip(p.len() as int),
{
    assert((p + rest).take(p.len() as int) == p);
    if starts_with(s, p) {
        assert(s == s.take(p.len() as int) + s.skip(p.len() as int));
    }
}

/// White space is what Unicode calls so: twenty-five characters and no other.
pub proof fn law_white_space(c: char)
    ensures
        is_white(c) <==> seq![
            0x9u32, 0xa, 0xb, 0xc, 0xd, 0x20, 0x85, 0xa0, 0x1680, 0x2000, 0x2001, 0x2002, 0x2003,
            0x2004, 0x2005, 0x2006, 0x2007, 0x2008, 0x2009, 0x200a, 0x2028, 0x2029, 0x202f, 0x205f,
            0x3000,
        ].contains(c as u32),
{
    let all = seq![
        0x9u32, 0xa, 0xb, 0xc, 0xd, 0x20, 0x85, 0xa0, 0x1680, 0x2000, 0x2001, 0x2002, 0x2003,
        0x2004, 0x2005, 0x2006, 0x2007, 0x2008, 0x2009, 0x200a, 0x2028, 0x2029, 0x202f, 0x205f,
        0x3000,
    ];
    let n = c as u32;
    if is_white(c) {
        let k: int = if n <= 0xd {
            n - 9
        } else if n == 0x20 {
            5
        } else if n == 0x85 {
            6
        } else if n == 0xa0 {
            7
        } else if n == 0x1680 {
            8
        } else if n <= 0x200a {
            9 + n - 0x2000
        } else if n == 0x2028 {
            20
        } else if n == 0x2029 {
            21
        } else if n == 0x202f {
            22
        } else if n == 0x205f {
            23
        } else {
            24
        };
        assert(0 <= k < all.len() && all[k] == n);
        assert(all.contains(n));
    }
}

/// Nothing is left of a text exactly if all of it is white space.
pub proof fn law_blank(s: Seq<char>)
    ensures
        trimmed(s).len() == 0 <==> forall|i: int| 0 <= i < s.len() ==> is_white(#[trigger] s[i]),
{
    let none = Seq::<char>::empty();
    assert(s + none + none == s);
    if forall|i: int| 0 <= i < s.len() ==> is_white(#[trigger] s[i]) {
        law_trimming_takes_white_space_off(s, none, none);
    }
    if trimmed(s).len() == 0 {
        lemma_trim_start(s);
        lemma_trim_end(trim_start(s));
        let t = trim_start(s);
        if t.len() > 0 {
            assert(is_white(t[0]));
        }
        assert forall|i: int| 0 <= i < s.len() implies is_white(#[trigger] s[i]) by {}
    }
}

} // verus!
