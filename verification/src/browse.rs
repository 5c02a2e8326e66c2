//! The file picker: listing a directory, and creating things in it.
use crate::paths;
use crate::text;
use crate::wire;
use crate::wire::{BrowseEntryOut, BrowseResultOut};
use vstd::prelude::*;

verus! {

/// What a text is in lower case, by Unicode's rules.
pub uninterp spec fn lowercased(s: Seq<char>) -> Seq<char>;

/// `str::to_lowercase`. The contract names the result, which depends on the text
/// alone.
#[verifier::external_body]
fn lowercase(s: &str) -> (r: String)
    ensures
        r@ == lowercased(s@),
{
    s.to_lowercase()
}

/// Whether `a` comes before `b` in the dictionary, or is the same: the order of
/// the first characters in which they differ decides, and a text comes after its
/// own beginnings.
pub open spec fn text_le(a: Seq<char>, b: Seq<char>) -> bool
    decreases a.len(),
{
    if a.len() == 0 {
        true
    } else if b.len() == 0 {
        false
    } else if a.first() != b.first() {
        a.first() < b.first()
    } else {
        text_le(a.drop_first(), b.drop_first())
    }
}

/// What an entry is sorted by: its kind and its name in lower case.
pub struct SortKey {
    pub dir: bool,
    pub name: Seq<char>,
}

/// Directories come first, and each kind is in dictionary order.
pub open spec fn key_le(a: SortKey, b: SortKey) -> bool {
    if a.dir != b.dir {
        a.dir
    } else {
        text_le(a.name, b.name)
    }
}

/// What an entry is sorted by.
pub open spec fn entry_key(e: wire::BrowseEntryOutView) -> SortKey {
    SortKey { dir: e.dir, name: lowercased(e.name) }
}

/// An entry together with its name in lower case.
#[derive(Debug, PartialEq, Eq)]
pub struct Keyed {
    pub lower: Vec<char>,
    pub entry: BrowseEntryOut,
}

impl Keyed {
    /// What the entry is sorted by.
    pub open spec fn key(self) -> SortKey {
        SortKey { dir: self.entry.dir, name: self.lower@ }
    }

    spec fn wf(self) -> bool {
        self.lower@ == lowercased(self.entry.name@)
    }
}

proof fn lemma_text_le_total(a: Seq<char>, b: Seq<char>)
    ensures
        text_le(a, a),
        text_le(a, b) || text_le(b, a),
        text_le(a, b) && text_le(b, a) ==> a == b,
    decreases a.len(),
{
    if a.len() > 0 {
        lemma_text_le_total(a.drop_first(), a.drop_first());
        if b.len() > 0 {
            lemma_text_le_total(a.drop_first(), b.drop_first());
            assert(a == seq![a.first()] + a.drop_first());
            assert(b == seq![b.first()] + b.drop_first());
        }
    } else {
        if b.len() == 0 {
            assert(a == b);
        }
    }
}

proof fn lemma_text_le_trans(a: Seq<char>, b: Seq<char>, c: Seq<char>)
    requires
        text_le(a, b),
        text_le(b, c),
    ensures
        text_le(a, c),
    decreases a.len(),
{
    if a.len() > 0 && b.len() > 0 && c.len() > 0 && a.first() == b.first() && b.first()
        == c.first() {
        lemma_text_le_trans(a.drop_first(), b.drop_first(), c.drop_first());
    }
}

/// The order of the listing is a total order.
pub proof fn law_key_order_is_total(a: SortKey, b: SortKey)
    ensures
        key_le(a, a),
        key_le(a, b) || key_le(b, a),
        key_le(a, b) && key_le(b, a) ==> a == b,
        forall|c: SortKey| key_le(a, b) && #[trigger] key_le(b, c) ==> key_le(a, c),
{
    lemma_text_le_total(a.name, b.name);
    assert forall|c: SortKey| key_le(a, b) && #[trigger] key_le(b, c) implies key_le(a, c) by {
        if a.dir == b.dir && b.dir == c.dir {
            lemma_text_le_trans(a.name, b.name, c.name);
        }
    }
}

fn text_before(a: &[char], b: &[char]) -> (r: bool)
    ensures
        r == text_le(a@, b@),
{
    let mut i: usize = 0;
    assert(a@.skip(0) == a@ && b@.skip(0) == b@);
    while i < a.len() && i < b.len()
        invariant
            i <= a.len(),
            i <= b.len(),
            text_le(a@, b@) == text_le(a@.skip(i as int), b@.skip(i as int)),
        decreases a.len() - i,
    {
        if a[i] != b[i] {
            return a[i] < b[i];
        }
        assert(a@.skip(i as int).drop_first() == a@.skip(i + 1));
        assert(b@.skip(i as int).drop_first() == b@.skip(i + 1));
        i = i + 1;
    }
    i == a.len()
}

fn before(a: &Keyed, b: &Keyed) -> (r: bool)
    ensures
        r == key_le(a.key(), b.key()),
{
    if a.entry.dir != b.entry.dir {
        a.entry.dir
    } else {
        text_before(a.lower.as_slice(), b.lower.as_slice())
    }
}

/// Whether every element's key is at or before the keys behind it.
pub open spec fn ordered<T>(s: Seq<T>, key: spec_fn(T) -> SortKey) -> bool {
    forall|i: int, j: int| 0 <= i <= j < s.len() ==> key_le(key(#[trigger] s[i]), key(#[trigger] s[j]))
}

/// The elements of `s` with the key `k`, in the order they have there.
pub open spec fn class<T>(s: Seq<T>, key: spec_fn(T) -> SortKey, k: SortKey) -> Seq<T>
    decreases s.len(),
{
    if s.len() == 0 {
        seq![]
    } else if key(s.last()) == k {
        class(s.drop_last(), key, k).push(s.last())
    } else {
        class(s.drop_last(), key, k)
    }
}

/// Whether `t` is `s` put in order, with elements of equal keys left in the order
/// they had.
pub open spec fn stably_ordered<T>(s: Seq<T>, t: Seq<T>, key: spec_fn(T) -> SortKey) -> bool {
    &&& ordered(t, key)
    &&& forall|k: SortKey| #[trigger] class(t, key, k) == class(s, key, k)
}

proof fn lemma_class_add<T>(a: Seq<T>, b: Seq<T>, key: spec_fn(T) -> SortKey, k: SortKey)
    ensures
        class(a + b, key, k) == class(a, key, k) + class(b, key, k),
    decreases b.len(),
{
    if b.len() == 0 {
        assert(a + b == a);
        assert(class(a, key, k) + class(b, key, k) == class(a, key, k));
    } else {
        assert((a + b).drop_last() == a + b.drop_last());
        lemma_class_add(a, b.drop_last(), key, k);
        assert(class(a + b, key, k) == class(a, key, k) + class(b, key, k));
    }
}

proof fn lemma_class_none<T>(s: Seq<T>, key: spec_fn(T) -> SortKey, k: SortKey)
    requires
        forall|i: int| 0 <= i < s.len() ==> key(#[trigger] s[i]) != k,
    ensures
        class(s, key, k).len() == 0,
    decreases s.len(),
{
    if s.len() > 0 {
        assert(key(s[s.len() - 1]) != k);
        let d = s.drop_last();
        assert forall|i: int| 0 <= i < d.len() implies key(#[trigger] d[i]) != k by {
            assert(d[i] == s[i]);
        }
        lemma_class_none(d, key, k);
    }
}

proof fn lemma_class_some<T>(s: Seq<T>, key: spec_fn(T) -> SortKey, i: int)
    requires
        0 <= i < s.len(),
    ensures
        class(s, key, key(s[i])).len() > 0,
    decreases s.len(),
{
    if i < s.len() - 1 {
        assert(s.drop_last()[i] == s[i]);
        lemma_class_some(s.drop_last(), key, i);
    }
}

proof fn lemma_class_has<T>(s: Seq<T>, key: spec_fn(T) -> SortKey, k: SortKey) -> (i: int)
    requires
        class(s, key, k).len() > 0,
    ensures
        0 <= i < s.len(),
        key(s[i]) == k,
    decreases s.len(),
{
    if key(s.last()) == k {
        s.len() - 1
    } else {
        let i = lemma_class_has(s.drop_last(), key, k);
        assert(s.drop_last()[i] == s[i]);
        i
    }
}

/// There is only one way to put a sequence in order stably.
pub proof fn law_stable_order_is_unique<T>(
    s: Seq<T>,
    t: Seq<T>,
    u: Seq<T>,
    key: spec_fn(T) -> SortKey,
)
    requires
        stably_ordered(s, t, key),
        stably_ordered(s, u, key),
    ensures
        t == u,
{
    assert forall|k: SortKey| #[trigger] class(t, key, k) == class(u, key, k) by {
        assert(class(t, key, k) == class(s, key, k));
        assert(class(u, key, k) == class(s, key, k));
    }
    lemma_same_classes(t, u, key);
}

proof fn lemma_same_classes<T>(t: Seq<T>, u: Seq<T>, key: spec_fn(T) -> SortKey)
    requires
        ordered(t, key),
        ordered(u, key),
        forall|k: SortKey| #[trigger] class(t, key, k) == class(u, key, k),
    ensures
        t == u,
    decreases t.len(),
{
    if t.len() == 0 {
        if u.len() > 0 {
            lemma_class_some(u, key, 0);
            assert(class(t, key, key(u[0])) == class(u, key, key(u[0])));
        }
        assert(t == u);
    } else {
        let kt = key(t.last());
        lemma_class_some(t, key, t.len() - 1);
        assert(class(t, key, kt) == class(u, key, kt));
        let i = lemma_class_has(u, key, kt);
        let ku = key(u.last());
        lemma_class_some(u, key, u.len() - 1);
        assert(class(t, key, ku) == class(u, key, ku));
        let j = lemma_class_has(t, key, ku);
        assert(key_le(key(u[i]), key(u[u.len() - 1])));
        assert(key_le(key(t[j]), key(t[t.len() - 1])));
        law_key_order_is_total(kt, ku);
        assert(kt == ku);
        let dt = t.drop_last();
        let du = u.drop_last();
        assert(class(t, key, kt) == class(dt, key, kt).push(t.last()));
        assert(class(u, key, kt) == class(du, key, kt).push(u.last()));
        assert(class(dt, key, kt).push(t.last()).last() == class(du, key, kt).push(
            u.last(),
        ).last());
        assert(t.last() == u.last());
        assert(class(dt, key, kt) == class(dt, key, kt).push(t.last()).drop_last());
        assert(class(du, key, kt) == class(du, key, kt).push(u.last()).drop_last());
        assert forall|k: SortKey| #[trigger] class(dt, key, k) == class(du, key, k) by {
            assert(class(t, key, k) == class(u, key, k));
        }
        assert(ordered(dt, key)) by {
            assert forall|a: int, b: int| 0 <= a <= b < dt.len() implies key_le(
                key(#[trigger] dt[a]),
                key(#[trigger] dt[b]),
            ) by {
                assert(dt[a] == t[a] && dt[b] == t[b]);
            }
        }
        assert(ordered(du, key)) by {
            assert forall|a: int, b: int| 0 <= a <= b < du.len() implies key_le(
                key(#[trigger] du[a]),
                key(#[trigger] du[b]),
            ) by {
                assert(du[a] == u[a] && du[b] == u[b]);
            }
        }
        lemma_same_classes(dt, du, key);
        assert(t == dt.push(t.last()));
        assert(u == du.push(u.last()));
    }
}

/// The key of a [`Keyed`] entry, as a function.
pub open spec fn by_key() -> spec_fn(Keyed) -> SortKey {
    |x: Keyed| x.key()
}

spec fn all_wf(s: Seq<Keyed>) -> bool {
    forall|i: int| 0 <= i < s.len() ==> (#[trigger] s[i]).wf()
}

/// Whether every key of `s` is at or before every key of `t`.
spec fn all_before(s: Seq<Keyed>, t: Seq<Keyed>) -> bool {
    forall|i: int, j: int|
        0 <= i < s.len() && 0 <= j < t.len() ==> key_le((#[trigger] s[i]).key(), (#[trigger] t[j]).key())
}

/// Moving the last element of `a` to the front of `out` keeps all classes, if its
/// key lies behind all keys of `b`.
proof fn lemma_take_first(a: Seq<Keyed>, b: Seq<Keyed>, out: Seq<Keyed>, k: SortKey)
    requires
        a.len() > 0,
        ordered(b, by_key()),
        b.len() > 0 ==> !key_le(a.last().key(), b.last().key()),
    ensures
        class(a.drop_last(), by_key(), k) + class(b, by_key(), k) + class(
            seq![a.last()] + out,
            by_key(),
            k,
        ) == class(a, by_key(), k) + class(b, by_key(), k) + class(out, by_key(), k),
{
    let x = a.last();
    let key = by_key();
    lemma_class_add(seq![x], out, key, k);
    assert(class(seq![x], key, k) == (if x.key() == k {
        seq![x]
    } else {
        seq![]
    })) by {
        reveal_with_fuel(class, 2);
        assert(seq![x].drop_last() == Seq::<Keyed>::empty());
        assert(seq![x].last() == x);
    }
    if x.key() == k {
        assert forall|j: int| 0 <= j < b.len() implies key(#[trigger] b[j]) != k by {
            assert(key_le(key(b[j]), key(b[b.len() - 1])));
            law_key_order_is_total(x.key(), b.last().key());
        }
        lemma_class_none(b, key, k);
        assert(class(a, key, k) == class(a.drop_last(), key, k).push(x));
    }
    assert(class(a.drop_last(), key, k) + class(b, key, k) + (class(seq![x], key, k) + class(
        out,
        key,
        k,
    )) == class(a, key, k) + class(b, key, k) + class(out, key, k));
}

/// Moving the last element of `b` to the front of `out` keeps all classes.
proof fn lemma_take_second(a: Seq<Keyed>, b: Seq<Keyed>, out: Seq<Keyed>, k: SortKey)
    requires
        b.len() > 0,
    ensures
        class(a, by_key(), k) + class(b.drop_last(), by_key(), k) + class(
            seq![b.last()] + out,
            by_key(),
            k,
        ) == class(a, by_key(), k) + class(b, by_key(), k) + class(out, by_key(), k),
{
    let x = b.last();
    let key = by_key();
    lemma_class_add(seq![x], out, key, k);
    assert(class(seq![x], key, k) == (if x.key() == k {
        seq![x]
    } else {
        seq![]
    })) by {
        reveal_with_fuel(class, 2);
        assert(seq![x].drop_last() == Seq::<Keyed>::empty());
        assert(seq![x].last() == x);
    }
    assert(class(a, key, k) + class(b.drop_last(), key, k) + (class(seq![x], key, k) + class(
        out,
        key,
        k,
    )) == class(a, key, k) + class(b, key, k) + class(out, key, k));
}

fn reversed(v: Vec<Keyed>) -> (r: Vec<Keyed>)
    ensures
        r@ == v@.reverse(),
{
    let mut v = v;
    let ghost all = v@;
    let mut out: Vec<Keyed> = Vec::new();
    while v.len() > 0
        invariant
            v@.len() + out@.len() == all.len(),
            v@ == all.take(v@.len() as int),
            out@ == all.reverse().take(out@.len() as int),
        decreases v.len(),
    {
        if let Some(x) = v.pop() {
            out.push(x);
        }
    }
    assert(all.reverse().take(out@.len() as int) == all.reverse());
    out
}

/// Merges two ordered lists. Of equal keys, those of `a` come first.
fn merge(a: Vec<Keyed>, b: Vec<Keyed>) -> (r: Vec<Keyed>)
    requires
        ordered(a@, by_key()),
        ordered(b@, by_key()),
    ensures
        ordered(r@, by_key()),
        forall|k: SortKey| #[trigger]
            class(r@, by_key(), k) == class(a@, by_key(), k) + class(b@, by_key(), k),
{
    let mut a = a;
    let mut b = b;
    let ghost a0 = a@;
    let ghost b0 = b@;
    let ghost key = by_key();
    let ghost mut out: Seq<Keyed> = seq![];
    let mut rev: Vec<Keyed> = Vec::new();
    assert(rev@.reverse() == out);
    assert forall|k: SortKey| #[trigger]
        class(a0, key, k) + class(b0, key, k) == class(a0, key, k) + class(b0, key, k) + class(
            out,
            key,
            k,
        ) by {
        assert(class(a0, key, k) + class(b0, key, k) + class(out, key, k) == class(a0, key, k)
            + class(b0, key, k));
    }
    while a.len() > 0 || b.len() > 0
        invariant
            key == by_key(),
            out == rev@.reverse(),
            ordered(a@, key),
            ordered(b@, key),
            ordered(out, key),
            all_before(a@, out),
            all_before(b@, out),
            forall|k: SortKey| #[trigger]
                class(a0, key, k) + class(b0, key, k) == class(a@, key, k) + class(b@, key, k)
                    + class(out, key, k),
        decreases a.len() + b.len(),
    {
        let from_a: bool = if a.len() == 0 {
            false
        } else if b.len() == 0 {
            true
        } else {
            !before(&a[a.len() - 1], &b[b.len() - 1])
        };
        let ghost a1 = a@;
        let ghost b1 = b@;
        let next = if from_a {
            a.pop()
        } else {
            b.pop()
        };
        if let Some(x) = next {
            proof {
                let grown = seq![x] + out;
                assert(rev@.push(x).reverse() == grown);
                assert forall|i: int, j: int| 0 <= i <= j < grown.len() implies key_le(
                    key(#[trigger] grown[i]),
                    key(#[trigger] grown[j]),
                ) by {
                    law_key_order_is_total(x.key(), x.key());
                    if i == 0 && j > 0 {
                        assert(grown[j] == out[j - 1]);
                    } else if i > 0 {
                        assert(grown[i] == out[i - 1] && grown[j] == out[j - 1]);
                    }
                }
                assert(a@.len() > 0 ==> key_le(a@.last().key(), x.key())) by {
                    if a@.len() > 0 {
                        let n = a@.len() - 1;
                        if from_a {
                            assert(key_le(key(a1[n]), key(a1[n + 1])));
                        } else {
                            law_key_order_is_total(a1[n].key(), x.key());
                        }
                    }
                }
                assert(b@.len() > 0 ==> key_le(b@.last().key(), x.key())) by {
                    if b@.len() > 0 {
                        let n = b@.len() - 1;
                        if from_a {
                            law_key_order_is_total(b1[n].key(), x.key());
                        } else {
                            assert(key_le(key(b1[n]), key(b1[n + 1])));
                        }
                    }
                }
                assert(ordered(a@, key)) by {
                    assert forall|i: int, j: int| 0 <= i <= j < a@.len() implies key_le(
                        key(#[trigger] a@[i]),
                        key(#[trigger] a@[j]),
                    ) by {
                        assert(a@[i] == a1[i] && a@[j] == a1[j]);
                    }
                }
                assert(ordered(b@, key)) by {
                    assert forall|i: int, j: int| 0 <= i <= j < b@.len() implies key_le(
                        key(#[trigger] b@[i]),
                        key(#[trigger] b@[j]),
                    ) by {
                        assert(b@[i] == b1[i] && b@[j] == b1[j]);
                    }
                }
                assert forall|i: int, j: int| 0 <= i < a@.len() && 0 <= j < grown.len() implies key_le(
                    (#[trigger] a@[i]).key(),
                    (#[trigger] grown[j]).key(),
                ) by {
                    if j > 0 {
                        assert(grown[j] == out[j - 1]);
                        assert(a@[i] == a1[i]);
                    } else {
                        assert(key_le(key(a@[i]), key(a@[a@.len() - 1])));
                        law_key_order_is_total(a@[i].key(), a@.last().key());
                    }
                }
                assert forall|i: int, j: int| 0 <= i < b@.len() && 0 <= j < grown.len() implies key_le(
                    (#[trigger] b@[i]).key(),
                    (#[trigger] grown[j]).key(),
                ) by {
                    if j > 0 {
                        assert(grown[j] == out[j - 1]);
                        assert(b@[i] == b1[i]);
                    } else {
                        assert(key_le(key(b@[i]), key(b@[b@.len() - 1])));
                        law_key_order_is_total(b@[i].key(), b@.last().key());
                    }
                }
                assert forall|k: SortKey| #[trigger]
                    class(a0, key, k) + class(b0, key, k) == class(a@, key, k) + class(b@, key, k)
                        + class(grown, key, k) by {
                    if from_a {
                        assert(a@ == a1.drop_last());
                        lemma_take_first(a1, b1, out, k);
                    } else {
                        assert(b@ == b1.drop_last());
                        lemma_take_second(a1, b1, out, k);
                    }
                }
                out = grown;
            }
            rev.push(x);
        }
    }
    let r = reversed(rev);
    assert forall|k: SortKey| #[trigger]
        class(r@, key, k) == class(a0, key, k) + class(b0, key, k) by {
        assert(class(a0, key, k) + class(b0, key, k) == class(a@, key, k) + class(b@, key, k)
            + class(out, key, k));
        assert(class(a@, key, k) + class(b@, key, k) + class(out, key, k) == class(out, key, k));
    }
    r
}

/// Puts a list in order, keeping the order of equal keys.
pub fn sort(v: Vec<Keyed>) -> (r: Vec<Keyed>)
    ensures
        stably_ordered(v@, r@, by_key()),
    decreases v@.len(),
{
    let ghost all = v@;
    if v.len() < 2 {
        assert forall|i: int, j: int| 0 <= i <= j < v@.len() implies key_le(
            by_key()(#[trigger] v@[i]),
            by_key()(#[trigger] v@[j]),
        ) by {
            law_key_order_is_total(v@[i].key(), v@[j].key());
        }
        return v;
    }
    let mut left = v;
    let right = left.split_off(left.len() / 2);
    let ghost l = left@;
    let ghost r = right@;
    assert(l + r == all);
    let a = sort(left);
    let b = sort(right);
    let out = merge(a, b);
    assert forall|k: SortKey| #[trigger] class(out@, by_key(), k) == class(all, by_key(), k) by {
        lemma_class_add(l, r, by_key(), k);
        assert(class(a@, by_key(), k) == class(l, by_key(), k));
        assert(class(b@, by_key(), k) == class(r, by_key(), k));
    }
    out
}

proof fn lemma_class_member<T>(s: Seq<T>, key: spec_fn(T) -> SortKey, k: SortKey, i: int) -> (j: int)
    requires
        0 <= i < class(s, key, k).len(),
    ensures
        0 <= j < s.len(),
        s[j] == class(s, key, k)[i],
    decreases s.len(),
{
    let d = class(s.drop_last(), key, k);
    if i < d.len() {
        let j = lemma_class_member(s.drop_last(), key, k, i);
        assert(s.drop_last()[j] == s[j]);
        j
    } else {
        s.len() - 1
    }
}

proof fn lemma_member_class<T>(s: Seq<T>, key: spec_fn(T) -> SortKey, j: int) -> (i: int)
    requires
        0 <= j < s.len(),
    ensures
        0 <= i < class(s, key, key(s[j])).len(),
        s[j] == class(s, key, key(s[j]))[i],
    decreases s.len(),
{
    let k = key(s[j]);
    if j == s.len() - 1 {
        class(s, key, k).len() - 1
    } else {
        assert(s.drop_last()[j] == s[j]);
        lemma_member_class(s.drop_last(), key, j)
    }
}

/// Putting a list in order neither adds nor loses anything.
pub proof fn law_same_members<T>(s: Seq<T>, t: Seq<T>, key: spec_fn(T) -> SortKey)
    requires
        stably_ordered(s, t, key),
    ensures
        forall|x: T| s.contains(x) <==> t.contains(x),
{
    assert forall|x: T| s.contains(x) <==> t.contains(x) by {
        assert(class(t, key, key(x)) == class(s, key, key(x)));
        if s.contains(x) {
            let j = choose|j: int| 0 <= j < s.len() && s[j] == x;
            let i = lemma_member_class(s, key, j);
            let n = lemma_class_member(t, key, key(x), i);
            assert(t[n] == x);
        }
        if t.contains(x) {
            let j = choose|j: int| 0 <= j < t.len() && t[j] == x;
            let i = lemma_member_class(t, key, j);
            let n = lemma_class_member(s, key, key(x), i);
            assert(s[n] == x);
        }
    }
}

/// Whether `t` is the listing of the entries `s`: directories first, by name.
pub open spec fn listing_of(
    s: Seq<wire::BrowseEntryOutView>,
    t: Seq<wire::BrowseEntryOutView>,
) -> bool {
    stably_ordered(s, t, |e: wire::BrowseEntryOutView| entry_key(e))
}

spec fn views(s: Seq<Keyed>) -> Seq<wire::BrowseEntryOutView> {
    s.map_values(|x: Keyed| x.entry.deep_view())
}

proof fn lemma_class_views(s: Seq<Keyed>, k: SortKey)
    requires
        all_wf(s),
    ensures
        class(views(s), |e: wire::BrowseEntryOutView| entry_key(e), k) == views(
            class(s, by_key(), k),
        ),
    decreases s.len(),
{
    let key = |e: wire::BrowseEntryOutView| entry_key(e);
    if s.len() > 0 {
        let d = s.drop_last();
        assert(views(d) == views(s).drop_last());
        assert forall|i: int| 0 <= i < d.len() implies (#[trigger] d[i]).wf() by {
            assert(d[i] == s[i]);
        }
        lemma_class_views(d, k);
        assert(s[s.len() - 1].wf());
        assert(views(s).last() == s.last().entry.deep_view());
        assert(key(views(s).last()) == s.last().key());
        assert(views(class(d, by_key(), k).push(s.last())) == views(class(d, by_key(), k)).push(
            s.last().entry.deep_view(),
        ));
    } else {
        assert(views(class(s, by_key(), k)) == Seq::<wire::BrowseEntryOutView>::empty());
    }
}

/// Sorts directory entries: directories first, then by name without regard to
/// case, and names that differ only in case as they came.
pub fn sort_entries(entries: Vec<BrowseEntryOut>) -> (r: Vec<BrowseEntryOut>)
    ensures
        listing_of(entries.deep_view(), r.deep_view()),
{
    let ghost given = entries.deep_view();
    let mut keyed: Vec<Keyed> = Vec::new();
    for e in it: entries
        invariant
            it.seq() == entries@,
            keyed@.len() == it.index(),
            forall|i: int| 0 <= i < keyed@.len() ==> (#[trigger] keyed@[i]).wf() && keyed@[i].entry == entries@[i],
    {
        let low = lowercase(e.name.as_str());
        let lower = text::chars_of(low.as_str());
        keyed.push(Keyed { lower, entry: e });
    }
    assert(views(keyed@) == given);
    let ghost before_sort = keyed@;
    let sorted = sort(keyed);
    let mut out: Vec<BrowseEntryOut> = Vec::new();
    let ghost after = sorted@;
    proof {
        law_same_members(before_sort, after, by_key());
        assert forall|i: int| 0 <= i < after.len() implies (#[trigger] after[i]).wf() by {
            assert(after.contains(after[i]));
            assert(before_sort.contains(after[i]));
        }
    }
    for x in it: sorted
        invariant
            it.seq() == after,
            out@.len() == it.index(),
            forall|i: int| 0 <= i < out@.len() ==> #[trigger] out@[i] == after[i].entry,
    {
        out.push(x.entry);
    }
    assert(out.deep_view() == views(after));
    proof {
        let key = |e: wire::BrowseEntryOutView| entry_key(e);
        assert forall|k: SortKey| #[trigger] class(views(after), key, k) == class(given, key, k) by {
            lemma_class_views(after, k);
            lemma_class_views(before_sort, k);
            assert(class(after, by_key(), k) == class(before_sort, by_key(), k));
        }
        assert forall|i: int, j: int| 0 <= i <= j < views(after).len() implies key_le(
            key(#[trigger] views(after)[i]),
            key(#[trigger] views(after)[j]),
        ) by {
            assert(after[i].wf() && after[j].wf());
            assert(key_le(by_key()(after[i]), by_key()(after[j])));
        }
    }
    out
}

/// The listing of the entries `s`: the one sequence that [`listing_of`] allows.
pub open spec fn sorted_listing(s: Seq<wire::BrowseEntryOutView>) -> Seq<
    wire::BrowseEntryOutView,
> {
    choose|t: Seq<wire::BrowseEntryOutView>| listing_of(s, t)
}

/// In a listing, no directory stands behind anything else.
pub proof fn law_directories_come_first(
    s: Seq<wire::BrowseEntryOutView>,
    t: Seq<wire::BrowseEntryOutView>,
    i: int,
    j: int,
)
    requires
        listing_of(s, t),
        0 <= i <= j < t.len(),
        t[j].dir,
    ensures
        t[i].dir,
{
    let key = |e: wire::BrowseEntryOutView| entry_key(e);
    assert(key_le(key(t[i]), key(t[j])));
}

/// The letter of the drive with the number `i`.
pub open spec fn drive_letter(i: int) -> char {
    (('A' as int) + i) as char
}

/// The root directory of the drive with the number `i`.
pub open spec fn drive_root(i: int) -> Seq<char> {
    seq![drive_letter(i), ':', '\\']
}

/// Those of the first `n` drives that are present, as entries of a listing.
pub open spec fn drives_below(present: Seq<bool>, n: int) -> Seq<wire::BrowseEntryOutView>
    decreases n,
{
    if n <= 0 {
        seq![]
    } else {
        let d = drives_below(present, n - 1);
        if n - 1 < present.len() && present[n - 1] {
            d.push(
                wire::BrowseEntryOutView {
                    name: seq![drive_letter(n - 1), ':'],
                    dir: true,
                    path: drive_root(n - 1),
                },
            )
        } else {
            d
        }
    }
}

/// The number of drive letters.
pub const DRIVES: usize = 26;

fn letter(i: usize) -> (r: char)
    requires
        i < DRIVES,
    ensures
        r == drive_letter(i as int),
{
    let b: u8 = 65 + i as u8;
    b as char
}

/// The root directory of every drive letter, in order.
pub fn drive_roots() -> (r: Vec<String>)
    ensures
        r@.len() == DRIVES,
        forall|i: int| 0 <= i < DRIVES ==> (#[trigger] r@[i])@ == drive_root(i),
{
    let mut out: Vec<String> = Vec::new();
    let mut i: usize = 0;
    while i < DRIVES
        invariant
            i <= DRIVES,
            out@.len() == i,
            forall|j: int| 0 <= j < i ==> (#[trigger] out@[j])@ == drive_root(j),
        decreases DRIVES - i,
    {
        let mut root = String::new();
        root.push(letter(i));
        root.push(':');
        root.push('\\');
        assert(root@ == drive_root(i as int));
        out.push(root);
        i = i + 1;
    }
    out
}

/// The available drive roots on Windows (C:\, D:\, ...), used as the "/" listing,
/// given which of the [`drive_roots`] exist.
pub fn windows_drives(present: &[bool]) -> (r: Vec<BrowseEntryOut>)
    ensures
        r.deep_view() == drives_below(present@, DRIVES as int),
{
    let mut out: Vec<BrowseEntryOut> = Vec::new();
    let mut i: usize = 0;
    assert(out.deep_view() == drives_below(present@, 0));
    while i < DRIVES
        invariant
            i <= DRIVES,
            out.deep_view() == drives_below(present@, i as int),
        decreases DRIVES - i,
    {
        if i < present.len() && present[i] {
            let ghost before_push = out.deep_view();
            let mut name = String::new();
            name.push(letter(i));
            name.push(':');
            assert(name@ == seq![drive_letter(i as int), ':']);
            let mut path = name.clone();
            path.push('\\');
            assert(path@ == drive_root(i as int));
            let e = BrowseEntryOut { name, dir: true, path };
            out.push(e);
            assert(out.deep_view() == before_push.push(e.deep_view()));
        }
        i = i + 1;
    }
    out
}

/// The directory that a request for `req_path` lists: the root, if it names none.
pub open spec fn listed_path(req_path: Seq<char>) -> Seq<char> {
    if req_path.len() == 0 {
        seq!['/']
    } else {
        req_path
    }
}

fn root_path() -> (r: String)
    ensures
        r@ == seq!['/'],
{
    let mut root = String::new();
    root.push('/');
    assert(root@ == seq!['/']);
    root
}

/// The directory that a request lists.
pub fn browse_path(req_path: &str) -> (r: String)
    ensures
        r@ == listed_path(req_path@),
{
    if req_path.is_empty() {
        root_path()
    } else {
        req_path.to_owned()
    }
}

/// Whether a request asks for the drive chooser: on Windows, "/" stands for it
/// (there is no single filesystem root).
pub open spec fn wants_drives(path: Seq<char>, windows: bool) -> bool {
    windows && path == seq!['/']
}

/// Whether a listing of `path` is the drive chooser.
pub fn is_drive_chooser(path: &str, windows: bool) -> (r: bool)
    ensures
        r == wants_drives(path@, windows),
{
    if !windows {
        return false;
    }
    let cs = text::chars_of(path);
    let r = cs.len() == 1 && cs[0] == '/';
    assert(r ==> path@ == seq!['/']);
    r
}

/// Where "up" leads from `path` ("" if nowhere). On Windows, `windows_parent` is
/// `path` without its last component by that system's rules, and "up" from a
/// drive root returns to the drive chooser.
pub open spec fn up_from(
    path: Seq<char>,
    windows: bool,
    windows_parent: Option<Seq<char>>,
) -> Seq<char> {
    if windows {
        match windows_parent {
            Some(p) if p.len() > 0 => p,
            _ => seq!['/'],
        }
    } else {
        match paths::parent_of(path) {
            Some(p) => p,
            None => seq![],
        }
    }
}

fn up(path: &str, windows: bool, windows_parent: Option<String>) -> (r: String)
    ensures
        r@ == up_from(path@, windows, windows_parent.deep_view()),
{
    if windows {
        match windows_parent {
            Some(p) => browse_path(p.as_str()),
            None => root_path(),
        }
    } else {
        match paths::parent(path) {
            Some(p) => p,
            None => String::new(),
        }
    }
}

/// What came of looking at the directory (or at the drives).
#[derive(Debug, PartialEq, Eq)]
pub enum Listing {
    /// Which of the [`drive_roots`] exist.
    Drives(Vec<bool>),
    /// The directory's entries, in no particular order.
    Entries(Vec<BrowseEntryOut>),
    /// The directory could not be read.
    Failed(String),
}

/// What a [`Listing`] holds.
pub enum ListingView {
    Drives(Seq<bool>),
    Entries(Seq<wire::BrowseEntryOutView>),
    Failed(Seq<char>),
}

impl DeepView for Listing {
    type V = ListingView;

    open spec fn deep_view(&self) -> ListingView {
        match *self {
            Listing::Drives(p) => ListingView::Drives(p@),
            Listing::Entries(e) => ListingView::Entries(e.deep_view()),
            Listing::Failed(m) => ListingView::Failed(m@),
        }
    }
}

/// The answer to a request to list `req_path`, of which `canonical` is the canonical
/// form, if the file system has one.
pub open spec fn browse_result(
    req_path: Seq<char>,
    request_id: Seq<char>,
    windows: bool,
    canonical: Option<Seq<char>>,
    windows_parent: Option<Seq<char>>,
    listing: ListingView,
) -> wire::BrowseResultOutView {
    let path = match canonical {
        Some(c) => c,
        None => listed_path(req_path),
    };
    let parent = up_from(path, windows, windows_parent);
    match listing {
        ListingView::Drives(present) => wire::BrowseResultOutView {
            request_id,
            path,
            parent: seq![],
            entries: drives_below(present, DRIVES as int),
            error: seq![],
        },
        ListingView::Entries(entries) => wire::BrowseResultOutView {
            request_id,
            path,
            parent,
            entries: sorted_listing(entries),
            error: seq![],
        },
        ListingView::Failed(error) => wire::BrowseResultOutView {
            request_id,
            path,
            parent,
            entries: seq![],
            error,
        },
    }
}

/// List a directory for the file picker. Returns entries (dirs first), the
/// canonical path (the path as requested, where it has no canonical form), and its
/// parent ("" if none).
pub fn list_dir(
    req_path: &str,
    request_id: &str,
    windows: bool,
    canonical: Option<String>,
    windows_parent: Option<String>,
    listing: Listing,
) -> (r: BrowseResultOut)
    ensures
        r.deep_view() == browse_result(
            req_path@,
            request_id@,
            windows,
            canonical.deep_view(),
            windows_parent.deep_view(),
            listing.deep_view(),
        ),
        listing matches Listing::Entries(e) ==> listing_of(e.deep_view(), r.entries.deep_view()),
{
    let path = match canonical {
        Some(c) => c,
        None => browse_path(req_path),
    };
    let parent = up(path.as_str(), windows, windows_parent);
    let request_id = request_id.to_owned();
    match listing {
        Listing::Drives(present) => {
            BrowseResultOut {
                request_id,
                path,
                parent: String::new(),
                entries: windows_drives(present.as_slice()),
                error: String::new(),
            }
        },
        Listing::Entries(entries) => {
            let ghost given = entries.deep_view();
            let entries = sort_entries(entries);
            proof {
                let key = |e: wire::BrowseEntryOutView| entry_key(e);
                law_stable_order_is_unique(given, entries.deep_view(), sorted_listing(given), key);
            }
            BrowseResultOut { request_id, path, parent, entries, error: String::new() }
        },
        Listing::Failed(error) => {
            let entries: Vec<BrowseEntryOut> = Vec::new();
            assert(entries.deep_view() == Seq::<wire::BrowseEntryOutView>::empty());
            BrowseResultOut { request_id, path, parent, entries, error }
        },
    }
}

/// A thing to create for the picker's "new folder / new .env" controls.
#[derive(Debug, PartialEq, Eq)]
pub enum CreateAction {
    /// Create the folder `name` in `dir`, and `dir` itself if it is missing.
    MakeDir { dir: String, name: String },
    /// Create the empty file `name` in `dir`, unless it is already there.
    Touch { dir: String, name: String },
}

/// What a [`CreateAction`] holds.
pub enum CreateActionView {
    MakeDir { dir: Seq<char>, name: Seq<char> },
    Touch { dir: Seq<char>, name: Seq<char> },
}

impl DeepView for CreateAction {
    type V = CreateActionView;

    open spec fn deep_view(&self) -> CreateActionView {
        match *self {
            CreateAction::MakeDir { dir, name } => CreateActionView::MakeDir {
                dir: dir@,
                name: name@,
            },
            CreateAction::Touch { dir, name } => CreateActionView::Touch { dir: dir@, name: name@ },
        }
    }
}

impl Clone for CreateAction {
    fn clone(&self) -> (r: Self)
        ensures
            r.deep_view() == self.deep_view(),
    {
        match self {
            CreateAction::MakeDir { dir, name } => CreateAction::MakeDir {
                dir: dir.clone(),
                name: name.clone(),
            },
            CreateAction::Touch { dir, name } => CreateAction::Touch {
                dir: dir.clone(),
                name: name.clone(),
            },
        }
    }
}

/// What an action of the picker asks for, if it is known.
pub open spec fn creation(dir: Seq<char>, action: Seq<char>, name: Seq<char>) -> Option<
    CreateActionView,
> {
    if action == "mkdir"@ {
        Some(CreateActionView::MakeDir { dir, name })
    } else if action == "touch"@ {
        Some(CreateActionView::Touch { dir, name })
    } else {
        None
    }
}

/// The complaint about an action that is not known.
pub open spec fn unknown_action(action: Seq<char>) -> Seq<char> {
    "unknown action: "@ + action
}

/// Create a folder ("mkdir") or an empty file ("touch") named `name` inside `dir`.
/// `name` is a bare filename; the server rejects path separators before this ever
/// runs.
pub fn create_item(dir: &str, action: &str, name: &str) -> (r: Result<CreateAction, String>)
    ensures
        r is Ok <==> creation(dir@, action@, name@) is Some,
        r matches Ok(a) ==> Some(a.deep_view()) == creation(dir@, action@, name@),
        r matches Err(m) ==> m@ == unknown_action(action@),
{
    if text::same(action, "mkdir") {
        Ok(CreateAction::MakeDir { dir: dir.to_owned(), name: name.to_owned() })
    } else if text::same(action, "touch") {
        Ok(CreateAction::Touch { dir: dir.to_owned(), name: name.to_owned() })
    } else {
        let mut m = "unknown action: ".to_owned();
        m.append(action);
        Err(m)
    }
}

/// What is done at the place of the thing to create.
#[derive(Debug, PartialEq, Eq, Structural, Clone, Copy)]
pub enum CreateStep {
    /// Create a directory, and those above it, unless they are there.
    MakeDirs,
    /// Create an empty file, or open the one that is there as it is.
    OpenFile,
    /// Nothing: it is already there, and the user can select it.
    Nothing,
}

/// What is done for an action, when there is something at the place or not.
pub open spec fn step_for(action: CreateActionView, exists: bool) -> CreateStep {
    match action {
        CreateActionView::MakeDir { .. } => CreateStep::MakeDirs,
        CreateActionView::Touch { .. } => if exists {
            CreateStep::Nothing
        } else {
            CreateStep::OpenFile
        },
    }
}

impl CreateAction {
    /// What is done for the action, when there is something at the place or not.
    pub fn step(&self, exists: bool) -> (r: CreateStep)
        ensures
            r == step_for(self.deep_view(), exists),
    {
        match self {
            CreateAction::MakeDir { .. } => CreateStep::MakeDirs,
            CreateAction::Touch { .. } => {
                if exists {
                    CreateStep::Nothing
                } else {
                    CreateStep::OpenFile
                }
            },
        }
    }
}

/// What is at a place of the file system.
pub enum Node {
    Absent,
    Dir,
    File(Seq<u8>),
}

/// What is at a place after a step, if the step can be done there at all.
pub open spec fn node_after(step: CreateStep, node: Node) -> Option<Node> {
    match (step, node) {
        (CreateStep::Nothing, _) => Some(node),
        (CreateStep::MakeDirs, Node::File(_)) => None,
        (CreateStep::MakeDirs, _) => Some(Node::Dir),
        (CreateStep::OpenFile, Node::Absent) => Some(Node::File(seq![])),
        (CreateStep::OpenFile, Node::File(_)) => Some(node),
        (CreateStep::OpenFile, Node::Dir) => None,
    }
}

/// What is at the place of the thing to create after the action, if it succeeds.
pub open spec fn created(action: CreateActionView, node: Node) -> Option<Node> {
    node_after(step_for(action, !(node is Absent)), node)
}

/// Creating something makes it exist, an empty directory or file if there was
/// nothing. What was there before stays as it is, the contents of a file among it,
/// and creating it again succeeds and changes nothing.
pub proof fn law_creating_twice_is_creating_once(action: CreateActionView, node: Node)
    requires
        created(action, node) is Some,
    ensures
        ({
            let made = created(action, node)->0;
            &&& created(action, made) == Some(made)
            &&& node is Absent ==> made == (match action {
                CreateActionView::MakeDir { .. } => Node::Dir,
                CreateActionView::Touch { .. } => Node::File(seq![]),
            })
            &&& !(node is Absent) ==> made == node
        }),
{
}

/// As far as it depends on what is at the place, the only thing that cannot be
/// created is a directory where there is a file.
pub proof fn law_creating_succeeds(action: CreateActionView, node: Node)
    ensures
        created(action, node) is None <==> action is MakeDir && node is File,
{
}

/// What a path on Windows begins with if it is to be taken literally.
pub open spec fn verbatim() -> Seq<char> {
    seq!['\\', '\\', '?', '\\']
}

/// A canonical path as it is shown: on Windows, a drive path without the mark that
/// it is to be taken literally.
pub open spec fn shown(path: Seq<char>, windows: bool) -> Seq<char> {
    if windows && text::starts_with(path, verbatim()) && path.len() >= 6 && path[5] == ':' {
        path.skip(4)
    } else {
        path
    }
}

/// A canonical path as it is shown.
pub fn shown_path(path: &str, windows: bool) -> (r: String)
    ensures
        r@ == shown(path@, windows),
{
    let cs = text::chars_of(path);
    let mark: [char; 4] = ['\\', '\\', '?', '\\'];
    assert(mark@ == verbatim());
    if windows && text::has_prefix(cs.as_slice(), mark.as_slice()) && cs.len() >= 6 && cs[5]
        == ':' {
        let rest = &cs.as_slice()[4..cs.len()];
        assert(rest@ == path@.skip(4));
        text::string_of(rest)
    } else {
        text::string_of(cs.as_slice())
    }
}

/// Texts are ordered by the first character in which they differ, and a text comes
/// before every longer one that begins with it.
pub proof fn law_text_order(
    common: Seq<char>,
    x: char,
    y: char,
    s: Seq<char>,
    t: Seq<char>,
)
    requires
        x < y,
    ensures
        text_le(common + seq![x] + s, common + seq![y] + t),
        !text_le(common + seq![y] + t, common + seq![x] + s),
        text_le(common, common + s),
        text_le(common + s, common) <==> s.len() == 0,
    decreases common.len(),
{
    let a = common + seq![x] + s;
    let b = common + seq![y] + t;
    if common.len() > 0 {
        let rest = common.drop_first();
        law_text_order(rest, x, y, s, t);
        assert(a.drop_first() == rest + seq![x] + s);
        assert(b.drop_first() == rest + seq![y] + t);
        assert((common + s).drop_first() == rest + s);
        assert(a.first() == common.first() && b.first() == common.first() && (common + s).first()
            == common.first());
    } else {
        assert(a.first() == x && b.first() == y);
        assert(common + s == s);
    }
}

/// In a listing, directories come before everything else, and each of the two groups
/// goes by name, without regard to case.
pub proof fn law_listing_goes_by_name(
    s: Seq<wire::BrowseEntryOutView>,
    t: Seq<wire::BrowseEntryOutView>,
    i: int,
    j: int,
)
    requires
        listing_of(s, t),
        0 <= i < j < t.len(),
    ensures
        t[j].dir ==> t[i].dir,
        t[i].dir == t[j].dir ==> text_le(lowercased(t[i].name), lowercased(t[j].name)),
{
    let key = |e: wire::BrowseEntryOutView| entry_key(e);
    assert(key_le(key(t[i]), key(t[j])));
}

proof fn lemma_class_is_filter<T>(s: Seq<T>, key: spec_fn(T) -> SortKey, k: SortKey)
    ensures
        class(s, key, k) == s.filter(|e: T| key(e) == k),
    decreases s.len(),
{
    reveal(Seq::filter);
    if s.len() > 0 {
        lemma_class_is_filter(s.drop_last(), key, k);
    }
}

/// A listing holds each entry as often as it was given, and entries of one kind whose
/// names differ at most in case stand in the order in which they were given.
pub proof fn law_listing_keeps_every_entry(
    s: Seq<wire::BrowseEntryOutView>,
    t: Seq<wire::BrowseEntryOutView>,
    dir: bool,
    lower: Seq<char>,
)
    requires
        listing_of(s, t),
    ensures
        t.filter(|e: wire::BrowseEntryOutView| e.dir == dir && lowercased(e.name) == lower)
            == s.filter(|e: wire::BrowseEntryOutView| e.dir == dir && lowercased(e.name) == lower),
{
    let key = |e: wire::BrowseEntryOutView| entry_key(e);
    let k = SortKey { dir, name: lower };
    lemma_class_is_filter(s, key, k);
    lemma_class_is_filter(t, key, k);
    assert(class(t, key, k) == class(s, key, k));
    assert((|e: wire::BrowseEntryOutView| e.dir == dir && lowercased(e.name) == lower)
        =~= (|e: wire::BrowseEntryOutView| key(e) == k));
}

/// How many elements of an ordered sequence belong before one with the key `k`.
spec fn place<T>(t: Seq<T>, key: spec_fn(T) -> SortKey, k: SortKey) -> int
    decreases t.len(),
{
    if t.len() == 0 || key_le(key(t.last()), k) {
        t.len() as int
    } else {
        place(t.drop_last(), key, k)
    }
}

proof fn lemma_place<T>(t: Seq<T>, key: spec_fn(T) -> SortKey, k: SortKey)
    requires
        ordered(t, key),
    ensures
        0 <= place(t, key, k) <= t.len(),
        forall|i: int| 0 <= i < place(t, key, k) ==> key_le(key(#[trigger] t[i]), k),
        forall|i: int| place(t, key, k) <= i < t.len() ==> !key_le(key(#[trigger] t[i]), k),
    decreases t.len(),
{
    if t.len() > 0 {
        let d = t.drop_last();
        if key_le(key(t.last()), k) {
            assert forall|i: int| 0 <= i < t.len() implies key_le(key(#[trigger] t[i]), k) by {
                assert(key_le(key(t[i]), key(t[t.len() - 1])));
                law_key_order_is_total(key(t[i]), key(t.last()));
            }
        } else {
            assert(ordered(d, key)) by {
                assert forall|a: int, b: int| 0 <= a <= b < d.len() implies key_le(
                    key(#[trigger] d[a]),
                    key(#[trigger] d[b]),
                ) by {
                    assert(d[a] == t[a] && d[b] == t[b]);
                }
            }
            lemma_place(d, key, k);
            assert forall|i: int| 0 <= i < place(t, key, k) implies key_le(
                key(#[trigger] t[i]),
                k,
            ) by {
                assert(d[i] == t[i]);
            }
            assert forall|i: int| place(t, key, k) <= i < t.len() implies !key_le(
                key(#[trigger] t[i]),
                k,
            ) by {
                if i < d.len() {
                    assert(d[i] == t[i]);
                }
            }
        }
    }
}

proof fn lemma_in_order<T>(s: Seq<T>, key: spec_fn(T) -> SortKey) -> (t: Seq<T>)
    ensures
        stably_ordered(s, t, key),
    decreases s.len(),
{
    if s.len() == 0 {
        s
    } else {
        let x = s.last();
        let t = lemma_in_order(s.drop_last(), key);
        let m = place(t, key, key(x));
        lemma_place(t, key, key(x));
        let a = t.take(m);
        let b = t.skip(m);
        let u = a + seq![x] + b;
        assert(a + b == t);
        assert(ordered(u, key)) by {
            assert forall|i: int, j: int| 0 <= i <= j < u.len() implies key_le(
                key(#[trigger] u[i]),
                key(#[trigger] u[j]),
            ) by {
                law_key_order_is_total(key(u[i]), key(u[j]));
                if i < m && j < m {
                    assert(u[i] == t[i] && u[j] == t[j]);
                } else if i < m && j > m {
                    assert(u[i] == t[i] && u[j] == t[j - 1]);
                } else if i < m {
                    assert(u[i] == t[i] && u[j] == x);
                } else if i > m {
                    assert(u[i] == t[i - 1] && u[j] == t[j - 1]);
                } else if j > m {
                    assert(u[i] == x && u[j] == t[j - 1]);
                }
            }
        }
        assert forall|k: SortKey| #[trigger] class(u, key, k) == class(s, key, k) by {
            lemma_class_add(a + seq![x], b, key, k);
            lemma_class_add(a, seq![x], key, k);
            lemma_class_add(a, b, key, k);
            assert(class(t, key, k) == class(s.drop_last(), key, k));
            assert(class(seq![x], key, k) == (if key(x) == k {
                seq![x]
            } else {
                seq![]
            })) by {
                reveal_with_fuel(class, 2);
                assert(seq![x].drop_last() == Seq::<T>::empty());
                assert(seq![x].last() == x);
            }
            if key(x) == k {
                assert forall|i: int| 0 <= i < b.len() implies key(#[trigger] b[i]) != k by {
                    assert(b[i] == t[m + i]);
                    law_key_order_is_total(k, k);
                }
                lemma_class_none(b, key, k);
                assert(class(u, key, k) == class(a, key, k).push(x));
                assert(class(t, key, k) == class(a, key, k));
            } else {
                assert(class(u, key, k) == class(t, key, k));
            }
        }
        u
    }
}

/// Whatever the entries, there is a listing of them.
pub proof fn law_there_is_a_listing(s: Seq<wire::BrowseEntryOutView>)
    ensures
        listing_of(s, sorted_listing(s)),
{
    let t = lemma_in_order(s, |e: wire::BrowseEntryOutView| entry_key(e));
    assert(listing_of(s, t));
}

/// The drive chooser shows each drive that is present, from A to Z, by its letter and
/// with its root directory, and nothing else.
pub proof fn law_drive_chooser(present: Seq<bool>)
    ensures
        ({
            let drives = drives_below(present, 26);
            let there = Seq::new(26, |i: int| i).filter(
                |i: int| i < present.len() && present[i],
            );
            &&& drives.len() == there.len()
            &&& forall|j: int|
                0 <= j < drives.len() ==> (#[trigger] drives[j]).dir && drives[j].name.len() == 2
                    && drives[j].name[0] as int == 65 + there[j] && drives[j].name[1] == ':'
                    && drives[j].path == drives[j].name.push('\\')
        }),
{
    lemma_drives(present, 26);
    let there = Seq::new(26, |i: int| i).filter(|i: int| i < present.len() && present[i]);
    let drives = drives_below(present, 26);
    assert forall|j: int| 0 <= j < drives.len() implies (#[trigger] drives[j]).dir
        && drives[j].name.len() == 2 && drives[j].name[0] as int == 65 + there[j]
        && drives[j].name[1] == ':' && drives[j].path == drives[j].name.push('\\') by {
        assert(0 <= there[j] < 26);
    }
}

proof fn lemma_drives(present: Seq<bool>, n: nat)
    ensures
        ({
            let there = Seq::new(n, |i: int| i).filter(|i: int| i < present.len() && present[i]);
            &&& forall|j: int| 0 <= j < there.len() ==> 0 <= #[trigger] there[j] < n
            &&& drives_below(present, n as int) == there.map_values(
                |i: int|
                    wire::BrowseEntryOutView {
                        name: seq![drive_letter(i), ':'],
                        dir: true,
                        path: drive_root(i),
                    },
            )
        }),
    decreases n,
{
    reveal(Seq::filter);
    let is_there = |i: int| i < present.len() && present[i];
    let entry = |i: int|
        wire::BrowseEntryOutView {
            name: seq![drive_letter(i), ':'],
            dir: true,
            path: drive_root(i),
        };
    let all = Seq::new(n, |i: int| i);
    if n > 0 {
        let m = (n - 1) as nat;
        lemma_drives(present, m);
        assert(all.drop_last() == Seq::new(m, |i: int| i));
        assert(all.last() == n - 1);
        let before = all.drop_last().filter(is_there);
        if is_there(n - 1) {
            assert(all.filter(is_there) == before.push(n - 1));
        } else {
            assert(all.filter(is_there) == before);
        }
    }
    assert(drives_below(present, n as int) == all.filter(is_there).map_values(entry));
}

/// A request without a path is one for the root, which on Windows, and only there, is
/// the drive chooser. Every other path is listed as it is.
pub proof fn law_listed_path(path: Seq<char>)
    ensures
        listed_path(seq![]) == seq!['/'],
        path.len() > 0 ==> listed_path(path) == path,
        wants_drives(path, true) <==> path == seq!['/'],
        !wants_drives(path, false),
{
}

/// Up leads to the parent directory, and nowhere from the root. On Windows it leads to
/// the drive chooser where there is no parent.
pub proof fn law_up(path: Seq<char>, parent: Seq<char>, other: Option<Seq<char>>)
    ensures
        paths::parent_of(path) matches Some(p) ==> up_from(path, false, other) == p,
        paths::parent_of(path) is None ==> up_from(path, false, other) == Seq::<char>::empty(),
        parent.len() > 0 ==> up_from(path, true, Some(parent)) == parent,
        up_from(path, true, Some(seq![])) == seq!['/'],
        up_from(path, true, None) == seq!['/'],
{
}

/// The answer to a browse request carries the request's id and the canonical path, or
/// the path that was listed where there is none. It leads up from there, unless it is
/// the drive chooser. Entries come in the order of a listing. An error comes without
/// entries, and entries come without an error.
pub proof fn law_browse_answer(
    req_path: Seq<char>,
    request_id: Seq<char>,
    windows: bool,
    canonical: Option<Seq<char>>,
    windows_parent: Option<Seq<char>>,
    listing: ListingView,
)
    ensures
        ({
            let out = browse_result(
                req_path,
                request_id,
                windows,
                canonical,
                windows_parent,
                listing,
            );
            &&& out.request_id == request_id
            &&& canonical matches Some(c) ==> out.path == c
            &&& canonical is None ==> out.path == listed_path(req_path)
            &&& listing is Drives ==> out.parent.len() == 0
            &&& !(listing is Drives) ==> out.parent == up_from(out.path, windows, windows_parent)
            &&& listing matches ListingView::Drives(present) ==> out.entries == drives_below(
                present,
                26,
            )
            &&& listing matches ListingView::Entries(e) ==> listing_of(e, out.entries)
            &&& listing is Failed ==> out.entries.len() == 0
            &&& listing matches ListingView::Failed(m) ==> out.error == m
            &&& !(listing is Failed) ==> out.error.len() == 0
        }),
{
    if let ListingView::Entries(e) = listing {
        law_there_is_a_listing(e);
    }
}

/// The two things that the picker can create, with the directory and the name as they
/// were given. Any other action is unknown.
pub proof fn law_what_can_be_created(dir: Seq<char>, action: Seq<char>, name: Seq<char>)
    ensures
        creation(dir, "mkdir"@, name) == Some(CreateActionView::MakeDir { dir, name }),
        creation(dir, "touch"@, name) == Some(CreateActionView::Touch { dir, name }),
        action != "mkdir"@ && action != "touch"@ ==> creation(dir, action, name) is None,
        unknown_action(action) == "unknown action: "@ + action,
{
    reveal_strlit("mkdir");
    reveal_strlit("touch");
    assert("mkdir"@[0] == 'm' && "touch"@[0] == 't');
}

/// A directory is always made. A file is made only where there is nothing yet.
pub proof fn law_what_is_done_to_create(dir: Seq<char>, name: Seq<char>, exists: bool)
    ensures
        step_for(CreateActionView::MakeDir { dir, name }, exists) == CreateStep::MakeDirs,
        step_for(CreateActionView::Touch { dir, name }, true) == CreateStep::Nothing,
        step_for(CreateActionView::Touch { dir, name }, false) == CreateStep::OpenFile,
{
}

/// On Windows a drive path is shown without the mark that it is to be taken literally.
/// Every other path is shown as it is, and elsewhere every path.
pub proof fn law_shown_path(drive: char, rest: Seq<char>, path: Seq<char>)
    ensures
        shown(seq!['\\', '\\', '?', '\\', drive, ':'] + rest, true) == seq![drive, ':'] + rest,
        shown(path, false) == path,
        !(path.len() >= 6 && path[0] == '\\' && path[1] == '\\' && path[2] == '?' && path[3] == '\\'
            && path[5] == ':') ==> shown(path, true) == path,
{
    let marked = seq!['\\', '\\', '?', '\\', drive, ':'] + rest;
    assert(marked.take(4) == verbatim());
    assert(marked.skip(4) == seq![drive, ':'] + rest);
    if path.len() >= 4 && path.take(4) == verbatim() {
        assert(path.take(4)[0] == path[0] && path.take(4)[1] == path[1] && path.take(4)[2]
            == path[2] && path.take(4)[3] == path[3]);
    }
}

} // verus!
