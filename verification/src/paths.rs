//! Unix paths, as text and as bytes.
use crate::text;
use vstd::prelude::*;

verus! {

/// `p` without the separators and `.` components it ends with. The root and a
/// leading `.` stay.
pub open spec fn tidy(p: Seq<char>) -> Seq<char>
    decreases p.len(),
{
    if p.len() >= 2 && (p.last() == '/' || (p.last() == '.' && p[p.len() - 2] == '/')) {
        tidy(p.drop_last())
    } else {
        p
    }
}

/// Where the last component of `p` begins: behind its last separator.
pub open spec fn last_start(p: Seq<char>) -> int
    decreases p.len(),
{
    if p.len() == 0 || p.last() == '/' {
        p.len() as int
    } else {
        last_start(p.drop_last())
    }
}

/// The path without its final component: `None` for the root and for the empty
/// path.
pub open spec fn parent_of(p: Seq<char>) -> Option<Seq<char>> {
    let t = tidy(p);
    if t.len() == 0 || t == seq!['/'] {
        None
    } else {
        Some(tidy(t.take(last_start(t))))
    }
}

/// `b` seen from the directory `a`: `b` itself if it is absolute, and else `a`
/// followed by `b` with one separator between them.
pub open spec fn joined(a: Seq<char>, b: Seq<char>) -> Seq<char> {
    if b.len() > 0 && b.first() == '/' {
        b
    } else if a.len() == 0 || a.last() == '/' {
        a + b
    } else {
        a + seq!['/'] + b
    }
}

fn tidy_len(p: &[char]) -> (r: usize)
    ensures
        r <= p.len(),
        p@.take(r as int) == tidy(p@),
{
    let mut n: usize = p.len();
    assert(p@.take(n as int) == p@);
    while n >= 2 && (p[n - 1] == '/' || (p[n - 1] == '.' && p[n - 2] == '/'))
        invariant
            n <= p.len(),
            tidy(p@.take(n as int)) == tidy(p@),
        decreases n,
    {
        assert(p@.take(n as int).drop_last() == p@.take(n - 1));
        n = n - 1;
    }
    n
}

/// The path without its final component, if it has one.
pub fn parent(path: &str) -> (r: Option<String>)
    ensures
        r.deep_view() == parent_of(path@),
{
    let cs = text::chars_of(path);
    let n: usize = tidy_len(cs.as_slice());
    let ghost t = tidy(path@);
    assert(t == cs@.take(n as int));
    if n == 0 || (n == 1 && cs[0] == '/') {
        assert(n == 1 ==> t == seq!['/']);
        return None;
    }
    assert(t != seq!['/']) by {
        if t == seq!['/'] {
            assert(t[0] == '/');
        }
    }
    let tidied = &cs.as_slice()[0..n];
    assert(tidied@ == t);
    let i: usize = start_of_last(tidied);
    let dir = &tidied[0..i];
    assert(dir@ == t.take(i as int));
    let m: usize = tidy_len(dir);
    assert(dir@.subrange(0, m as int) == dir@.take(m as int));
    Some(text::string_of(&dir[0..m]))
}

/// `b` seen from the directory `a`.
pub fn join(a: &str, b: &str) -> (r: String)
    ensures
        r@ == joined(a@, b@),
{
    let ca = text::chars_of(a);
    let cb = text::chars_of(b);
    if cb.len() > 0 && cb[0] == '/' {
        return text::string_of(cb.as_slice());
    }
    let mut out = text::string_of(ca.as_slice());
    if ca.len() > 0 && ca[ca.len() - 1] != '/' {
        out.push('/');
    }
    out.append(b);
    assert(out@ == joined(a@, b@));
    out
}

/// Whether `n` names a thing inside the directory it is joined to.
pub open spec fn plain_name(n: Seq<char>) -> bool {
    n.len() > 0 && !n.contains('/') && n != seq!['.'] && n != seq!['.', '.']
}

proof fn lemma_last_start(p: Seq<char>)
    ensures
        0 <= last_start(p) <= p.len(),
        last_start(p) > 0 ==> p[last_start(p) - 1] == '/',
        forall|j: int| last_start(p) <= j < p.len() ==> p[j] != '/',
    decreases p.len(),
{
    if p.len() > 0 && p.last() != '/' {
        let d = p.drop_last();
        lemma_last_start(d);
        assert forall|j: int| last_start(p) <= j < p.len() implies p[j] != '/' by {
            if j < d.len() {
                assert(d[j] == p[j]);
            }
        }
    }
}

/// Going up from a child of a directory leads back to that directory.
pub proof fn law_parent_of_child(dir: Seq<char>, name: Seq<char>)
    requires
        name.len() > 0,
        !name.contains('/'),
        name != seq!['.'],
    ensures
        parent_of(joined(dir, name)) == Some(tidy(dir)),
{
    let j = joined(dir, name);
    let k = j.len() - name.len();
    assert forall|i: int| 0 <= i < name.len() implies j[k + i] == name[i] && name[i] != '/' by {
        assert(name.contains(name[i]));
    }
    assert(j.last() == name.last());
    if name.len() == 1 && name[0] == '.' {
        assert(name == seq!['.']);
    }
    if name.len() >= 2 {
        assert(j[j.len() - 2] == name[name.len() - 2]);
    }
    assert(tidy(j) == j);
    assert(j != seq!['/']) by {
        assert(j[k] != '/');
    }
    lemma_last_start(j);
    assert(last_start(j) == k) by {
        if last_start(j) > k {
            assert(j[last_start(j) - 1] == name[last_start(j) - 1 - k]);
        } else if last_start(j) < k {
            assert(j[k - 1] == '/');
        }
    }
    if dir.len() == 0 || dir.last() == '/' {
        assert(j.take(k) == dir);
    } else {
        assert(j.take(k) == dir.push('/'));
        assert(dir.push('/').drop_last() == dir);
    }
}

/// The index of the last dot in a name, or -1.
pub open spec fn last_dot(name: Seq<char>) -> int
    decreases name.len(),
{
    if name.len() == 0 || name.last() == '.' {
        name.len() - 1
    } else {
        last_dot(name.drop_last())
    }
}

/// A name without its extension: what stands before its last dot, unless that is
/// nothing.
pub open spec fn stem(name: Seq<char>) -> Seq<char> {
    if last_dot(name) > 0 {
        name.take(last_dot(name))
    } else {
        name
    }
}

/// `p` with the extension `ext` in the place of the one it has, if any. A path
/// whose last component is not a name stays as it is.
pub open spec fn with_extension(p: Seq<char>, ext: Seq<char>) -> Seq<char> {
    let t = tidy(p);
    let name = t.skip(last_start(t));
    if name.len() == 0 || name == seq!['.'] || name == seq!['.', '.'] {
        p
    } else {
        t.take(last_start(t)) + stem(name) + seq!['.'] + ext
    }
}

fn start_of_last(t: &[char]) -> (r: usize)
    ensures
        r <= t.len(),
        r == last_start(t@),
{
    let mut i: usize = t.len();
    assert(t@.take(i as int) == t@);
    while i > 0 && t[i - 1] != '/'
        invariant
            i <= t.len(),
            last_start(t@) == last_start(t@.take(i as int)),
        decreases i,
    {
        assert(t@.take(i as int).drop_last() == t@.take(i - 1));
        i = i - 1;
    }
    i
}

fn stem_len(name: &[char]) -> (r: usize)
    ensures
        r <= name.len(),
        name@.take(r as int) == stem(name@),
{
    let mut i: usize = name.len();
    assert(name@.take(i as int) == name@);
    while i > 0 && name[i - 1] != '.'
        invariant
            i <= name.len(),
            last_dot(name@) == last_dot(name@.take(i as int)),
        decreases i,
    {
        assert(name@.take(i as int).drop_last() == name@.take(i - 1));
        i = i - 1;
    }
    if i > 1 {
        i - 1
    } else {
        name.len()
    }
}

/// The path with another extension.
pub fn change_extension(path: &str, ext: &str) -> (r: String)
    ensures
        r@ == with_extension(path@, ext@),
{
    let cs = text::chars_of(path);
    let n: usize = tidy_len(cs.as_slice());
    let t = &cs.as_slice()[0..n];
    assert(t@ == tidy(path@));
    let start: usize = start_of_last(t);
    let name = &t[start..n];
    assert(name@ == t@.skip(start as int));
    let dots = (name.len() == 1 && name[0] == '.') || (name.len() == 2 && name[0] == '.' && name[1]
        == '.');
    proof {
        if dots {
            assert(name@ == seq!['.'] || name@ =~= seq!['.', '.']);
        } else if name@ == seq!['.'] {
            assert(name@[0] == '.');
        } else if name@ == seq!['.', '.'] {
            assert(name@[0] == '.' && name@[1] == '.');
        }
    }
    if name.len() == 0 || dots {
        return text::string_of(cs.as_slice());
    }
    let end: usize = start + stem_len(name);
    let mut out = text::string_of(&t[0..end]);
    assert(out@ == t@.take(start as int) + stem(name@));
    out.push('.');
    out.append(ext);
    assert(out@ == with_extension(path@, ext@));
    out
}

proof fn lemma_last_dot(name: Seq<char>)
    ensures
        -1 <= last_dot(name) < name.len(),
    decreases name.len(),
{
    if name.len() > 0 && name.last() != '.' {
        lemma_last_dot(name.drop_last());
    }
}

/// Another extension leaves a path in the directory it was in.
pub proof fn law_extension_keeps_parent(p: Seq<char>, ext: Seq<char>)
    requires
        !ext.contains('/'),
    ensures
        parent_of(with_extension(p, ext)) == parent_of(p),
{
    let t = tidy(p);
    let k = last_start(t);
    let name = t.skip(k);
    lemma_last_start(t);
    if !(name.len() == 0 || name == seq!['.'] || name == seq!['.', '.']) {
        lemma_last_dot(name);
        let d = t.take(k);
        let new = stem(name) + seq!['.'] + ext;
        assert(new.len() >= 2);
        assert forall|i: int| 0 <= i < new.len() implies new[i] != '/' by {
            if i < stem(name).len() {
                assert(new[i] == t[k + i]);
            } else if i > stem(name).len() {
                assert(ext.contains(ext[i - stem(name).len() - 1]));
            }
        }
        assert(joined(d, new) == d + new);
        assert(with_extension(p, ext) == d + new);
        law_parent_of_child(d, new);
        assert(t != seq!['/']) by {
            assert(t[k] == name[0]);
        }
    }
}

/// The byte that separates components.
pub const SEPARATOR: u8 = 0x2f;

/// The byte that a component naming the current directory is made of.
pub const DOT: u8 = 0x2e;

/// The index of the first separator in `p`, or the length of `p`.
pub open spec fn first_separator(p: Seq<u8>) -> int
    decreases p.len(),
{
    if p.len() == 0 || p.first() == SEPARATOR {
        0
    } else {
        1 + first_separator(p.drop_first())
    }
}

/// What stands before and at the first separator.
pub proof fn lemma_first_separator(p: Seq<u8>)
    ensures
        0 <= first_separator(p) <= p.len(),
        forall|j: int| 0 <= j < first_separator(p) ==> p[j] != SEPARATOR,
        first_separator(p) < p.len() ==> p[first_separator(p)] == SEPARATOR,
    decreases p.len(),
{
    if p.len() > 0 && p.first() != SEPARATOR {
        lemma_first_separator(p.drop_first());
        assert forall|j: int| 0 <= j < first_separator(p) implies p[j] != SEPARATOR by {
            if j > 0 {
                assert(p.drop_first()[j - 1] == p[j]);
            }
        }
    }
}

/// Whether a stretch between separators names something: it is neither empty nor
/// a lone `.`.
pub open spec fn names_something(c: Seq<u8>) -> bool {
    c.len() > 0 && c != seq![DOT]
}

/// The components of a relative path, without those that name nothing.
pub open spec fn components(p: Seq<u8>) -> Seq<Seq<u8>>
    decreases p.len(),
{
    proof {
        lemma_first_separator(p);
    }
    let n = first_separator(p);
    let head = p.take(n);
    let tail = if n < p.len() {
        components(p.skip(n + 1))
    } else {
        seq![]
    };
    if names_something(head) {
        seq![head] + tail
    } else {
        tail
    }
}

/// The path made of the components `cs`.
pub open spec fn path_of(cs: Seq<Seq<u8>>) -> Seq<u8>
    decreases cs.len(),
{
    if cs.len() == 0 {
        seq![]
    } else if cs.len() == 1 {
        cs[0]
    } else {
        path_of(cs.drop_last()) + seq![SEPARATOR] + cs.last()
    }
}

/// `p` without its leading component: what follows the first separator, tidied.
pub open spec fn without_first(p: Seq<u8>) -> Seq<u8> {
    let n = first_separator(p);
    if n < p.len() {
        path_of(components(p.skip(n + 1)))
    } else {
        seq![]
    }
}

fn separator_index(p: &[u8]) -> (r: usize)
    ensures
        r == first_separator(p@),
        r <= p.len(),
{
    let mut i: usize = 0;
    while i < p.len() && p[i] != SEPARATOR
        invariant
            i <= p.len(),
            forall|j: int| 0 <= j < i ==> p@[j] != SEPARATOR,
        decreases p.len() - i,
    {
        i = i + 1;
    }
    proof {
        lemma_first_separator(p@);
        let f = first_separator(p@);
        if f < i {
            assert(p@[f] != SEPARATOR);
        } else if i < f {
            assert(p@[i as int] != SEPARATOR);
        }
    }
    i
}

/// A path without its leading component, as `tar --strip-components=1` names what
/// it unpacks.
pub fn strip_first(p: &[u8]) -> (r: Vec<u8>)
    ensures
        r@ == without_first(p@),
{
    let mut out: Vec<u8> = Vec::new();
    let first: usize = separator_index(p);
    if first == p.len() {
        assert(out@ == without_first(p@));
        return out;
    }
    let ghost all = components(p@.skip(first + 1));
    let ghost mut done: Seq<Seq<u8>> = seq![];
    let mut i: usize = first + 1;
    assert(done + components(p@.skip(i as int)) == all);
    while i < p.len()
        invariant
            i <= p.len(),
            all == done + components(p@.skip(i as int)),
            out@ == path_of(done),
            out@.len() == 0 <==> done.len() == 0,
            forall|j: int| 0 <= j < done.len() ==> (#[trigger] done[j]).len() > 0,
        decreases p.len() - i,
    {
        let rest = &p[i..p.len()];
        assert(rest@ == p@.skip(i as int));
        let n: usize = separator_index(rest);
        let head = &rest[0..n];
        assert(head@ == rest@.take(n as int));
        let ghost tail = if n < rest@.len() {
            components(rest@.skip(n + 1))
        } else {
            seq![]
        };
        let dot: bool = head.len() == 1 && head[0] == DOT;
        assert(dot <==> head@ == seq![DOT]) by {
            if dot {
                assert(head@ == seq![DOT]);
            }
        }
        if head.len() > 0 && !dot {
            assert(components(rest@) == seq![head@] + tail);
            proof {
                let next = done.push(head@);
                assert(done + (seq![head@] + tail) == next + tail);
                assert(next.drop_last() == done);
            }
            if out.len() > 0 {
                out.push(SEPARATOR);
            }
            let ghost base = out@;
            let mut j: usize = 0;
            while j < head.len()
                invariant
                    j <= head.len(),
                    out@ == base + head@.take(j as int),
                decreases head.len() - j,
            {
                out.push(head[j]);
                j = j + 1;
            }
            assert(head@.take(j as int) == head@);
            proof {
                let next = done.push(head@);
                assert(path_of(next) == base + head@);
                done = next;
            }
        } else {
            assert(components(rest@) == tail);
        }
        if n == rest.len() {
            i = p.len();
            assert(p@.skip(i as int).len() == 0);
        } else {
            assert(rest@.skip(n + 1) == p@.skip(i + n + 1));
            i = i + n + 1;
        }
        assert(all == done + tail);
    }
    assert(p@.skip(i as int).len() == 0);
    assert(all == done);
    out
}

proof fn lemma_path_of_relative(cs: Seq<Seq<u8>>)
    requires
        forall|i: int|
            0 <= i < cs.len() ==> (#[trigger] cs[i]).len() > 0 && cs[i].first() != SEPARATOR,
    ensures
        cs.len() > 0 ==> path_of(cs).len() > 0 && path_of(cs).first() != SEPARATOR,
        cs.len() == 0 ==> path_of(cs).len() == 0,
    decreases cs.len(),
{
    if cs.len() == 1 {
        assert(cs[0].len() > 0);
    } else if cs.len() > 1 {
        let d = cs.drop_last();
        assert forall|i: int| 0 <= i < d.len() implies (#[trigger] d[i]).len() > 0
            && d[i].first() != SEPARATOR by {
            assert(d[i] == cs[i]);
        }
        lemma_path_of_relative(d);
    }
}

proof fn lemma_components(p: Seq<u8>)
    ensures
        forall|i: int|
            0 <= i < components(p).len() ==> names_something(#[trigger] components(p)[i])
                && !components(p)[i].contains(SEPARATOR),
    decreases p.len(),
{
    lemma_first_separator(p);
    let n = first_separator(p);
    let head = p.take(n);
    let tail = if n < p.len() {
        components(p.skip(n + 1))
    } else {
        seq![]
    };
    if n < p.len() {
        lemma_components(p.skip(n + 1));
    }
    assert(!head.contains(SEPARATOR));
    assert forall|i: int| 0 <= i < components(p).len() implies names_something(
        #[trigger] components(p)[i],
    ) && !components(p)[i].contains(SEPARATOR) by {
        if names_something(head) {
            if i > 0 {
                assert(components(p)[i] == tail[i - 1]);
            }
        } else {
            assert(components(p)[i] == tail[i]);
        }
    }
}

/// What is left of a path is never absolute, so it stays below the directory it
/// is joined to as far as its components do.
pub proof fn law_stripped_is_relative(p: Seq<u8>)
    ensures
        without_first(p).len() > 0 ==> without_first(p).first() != SEPARATOR,
{
    let n = first_separator(p);
    if n < p.len() {
        let cs = components(p.skip(n + 1));
        lemma_components(p.skip(n + 1));
        assert forall|i: int| 0 <= i < cs.len() implies (#[trigger] cs[i]).len() > 0
            && cs[i].first() != SEPARATOR by {
            assert(names_something(cs[i]));
            assert(!cs[i].contains(cs[i][0]) || cs[i][0] != SEPARATOR);
        }
        lemma_path_of_relative(cs);
    }
}

/// An absolute path is where it is, seen from anywhere. Another one is below the
/// directory, with one separator between the two.
pub proof fn law_join(a: Seq<char>, b: Seq<char>)
    ensures
        b.len() > 0 && b[0] == '/' ==> joined(a, b) == b,
        !(b.len() > 0 && b[0] == '/') ==> joined(seq![], b) == b,
        !(b.len() > 0 && b[0] == '/') ==> joined(a.push('/'), b) == a + seq!['/'] + b,
        !(b.len() > 0 && b[0] == '/') && a.len() > 0 && a.last() != '/' ==> joined(a, b) == a + seq![
            '/',
        ] + b,
{
    assert(Seq::<char>::empty() + b == b);
    assert(a.push('/') + b == a + seq!['/'] + b);
}

/// Separators and `.` components at the end of a path do not matter, and everything
/// else does.
pub proof fn law_tidy(p: Seq<char>)
    ensures
        p.len() > 0 ==> tidy(p.push('/')) == tidy(p),
        p.len() > 0 && p.last() == '/' ==> tidy(p.push('.')) == tidy(p),
        p.len() < 2 ==> tidy(p) == p,
        p.len() >= 2 && p.last() != '/' && !(p.last() == '.' && p[p.len() - 2] == '/') ==> tidy(p)
            == p,
{
    assert(p.push('/').drop_last() == p);
    assert(p.push('.').drop_last() == p);
}

/// Only the empty path and the root have no parent, and a path that is one name has
/// the empty one.
pub proof fn law_parent_of_the_top(p: Seq<char>)
    ensures
        parent_of(p) is None <==> tidy(p) == Seq::<char>::empty() || tidy(p) == seq!['/'],
        parent_of(p) == parent_of(tidy(p)),
        p.len() > 0 && !p.contains('/') ==> parent_of(p) == Some(Seq::<char>::empty()),
{
    lemma_tidy_tidy(p);
    if tidy(p).len() == 0 {
        assert(tidy(p) == Seq::<char>::empty());
    }
    if p.len() > 0 && !p.contains('/') {
        assert forall|i: int| 0 <= i < p.len() implies p[i] != '/' by {
            assert(p.contains(p[i]));
        }
        assert(tidy(p) == p);
        lemma_last_start(p);
        if last_start(p) > 0 {
            assert(p[last_start(p) - 1] == '/');
        }
        assert(p.take(0) == Seq::<char>::empty());
        assert(p != seq!['/']) by {
            assert(p[0] != '/');
        }
    }
}

proof fn lemma_tidy_tidy(p: Seq<char>)
    ensures
        tidy(tidy(p)) == tidy(p),
    decreases p.len(),
{
    if p.len() >= 2 && (p.last() == '/' || (p.last() == '.' && p[p.len() - 2] == '/')) {
        lemma_tidy_tidy(p.drop_last());
    }
}

proof fn lemma_last_start_of(d: Seq<char>, name: Seq<char>)
    requires
        d.len() > 0 ==> d.last() == '/',
        !name.contains('/'),
    ensures
        last_start(d + name) == d.len(),
{
    let t = d + name;
    lemma_last_start(t);
    let k = last_start(t);
    assert forall|i: int| 0 <= i < name.len() implies name[i] != '/' by {
        assert(name.contains(name[i]));
    }
    if k > d.len() {
        assert(t[k - 1] == name[k - 1 - d.len()]);
    } else if k < d.len() {
        assert(t[d.len() - 1] == '/');
    }
}

proof fn lemma_last_dot_of(stem: Seq<char>, e: Seq<char>)
    requires
        !e.contains('.'),
    ensures
        last_dot(stem + seq!['.'] + e) == stem.len(),
    decreases e.len(),
{
    let name = stem + seq!['.'] + e;
    if e.len() > 0 {
        assert(e.contains(e[e.len() - 1]));
        assert(name.last() == e.last());
        assert(name.drop_last() == stem + seq!['.'] + e.drop_last());
        assert forall|i: int| 0 <= i < e.drop_last().len() implies e.drop_last()[i] != '.' by {
            assert(e.contains(e[i]));
        }
        lemma_last_dot_of(stem, e.drop_last());
    } else {
        assert(name.last() == '.');
    }
}

/// The extension of a name is what stands behind its last dot: it is replaced, and
/// nothing else is. `..` is not a name.
pub proof fn law_extension_is_replaced(
    d: Seq<char>,
    stem: Seq<char>,
    e: Seq<char>,
    ext: Seq<char>,
)
    requires
        d.len() > 0 ==> d.last() == '/',
        stem.len() > 0,
        !stem.contains('/'),
        !e.contains('/'),
        !e.contains('.'),
        !(stem == seq!['.'] && e.len() == 0),
    ensures
        with_extension(d + stem + seq!['.'] + e, ext) == d + stem + seq!['.'] + ext,
        with_extension(d + seq!['.', '.'], ext) == d + seq!['.', '.'],
{
    let name = stem + seq!['.'] + e;
    let p = d + name;
    assert(p == d + stem + seq!['.'] + e);
    assert forall|i: int| 0 <= i < name.len() implies name[i] != '/' by {
        if i < stem.len() {
            assert(stem.contains(stem[i]));
        } else if i > stem.len() {
            assert(e.contains(e[i - stem.len() - 1]));
        }
    }
    assert(!name.contains('/'));
    assert(p.last() == name.last());
    assert(p[p.len() - 2] == name[name.len() - 2]);
    assert(tidy(p) == p);
    lemma_last_start_of(d, name);
    assert(p.skip(d.len() as int) == name);
    assert(p.take(d.len() as int) == d);
    lemma_last_dot_of(stem, e);
    assert(name.take(stem.len() as int) == stem);
    assert(name != seq!['.']) by {
        assert(name.len() >= 2);
    }
    assert(name != seq!['.', '.']) by {
        if name == seq!['.', '.'] {
            assert(name[0] == '.');
            assert(stem =~= seq!['.']);
        }
    }
    assert(self::stem(name) == stem);
    let dots = seq!['.', '.'];
    let q = d + dots;
    assert(!dots.contains('/'));
    assert(q.last() == '.' && q[q.len() - 2] == '.');
    assert(tidy(q) == q);
    lemma_last_start_of(d, dots);
    assert(q.skip(d.len() as int) == dots);
}

/// A name without a dot, or with none but in front, gets the extension behind it.
pub proof fn law_extension_is_added(d: Seq<char>, name: Seq<char>, ext: Seq<char>)
    requires
        d.len() > 0 ==> d.last() == '/',
        name.len() > 0,
        name != seq!['.'],
        !name.contains('/'),
        forall|i: int| 0 < i < name.len() ==> name[i] != '.',
    ensures
        with_extension(d + name, ext) == d + name + seq!['.'] + ext,
{
    let p = d + name;
    assert forall|i: int| 0 <= i < name.len() implies name[i] != '/' by {
        assert(name.contains(name[i]));
    }
    assert(p.last() == name.last());
    if name.len() == 1 && name[0] == '.' {
        assert(name == seq!['.']);
    }
    assert(tidy(p) == p);
    lemma_last_start_of(d, name);
    assert(p.skip(d.len() as int) == name);
    assert(p.take(d.len() as int) == d);
    lemma_no_last_dot(name);
    assert(name != seq!['.', '.']) by {
        if name == seq!['.', '.'] {
            assert(name[1] == '.');
        }
    }
    assert(stem(name) == name);
}

proof fn lemma_no_last_dot(name: Seq<char>)
    requires
        forall|i: int| 0 < i < name.len() ==> name[i] != '.',
    ensures
        last_dot(name) <= 0,
    decreases name.len(),
{
    reveal_with_fuel(last_dot, 2);
    if name.len() > 1 {
        assert(name[name.len() - 1] != '.');
        lemma_no_last_dot(name.drop_last());
    }
}

/// The components of a path are those between its separators, without the empty
/// ones and those that are a lone `.`.
pub proof fn law_components(a: Seq<u8>, b: Seq<u8>)
    ensures
        components(a + seq![0x2fu8] + b) == components(a) + components(b),
        !a.contains(0x2f) ==> components(a) == (if a.len() == 0 || a == seq![0x2eu8] {
            seq![]
        } else {
            seq![a]
        }),
    decreases a.len(),
{
    lemma_first_separator(a);
    let n = first_separator(a);
    let s = a + seq![0x2fu8] + b;
    if n == a.len() {
        assert forall|i: int| 0 <= i < a.len() implies s[i] != SEPARATOR by {
            assert(a[i] != SEPARATOR);
        }
        assert(s[n] == SEPARATOR);
        lemma_first_separator_is(s, n);
        assert(s.take(n) == a);
        assert(a.take(n) == a);
        assert(s.skip(n + 1) == b);
        assert(components(s) == components(a) + components(b));
        assert(components(a) == (if a.len() == 0 || a == seq![0x2eu8] {
            seq![]
        } else {
            seq![a]
        }));
    } else {
        assert(a.contains(a[n]));
        let rest = a.skip(n + 1);
        law_components(rest, b);
        assert forall|i: int| 0 <= i < n implies s[i] != SEPARATOR by {
            assert(a[i] != SEPARATOR);
        }
        lemma_first_separator_is(s, n);
        assert(s.take(n) == a.take(n));
        assert(s.skip(n + 1) == rest + seq![0x2fu8] + b);
        assert(components(s) == components(a) + components(b));
    }
}

proof fn lemma_first_separator_is(s: Seq<u8>, n: int)
    requires
        0 <= n <= s.len(),
        forall|i: int| 0 <= i < n ==> s[i] != SEPARATOR,
        n < s.len() ==> s[n] == SEPARATOR,
    ensures
        first_separator(s) == n,
{
    lemma_first_separator(s);
    let f = first_separator(s);
    if f < n {
        assert(s[f] != SEPARATOR);
    } else if n < f {
        assert(s[n] != SEPARATOR);
    }
}

/// A path is its components with a separator between each two.
pub proof fn law_path_of_components(cs: Seq<Seq<u8>>, c: Seq<u8>)
    ensures
        path_of(seq![]) == Seq::<u8>::empty(),
        path_of(seq![c]) == c,
        cs.len() > 0 ==> path_of(cs.push(c)) == path_of(cs) + seq![0x2fu8] + c,
{
    assert(cs.push(c).drop_last() == cs);
}

/// The leading component of a path goes with the separator behind it, and what
/// follows is tidied. Nothing is left of a path that is one component.
pub proof fn law_first_component_goes(first: Seq<u8>, rest: Seq<u8>)
    requires
        !first.contains(0x2f),
    ensures
        without_first(first + seq![0x2fu8] + rest) == path_of(components(rest)),
        without_first(first) == Seq::<u8>::empty(),
{
    let p = first + seq![0x2fu8] + rest;
    assert forall|i: int| 0 <= i < first.len() implies first[i] != SEPARATOR by {
        assert(first.contains(first[i]));
    }
    lemma_first_separator_is(p, first.len() as int);
    lemma_first_separator_is(first, first.len() as int);
    assert(p.skip(first.len() as int + 1) == rest);
}

/// Each of the names with a separator in front.
pub open spec fn slashed(names: Seq<Seq<u8>>) -> Seq<u8>
    decreases names.len(),
{
    if names.len() == 0 {
        seq![]
    } else {
        slashed(names.drop_last()) + seq![0x2fu8] + names.last()
    }
}

/// Whether bytes are a name that a component of a path can have.
pub open spec fn nameable(name: Seq<u8>) -> bool {
    name.len() > 0 && !name.contains(0x2f) && name != seq![0x2eu8]
}

/// Of a path made of names, all but the first are left, as they are and in order.
pub proof fn law_all_but_the_first_are_left(first: Seq<u8>, names: Seq<Seq<u8>>)
    requires
        !first.contains(0x2f),
        names.len() > 0,
        forall|i: int| 0 <= i < names.len() ==> nameable(#[trigger] names[i]),
    ensures
        without_first(first + slashed(names)) == slashed(names).skip(1),
        without_first(first + slashed(names)).len() > 0,
{
    lemma_slashed(names);
    let rest = slashed(names).skip(1);
    assert(first + slashed(names) == first + seq![0x2fu8] + rest);
    law_first_component_goes(first, rest);
}

proof fn lemma_slashed(names: Seq<Seq<u8>>)
    requires
        names.len() > 0,
        forall|i: int| 0 <= i < names.len() ==> nameable(#[trigger] names[i]),
    ensures
        slashed(names).len() > 1,
        slashed(names)[0] == 0x2f,
        components(slashed(names).skip(1)) == names,
        path_of(names) == slashed(names).skip(1),
    decreases names.len(),
{
    reveal_with_fuel(slashed, 2);
    let d = names.drop_last();
    let c = names.last();
    let s = slashed(names);
    assert(nameable(names[names.len() - 1]));
    assert(d.push(c) == names);
    law_path_of_components(d, c);
    law_components(c, seq![]);
    if d.len() == 0 {
        assert(slashed(d) == Seq::<u8>::empty());
        assert(s == seq![0x2fu8] + c);
        assert(s.skip(1) == c);
        assert(names == seq![c]);
    } else {
        assert forall|i: int| 0 <= i < d.len() implies nameable(#[trigger] d[i]) by {
            assert(d[i] == names[i]);
        }
        lemma_slashed(d);
        assert(s.skip(1) == slashed(d).skip(1) + seq![0x2fu8] + c);
        law_components(slashed(d).skip(1), c);
        assert(d + seq![c] == names);
    }
}

/// The path that components make up is empty exactly if there are none.
pub proof fn lemma_path_of_components(p: Seq<u8>)
    ensures
        path_of(components(p)).len() == 0 <==> components(p).len() == 0,
{
    let cs = components(p);
    lemma_components(p);
    assert forall|i: int| 0 <= i < cs.len() implies (#[trigger] cs[i]).len() > 0 && cs[i].first()
        != SEPARATOR by {
        assert(names_something(cs[i]));
        assert(cs[i].contains(cs[i][0]));
    }
    lemma_path_of_relative(cs);
}

} // verus!
