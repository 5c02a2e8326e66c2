//! `.env` files: one `KEY=VALUE` pair per line.
//!
//! Reading is lenient: blank lines and comments are skipped, an `export ` in
//! front of a key is dropped, and quotes around a value are taken off. Writing
//! quotes exactly the values that need it, so that what was written is read back.
use crate::text;
use vstd::prelude::*;

verus! {

/// A single KEY=VALUE pair.
#[derive(Debug, PartialEq, Eq)]
pub struct EnvVar {
    pub key: String,
    pub value: String,
}

/// The text of a pair.
pub struct EnvVarView {
    pub key: Seq<char>,
    pub value: Seq<char>,
}

impl DeepView for EnvVar {
    type V = EnvVarView;

    open spec fn deep_view(&self) -> EnvVarView {
        EnvVarView { key: self.key@, value: self.value@ }
    }
}

impl Clone for EnvVar {
    fn clone(&self) -> (r: Self)
        ensures
            r == *self,
    {
        EnvVar { key: self.key.clone(), value: self.value.clone() }
    }
}

/// `s` with every backslash that stands in front of an `x` taken out, from left
/// to right.
pub open spec fn unescaped(s: Seq<char>, x: char) -> Seq<char>
    decreases s.len(),
{
    if s.len() == 0 {
        s
    } else if s.len() >= 2 && s[0] == '\\' && s[1] == x {
        seq![x] + unescaped(s.skip(2), x)
    } else {
        seq![s[0]] + unescaped(s.skip(1), x)
    }
}

/// `s` with a backslash put in front of every `x`.
pub open spec fn escaped(s: Seq<char>, x: char) -> Seq<char>
    decreases s.len(),
{
    if s.len() == 0 {
        s
    } else if s[0] == x {
        seq!['\\', x] + escaped(s.skip(1), x)
    } else {
        seq![s[0]] + escaped(s.skip(1), x)
    }
}

/// Whether `s` is at least two characters long and has `q` at both ends.
pub open spec fn enclosed(s: Seq<char>, q: char) -> bool {
    s.len() >= 2 && s.first() == q && s.last() == q
}

/// The value that the text behind the `=` stands for: single quotes protect
/// everything between them, double quotes allow `\"` and `\\`, and a text without
/// quotes stands for itself.
pub open spec fn unquoted(s: Seq<char>) -> Seq<char> {
    if enclosed(s, '\'') {
        s.subrange(1, s.len() - 1)
    } else if enclosed(s, '"') {
        unescaped(unescaped(s.subrange(1, s.len() - 1), '"'), '\\')
    } else {
        s
    }
}

/// A character that cannot stand in a value without quotes.
pub open spec fn special(c: char) -> bool {
    text::is_white(c) || c == '#' || c == '"' || c == '\'' || c == '=' || c == '$'
}

/// Whether a value has to be quoted.
pub open spec fn needs_quote(v: Seq<char>) -> bool {
    v.len() == 0 || exists|i: int| 0 <= i < v.len() && special(#[trigger] v[i])
}

/// How a value is written: as it is, in single quotes where it has none itself,
/// and otherwise in double quotes with `\` and `"` escaped.
pub open spec fn quoted(v: Seq<char>) -> Seq<char> {
    if !needs_quote(v) {
        v
    } else if !v.contains('\'') {
        seq!['\''] + v + seq!['\'']
    } else {
        seq!['"'] + escaped(escaped(v, '\\'), '"') + seq!['"']
    }
}

/// The lines of a text. A carriage return in front of a newline stays with its
/// line: it is white space, which every reader of a line trims.
pub open spec fn lines(s: Seq<char>) -> Seq<Seq<char>>
    decreases s.len(),
{
    if s.len() == 0 {
        seq![]
    } else {
        proof {
            text::lemma_find(s, '\n');
        }
        let n = text::find(s, '\n');
        seq![s.take(n)] + (if n < s.len() {
            lines(s.skip(n + 1))
        } else {
            seq![]
        })
    }
}

/// `l` without an `export ` at its front.
pub open spec fn without_export(l: Seq<char>) -> Seq<char> {
    if text::starts_with(l, "export "@) {
        l.skip("export "@.len() as int)
    } else {
        l
    }
}

/// The pair that a line holds, if it holds one.
pub open spec fn line_entry(line: Seq<char>) -> Option<EnvVarView> {
    let l = text::trimmed(line);
    if l.len() == 0 || l.first() == '#' {
        None
    } else {
        let d = without_export(l);
        let n = text::find(d, '=');
        if n == d.len() {
            None
        } else {
            let key = text::trimmed(d.take(n));
            if key.len() == 0 {
                None
            } else {
                Some(EnvVarView { key, value: unquoted(text::trimmed(d.skip(n + 1))) })
            }
        }
    }
}

/// The pairs that the lines `ls` hold, in order.
pub open spec fn entries(ls: Seq<Seq<char>>) -> Seq<EnvVarView>
    decreases ls.len(),
{
    if ls.len() == 0 {
        seq![]
    } else {
        match line_entry(ls.first()) {
            Some(e) => seq![e] + entries(ls.drop_first()),
            None => entries(ls.drop_first()),
        }
    }
}

/// The pairs that a file's contents hold.
pub open spec fn parsed(s: Seq<char>) -> Seq<EnvVarView> {
    entries(lines(s))
}

/// The line that a pair is written as, without its newline.
pub open spec fn entry_line(v: EnvVarView) -> Seq<char> {
    v.key + seq!['='] + quoted(v.value)
}

/// The contents of a file that holds `vars`.
pub open spec fn rendered(vars: Seq<EnvVarView>) -> Seq<char>
    decreases vars.len(),
{
    if vars.len() == 0 {
        seq![]
    } else {
        entry_line(vars.first()) + seq!['\n'] + rendered(vars.drop_first())
    }
}

/// Takes out every backslash that stands in front of an `x`.
fn unescape(s: &[char], x: char) -> (r: Vec<char>)
    ensures
        r@ == unescaped(s@, x),
{
    let mut out: Vec<char> = Vec::new();
    let mut i: usize = 0;
    assert(s@.skip(0) == s@);
    while i < s.len()
        invariant
            i <= s.len(),
            unescaped(s@, x) == out@ + unescaped(s@.skip(i as int), x),
        decreases s.len() - i,
    {
        let ghost rest = s@.skip(i as int);
        if i + 1 < s.len() && s[i] == '\\' && s[i + 1] == x {
            assert(rest.skip(2) == s@.skip(i + 2));
            assert(out@ + (seq![x] + unescaped(rest.skip(2), x)) == out@.push(x) + unescaped(
                rest.skip(2),
                x,
            ));
            out.push(x);
            i = i + 2;
        } else {
            assert(rest.skip(1) == s@.skip(i + 1));
            assert(out@ + (seq![rest[0]] + unescaped(rest.skip(1), x)) == out@.push(rest[0])
                + unescaped(rest.skip(1), x));
            out.push(s[i]);
            i = i + 1;
        }
    }
    assert(out@ + unescaped(s@.skip(i as int), x) == out@);
    out
}

/// Puts a backslash in front of every `x`.
fn escape(s: &[char], x: char) -> (r: Vec<char>)
    ensures
        r@ == escaped(s@, x),
{
    let mut out: Vec<char> = Vec::new();
    let mut i: usize = 0;
    assert(s@.skip(0) == s@);
    while i < s.len()
        invariant
            i <= s.len(),
            escaped(s@, x) == out@ + escaped(s@.skip(i as int), x),
        decreases s.len() - i,
    {
        let ghost rest = s@.skip(i as int);
        assert(rest.skip(1) == s@.skip(i + 1));
        if s[i] == x {
            assert(out@ + (seq!['\\', x] + escaped(rest.skip(1), x)) == out@.push('\\').push(x)
                + escaped(rest.skip(1), x));
            out.push('\\');
            out.push(x);
        } else {
            assert(out@ + (seq![rest[0]] + escaped(rest.skip(1), x)) == out@.push(rest[0])
                + escaped(rest.skip(1), x));
            out.push(s[i]);
        }
        i = i + 1;
    }
    assert(out@ + escaped(s@.skip(i as int), x) == out@);
    out
}

/// The value that the characters behind a `=` stand for.
fn unquote_chars(s: &[char]) -> (r: String)
    ensures
        r@ == unquoted(s@),
{
    let n: usize = s.len();
    if n >= 2 && s[0] == '\'' && s[n - 1] == '\'' {
        return text::string_of(&s[1..n - 1]);
    }
    if n >= 2 && s[0] == '"' && s[n - 1] == '"' {
        let once = unescape(&s[1..n - 1], '"');
        let twice = unescape(once.as_slice(), '\\');
        return text::string_of(twice.as_slice());
    }
    text::string_of(s)
}

/// Takes the quotes off a value.
pub fn unquote(s: &str) -> (r: String)
    ensures
        r@ == unquoted(s@),
{
    let cs = text::chars_of(s);
    unquote_chars(cs.as_slice())
}

/// Puts quotes around a value that needs them.
pub fn format_value(v: &str) -> (r: String)
    ensures
        r@ == quoted(v@),
{
    let cs = text::chars_of(v);
    let mut must_quote: bool = cs.len() == 0;
    let mut has_single: bool = false;
    let mut i: usize = 0;
    while i < cs.len()
        invariant
            i <= cs.len(),
            cs@ == v@,
            must_quote == (v@.len() == 0 || exists|j: int| 0 <= j < i && special(#[trigger] v@[j])),
            has_single == exists|j: int| 0 <= j < i && v@[j] == '\'',
        decreases cs.len() - i,
    {
        let c = cs[i];
        assert(v@[i as int] == c);
        if text::white(c) || c == '#' || c == '"' || c == '\'' || c == '=' || c == '$' {
            assert(special(v@[i as int]));
            must_quote = true;
        }
        if c == '\'' {
            has_single = true;
        }
        i = i + 1;
    }
    if !must_quote {
        return text::string_of(cs.as_slice());
    }
    let mut out = String::new();
    if !has_single {
        out.push('\'');
        out.append(v);
        out.push('\'');
        assert(out@ == seq!['\''] + v@ + seq!['\'']);
    } else {
        let once = escape(cs.as_slice(), '\\');
        let twice = escape(once.as_slice(), '"');
        let body = text::string_of(twice.as_slice());
        out.push('"');
        out.append(body.as_str());
        out.push('"');
        assert(out@ == seq!['"'] + body@ + seq!['"']);
    }
    out
}

/// The pair that one line holds, if it holds one.
fn parse_line(line: &[char]) -> (r: Option<EnvVar>)
    ensures
        r.deep_view() == line_entry(line@),
{
    let l = text::trim(line);
    if l.len() == 0 || l[0] == '#' {
        return None;
    }
    let prefix = text::chars_of("export ");
    let d = if text::has_prefix(l, prefix.as_slice()) {
        &l[prefix.len()..l.len()]
    } else {
        l
    };
    assert(d@ == without_export(l@));
    let n: usize = text::index_of(d, '=');
    if n == d.len() {
        return None;
    }
    assert(d@.subrange(0, n as int) == d@.take(n as int));
    let key = text::trim(&d[0..n]);
    if key.len() == 0 {
        return None;
    }
    assert(d@.subrange(n + 1, d@.len() as int) == d@.skip(n + 1));
    let value = unquote_chars(text::trim(&d[n + 1..d.len()]));
    Some(EnvVar { key: text::string_of(key), value })
}

/// Parse .env contents into key/value pairs. Comments and blank lines are
/// ignored; surrounding quotes are stripped.
pub fn parse(content: &str) -> (r: Vec<EnvVar>)
    ensures
        r.deep_view() == parsed(content@),
{
    let cs = text::chars_of(content);
    let s = cs.as_slice();
    let mut out: Vec<EnvVar> = Vec::new();
    let mut i: usize = 0;
    assert(s@.skip(0) == s@);
    assert(out.deep_view() + entries(lines(s@)) == entries(lines(s@)));
    while i < s.len()
        invariant
            i <= s.len(),
            s@ == content@,
            parsed(content@) == out.deep_view() + entries(lines(s@.skip(i as int))),
        decreases s.len() - i,
    {
        let rest = &s[i..s.len()];
        assert(rest@ == s@.skip(i as int));
        let n: usize = text::index_of(rest, '\n');
        let ghost before = out.deep_view();
        let ghost tail = if n < rest@.len() {
            lines(rest@.skip(n + 1))
        } else {
            seq![]
        };
        assert(rest@.subrange(0, n as int) == rest@.take(n as int));
        assert(lines(rest@) == seq![rest@.take(n as int)] + tail);
        assert(lines(rest@).drop_first() == tail);
        match parse_line(&rest[0..n]) {
            Some(e) => {
                out.push(e);
                assert(out.deep_view() == before.push(e.deep_view()));
                assert(before.push(e.deep_view()) + entries(tail) == before + (seq![e.deep_view()]
                    + entries(tail)));
            },
            None => {},
        }
        if n == rest.len() {
            i = s.len();
            assert(s@.skip(i as int).len() == 0);
        } else {
            assert(rest@.skip(n + 1) == s@.skip(i + n + 1));
            i = i + n + 1;
        }
    }
    assert(s@.skip(i as int).len() == 0);
    assert(out.deep_view() + entries(lines(s@.skip(i as int))) == out.deep_view());
    out
}

/// The pairs that a .env file holds, given what came of reading it: an empty
/// list if the file could not be read.
pub fn read(content: Option<&str>) -> (r: Vec<EnvVar>)
    ensures
        r.deep_view() == (match content {
            Some(c) => parsed(c@),
            None => seq![],
        }),
{
    match content {
        Some(c) => parse(c),
        None => {
            let out: Vec<EnvVar> = Vec::new();
            assert(out.deep_view() == Seq::<EnvVarView>::empty());
            out
        },
    }
}

/// The contents of the .env file that holds `vars`.
pub fn write(vars: &[EnvVar]) -> (r: String)
    ensures
        r@ == rendered(vars@.map_values(|v: EnvVar| v.deep_view())),
{
    let mut out = String::new();
    let mut i: usize = 0;
    let ghost all = vars@.map_values(|v: EnvVar| v.deep_view());
    assert(all.skip(0) == all);
    while i < vars.len()
        invariant
            i <= vars.len(),
            all == vars@.map_values(|v: EnvVar| v.deep_view()),
            rendered(all) == out@ + rendered(all.skip(i as int)),
        decreases vars.len() - i,
    {
        let ghost before = out@;
        let value = format_value(vars[i].value.as_str());
        out.append(vars[i].key.as_str());
        out.push('=');
        out.append(value.as_str());
        out.push('\n');
        proof {
            let rest = all.skip(i as int);
            assert(rest.drop_first() == all.skip(i + 1));
            assert(rest.first() == vars@[i as int].deep_view());
            assert(out@ == before + (entry_line(rest.first()) + seq!['\n']));
            assert(out@ + rendered(all.skip(i + 1)) == before + (entry_line(rest.first())
                + seq!['\n'] + rendered(rest.drop_first())));
        }
        i = i + 1;
    }
    assert(all.skip(i as int).len() == 0);
    assert(out@ + rendered(all.skip(i as int)) == out@);
    out
}

/// Whether a pair survives being written and read back: its key is a key that a
/// line can begin with, and its value has no line break.
pub open spec fn storable(v: EnvVarView) -> bool {
    &&& v.key.len() > 0
    &&& text::trimmed(v.key) == v.key
    &&& !v.key.contains('=')
    &&& !v.key.contains('\n')
    &&& v.key.first() != '#'
    &&& !text::starts_with(v.key, "export "@)
    &&& !v.value.contains('\n')
}

proof fn lemma_unescape_escape(t: Seq<char>, x: char)
    ensures
        unescaped(escaped(t, x), x) == t,
        x != '\\' && escaped(t, x).len() > 0 ==> escaped(t, x).first() != x,
    decreases t.len(),
{
    if t.len() > 0 {
        let r = escaped(t.skip(1), x);
        lemma_unescape_escape(t.skip(1), x);
        let e = escaped(t, x);
        if t[0] == x {
            assert(e.skip(2) == r);
            assert(unescaped(e, x) == seq![x] + t.skip(1));
        } else {
            assert(e.skip(1) == r);
            assert(e.len() >= 2 ==> e[1] == r[0]);
            assert(!(e.len() >= 2 && e[0] == '\\' && e[1] == x));
            assert(unescaped(e, x) == seq![t[0]] + t.skip(1));
        }
        assert(t == seq![t[0]] + t.skip(1));
    }
}

proof fn lemma_escaped_chars(t: Seq<char>, x: char, c: char)
    requires
        c != '\\',
        !t.contains(c),
    ensures
        !escaped(t, x).contains(c),
    decreases t.len(),
{
    if t.len() > 0 {
        let r = escaped(t.skip(1), x);
        assert(t.contains(t[0]));
        assert forall|i: int| 0 <= i < t.skip(1).len() implies t.skip(1)[i] != c by {
            assert(t.contains(t[i + 1]));
        }
        lemma_escaped_chars(t.skip(1), x, c);
        let e = escaped(t, x);
        let k: int = if t[0] == x {
            2
        } else {
            1
        };
        assert forall|i: int| 0 <= i < e.len() implies e[i] != c by {
            if i >= k {
                assert(e[i] == r[i - k]);
                assert(r.contains(r[i - k]));
            }
        }
    }
}

proof fn lemma_unescaped_chars(t: Seq<char>, x: char, c: char)
    requires
        !t.contains(c),
    ensures
        !unescaped(t, x).contains(c),
    decreases t.len(),
{
    if t.len() > 0 {
        let pair = t.len() >= 2 && t[0] == '\\' && t[1] == x;
        let k: int = if pair {
            2
        } else {
            1
        };
        let u = t.skip(k);
        assert forall|i: int| 0 <= i < u.len() implies u[i] != c by {
            assert(t.contains(t[i + k]));
        }
        lemma_unescaped_chars(u, x, c);
        let e = unescaped(t, x);
        let r = unescaped(u, x);
        assert(t.contains(t[k - 1]));
        assert forall|i: int| 0 <= i < e.len() implies e[i] != c by {
            if i > 0 {
                assert(e[i] == r[i - 1]);
                assert(r.contains(r[i - 1]));
            }
        }
    }
}

/// Taking the quotes off undoes putting them on, for every value.
pub proof fn law_unquote_undoes_quote(v: Seq<char>)
    ensures
        unquoted(quoted(v)) == v,
{
    let q = quoted(v);
    if !needs_quote(v) {
        assert(!special(v[0]));
    } else if !v.contains('\'') {
        assert(q.subrange(1, q.len() - 1) == v);
    } else {
        let e = escaped(escaped(v, '\\'), '"');
        assert(q.subrange(1, q.len() - 1) == e);
        lemma_unescape_escape(escaped(v, '\\'), '"');
        lemma_unescape_escape(v, '\\');
    }
}

/// A written value is never empty, never has white space at its ends, and has a
/// line break only if the value itself has one.
pub proof fn law_quoted_shape(v: Seq<char>)
    ensures
        quoted(v).len() > 0,
        text::trimmed(quoted(v)) == quoted(v),
        quoted(v).contains('\n') <==> v.contains('\n'),
{
    let q = quoted(v);
    if !needs_quote(v) {
        assert(!special(v[0]));
        assert(!special(v[v.len() - 1]));
        text::lemma_trimmed_fixed(q);
    } else if !v.contains('\'') {
        text::lemma_trimmed_fixed(q);
        if v.contains('\n') {
            let i = choose|i: int| 0 <= i < v.len() && v[i] == '\n';
            assert(q[i + 1] == '\n');
        }
        if q.contains('\n') {
            let i = choose|i: int| 0 <= i < q.len() && q[i] == '\n';
            assert(v[i - 1] == '\n');
        }
    } else {
        text::lemma_trimmed_fixed(q);
        let e1 = escaped(v, '\\');
        let e = escaped(e1, '"');
        if !v.contains('\n') {
            lemma_escaped_chars(v, '\\', '\n');
            lemma_escaped_chars(e1, '"', '\n');
            if q.contains('\n') {
                let i = choose|i: int| 0 <= i < q.len() && q[i] == '\n';
                assert(e[i - 1] == '\n');
            }
        } else {
            lemma_unescape_escape(v, '\\');
            lemma_unescape_escape(e1, '"');
            if !e.contains('\n') {
                lemma_unescaped_chars(e, '"', '\n');
                lemma_unescaped_chars(e1, '\\', '\n');
            }
            let i = choose|i: int| 0 <= i < e.len() && e[i] == '\n';
            assert(q[i + 1] == '\n');
        }
    }
}

/// A line of one pair is read back as that pair.
proof fn lemma_entry_line(v: EnvVarView)
    requires
        storable(v),
    ensures
        line_entry(entry_line(v)) == Some(v),
        !entry_line(v).contains('\n'),
{
    reveal_strlit("export ");
    let q = quoted(v.value);
    let l = entry_line(v);
    law_quoted_shape(v.value);
    law_unquote_undoes_quote(v.value);
    text::lemma_trimmed(v.key);
    text::lemma_trimmed(q);
    assert(l.first() == v.key.first());
    assert(l.last() == q.last());
    text::lemma_trimmed_fixed(l);
    assert forall|j: int| 0 <= j < v.key.len() implies l[j] == v.key[j] && l[j] != '=' by {
        assert(v.key.contains(v.key[j]));
    }
    let p = "export "@;
    if text::starts_with(l, p) {
        assert(forall|j: int| 0 <= j < 7 ==> l.take(7)[j] == p[j]);
        assert forall|j: int| 0 <= j < 7 implies l[j] == p[j] by {
            assert(l.take(7)[j] == l[j]);
        }
        if v.key.len() < 7 {
            assert(l[v.key.len() as int] == '=');
            assert(false);
        }
        assert(v.key.take(7) == p);
        assert(false);
    }
    text::lemma_find_unique(l, '=', v.key.len() as int);
    assert(l.take(v.key.len() as int) == v.key);
    assert(l.skip(v.key.len() as int + 1) == q);
    if l.contains('\n') {
        let i = choose|i: int| 0 <= i < l.len() && l[i] == '\n';
        if i < v.key.len() {
            assert(v.key.contains(v.key[i]));
        } else if i > v.key.len() {
            assert(q[i - v.key.len() - 1] == '\n');
        }
    }
}

/// A pair whose own line is read back as the pair itself is storable.
proof fn lemma_entry_line_only(v: EnvVarView)
    requires
        !v.key.contains('\n'),
        !v.value.contains('\n'),
        line_entry(entry_line(v)) == Some(v),
    ensures
        storable(v),
{
    reveal_strlit("export ");
    let line = entry_line(v);
    let l = text::trimmed(line);
    let d = without_export(l);
    let n = text::find(d, '=');
    text::lemma_find(d, '=');
    text::lemma_trimmed(d.take(n));
    text::lemma_trimmed_fixed(v.key);
    assert(v.key == text::trimmed(d.take(n)));
    assert forall|j: int| 0 <= j < v.key.len() implies v.key[j] != '=' by {
        let a = d.take(n).len() - text::trim_start(d.take(n)).len();
        assert(v.key[j] == d.take(n)[a + j]);
        assert(d.take(n)[a + j] == d[a + j]);
    }
    assert(!v.key.contains('='));
    // The line begins with the key, and what follows the key keeps it from being trimmed away.
    law_quoted_shape(v.value);
    let q = quoted(v.value);
    text::lemma_trimmed(q);
    assert(line.first() == v.key.first());
    assert(line.last() == q.last());
    text::lemma_trimmed_fixed(line);
    assert(l == line);
    if text::starts_with(v.key, "export "@) {
        assert(line.take(7) == v.key.take(7));
        assert(d == line.skip(7));
        assert forall|j: int| 0 <= j < v.key.len() - 7 implies d[j] != '=' by {
            assert(d[j] == line[j + 7]);
            assert(line[j + 7] == v.key[j + 7]);
            assert(v.key.contains(v.key[j + 7]));
        }
        assert(d[v.key.len() - 7] == line[v.key.len() as int]);
        text::lemma_find_unique(d, '=', v.key.len() - 7);
        assert(v.key.len() <= v.key.len() - 7);
    }
}

/// A first line without a line break is read on its own.
proof fn lemma_first_line(l: Seq<char>, rest: Seq<char>)
    requires
        !l.contains('\n'),
    ensures
        parsed(l + seq!['\n'] + rest) == (match line_entry(l) {
            Some(e) => seq![e] + parsed(rest),
            None => parsed(rest),
        }),
{
    let s = l + seq!['\n'] + rest;
    assert forall|j: int| 0 <= j < l.len() implies s[j] != '\n' by {
        assert(l.contains(l[j]));
    }
    text::lemma_find_unique(s, '\n', l.len() as int);
    assert(s.take(l.len() as int) == l);
    assert(s.skip(l.len() as int + 1) == rest);
    assert(lines(s) == seq![l] + lines(rest));
    assert(lines(s).drop_first() == lines(rest));
}

/// Whether neither the key nor the value has a line break.
spec fn one_line(v: EnvVarView) -> bool {
    !v.key.contains('\n') && !v.value.contains('\n')
}

proof fn lemma_one_line(v: EnvVarView)
    requires
        one_line(v),
    ensures
        !entry_line(v).contains('\n'),
{
    let l = entry_line(v);
    let q = quoted(v.value);
    law_quoted_shape(v.value);
    if l.contains('\n') {
        let i = choose|i: int| 0 <= i < l.len() && l[i] == '\n';
        if i < v.key.len() {
            assert(v.key.contains(v.key[i]));
        } else if i > v.key.len() {
            assert(q[i - v.key.len() - 1] == '\n');
        }
    }
}

/// Nothing that is read has a line break in it.
proof fn lemma_entries_one_line(ls: Seq<Seq<char>>)
    requires
        forall|i: int| 0 <= i < ls.len() ==> !(#[trigger] ls[i]).contains('\n'),
    ensures
        forall|i: int| 0 <= i < entries(ls).len() ==> one_line(#[trigger] entries(ls)[i]),
    decreases ls.len(),
{
    if ls.len() > 0 {
        let r = entries(ls.drop_first());
        lemma_entries_one_line(ls.drop_first());
        if let Some(e) = line_entry(ls.first()) {
            lemma_line_entry_one_line(ls.first());
            assert forall|i: int| 0 <= i < entries(ls).len() implies one_line(
                #[trigger] entries(ls)[i],
            ) by {
                if i > 0 {
                    assert(entries(ls)[i] == r[i - 1]);
                }
            }
        }
    }
}

proof fn lemma_sub_contains(s: Seq<char>, a: int, b: int, c: char)
    requires
        0 <= a <= b <= s.len(),
        !s.contains(c),
    ensures
        !s.subrange(a, b).contains(c),
{
    let t = s.subrange(a, b);
    if t.contains(c) {
        let i = choose|i: int| 0 <= i < t.len() && t[i] == c;
        assert(s[a + i] == c);
    }
}

proof fn lemma_line_entry_one_line(line: Seq<char>)
    requires
        !line.contains('\n'),
    ensures
        line_entry(line) is Some ==> one_line(line_entry(line)->0),
{
    reveal_strlit("export ");
    let l = text::trimmed(line);
    text::lemma_trimmed(line);
    let a = line.len() - text::trim_start(line).len();
    lemma_sub_contains(line, a, a + l.len(), '\n');
    if let Some(e) = line_entry(line) {
        let d = without_export(l);
        let k: int = l.len() - d.len();
        assert(d == l.subrange(k, l.len() as int));
        lemma_sub_contains(l, k, l.len() as int, '\n');
        let n = text::find(d, '=');
        text::lemma_find(d, '=');
        assert(d.take(n) == d.subrange(0, n));
        lemma_sub_contains(d, 0, n, '\n');
        text::lemma_trimmed(d.take(n));
        let a1 = d.take(n).len() - text::trim_start(d.take(n)).len();
        lemma_sub_contains(d.take(n), a1, a1 + e.key.len(), '\n');
        let w = d.skip(n + 1);
        assert(w == d.subrange(n + 1, d.len() as int));
        lemma_sub_contains(d, n + 1, d.len() as int, '\n');
        text::lemma_trimmed(w);
        let t = text::trimmed(w);
        let a2 = w.len() - text::trim_start(w).len();
        lemma_sub_contains(w, a2, a2 + t.len(), '\n');
        if t.len() >= 2 {
            let m = t.subrange(1, t.len() - 1);
            lemma_sub_contains(t, 1, t.len() - 1, '\n');
            lemma_unescaped_chars(m, '"', '\n');
            lemma_unescaped_chars(unescaped(m, '"'), '\\', '\n');
        }
    }
}

proof fn lemma_lines_clean(s: Seq<char>)
    ensures
        forall|i: int| 0 <= i < lines(s).len() ==> !(#[trigger] lines(s)[i]).contains('\n'),
    decreases s.len(),
{
    if s.len() > 0 {
        let n = text::find(s, '\n');
        text::lemma_find(s, '\n');
        let first = s.take(n);
        assert(!first.contains('\n'));
        if n < s.len() {
            let r = lines(s.skip(n + 1));
            lemma_lines_clean(s.skip(n + 1));
            assert forall|i: int| 0 <= i < lines(s).len() implies !(#[trigger] lines(
                s,
            )[i]).contains('\n') by {
                if i > 0 {
                    assert(lines(s)[i] == r[i - 1]);
                }
            }
        }
    }
}

proof fn lemma_at_most_one_each(vars: Seq<EnvVarView>)
    requires
        forall|i: int| 0 <= i < vars.len() ==> one_line(#[trigger] vars[i]),
    ensures
        parsed(rendered(vars)).len() <= vars.len(),
    decreases vars.len(),
{
    if vars.len() > 0 {
        let rest = vars.drop_first();
        assert forall|i: int| 0 <= i < rest.len() implies one_line(#[trigger] rest[i]) by {
            assert(rest[i] == vars[i + 1]);
        }
        lemma_at_most_one_each(rest);
        lemma_one_line(vars[0]);
        lemma_first_line(entry_line(vars[0]), rendered(rest));
    }
}

proof fn lemma_round_trip_if(vars: Seq<EnvVarView>)
    requires
        forall|i: int| 0 <= i < vars.len() ==> storable(#[trigger] vars[i]),
    ensures
        parsed(rendered(vars)) == vars,
    decreases vars.len(),
{
    if vars.len() > 0 {
        let rest = vars.drop_first();
        assert forall|i: int| 0 <= i < rest.len() implies storable(#[trigger] rest[i]) by {
            assert(rest[i] == vars[i + 1]);
        }
        lemma_round_trip_if(rest);
        assert(storable(vars[0]));
        lemma_entry_line(vars[0]);
        lemma_first_line(entry_line(vars[0]), rendered(rest));
        assert(vars == seq![vars[0]] + rest);
    }
}

proof fn lemma_round_trip_only_if(vars: Seq<EnvVarView>)
    requires
        parsed(rendered(vars)) == vars,
        forall|i: int| 0 <= i < vars.len() ==> one_line(#[trigger] vars[i]),
    ensures
        forall|i: int| 0 <= i < vars.len() ==> storable(#[trigger] vars[i]),
    decreases vars.len(),
{
    if vars.len() > 0 {
        let rest = vars.drop_first();
        assert forall|i: int| 0 <= i < rest.len() implies one_line(#[trigger] rest[i]) by {
            assert(rest[i] == vars[i + 1]);
        }
        assert(one_line(vars[0]));
        lemma_one_line(vars[0]);
        lemma_first_line(entry_line(vars[0]), rendered(rest));
        lemma_at_most_one_each(rest);
        let p = parsed(rendered(rest));
        match line_entry(entry_line(vars[0])) {
            None => {
                assert(false);
            },
            Some(e) => {
                assert((seq![e] + p)[0] == vars[0]);
                assert(p == (seq![e] + p).drop_first());
                assert(p == rest);
                lemma_entry_line_only(vars[0]);
                lemma_round_trip_only_if(rest);
                assert forall|i: int| 0 <= i < vars.len() implies storable(#[trigger] vars[i]) by {
                    if i > 0 {
                        assert(vars[i] == rest[i - 1]);
                    }
                }
            },
        }
    }
}

/// Reading a written file gives back what was written, exactly when every pair is
/// storable.
pub proof fn law_read_gives_back_write(vars: Seq<EnvVarView>)
    ensures
        parsed(rendered(vars)) == vars <==> forall|i: int|
            0 <= i < vars.len() ==> storable(#[trigger] vars[i]),
{
    if parsed(rendered(vars)) == vars {
        lemma_lines_clean(rendered(vars));
        lemma_entries_one_line(lines(rendered(vars)));
        lemma_round_trip_only_if(vars);
    }
    if forall|i: int| 0 <= i < vars.len() ==> storable(#[trigger] vars[i]) {
        lemma_round_trip_if(vars);
    }
}

/// The lines of a file are read independently of each other.
pub proof fn law_lines_are_independent(a: Seq<char>, b: Seq<char>)
    ensures
        parsed(a + seq!['\n'] + b) == parsed(a) + parsed(b),
    decreases a.len(),
{
    text::lemma_find(a, '\n');
    let n = text::find(a, '\n');
    let l = a.take(n);
    assert(!l.contains('\n'));
    if n == a.len() {
        assert(l == a);
        lemma_first_line(a, b);
        if a.len() > 0 {
            assert(lines(a) == seq![a]);
            assert(entries(lines(a).drop_first()) == Seq::<EnvVarView>::empty());
            assert(parsed(a) == (match line_entry(a) {
                Some(e) => seq![e],
                None => seq![],
            }));
        } else {
            assert(line_entry(a) is None);
        }
        assert(parsed(a + seq!['\n'] + b) == parsed(a) + parsed(b));
    } else {
        let rest = a.skip(n + 1);
        law_lines_are_independent(rest, b);
        assert(a == l + seq!['\n'] + rest);
        assert(a + seq!['\n'] + b == l + seq!['\n'] + (rest + seq!['\n'] + b));
        lemma_first_line(l, rest);
        lemma_first_line(l, rest + seq!['\n'] + b);
        assert(parsed(a + seq!['\n'] + b) == parsed(a) + parsed(b));
    }
}

/// Comments and blank lines are ignored, wherever they stand.
pub proof fn law_comments_are_ignored(before: Seq<char>, line: Seq<char>, after: Seq<char>)
    requires
        !line.contains('\n'),
        text::trimmed(line).len() == 0 || text::trimmed(line).first() == '#',
    ensures
        parsed(before + seq!['\n'] + line + seq!['\n'] + after) == parsed(
            before + seq!['\n'] + after,
        ),
{
    law_lines_are_independent(before, line + seq!['\n'] + after);
    law_lines_are_independent(before, after);
    lemma_first_line(line, after);
    assert(before + seq!['\n'] + line + seq!['\n'] + after == before + seq!['\n'] + (line + seq![
        '\n',
    ] + after));
}

/// Single quotes around a text come off, whatever the text holds.
pub proof fn law_single_quotes_come_off(v: Seq<char>)
    ensures
        unquoted(seq!['\''] + v + seq!['\'']) == v,
{
    let s = seq!['\''] + v + seq!['\''];
    assert(s.subrange(1, s.len() - 1) == v);
}

/// Double quotes around a text come off, whatever the text holds: one without a
/// quote or a backslash stands for itself, `\"` and `\\` in it stand for `"` and `\`,
/// and so every text can be written between them.
pub proof fn law_double_quotes_come_off(v: Seq<char>)
    ensures
        !v.contains('"') && !v.contains('\\') ==> unquoted(seq!['"'] + v + seq!['"']) == v,
        unquoted(seq!['"'] + v + seq!['"']) == unescaped(unescaped(v, '"'), '\\'),
        unquoted(seq!['"'] + escaped(escaped(v, '\\'), '"') + seq!['"']) == v,
{
    let s = seq!['"'] + v + seq!['"'];
    assert(s.subrange(1, s.len() - 1) == v);
    if !v.contains('\\') {
        law_unescaping_nothing(v, '"');
        law_unescaping_nothing(v, '\\');
    }
    let e = escaped(escaped(v, '\\'), '"');
    let t = seq!['"'] + e + seq!['"'];
    assert(t.subrange(1, t.len() - 1) == e);
    lemma_unescape_escape(escaped(v, '\\'), '"');
    lemma_unescape_escape(v, '\\');
}

/// A text that is not enclosed in quotes of one kind stands for itself.
pub proof fn law_bare_text_stays(s: Seq<char>)
    requires
        s.len() < 2 || s.first() != s.last() || (s.first() != '\'' && s.first() != '"'),
    ensures
        unquoted(s) == s,
{
}

/// Without a backslash in front of an `x` there is nothing to take out.
pub proof fn law_unescaping_nothing(s: Seq<char>, x: char)
    requires
        forall|i: int| 0 <= i < s.len() - 1 ==> !(#[trigger] s[i] == '\\' && s[i + 1] == x),
    ensures
        unescaped(s, x) == s,
    decreases s.len(),
{
    if s.len() > 0 {
        let r = s.skip(1);
        assert forall|i: int| 0 <= i < r.len() - 1 implies !(#[trigger] r[i] == '\\' && r[i + 1]
            == x) by {
            assert(r[i] == s[i + 1]);
        }
        law_unescaping_nothing(r, x);
        if s.len() >= 2 {
            assert(!(s[0] == '\\' && s[1] == x));
        }
        assert(s == seq![s[0]] + r);
    }
}

/// The first backslash that stands in front of an `x` is taken out, what is before
/// stays, and what is behind is treated alike.
pub proof fn law_unescaping_first(a: Seq<char>, x: char, b: Seq<char>)
    requires
        forall|i: int|
            0 <= i < a.len() - 1 ==> !((#[trigger] a[i]) == '\\' && a[i + 1] == x),
        a.len() > 0 && x == '\\' ==> a.last() != '\\',
    ensures
        unescaped(a + seq!['\\', x] + b, x) == a + seq![x] + unescaped(b, x),
    decreases a.len(),
{
    let s = a + seq!['\\', x] + b;
    if a.len() == 0 {
        assert(s.skip(2) == b);
        assert(a + seq![x] + unescaped(b, x) == seq![x] + unescaped(b, x));
    } else {
        let r = a.skip(1);
        assert forall|i: int| 0 <= i < r.len() - 1 implies !((#[trigger] r[i]) == '\\' && r[i + 1]
            == x) by {
            assert(r[i] == a[i + 1]);
        }
        law_unescaping_first(r, x, b);
        if a.len() > 1 {
            assert(!(a[0] == '\\' && a[1] == x));
        }
        assert(s.skip(1) == r + seq!['\\', x] + b);
        assert(a + seq![x] + unescaped(b, x) == seq![s[0]] + (r + seq![x] + unescaped(b, x)));
    }
}

/// Escaping puts a backslash in front of each `x` and leaves everything else alone.
pub proof fn law_escaping_goes_by_characters(a: Seq<char>, b: Seq<char>, c: char, x: char)
    ensures
        escaped(a + b, x) == escaped(a, x) + escaped(b, x),
        escaped(seq![c], x) == (if c == x {
            seq!['\\', c]
        } else {
            seq![c]
        }),
    decreases a.len(),
{
    reveal_with_fuel(escaped, 2);
    let s = seq![c];
    assert(s.skip(1).len() == 0);
    assert(escaped(s.skip(1), x) == Seq::<char>::empty());
    assert(escaped(s, x) == (if c == x {
        seq!['\\', c]
    } else {
        seq![c]
    }));
    if a.len() == 0 {
        assert(a + b == b);
        assert(escaped(a, x) + escaped(b, x) == escaped(b, x));
    } else {
        law_escaping_goes_by_characters(a.skip(1), b, c, x);
        assert((a + b).skip(1) == a.skip(1) + b);
        assert(escaped(a + b, x) == escaped(a, x) + escaped(b, x));
    }
}

/// A value is written as it is where that can be read back: if it is not empty and
/// has no white space, quote or other special character. Else it is written between
/// quotes, and single ones where it has none itself.
pub proof fn law_quotes_only_where_needed(v: Seq<char>)
    ensures
        v.len() > 0 && (forall|i: int|
            0 <= i < v.len() ==> !text::is_white(#[trigger] v[i]) && v[i] != '#' && v[i] != '"'
                && v[i] != '\'' && v[i] != '=' && v[i] != '$') ==> quoted(v) == v,
        v.len() == 0 || (exists|i: int|
            0 <= i < v.len() && (text::is_white(#[trigger] v[i]) || v[i] == '#' || v[i] == '"'
                || v[i] == '\'' || v[i] == '=' || v[i] == '$')) ==> quoted(v) == (if !v.contains(
            '\'',
        ) {
            seq!['\''] + v + seq!['\'']
        } else {
            seq!['"'] + escaped(escaped(v, '\\'), '"') + seq!['"']
        }),
{
    if exists|i: int|
        0 <= i < v.len() && (text::is_white(#[trigger] v[i]) || v[i] == '#' || v[i] == '"' || v[i]
            == '\'' || v[i] == '=' || v[i] == '$') {
        let i = choose|i: int|
            0 <= i < v.len() && (text::is_white(#[trigger] v[i]) || v[i] == '#' || v[i] == '"'
                || v[i] == '\'' || v[i] == '=' || v[i] == '$');
        assert(special(v[i]));
    }
}

/// A file is written pair by pair: each on a line of its own, as its key, `=` and its
/// quoted value, in the order given.
pub proof fn law_pairs_are_written_in_order(
    a: Seq<EnvVarView>,
    b: Seq<EnvVarView>,
    v: EnvVarView,
)
    ensures
        rendered(a + b) == rendered(a) + rendered(b),
        rendered(seq![v]) == v.key + seq!['='] + quoted(v.value) + seq!['\n'],
    decreases a.len(),
{
    reveal_with_fuel(rendered, 2);
    assert(seq![v].drop_first().len() == 0);
    assert(rendered(seq![v]) == v.key + seq!['='] + quoted(v.value) + seq!['\n']);
    if a.len() == 0 {
        assert(a + b == b);
        assert(rendered(a) + rendered(b) == rendered(b));
    } else {
        law_pairs_are_written_in_order(a.drop_first(), b, v);
        assert((a + b).drop_first() == a.drop_first() + b);
        assert(rendered(a + b) == rendered(a) + rendered(b));
    }
}

proof fn lemma_only_line(l: Seq<char>)
    requires
        l.len() > 0,
        !l.contains('\n'),
    ensures
        parsed(l) == (match line_entry(l) {
            Some(e) => seq![e],
            None => seq![],
        }),
{
    assert forall|j: int| 0 <= j < l.len() implies l[j] != '\n' by {
        assert(l.contains(l[j]));
    }
    text::lemma_find_unique(l, '\n', l.len() as int);
    assert(l.take(l.len() as int) == l);
    assert(lines(l) == seq![l]);
    assert(lines(l).drop_first().len() == 0);
    assert(entries(lines(l).drop_first()) == Seq::<EnvVarView>::empty());
}

/// A line with a key, `=` and a value holds that pair, the value without white space
/// and quotes around it. White space in front of the line and around the `=` does not
/// matter, nor does one `export ` in front of the key.
pub proof fn law_pair_is_read(
    pad: Seq<char>,
    exported: bool,
    key: Seq<char>,
    gap: Seq<char>,
    value: Seq<char>,
)
    requires
        forall|i: int| 0 <= i < pad.len() ==> text::is_white(#[trigger] pad[i]),
        forall|i: int| 0 <= i < gap.len() ==> text::is_white(#[trigger] gap[i]),
        key.len() > 0,
        !text::is_white(key.first()),
        !text::is_white(key.last()),
        !key.contains('='),
        !exported ==> key.first() != '#' && !text::starts_with(key + gap, "export "@),
        !(pad + key + gap + value).contains('\n'),
    ensures
        parsed(
            pad + (if exported {
                "export "@
            } else {
                seq![]
            }) + key + gap + seq!['='] + value,
        ) == seq![EnvVarView { key, value: unquoted(text::trimmed(value)) }],
{
    reveal_strlit("export ");
    let p = "export "@;
    let pre: Seq<char> = if exported {
        p
    } else {
        seq![]
    };
    let core = pre + key + gap + seq!['='];
    let line = pad + pre + key + gap + seq!['='] + value;
    let all = pad + key + gap + value;
    assert(line == pad + (core + value));
    assert forall|i: int| 0 <= i < line.len() implies line[i] != '\n' by {
        let a = pad.len() as int;
        let b = a + pre.len();
        let c = b + key.len() + gap.len();
        if i < a {
            assert(all[i] == line[i]);
            assert(all.contains(all[i]));
        } else if b <= i < c {
            assert(all[i - pre.len()] == line[i]);
            assert(all.contains(all[i - pre.len()]));
        } else if i > c {
            assert(all[i - pre.len() - 1] == line[i]);
            assert(all.contains(all[i - pre.len() - 1]));
        }
    }
    assert(!line.contains('\n'));
    lemma_only_line(line);
    // The line without the white space around it.
    let te = text::trim_end(value);
    text::lemma_trim_start_skips(pad, core + value);
    assert((core + value).first() == (if exported {
        'e'
    } else {
        key.first()
    }));
    assert(text::trim_start(core + value) == core + value);
    assert(core.last() == '=');
    text::lemma_trim_end_keeps(core, value);
    let l = core + te;
    assert(text::trimmed(line) == l);
    // Without the word in front.
    let d = key + gap + seq!['='] + te;
    if exported {
        assert(l.take(7) == p);
        assert(l.skip(7) == d);
    } else {
        assert(l == d);
        if text::starts_with(l, p) {
            let kg = key + gap;
            assert forall|j: int| 0 <= j < 7 implies l[j] == p[j] by {
                assert(l.take(7)[j] == l[j]);
            }
            if kg.len() < 7 {
                assert(l[kg.len() as int] == '=');
            }
            assert(kg.take(7) == p);
        }
    }
    assert(without_export(l) == d);
    // Split at the first equals sign.
    let n = (key.len() + gap.len()) as int;
    assert forall|j: int| 0 <= j < n implies d[j] != '=' by {
        if j < key.len() {
            assert(key.contains(key[j]));
        } else {
            assert(text::is_white(gap[j - key.len()]));
        }
    }
    text::lemma_find_unique(d, '=', n);
    assert(d.take(n) == Seq::<char>::empty() + key + gap);
    text::law_trimming_takes_white_space_off(Seq::empty(), key, gap);
    assert(d.skip(n + 1) == te);
    text::lemma_trimmed_of_trim_end(value);
}

/// A line without an `=`, or with nothing in front of it, holds no pair.
pub proof fn law_no_key_no_pair(pad: Seq<char>, line: Seq<char>, value: Seq<char>)
    requires
        forall|i: int| 0 <= i < pad.len() ==> text::is_white(#[trigger] pad[i]),
        !line.contains('\n'),
        !(pad + value).contains('\n'),
    ensures
        !line.contains('=') ==> parsed(line) == Seq::<EnvVarView>::empty(),
        parsed(pad + seq!['='] + value) == Seq::<EnvVarView>::empty(),
{
    reveal_strlit("export ");
    if !line.contains('=') {
        if line.len() > 0 {
            lemma_only_line(line);
            let l = text::trimmed(line);
            text::lemma_trimmed(line);
            let d = without_export(l);
            text::lemma_find(d, '=');
            let n = text::find(d, '=');
            if n < d.len() {
                let k = line.len() - text::trim_start(line).len();
                let o = l.len() - d.len();
                assert(d[n] == l[o + n]);
                assert(l[o + n] == line[k + o + n]);
                assert(line.contains(line[k + o + n]));
            }
        }
    }
    let m = pad + seq!['='] + value;
    let all = pad + value;
    assert forall|i: int| 0 <= i < m.len() implies m[i] != '\n' by {
        if i < pad.len() {
            assert(all[i] == m[i]);
            assert(all.contains(all[i]));
        } else if i > pad.len() {
            assert(all[i - 1] == m[i]);
            assert(all.contains(all[i - 1]));
        }
    }
    assert(!m.contains('\n'));
    lemma_only_line(m);
    assert(m == pad + (seq!['='] + value));
    text::lemma_trim_start_skips(pad, seq!['='] + value);
    assert((seq!['='] + value).first() == '=');
    text::lemma_trim_end_keeps(seq!['='], value);
    let l = seq!['='] + text::trim_end(value);
    assert(text::trimmed(m) == l);
    assert(l[0] == '=');
    if text::starts_with(l, "export "@) {
        assert(l.take(7)[0] == l[0]);
    }
    text::lemma_find_unique(l, '=', 0);
    assert(l.take(0).len() == 0);
}

} // verus!
