use sglaz::envfile::{format_value, parse, read, unquote, EnvVar};

fn var(key: &str, value: &str) -> EnvVar {
    EnvVar { key: key.to_string(), value: value.to_string() }
}

#[test]
fn parse_reads_pairs_in_order() {
    assert_eq!(parse("A=1\nB=two\nA=3\n"), vec![var("A", "1"), var("B", "two"), var("A", "3")]);
}

#[test]
fn parse_ignores_comments_and_blank_lines() {
    let with = parse("# head\n\nA=1\n   \n  # inner=2\nB=2\n#");
    assert_eq!(with, vec![var("A", "1"), var("B", "2")]);
    assert_eq!(with, parse("A=1\nB=2"));
}

#[test]
fn parse_trims_keys_and_values() {
    assert_eq!(parse("  A \t=  x y  \r\n"), vec![var("A", "x y")]);
}

#[test]
fn parse_drops_one_export() {
    assert_eq!(parse("export A=1"), vec![var("A", "1")]);
    assert_eq!(parse("export   A=1"), vec![var("A", "1")]);
    assert_eq!(parse("export export A=1"), vec![var("export A", "1")]);
    assert_eq!(parse("export\tA=1"), vec![var("export\tA", "1")]);
}

#[test]
fn parse_splits_at_the_first_equals_sign() {
    assert_eq!(parse("A=b=c"), vec![var("A", "b=c")]);
    assert_eq!(parse("A="), vec![var("A", "")]);
}

#[test]
fn parse_skips_lines_without_a_key() {
    assert_eq!(parse("=1\n  = 2\nplain\nexport =3"), vec![]);
}

#[test]
fn parse_keeps_an_inner_hash() {
    assert_eq!(parse("A=1 # not a comment"), vec![var("A", "1 # not a comment")]);
}

#[test]
fn parse_strips_quotes() {
    assert_eq!(
        parse("A='x y'\nB=\"x \\\"y\\\"\"\nC='\nD=\"\"\nE='a\"b'"),
        vec![
            var("A", "x y"),
            var("B", "x \"y\""),
            var("C", "'"),
            var("D", ""),
            var("E", "a\"b"),
        ]
    );
}

#[test]
fn parse_does_not_split_at_a_lone_carriage_return() {
    assert_eq!(parse("A=1\rB=2"), vec![var("A", "1\rB=2")]);
}

#[test]
fn parse_of_nothing_is_empty() {
    assert_eq!(parse(""), vec![]);
    assert_eq!(parse("\n\n"), vec![]);
}

#[test]
fn unquote_cases() {
    assert_eq!(unquote("plain"), "plain");
    assert_eq!(unquote("'a\\b'"), "a\\b");
    assert_eq!(unquote("\"a\\\\b\""), "a\\b");
    assert_eq!(unquote("\"a\\\"b\""), "a\"b");
    assert_eq!(unquote("'"), "'");
    assert_eq!(unquote("''"), "");
    assert_eq!(unquote("'a\""), "'a\"");
    assert_eq!(unquote("\"\\\\\\\"\""), "\\\"");
    assert_eq!(unquote("\"\u{e9}\""), "\u{e9}");
}

#[test]
fn unquote_agrees_with_two_replacements() {
    for inner in ["", "\\", "\\\\", "\\\"", "\\\\\"", "a\\\\\\\"b", "\\n", "\"", "\\\"\\\\\""] {
        let quoted = format!("\"{}\"", inner);
        let want = inner.replace("\\\"", "\"").replace("\\\\", "\\");
        assert_eq!(unquote(&quoted), want, "{}", quoted);
    }
}

#[test]
fn format_value_quotes_only_what_needs_it() {
    assert_eq!(format_value("plain-1.2/x:y"), "plain-1.2/x:y");
    assert_eq!(format_value("back\\slash"), "back\\slash");
    assert_eq!(format_value(""), "''");
    assert_eq!(format_value("a b"), "'a b'");
    assert_eq!(format_value("a#b"), "'a#b'");
    assert_eq!(format_value("a=b"), "'a=b'");
    assert_eq!(format_value("$A"), "'$A'");
    assert_eq!(format_value("say \"hi\""), "'say \"hi\"'");
    assert_eq!(format_value("it's"), "\"it's\"");
    assert_eq!(format_value("it's \\ \"x\""), "\"it's \\\\ \\\"x\\\"\"");
    assert_eq!(format_value("a\u{a0}b"), "'a\u{a0}b'");
}

#[test]
fn unquote_undoes_format_value() {
    for v in ["", "x", "a b", "it's", "it's \\\"", "\\'", "'\\\\\"\"'", "\"", "'", "tab\tend"] {
        assert_eq!(unquote(&format_value(v)), v);
    }
}

#[test]
fn write_renders_one_line_per_pair() {
    let vars = [var("A", "1"), var("B", "x y"), var("C", "it's")];
    assert_eq!(sglaz::envfile::write(&vars), "A=1\nB='x y'\nC=\"it's\"\n");
    assert_eq!(sglaz::envfile::write(&[]), "");
}

#[test]
fn read_gives_back_what_was_written() {
    let vars = vec![
        var("A", "1"),
        var("URL", "postgres://u:p@h/db?x=1&y=2"),
        var("QUOTES", "it's \"both\" \\ kinds"),
        var("EMPTY", ""),
        var("SPACES", "  padded  "),
        var("exported", "x"),
        var("WITH SPACE", "y"),
        var("CR", "a\rb"),
    ];
    assert_eq!(read(Some(sglaz::envfile::write(&vars).as_str())), vars);
}

#[test]
fn unstorable_pairs_do_not_come_back() {
    for bad in [
        var("", "x"),
        var(" A", "x"),
        var("A=B", "x"),
        var("#A", "x"),
        var("export A", "x"),
        var("A\nB", "x"),
        var("A", "x\ny"),
    ] {
        let vars = vec![bad];
        assert_ne!(parse(&sglaz::envfile::write(&vars)), vars);
    }
}

#[test]
fn read_of_an_absent_file_is_empty() {
    assert_eq!(read(None), vec![]);
    assert_eq!(read(Some("A=1")), vec![var("A", "1")]);
}

#[test]
fn lines_are_read_independently() {
    for a in ["", "A=1", "A=1\n", "# c", "junk", "\n"] {
        for b in ["", "B=2", "\nB=2\n", "#"] {
            let mut both = parse(a);
            both.extend(parse(b));
            assert_eq!(parse(&format!("{}\n{}", a, b)), both);
        }
    }
}
