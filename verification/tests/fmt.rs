use dusk::fmt::{holes, parse, Seg};

#[test]
fn splits_literals_and_holes() {
    let segs = parse("a {} b {}").unwrap();
    assert_eq!(
        segs,
        vec![Seg::Lit("a ".into()), Seg::Hole, Seg::Lit(" b ".into()), Seg::Hole]
    );
    assert_eq!(holes(&segs), 2);
}

#[test]
fn bare_hole_has_no_surrounding_literal() {
    assert_eq!(parse("{}").unwrap(), vec![Seg::Hole]);
}

#[test]
fn escapes_become_literal_braces() {
    assert_eq!(parse("{{}}").unwrap(), vec![Seg::Lit("{}".into())]);
    assert_eq!(holes(&parse("{{}}").unwrap()), 0);
}

#[test]
fn escaped_brace_next_to_a_hole() {
    let segs = parse("{{{}}}").unwrap();
    assert_eq!(segs, vec![Seg::Lit("{".into()), Seg::Hole, Seg::Lit("}".into())]);
}

#[test]
fn unmatched_brace_is_an_error() {
    assert!(parse("a { b").is_err());
    assert!(parse("a } b").is_err());
}

#[test]
fn error_messages_name_the_brace() {
    assert_eq!(
        parse("{x").unwrap_err(),
        "unmatched '{' in format string, write '{{' for a literal brace"
    );
    assert_eq!(
        parse("x}").unwrap_err(),
        "unmatched '}' in format string, write '}}' for a literal brace"
    );
}

#[test]
fn empty_string_has_no_segments() {
    assert_eq!(parse("").unwrap(), vec![]);
    assert_eq!(holes(&[]), 0);
}

#[test]
fn unparse_roundtrip_example() {
    // The law: literal braces doubled and holes as `{}` give back the input.
    let src = "x{{y{}}}z{}";
    let segs = parse(src).unwrap();
    let mut back = String::new();
    for s in &segs {
        match s {
            Seg::Lit(t) => back.push_str(&t.replace('{', "{{").replace('}', "}}")),
            Seg::Hole => back.push_str("{}"),
        }
    }
    assert_eq!(back, src);
}

#[test]
fn literal_runs_come_as_one_segment() {
    assert_eq!(parse("ab{{c}}d{}{}e").unwrap(), vec![
        Seg::Lit("ab{c}d".to_string()),
        Seg::Hole,
        Seg::Hole,
        Seg::Lit("e".to_string()),
    ]);
}
