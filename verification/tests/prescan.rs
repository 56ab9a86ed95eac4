use dusk::prescan::{scan, Paradigm};

#[test]
fn collects_paradigms_and_imports() {
    let src = "\
@paradigm procedural
@paradigm functional

@import std.io
@import std.functional.maybe

func main() -> int32 { return 0 }
@import ignored.after.decl";
    let (pre, errs) = scan(src);
    assert!(errs.is_empty(), "unexpected errors: {errs:?}");
    assert_eq!(pre.paradigms, vec![Paradigm::Procedural, Paradigm::Functional]);
    assert_eq!(
        pre.imports,
        vec!["std.io".to_string(), "std.functional.maybe".to_string()]
    );
}

#[test]
fn defaults_to_procedural() {
    let (pre, _) = scan("func main() -> int32 { return 0 }");
    assert_eq!(pre.effective(), vec![Paradigm::Procedural]);
}

#[test]
fn strips_trailing_comment_on_directive() {
    let (pre, errs) = scan("@import std.io // a comment");
    assert!(errs.is_empty(), "unexpected errors: {errs:?}");
    assert_eq!(pre.imports, vec!["std.io".to_string()]);
}

#[test]
fn unknown_paradigm_errors() {
    let (_pre, errs) = scan("@paradigm functionl");
    assert_eq!(errs.len(), 1);
}

#[test]
fn unknown_directive_errors() {
    let (_pre, errs) = scan("@imprt std.io");
    assert_eq!(errs.len(), 1);
}

#[test]
fn error_messages_and_spans() {
    let (_p, errs) = scan("@paradigm functionl\n@imprt x\n@import \"\"");
    assert_eq!(errs.len(), 3);
    assert_eq!(errs[0].msg, "unknown paradigm 'functionl'");
    assert_eq!((errs[0].span.lo, errs[0].span.hi), (0, 19));
    assert_eq!(errs[1].msg, "unknown directive '@imprt'");
    assert_eq!((errs[1].span.lo, errs[1].span.hi), (20, 28));
    assert_eq!(errs[2].msg, "empty import path");
}

#[test]
fn crlf_lines_keep_byte_offsets() {
    let (_p, errs) = scan("@paradigm oop\r\n@bogus\r\n");
    assert_eq!(errs.len(), 1);
    assert_eq!((errs[0].span.lo, errs[0].span.hi), (15, 21));
}

#[test]
fn quoted_import_and_lookup() {
    let (p, errs) = scan("  @import \"github.com/u/r/m\"  \n@paradigm oop");
    assert!(errs.is_empty());
    assert_eq!(p.imports, vec!["github.com/u/r/m".to_string()]);
    assert_eq!(p.paradigms, vec![Paradigm::Oop]);
    assert_eq!(p.effective(), vec![Paradigm::Oop]);
    assert_eq!(Paradigm::lookup("functional"), Some(Paradigm::Functional));
    assert_eq!(Paradigm::lookup("procedural"), Some(Paradigm::Procedural));
    assert_eq!(Paradigm::lookup("Oop"), None);
}
