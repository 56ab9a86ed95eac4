//! Token kinds for the full grammar.

use vstd::prelude::*;
use crate::diag::Span;
use crate::text::{chars_of, is_lit};

verus! {

/// A lexed token: a kind, its source span, and whether a newline preceded it.
/// `nl_before` lets the parser treat newlines as statement separators.
#[derive(Clone, Debug, PartialEq)]
pub struct Token {
    pub kind: TokenKind,
    pub span: Span,
    pub nl_before: bool,
}

impl Token {
    pub fn new(kind: TokenKind, span: Span) -> (t: Self)
        ensures
            t.kind == kind,
            t.span == span,
            !t.nl_before,
    {
        Token { kind, span, nl_before: false }
    }
}

/// Reserved words. Type names like `int32`, `bool`, and `string` are ordinary
/// identifiers resolved later, not keywords.
#[derive(Clone, Copy, Debug, PartialEq, Eq, Structural)]
pub enum Keyword {
    Func,
    Lambda,
    Struct,
    Enum,
    Interface,
    Impl,
    Foreign,
    Monad,
    Export,
    Mut,
    Using,
    Defer,
    Match,
    Return,
    If,
    Else,
    For,
    While,
    Do,
    In,
    Break,
    Continue,
}

/// The keyword an identifier spells, if any.
pub open spec fn spec_keyword(s: Seq<char>) -> Option<Keyword> {
    if s == "func"@ {
        Some(Keyword::Func)
    } else if s == "lambda"@ {
        Some(Keyword::Lambda)
    } else if s == "struct"@ {
        Some(Keyword::Struct)
    } else if s == "enum"@ {
        Some(Keyword::Enum)
    } else if s == "interface"@ {
        Some(Keyword::Interface)
    } else if s == "impl"@ {
        Some(Keyword::Impl)
    } else if s == "foreign"@ {
        Some(Keyword::Foreign)
    } else if s == "monad"@ {
        Some(Keyword::Monad)
    } else if s == "export"@ {
        Some(Keyword::Export)
    } else if s == "mut"@ {
        Some(Keyword::Mut)
    } else if s == "using"@ {
        Some(Keyword::Using)
    } else if s == "defer"@ {
        Some(Keyword::Defer)
    } else if s == "match"@ {
        Some(Keyword::Match)
    } else if s == "return"@ {
        Some(Keyword::Return)
    } else if s == "if"@ {
        Some(Keyword::If)
    } else if s == "else"@ {
        Some(Keyword::Else)
    } else if s == "for"@ {
        Some(Keyword::For)
    } else if s == "while"@ {
        Some(Keyword::While)
    } else if s == "do"@ {
        Some(Keyword::Do)
    } else if s == "in"@ {
        Some(Keyword::In)
    } else if s == "break"@ {
        Some(Keyword::Break)
    } else if s == "continue"@ {
        Some(Keyword::Continue)
    } else {
        None
    }
}

/// How a keyword is written in source.
pub open spec fn keyword_spelling(k: Keyword) -> Seq<char> {
    match k {
        Keyword::Func => "func"@,
        Keyword::Lambda => "lambda"@,
        Keyword::Struct => "struct"@,
        Keyword::Enum => "enum"@,
        Keyword::Interface => "interface"@,
        Keyword::Impl => "impl"@,
        Keyword::Foreign => "foreign"@,
        Keyword::Monad => "monad"@,
        Keyword::Export => "export"@,
        Keyword::Mut => "mut"@,
        Keyword::Using => "using"@,
        Keyword::Defer => "defer"@,
        Keyword::Match => "match"@,
        Keyword::Return => "return"@,
        Keyword::If => "if"@,
        Keyword::Else => "else"@,
        Keyword::For => "for"@,
        Keyword::While => "while"@,
        Keyword::Do => "do"@,
        Keyword::In => "in"@,
        Keyword::Break => "break"@,
        Keyword::Continue => "continue"@,
    }
}

/// Each reserved word reads as its own keyword, and nothing else reads as a
/// keyword: the lookup takes the spelling of every keyword to that keyword,
/// and any text it takes to a keyword is that keyword's spelling (so no two
/// spellings share a keyword).
pub proof fn law_keyword_spellings(k: Keyword, s: Seq<char>)
    ensures
        spec_keyword(keyword_spelling(k)) == Some(k),
        spec_keyword(s) == Some(k) ==> s == keyword_spelling(k),
{
    reveal_strlit("func");
    reveal_strlit("lambda");
    reveal_strlit("struct");
    reveal_strlit("enum");
    reveal_strlit("interface");
    reveal_strlit("impl");
    reveal_strlit("foreign");
    reveal_strlit("monad");
    reveal_strlit("export");
    reveal_strlit("mut");
    reveal_strlit("using");
    reveal_strlit("defer");
    reveal_strlit("match");
    reveal_strlit("return");
    reveal_strlit("if");
    reveal_strlit("else");
    reveal_strlit("for");
    reveal_strlit("while");
    reveal_strlit("do");
    reveal_strlit("in");
    reveal_strlit("break");
    reveal_strlit("continue");
    match k {
        Keyword::Func => {  },
        Keyword::Lambda => { assert("lambda"@ != "func"@ ) by { assert("lambda"@.len() != "func"@.len() || "lambda"@[0] != "func"@[0]); } },
        Keyword::Struct => { assert("struct"@ != "func"@ ) by { assert("struct"@.len() != "func"@.len() || "struct"@[0] != "func"@[0]); } assert("struct"@ != "lambda"@ ) by { assert("struct"@.len() != "lambda"@.len() || "struct"@[0] != "lambda"@[0]); } },
        Keyword::Enum => { assert("enum"@ != "func"@ ) by { assert("enum"@.len() != "func"@.len() || "enum"@[0] != "func"@[0]); } assert("enum"@ != "lambda"@ ) by { assert("enum"@.len() != "lambda"@.len() || "enum"@[0] != "lambda"@[0]); } assert("enum"@ != "struct"@ ) by { assert("enum"@.len() != "struct"@.len() || "enum"@[0] != "struct"@[0]); } },
        Keyword::Interface => { assert("interface"@ != "func"@ ) by { assert("interface"@.len() != "func"@.len() || "interface"@[0] != "func"@[0]); } assert("interface"@ != "lambda"@ ) by { assert("interface"@.len() != "lambda"@.len() || "interface"@[0] != "lambda"@[0]); } assert("interface"@ != "struct"@ ) by { assert("interface"@.len() != "struct"@.len() || "interface"@[0] != "struct"@[0]); } assert("interface"@ != "enum"@ ) by { assert("interface"@.len() != "enum"@.len() || "interface"@[0] != "enum"@[0]); } },
        Keyword::Impl => { assert("impl"@ != "func"@ ) by { assert("impl"@.len() != "func"@.len() || "impl"@[0] != "func"@[0]); } assert("impl"@ != "lambda"@ ) by { assert("impl"@.len() != "lambda"@.len() || "impl"@[0] != "lambda"@[0]); } assert("impl"@ != "struct"@ ) by { assert("impl"@.len() != "struct"@.len() || "impl"@[0] != "struct"@[0]); } assert("impl"@ != "enum"@ ) by { assert("impl"@.len() != "enum"@.len() || "impl"@[0] != "enum"@[0]); } assert("impl"@ != "interface"@ ) by { assert("impl"@.len() != "interface"@.len() || "impl"@[0] != "interface"@[0]); } },
        Keyword::Foreign => { assert("foreign"@ != "func"@ ) by { assert("foreign"@.len() != "func"@.len() || "foreign"@[0] != "func"@[0]); } assert("foreign"@ != "lambda"@ ) by { assert("foreign"@.len() != "lambda"@.len() || "foreign"@[0] != "lambda"@[0]); } assert("foreign"@ != "struct"@ ) by { assert("foreign"@.len() != "struct"@.len() || "foreign"@[0] != "struct"@[0]); } assert("foreign"@ != "enum"@ ) by { assert("foreign"@.len() != "enum"@.len() || "foreign"@[0] != "enum"@[0]); } assert("foreign"@ != "interface"@ ) by { assert("foreign"@.len() != "interface"@.len() || "foreign"@[0] != "interface"@[0]); } assert("foreign"@ != "impl"@ ) by { assert("foreign"@.len() != "impl"@.len() || "foreign"@[0] != "impl"@[0]); } },
        Keyword::Monad => { assert("monad"@ != "func"@ ) by { assert("monad"@.len() != "func"@.len() || "monad"@[0] != "func"@[0]); } assert("monad"@ != "lambda"@ ) by { assert("monad"@.len() != "lambda"@.len() || "monad"@[0] != "lambda"@[0]); } assert("monad"@ != "struct"@ ) by { assert("monad"@.len() != "struct"@.len() || "monad"@[0] != "struct"@[0]); } assert("monad"@ != "enum"@ ) by { assert("monad"@.len() != "enum"@.len() || "monad"@[0] != "enum"@[0]); } assert("monad"@ != "interface"@ ) by { assert("monad"@.len() != "interface"@.len() || "monad"@[0] != "interface"@[0]); } assert("monad"@ != "impl"@ ) by { assert("monad"@.len() != "impl"@.len() || "monad"@[0] != "impl"@[0]); } assert("monad"@ != "foreign"@ ) by { assert("monad"@.len() != "foreign"@.len() || "monad"@[0] != "foreign"@[0]); } },
        Keyword::Export => { assert("export"@ != "func"@ ) by { assert("export"@.len() != "func"@.len() || "export"@[0] != "func"@[0]); } assert("export"@ != "lambda"@ ) by { assert("export"@.len() != "lambda"@.len() || "export"@[0] != "lambda"@[0]); } assert("export"@ != "struct"@ ) by { assert("export"@.len() != "struct"@.len() || "export"@[0] != "struct"@[0]); } assert("export"@ != "enum"@ ) by { assert("export"@.len() != "enum"@.len() || "export"@[0] != "enum"@[0]); } assert("export"@ != "interface"@ ) by { assert("export"@.len() != "interface"@.len() || "export"@[0] != "interface"@[0]); } assert("export"@ != "impl"@ ) by { assert("export"@.len() != "impl"@.len() || "export"@[0] != "impl"@[0]); } assert("export"@ != "foreign"@ ) by { assert("export"@.len() != "foreign"@.len() || "export"@[0] != "foreign"@[0]); } assert("export"@ != "monad"@ ) by { assert("export"@.len() != "monad"@.len() || "export"@[0] != "monad"@[0]); } },
        Keyword::Mut => { assert("mut"@ != "func"@ ) by { assert("mut"@.len() != "func"@.len() || "mut"@[0] != "func"@[0]); } assert("mut"@ != "lambda"@ ) by { assert("mut"@.len() != "lambda"@.len() || "mut"@[0] != "lambda"@[0]); } assert("mut"@ != "struct"@ ) by { assert("mut"@.len() != "struct"@.len() || "mut"@[0] != "struct"@[0]); } assert("mut"@ != "enum"@ ) by { assert("mut"@.len() != "enum"@.len() || "mut"@[0] != "enum"@[0]); } assert("mut"@ != "interface"@ ) by { assert("mut"@.len() != "interface"@.len() || "mut"@[0] != "interface"@[0]); } assert("mut"@ != "impl"@ ) by { assert("mut"@.len() != "impl"@.len() || "mut"@[0] != "impl"@[0]); } assert("mut"@ != "foreign"@ ) by { assert("mut"@.len() != "foreign"@.len() || "mut"@[0] != "foreign"@[0]); } assert("mut"@ != "monad"@ ) by { assert("mut"@.len() != "monad"@.len() || "mut"@[0] != "monad"@[0]); } assert("mut"@ != "export"@ ) by { assert("mut"@.len() != "export"@.len() || "mut"@[0] != "export"@[0]); } },
        Keyword::Using => { assert("using"@ != "func"@ ) by { assert("using"@.len() != "func"@.len() || "using"@[0] != "func"@[0]); } assert("using"@ != "lambda"@ ) by { assert("using"@.len() != "lambda"@.len() || "using"@[0] != "lambda"@[0]); } assert("using"@ != "struct"@ ) by { assert("using"@.len() != "struct"@.len() || "using"@[0] != "struct"@[0]); } assert("using"@ != "enum"@ ) by { assert("using"@.len() != "enum"@.len() || "using"@[0] != "enum"@[0]); } assert("using"@ != "interface"@ ) by { assert("using"@.len() != "interface"@.len() || "using"@[0] != "interface"@[0]); } assert("using"@ != "impl"@ ) by { assert("using"@.len() != "impl"@.len() || "using"@[0] != "impl"@[0]); } assert("using"@ != "foreign"@ ) by { assert("using"@.len() != "foreign"@.len() || "using"@[0] != "foreign"@[0]); } assert("using"@ != "monad"@ ) by { assert("using"@.len() != "monad"@.len() || "using"@[0] != "monad"@[0]); } assert("using"@ != "export"@ ) by { assert("using"@.len() != "export"@.len() || "using"@[0] != "export"@[0]); } assert("using"@ != "mut"@ ) by { assert("using"@.len() != "mut"@.len() || "using"@[0] != "mut"@[0]); } },
        Keyword::Defer => { assert("defer"@ != "func"@ ) by { assert("defer"@.len() != "func"@.len() || "defer"@[0] != "func"@[0]); } assert("defer"@ != "lambda"@ ) by { assert("defer"@.len() != "lambda"@.len() || "defer"@[0] != "lambda"@[0]); } assert("defer"@ != "struct"@ ) by { assert("defer"@.len() != "struct"@.len() || "defer"@[0] != "struct"@[0]); } assert("defer"@ != "enum"@ ) by { assert("defer"@.len() != "enum"@.len() || "defer"@[0] != "enum"@[0]); } assert("defer"@ != "interface"@ ) by { assert("defer"@.len() != "interface"@.len() || "defer"@[0] != "interface"@[0]); } assert("defer"@ != "impl"@ ) by { assert("defer"@.len() != "impl"@.len() || "defer"@[0] != "impl"@[0]); } assert("defer"@ != "foreign"@ ) by { assert("defer"@.len() != "foreign"@.len() || "defer"@[0] != "foreign"@[0]); } assert("defer"@ != "monad"@ ) by { assert("defer"@.len() != "monad"@.len() || "defer"@[0] != "monad"@[0]); } assert("defer"@ != "export"@ ) by { assert("defer"@.len() != "export"@.len() || "defer"@[0] != "export"@[0]); } assert("defer"@ != "mut"@ ) by { assert("defer"@.len() != "mut"@.len() || "defer"@[0] != "mut"@[0]); } assert("defer"@ != "using"@ ) by { assert("defer"@.len() != "using"@.len() || "defer"@[0] != "using"@[0]); } },
        Keyword::Match => { assert("match"@ != "func"@ ) by { assert("match"@.len() != "func"@.len() || "match"@[0] != "func"@[0]); } assert("match"@ != "lambda"@ ) by { assert("match"@.len() != "lambda"@.len() || "match"@[0] != "lambda"@[0]); } assert("match"@ != "struct"@ ) by { assert("match"@.len() != "struct"@.len() || "match"@[0] != "struct"@[0]); } assert("match"@ != "enum"@ ) by { assert("match"@.len() != "enum"@.len() || "match"@[0] != "enum"@[0]); } assert("match"@ != "interface"@ ) by { assert("match"@.len() != "interface"@.len() || "match"@[0] != "interface"@[0]); } assert("match"@ != "impl"@ ) by { assert("match"@.len() != "impl"@.len() || "match"@[0] != "impl"@[0]); } assert("match"@ != "foreign"@ ) by { assert("match"@.len() != "foreign"@.len() || "match"@[0] != "foreign"@[0]); } assert("match"@ != "monad"@ ) by { assert("match"@.len() != "monad"@.len() || "match"@[1] != "monad"@[1]); } assert("match"@ != "export"@ ) by { assert("match"@.len() != "export"@.len() || "match"@[0] != "export"@[0]); } assert("match"@ != "mut"@ ) by { assert("match"@.len() != "mut"@.len() || "match"@[0] != "mut"@[0]); } assert("match"@ != "using"@ ) by { assert("match"@.len() != "using"@.len() || "match"@[0] != "using"@[0]); } assert("match"@ != "defer"@ ) by { assert("match"@.len() != "defer"@.len() || "match"@[0] != "defer"@[0]); } },
        Keyword::Return => { assert("return"@ != "func"@ ) by { assert("return"@.len() != "func"@.len() || "return"@[0] != "func"@[0]); } assert("return"@ != "lambda"@ ) by { assert("return"@.len() != "lambda"@.len() || "return"@[0] != "lambda"@[0]); } assert("return"@ != "struct"@ ) by { assert("return"@.len() != "struct"@.len() || "return"@[0] != "struct"@[0]); } assert("return"@ != "enum"@ ) by { assert("return"@.len() != "enum"@.len() || "return"@[0] != "enum"@[0]); } assert("return"@ != "interface"@ ) by { assert("return"@.len() != "interface"@.len() || "return"@[0] != "interface"@[0]); } assert("return"@ != "impl"@ ) by { assert("return"@.len() != "impl"@.len() || "return"@[0] != "impl"@[0]); } assert("return"@ != "foreign"@ ) by { assert("return"@.len() != "foreign"@.len() || "return"@[0] != "foreign"@[0]); } assert("return"@ != "monad"@ ) by { assert("return"@.len() != "monad"@.len() || "return"@[0] != "monad"@[0]); } assert("return"@ != "export"@ ) by { assert("return"@.len() != "export"@.len() || "return"@[0] != "export"@[0]); } assert("return"@ != "mut"@ ) by { assert("return"@.len() != "mut"@.len() || "return"@[0] != "mut"@[0]); } assert("return"@ != "using"@ ) by { assert("return"@.len() != "using"@.len() || "return"@[0] != "using"@[0]); } assert("return"@ != "defer"@ ) by { assert("return"@.len() != "defer"@.len() || "return"@[0] != "defer"@[0]); } assert("return"@ != "match"@ ) by { assert("return"@.len() != "match"@.len() || "return"@[0] != "match"@[0]); } },
        Keyword::If => { assert("if"@ != "func"@ ) by { assert("if"@.len() != "func"@.len() || "if"@[0] != "func"@[0]); } assert("if"@ != "lambda"@ ) by { assert("if"@.len() != "lambda"@.len() || "if"@[0] != "lambda"@[0]); } assert("if"@ != "struct"@ ) by { assert("if"@.len() != "struct"@.len() || "if"@[0] != "struct"@[0]); } assert("if"@ != "enum"@ ) by { assert("if"@.len() != "enum"@.len() || "if"@[0] != "enum"@[0]); } assert("if"@ != "interface"@ ) by { assert("if"@.len() != "interface"@.len() || "if"@[0] != "interface"@[0]); } assert("if"@ != "impl"@ ) by { assert("if"@.len() != "impl"@.len() || "if"@[0] != "impl"@[0]); } assert("if"@ != "foreign"@ ) by { assert("if"@.len() != "foreign"@.len() || "if"@[0] != "foreign"@[0]); } assert("if"@ != "monad"@ ) by { assert("if"@.len() != "monad"@.len() || "if"@[0] != "monad"@[0]); } assert("if"@ != "export"@ ) by { assert("if"@.len() != "export"@.len() || "if"@[0] != "export"@[0]); } assert("if"@ != "mut"@ ) by { assert("if"@.len() != "mut"@.len() || "if"@[0] != "mut"@[0]); } assert("if"@ != "using"@ ) by { assert("if"@.len() != "using"@.len() || "if"@[0] != "using"@[0]); } assert("if"@ != "defer"@ ) by { assert("if"@.len() != "defer"@.len() || "if"@[0] != "defer"@[0]); } assert("if"@ != "match"@ ) by { assert("if"@.len() != "match"@.len() || "if"@[0] != "match"@[0]); } assert("if"@ != "return"@ ) by { assert("if"@.len() != "return"@.len() || "if"@[0] != "return"@[0]); } },
        Keyword::Else => { assert("else"@ != "func"@ ) by { assert("else"@.len() != "func"@.len() || "else"@[0] != "func"@[0]); } assert("else"@ != "lambda"@ ) by { assert("else"@.len() != "lambda"@.len() || "else"@[0] != "lambda"@[0]); } assert("else"@ != "struct"@ ) by { assert("else"@.len() != "struct"@.len() || "else"@[0] != "struct"@[0]); } assert("else"@ != "enum"@ ) by { assert("else"@.len() != "enum"@.len() || "else"@[1] != "enum"@[1]); } assert("else"@ != "interface"@ ) by { assert("else"@.len() != "interface"@.len() || "else"@[0] != "interface"@[0]); } assert("else"@ != "impl"@ ) by { assert("else"@.len() != "impl"@.len() || "else"@[0] != "impl"@[0]); } assert("else"@ != "foreign"@ ) by { assert("else"@.len() != "foreign"@.len() || "else"@[0] != "foreign"@[0]); } assert("else"@ != "monad"@ ) by { assert("else"@.len() != "monad"@.len() || "else"@[0] != "monad"@[0]); } assert("else"@ != "export"@ ) by { assert("else"@.len() != "export"@.len() || "else"@[0] != "export"@[0]); } assert("else"@ != "mut"@ ) by { assert("else"@.len() != "mut"@.len() || "else"@[0] != "mut"@[0]); } assert("else"@ != "using"@ ) by { assert("else"@.len() != "using"@.len() || "else"@[0] != "using"@[0]); } assert("else"@ != "defer"@ ) by { assert("else"@.len() != "defer"@.len() || "else"@[0] != "defer"@[0]); } assert("else"@ != "match"@ ) by { assert("else"@.len() != "match"@.len() || "else"@[0] != "match"@[0]); } assert("else"@ != "return"@ ) by { assert("else"@.len() != "return"@.len() || "else"@[0] != "return"@[0]); } assert("else"@ != "if"@ ) by { assert("else"@.len() != "if"@.len() || "else"@[0] != "if"@[0]); } },
        Keyword::For => { assert("for"@ != "func"@ ) by { assert("for"@.len() != "func"@.len() || "for"@[0] != "func"@[0]); } assert("for"@ != "lambda"@ ) by { assert("for"@.len() != "lambda"@.len() || "for"@[0] != "lambda"@[0]); } assert("for"@ != "struct"@ ) by { assert("for"@.len() != "struct"@.len() || "for"@[0] != "struct"@[0]); } assert("for"@ != "enum"@ ) by { assert("for"@.len() != "enum"@.len() || "for"@[0] != "enum"@[0]); } assert("for"@ != "interface"@ ) by { assert("for"@.len() != "interface"@.len() || "for"@[0] != "interface"@[0]); } assert("for"@ != "impl"@ ) by { assert("for"@.len() != "impl"@.len() || "for"@[0] != "impl"@[0]); } assert("for"@ != "foreign"@ ) by { assert("for"@.len() != "foreign"@.len() || "for"@[0] != "foreign"@[0]); } assert("for"@ != "monad"@ ) by { assert("for"@.len() != "monad"@.len() || "for"@[0] != "monad"@[0]); } assert("for"@ != "export"@ ) by { assert("for"@.len() != "export"@.len() || "for"@[0] != "export"@[0]); } assert("for"@ != "mut"@ ) by { assert("for"@.len() != "mut"@.len() || "for"@[0] != "mut"@[0]); } assert("for"@ != "using"@ ) by { assert("for"@.len() != "using"@.len() || "for"@[0] != "using"@[0]); } assert("for"@ != "defer"@ ) by { assert("for"@.len() != "defer"@.len() || "for"@[0] != "defer"@[0]); } assert("for"@ != "match"@ ) by { assert("for"@.len() != "match"@.len() || "for"@[0] != "match"@[0]); } assert("for"@ != "return"@ ) by { assert("for"@.len() != "return"@.len() || "for"@[0] != "return"@[0]); } assert("for"@ != "if"@ ) by { assert("for"@.len() != "if"@.len() || "for"@[0] != "if"@[0]); } assert("for"@ != "else"@ ) by { assert("for"@.len() != "else"@.len() || "for"@[0] != "else"@[0]); } },
        Keyword::While => { assert("while"@ != "func"@ ) by { assert("while"@.len() != "func"@.len() || "while"@[0] != "func"@[0]); } assert("while"@ != "lambda"@ ) by { assert("while"@.len() != "lambda"@.len() || "while"@[0] != "lambda"@[0]); } assert("while"@ != "struct"@ ) by { assert("while"@.len() != "struct"@.len() || "while"@[0] != "struct"@[0]); } assert("while"@ != "enum"@ ) by { assert("while"@.len() != "enum"@.len() || "while"@[0] != "enum"@[0]); } assert("while"@ != "interface"@ ) by { assert("while"@.len() != "interface"@.len() || "while"@[0] != "interface"@[0]); } assert("while"@ != "impl"@ ) by { assert("while"@.len() != "impl"@.len() || "while"@[0] != "impl"@[0]); } assert("while"@ != "foreign"@ ) by { assert("while"@.len() != "foreign"@.len() || "while"@[0] != "foreign"@[0]); } assert("while"@ != "monad"@ ) by { assert("while"@.len() != "monad"@.len() || "while"@[0] != "monad"@[0]); } assert("while"@ != "export"@ ) by { assert("while"@.len() != "export"@.len() || "while"@[0] != "export"@[0]); } assert("while"@ != "mut"@ ) by { assert("while"@.len() != "mut"@.len() || "while"@[0] != "mut"@[0]); } assert("while"@ != "using"@ ) by { assert("while"@.len() != "using"@.len() || "while"@[0] != "using"@[0]); } assert("while"@ != "defer"@ ) by { assert("while"@.len() != "defer"@.len() || "while"@[0] != "defer"@[0]); } assert("while"@ != "match"@ ) by { assert("while"@.len() != "match"@.len() || "while"@[0] != "match"@[0]); } assert("while"@ != "return"@ ) by { assert("while"@.len() != "return"@.len() || "while"@[0] != "return"@[0]); } assert("while"@ != "if"@ ) by { assert("while"@.len() != "if"@.len() || "while"@[0] != "if"@[0]); } assert("while"@ != "else"@ ) by { assert("while"@.len() != "else"@.len() || "while"@[0] != "else"@[0]); } assert("while"@ != "for"@ ) by { assert("while"@.len() != "for"@.len() || "while"@[0] != "for"@[0]); } },
        Keyword::Do => { assert("do"@ != "func"@ ) by { assert("do"@.len() != "func"@.len() || "do"@[0] != "func"@[0]); } assert("do"@ != "lambda"@ ) by { assert("do"@.len() != "lambda"@.len() || "do"@[0] != "lambda"@[0]); } assert("do"@ != "struct"@ ) by { assert("do"@.len() != "struct"@.len() || "do"@[0] != "struct"@[0]); } assert("do"@ != "enum"@ ) by { assert("do"@.len() != "enum"@.len() || "do"@[0] != "enum"@[0]); } assert("do"@ != "interface"@ ) by { assert("do"@.len() != "interface"@.len() || "do"@[0] != "interface"@[0]); } assert("do"@ != "impl"@ ) by { assert("do"@.len() != "impl"@.len() || "do"@[0] != "impl"@[0]); } assert("do"@ != "foreign"@ ) by { assert("do"@.len() != "foreign"@.len() || "do"@[0] != "foreign"@[0]); } assert("do"@ != "monad"@ ) by { assert("do"@.len() != "monad"@.len() || "do"@[0] != "monad"@[0]); } assert("do"@ != "export"@ ) by { assert("do"@.len() != "export"@.len() || "do"@[0] != "export"@[0]); } assert("do"@ != "mut"@ ) by { assert("do"@.len() != "mut"@.len() || "do"@[0] != "mut"@[0]); } assert("do"@ != "using"@ ) by { assert("do"@.len() != "using"@.len() || "do"@[0] != "using"@[0]); } assert("do"@ != "defer"@ ) by { assert("do"@.len() != "defer"@.len() || "do"@[0] != "defer"@[0]); } assert("do"@ != "match"@ ) by { assert("do"@.len() != "match"@.len() || "do"@[0] != "match"@[0]); } assert("do"@ != "return"@ ) by { assert("do"@.len() != "return"@.len() || "do"@[0] != "return"@[0]); } assert("do"@ != "if"@ ) by { assert("do"@.len() != "if"@.len() || "do"@[0] != "if"@[0]); } assert("do"@ != "else"@ ) by { assert("do"@.len() != "else"@.len() || "do"@[0] != "else"@[0]); } assert("do"@ != "for"@ ) by { assert("do"@.len() != "for"@.len() || "do"@[0] != "for"@[0]); } assert("do"@ != "while"@ ) by { assert("do"@.len() != "while"@.len() || "do"@[0] != "while"@[0]); } },
        Keyword::In => { assert("in"@ != "func"@ ) by { assert("in"@.len() != "func"@.len() || "in"@[0] != "func"@[0]); } assert("in"@ != "lambda"@ ) by { assert("in"@.len() != "lambda"@.len() || "in"@[0] != "lambda"@[0]); } assert("in"@ != "struct"@ ) by { assert("in"@.len() != "struct"@.len() || "in"@[0] != "struct"@[0]); } assert("in"@ != "enum"@ ) by { assert("in"@.len() != "enum"@.len() || "in"@[0] != "enum"@[0]); } assert("in"@ != "interface"@ ) by { assert("in"@.len() != "interface"@.len() || "in"@[0] != "interface"@[0]); } assert("in"@ != "impl"@ ) by { assert("in"@.len() != "impl"@.len() || "in"@[0] != "impl"@[0]); } assert("in"@ != "foreign"@ ) by { assert("in"@.len() != "foreign"@.len() || "in"@[0] != "foreign"@[0]); } assert("in"@ != "monad"@ ) by { assert("in"@.len() != "monad"@.len() || "in"@[0] != "monad"@[0]); } assert("in"@ != "export"@ ) by { assert("in"@.len() != "export"@.len() || "in"@[0] != "export"@[0]); } assert("in"@ != "mut"@ ) by { assert("in"@.len() != "mut"@.len() || "in"@[0] != "mut"@[0]); } assert("in"@ != "using"@ ) by { assert("in"@.len() != "using"@.len() || "in"@[0] != "using"@[0]); } assert("in"@ != "defer"@ ) by { assert("in"@.len() != "defer"@.len() || "in"@[0] != "defer"@[0]); } assert("in"@ != "match"@ ) by { assert("in"@.len() != "match"@.len() || "in"@[0] != "match"@[0]); } assert("in"@ != "return"@ ) by { assert("in"@.len() != "return"@.len() || "in"@[0] != "return"@[0]); } assert("in"@ != "if"@ ) by { assert("in"@.len() != "if"@.len() || "in"@[1] != "if"@[1]); } assert("in"@ != "else"@ ) by { assert("in"@.len() != "else"@.len() || "in"@[0] != "else"@[0]); } assert("in"@ != "for"@ ) by { assert("in"@.len() != "for"@.len() || "in"@[0] != "for"@[0]); } assert("in"@ != "while"@ ) by { assert("in"@.len() != "while"@.len() || "in"@[0] != "while"@[0]); } assert("in"@ != "do"@ ) by { assert("in"@.len() != "do"@.len() || "in"@[0] != "do"@[0]); } },
        Keyword::Break => { assert("break"@ != "func"@ ) by { assert("break"@.len() != "func"@.len() || "break"@[0] != "func"@[0]); } assert("break"@ != "lambda"@ ) by { assert("break"@.len() != "lambda"@.len() || "break"@[0] != "lambda"@[0]); } assert("break"@ != "struct"@ ) by { assert("break"@.len() != "struct"@.len() || "break"@[0] != "struct"@[0]); } assert("break"@ != "enum"@ ) by { assert("break"@.len() != "enum"@.len() || "break"@[0] != "enum"@[0]); } assert("break"@ != "interface"@ ) by { assert("break"@.len() != "interface"@.len() || "break"@[0] != "interface"@[0]); } assert("break"@ != "impl"@ ) by { assert("break"@.len() != "impl"@.len() || "break"@[0] != "impl"@[0]); } assert("break"@ != "foreign"@ ) by { assert("break"@.len() != "foreign"@.len() || "break"@[0] != "foreign"@[0]); } assert("break"@ != "monad"@ ) by { assert("break"@.len() != "monad"@.len() || "break"@[0] != "monad"@[0]); } assert("break"@ != "export"@ ) by { assert("break"@.len() != "export"@.len() || "break"@[0] != "export"@[0]); } assert("break"@ != "mut"@ ) by { assert("break"@.len() != "mut"@.len() || "break"@[0] != "mut"@[0]); } assert("break"@ != "using"@ ) by { assert("break"@.len() != "using"@.len() || "break"@[0] != "using"@[0]); } assert("break"@ != "defer"@ ) by { assert("break"@.len() != "defer"@.len() || "break"@[0] != "defer"@[0]); } assert("break"@ != "match"@ ) by { assert("break"@.len() != "match"@.len() || "break"@[0] != "match"@[0]); } assert("break"@ != "return"@ ) by { assert("break"@.len() != "return"@.len() || "break"@[0] != "return"@[0]); } assert("break"@ != "if"@ ) by { assert("break"@.len() != "if"@.len() || "break"@[0] != "if"@[0]); } assert("break"@ != "else"@ ) by { assert("break"@.len() != "else"@.len() || "break"@[0] != "else"@[0]); } assert("break"@ != "for"@ ) by { assert("break"@.len() != "for"@.len() || "break"@[0] != "for"@[0]); } assert("break"@ != "while"@ ) by { assert("break"@.len() != "while"@.len() || "break"@[0] != "while"@[0]); } assert("break"@ != "do"@ ) by { assert("break"@.len() != "do"@.len() || "break"@[0] != "do"@[0]); } assert("break"@ != "in"@ ) by { assert("break"@.len() != "in"@.len() || "break"@[0] != "in"@[0]); } },
        Keyword::Continue => { assert("continue"@ != "func"@ ) by { assert("continue"@.len() != "func"@.len() || "continue"@[0] != "func"@[0]); } assert("continue"@ != "lambda"@ ) by { assert("continue"@.len() != "lambda"@.len() || "continue"@[0] != "lambda"@[0]); } assert("continue"@ != "struct"@ ) by { assert("continue"@.len() != "struct"@.len() || "continue"@[0] != "struct"@[0]); } assert("continue"@ != "enum"@ ) by { assert("continue"@.len() != "enum"@.len() || "continue"@[0] != "enum"@[0]); } assert("continue"@ != "interface"@ ) by { assert("continue"@.len() != "interface"@.len() || "continue"@[0] != "interface"@[0]); } assert("continue"@ != "impl"@ ) by { assert("continue"@.len() != "impl"@.len() || "continue"@[0] != "impl"@[0]); } assert("continue"@ != "foreign"@ ) by { assert("continue"@.len() != "foreign"@.len() || "continue"@[0] != "foreign"@[0]); } assert("continue"@ != "monad"@ ) by { assert("continue"@.len() != "monad"@.len() || "continue"@[0] != "monad"@[0]); } assert("continue"@ != "export"@ ) by { assert("continue"@.len() != "export"@.len() || "continue"@[0] != "export"@[0]); } assert("continue"@ != "mut"@ ) by { assert("continue"@.len() != "mut"@.len() || "continue"@[0] != "mut"@[0]); } assert("continue"@ != "using"@ ) by { assert("continue"@.len() != "using"@.len() || "continue"@[0] != "using"@[0]); } assert("continue"@ != "defer"@ ) by { assert("continue"@.len() != "defer"@.len() || "continue"@[0] != "defer"@[0]); } assert("continue"@ != "match"@ ) by { assert("continue"@.len() != "match"@.len() || "continue"@[0] != "match"@[0]); } assert("continue"@ != "return"@ ) by { assert("continue"@.len() != "return"@.len() || "continue"@[0] != "return"@[0]); } assert("continue"@ != "if"@ ) by { assert("continue"@.len() != "if"@.len() || "continue"@[0] != "if"@[0]); } assert("continue"@ != "else"@ ) by { assert("continue"@.len() != "else"@.len() || "continue"@[0] != "else"@[0]); } assert("continue"@ != "for"@ ) by { assert("continue"@.len() != "for"@.len() || "continue"@[0] != "for"@[0]); } assert("continue"@ != "while"@ ) by { assert("continue"@.len() != "while"@.len() || "continue"@[0] != "while"@[0]); } assert("continue"@ != "do"@ ) by { assert("continue"@.len() != "do"@.len() || "continue"@[0] != "do"@[0]); } assert("continue"@ != "in"@ ) by { assert("continue"@.len() != "in"@.len() || "continue"@[0] != "in"@[0]); } assert("continue"@ != "break"@ ) by { assert("continue"@.len() != "break"@.len() || "continue"@[0] != "break"@[0]); } },
    }
}

impl Keyword {
    /// Maps an identifier to a keyword, or None if it is an ordinary identifier.
    pub fn lookup(s: &str) -> (k: Option<Keyword>)
        ensures
            k == spec_keyword(s@),
    {
        let cs = chars_of(s);
        Self::lookup_chars(cs.as_slice())
    }

    pub fn lookup_chars(cs: &[char]) -> (k: Option<Keyword>)
        ensures
            k == spec_keyword(cs@),
    {
        if is_lit(cs, "func") {
            Some(Keyword::Func)
        } else if is_lit(cs, "lambda") {
            Some(Keyword::Lambda)
        } else if is_lit(cs, "struct") {
            Some(Keyword::Struct)
        } else if is_lit(cs, "enum") {
            Some(Keyword::Enum)
        } else if is_lit(cs, "interface") {
            Some(Keyword::Interface)
        } else if is_lit(cs, "impl") {
            Some(Keyword::Impl)
        } else if is_lit(cs, "foreign") {
            Some(Keyword::Foreign)
        } else if is_lit(cs, "monad") {
            Some(Keyword::Monad)
        } else if is_lit(cs, "export") {
            Some(Keyword::Export)
        } else if is_lit(cs, "mut") {
            Some(Keyword::Mut)
        } else if is_lit(cs, "using") {
            Some(Keyword::Using)
        } else if is_lit(cs, "defer") {
            Some(Keyword::Defer)
        } else if is_lit(cs, "match") {
            Some(Keyword::Match)
        } else if is_lit(cs, "return") {
            Some(Keyword::Return)
        } else if is_lit(cs, "if") {
            Some(Keyword::If)
        } else if is_lit(cs, "else") {
            Some(Keyword::Else)
        } else if is_lit(cs, "for") {
            Some(Keyword::For)
        } else if is_lit(cs, "while") {
            Some(Keyword::While)
        } else if is_lit(cs, "do") {
            Some(Keyword::Do)
        } else if is_lit(cs, "in") {
            Some(Keyword::In)
        } else if is_lit(cs, "break") {
            Some(Keyword::Break)
        } else if is_lit(cs, "continue") {
            Some(Keyword::Continue)
        } else {
            None
        }
    }
}

/// The lexical categories the lexer emits. A float literal keeps the digits
/// it was written with; turning them into a machine float is left to the
/// consumer that needs the value.
#[derive(Clone, Debug, PartialEq)]
pub enum TokenKind {
    Ident(String),
    Int { val: i64, suffix: Option<String> },
    Float { text: String, suffix: Option<String> },
    Str(String),
    Char(char),
    Rune(char),
    Bool(bool),
    Kw(Keyword),
    ColonEq,
    Arrow,
    FatArrow,
    LArrow,
    DotDot,
    DotDotEq,
    EqEq,
    Ne,
    Le,
    Ge,
    AndAnd,
    OrOr,
    Amp,
    Pipe,
    Caret,
    Tilde,
    Shl,
    Shr,
    StarStar,
    PipeGt,
    PlusPlus,
    MinusMinus,
    PlusEq,
    MinusEq,
    StarEq,
    SlashEq,
    PercentEq,
    AmpEq,
    PipeEq,
    CaretEq,
    ShlEq,
    ShrEq,
    Assign,
    Plus,
    Minus,
    Star,
    Slash,
    Percent,
    Lt,
    Gt,
    Bang,
    Colon,
    Semi,
    Comma,
    Dot,
    At,
    LParen,
    RParen,
    LBrace,
    RBrace,
    LBracket,
    RBracket,
    Eof,
}

/// The mathematical form of a token kind.
pub enum TokenKindV {
    Ident(Seq<char>),
    Int(i64, Option<Seq<char>>),
    Float(Seq<char>, Option<Seq<char>>),
    Str(Seq<char>),
    Char(char),
    Rune(char),
    Bool(bool),
    Kw(Keyword),
    ColonEq,
    Arrow,
    FatArrow,
    LArrow,
    DotDot,
    DotDotEq,
    EqEq,
    Ne,
    Le,
    Ge,
    AndAnd,
    OrOr,
    Amp,
    Pipe,
    Caret,
    Tilde,
    Shl,
    Shr,
    StarStar,
    PipeGt,
    PlusPlus,
    MinusMinus,
    PlusEq,
    MinusEq,
    StarEq,
    SlashEq,
    PercentEq,
    AmpEq,
    PipeEq,
    CaretEq,
    ShlEq,
    ShrEq,
    Assign,
    Plus,
    Minus,
    Star,
    Slash,
    Percent,
    Lt,
    Gt,
    Bang,
    Colon,
    Semi,
    Comma,
    Dot,
    At,
    LParen,
    RParen,
    LBrace,
    RBrace,
    LBracket,
    RBracket,
    Eof,
}

pub open spec fn opt_view(o: Option<String>) -> Option<Seq<char>> {
    match o {
        Some(s) => Some(s@),
        None => None,
    }
}

/// The mathematical form of a token kind.
pub open spec fn kind_view(k: TokenKind) -> TokenKindV {
    match k {
        TokenKind::Ident(s) => TokenKindV::Ident(s@),
        TokenKind::Int { val, suffix } => TokenKindV::Int(val, opt_view(suffix)),
        TokenKind::Float { text, suffix } => TokenKindV::Float(text@, opt_view(suffix)),
        TokenKind::Str(s) => TokenKindV::Str(s@),
        TokenKind::Char(c) => TokenKindV::Char(c),
        TokenKind::Rune(c) => TokenKindV::Rune(c),
        TokenKind::Bool(b) => TokenKindV::Bool(b),
        TokenKind::Kw(k) => TokenKindV::Kw(k),
        TokenKind::ColonEq => TokenKindV::ColonEq,
        TokenKind::Arrow => TokenKindV::Arrow,
        TokenKind::FatArrow => TokenKindV::FatArrow,
        TokenKind::LArrow => TokenKindV::LArrow,
        TokenKind::DotDot => TokenKindV::DotDot,
        TokenKind::DotDotEq => TokenKindV::DotDotEq,
        TokenKind::EqEq => TokenKindV::EqEq,
        TokenKind::Ne => TokenKindV::Ne,
        TokenKind::Le => TokenKindV::Le,
        TokenKind::Ge => TokenKindV::Ge,
        TokenKind::AndAnd => TokenKindV::AndAnd,
        TokenKind::OrOr => TokenKindV::OrOr,
        TokenKind::Amp => TokenKindV::Amp,
        TokenKind::Pipe => TokenKindV::Pipe,
        TokenKind::Caret => TokenKindV::Caret,
        TokenKind::Tilde => TokenKindV::Tilde,
        TokenKind::Shl => TokenKindV::Shl,
        TokenKind::Shr => TokenKindV::Shr,
        TokenKind::StarStar => TokenKindV::StarStar,
        TokenKind::PipeGt => TokenKindV::PipeGt,
        TokenKind::PlusPlus => TokenKindV::PlusPlus,
        TokenKind::MinusMinus => TokenKindV::MinusMinus,
        TokenKind::PlusEq => TokenKindV::PlusEq,
        TokenKind::MinusEq => TokenKindV::MinusEq,
        TokenKind::StarEq => TokenKindV::StarEq,
        TokenKind::SlashEq => TokenKindV::SlashEq,
        TokenKind::PercentEq => TokenKindV::PercentEq,
        TokenKind::AmpEq => TokenKindV::AmpEq,
        TokenKind::PipeEq => TokenKindV::PipeEq,
        TokenKind::CaretEq => TokenKindV::CaretEq,
        TokenKind::ShlEq => TokenKindV::ShlEq,
        TokenKind::ShrEq => TokenKindV::ShrEq,
        TokenKind::Assign => TokenKindV::Assign,
        TokenKind::Plus => TokenKindV::Plus,
        TokenKind::Minus => TokenKindV::Minus,
        TokenKind::Star => TokenKindV::Star,
        TokenKind::Slash => TokenKindV::Slash,
        TokenKind::Percent => TokenKindV::Percent,
        TokenKind::Lt => TokenKindV::Lt,
        TokenKind::Gt => TokenKindV::Gt,
        TokenKind::Bang => TokenKindV::Bang,
        TokenKind::Colon => TokenKindV::Colon,
        TokenKind::Semi => TokenKindV::Semi,
        TokenKind::Comma => TokenKindV::Comma,
        TokenKind::Dot => TokenKindV::Dot,
        TokenKind::At => TokenKindV::At,
        TokenKind::LParen => TokenKindV::LParen,
        TokenKind::RParen => TokenKindV::RParen,
        TokenKind::LBrace => TokenKindV::LBrace,
        TokenKind::RBrace => TokenKindV::RBrace,
        TokenKind::LBracket => TokenKindV::LBracket,
        TokenKind::RBracket => TokenKindV::RBracket,
        TokenKind::Eof => TokenKindV::Eof,
    }
}

} // verus!
