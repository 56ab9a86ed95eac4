//! Parser data and the parser's token cursor.
//!
//! The syntax tree (`ast`) and its canonical dump (`dump`) live in the
//! submodules. This module holds the cursor the recursive-descent parser reads
//! tokens through, the nesting guard that bounds its recursion, the binding
//! power table of the Pratt layer for binary operators, and the lookahead that
//! tells a `collector<T>(value)` mint from a comparison.

pub mod ast;
pub mod dump;

use vstd::prelude::*;
use crate::diag::{Diagnostic, Span};
use crate::lexer::token::{Token, TokenKind, TokenKindV};
use crate::lexer::{errs_view, toks_view};
use crate::lexer::spec::{ErrV, TokV};
use crate::text::push_str;
use ast::{BinOp, Expr, ExprKind};

verus! {

/// The ceiling on the live nesting depth of the expression, type and block
/// recursions. It sits far above any nesting a person writes; it exists so a
/// pathological input such as `((((...` unwinds with one diagnostic.
pub const MAX_NESTING: u32 = 500;

/// The parser's state: the token stream, the cursor into it, the diagnostics
/// collected so far, and the context flags the grammar consults.
pub struct Parser {
    toks: Vec<Token>,
    pos: usize,
    errors: Vec<Diagnostic>,
    no_struct: bool,
    in_async_fn: bool,
    lambda_depth: u32,
    depth: u32,
    hit_depth_limit: bool,
}

/// The mathematical form of the parser state.
pub struct ParserV {
    pub toks: Seq<TokV>,
    pub pos: int,
    pub errors: Seq<ErrV>,
    pub no_struct: bool,
    pub in_async_fn: bool,
    pub lambda_depth: int,
    pub depth: int,
    pub hit_depth_limit: bool,
}

/// A token stream the parser accepts: nonempty and ending in `Eof`.
pub open spec fn stream_ok(ts: Seq<TokV>) -> bool {
    ts.len() > 0 && ts.last().0 is Eof
}

impl View for Parser {
    type V = ParserV;

    closed spec fn view(&self) -> ParserV {
        ParserV {
            toks: toks_view(self.toks@),
            pos: self.pos as int,
            errors: errs_view(self.errors@),
            no_struct: self.no_struct,
            in_async_fn: self.in_async_fn,
            lambda_depth: self.lambda_depth as int,
            depth: self.depth as int,
            hit_depth_limit: self.hit_depth_limit,
        }
    }
}

impl ParserV {
    /// Well formed: the stream ends in `Eof` and the cursor is on a token.
    pub open spec fn wf(self) -> bool {
        stream_ok(self.toks) && 0 <= self.pos < self.toks.len()
    }

    /// The kind of the token under the cursor.
    pub open spec fn cur(self) -> TokenKindV {
        self.toks[self.pos].0
    }

    /// The same state with the cursor at `p`.
    pub open spec fn at_pos(self, p: int) -> ParserV {
        ParserV { pos: p, ..self }
    }

    /// The same state with one more diagnostic.
    pub open spec fn with_error(self, e: ErrV) -> ParserV {
        ParserV { errors: self.errors.push(e), ..self }
    }
}

/// The diagnostic the nesting guard emits, naming the construct and the fix.
pub open spec fn nesting_msg(what: Seq<char>, fix: Seq<char>) -> Seq<char> {
    what + " nesting is too deep; simplify the "@ + fix
}

impl Parser {
    /// A parser at the start of `toks`, which must end with the `Eof`
    /// sentinel that `lexer::lex` appends.
    pub fn new(toks: Vec<Token>) -> (p: Self)
        requires
            stream_ok(toks_view(toks@)),
        ensures
            p@ == (ParserV {
                toks: toks_view(toks@),
                pos: 0,
                errors: Seq::empty(),
                no_struct: false,
                in_async_fn: false,
                lambda_depth: 0,
                depth: 0,
                hit_depth_limit: false,
            }),
            p@.wf(),
    {
        let p = Parser {
            toks,
            pos: 0,
            errors: Vec::new(),
            no_struct: false,
            in_async_fn: false,
            lambda_depth: 0,
            depth: 0,
            hit_depth_limit: false,
        };
        assert(p@.errors =~= Seq::<ErrV>::empty());
        p
    }

    /// The kind of the current token.
    pub fn peek(&self) -> (k: &TokenKind)
        requires
            self@.wf(),
        ensures
            crate::lexer::token::kind_view(*k) == self@.cur(),
    {
        &self.toks[self.pos].kind
    }

    /// The kind of the token after the current one, `Eof` past the end.
    pub fn peek2(&self) -> (k: &TokenKind)
        requires
            self@.wf(),
        ensures
            crate::lexer::token::kind_view(*k) == (if self@.pos + 1 < self@.toks.len() {
                self@.toks[self@.pos + 1].0
            } else {
                TokenKindV::Eof
            }),
    {
        proof {
            assert(self@.toks.len() == self.toks@.len());
        }
        if self.pos < self.toks.len() - 1 {
            &self.toks[self.pos + 1].kind
        } else {
            &self.toks[self.toks.len() - 1].kind
        }
    }

    /// Whether a newline precedes the current token.
    pub fn nl_here(&self) -> (b: bool)
        requires
            self@.wf(),
        ensures
            b == self@.toks[self@.pos].3,
    {
        self.toks[self.pos].nl_before
    }

    /// The span of the current token.
    pub fn span(&self) -> (s: Span)
        requires
            self@.wf(),
        ensures
            s.lo == self@.toks[self@.pos].1,
            s.hi == self@.toks[self@.pos].2,
    {
        self.toks[self.pos].span
    }

    /// The end of the previous token, 0 at the start.
    pub fn prev_hi(&self) -> (h: u32)
        requires
            self@.wf(),
        ensures
            h == (if self@.pos > 0 { self@.toks[self@.pos - 1].2 } else { 0 }),
    {
        if self.pos > 0 {
            self.toks[self.pos - 1].span.hi
        } else {
            0
        }
    }

    /// Whether the cursor is on the `Eof` sentinel.
    pub fn at_eof(&self) -> (b: bool)
        requires
            self@.wf(),
        ensures
            b == (self@.cur() is Eof),
    {
        match &self.toks[self.pos].kind {
            TokenKind::Eof => true,
            _ => false,
        }
    }

    /// Steps past the current token; the cursor never moves past `Eof`.
    pub fn bump(&mut self)
        requires
            old(self)@.wf(),
        ensures
            final(self)@ == (if old(self)@.cur() is Eof {
                old(self)@
            } else {
                old(self)@.at_pos(old(self)@.pos + 1)
            }),
            final(self)@.wf(),
    {
        proof {
            assert(self@.toks.len() == self.toks@.len());
        }
        if !self.at_eof() {
            assert(self.pos != self.toks.len() - 1);
            self.pos = self.pos + 1;
        }
    }

    /// Records a diagnostic with `msg` at the current token.
    pub fn error(&mut self, msg: String)
        requires
            old(self)@.wf(),
        ensures
            final(self)@ == old(self)@.with_error(
                (msg@, old(self)@.toks[old(self)@.pos].1, old(self)@.toks[old(self)@.pos].2),
            ),
    {
        let span = self.span();
        self.errors.push(Diagnostic { msg, span });
        proof {
            assert(self@.errors =~= old(self)@.errors.push(
                (msg@, old(self)@.toks[old(self)@.pos].1, old(self)@.toks[old(self)@.pos].2),
            ));
            assert(self@ == old(self)@.with_error(
                (msg@, old(self)@.toks[old(self)@.pos].1, old(self)@.toks[old(self)@.pos].2),
            ));
        }
    }

    /// Counts one level of expression, type or block recursion. Returns false
    /// once the depth passes `MAX_NESTING`; the first crossing records one
    /// diagnostic naming the construct and the fix, later ones record none.
    /// The depth always grows by one, to be given back by `leave_nesting`.
    pub fn enter_nesting(&mut self, what: &str, fix: &str) -> (ok: bool)
        requires
            old(self)@.wf(),
            old(self)@.depth < u32::MAX,
        ensures
            ok == (old(self)@.depth + 1 <= MAX_NESTING),
            final(self)@ == (if ok || old(self)@.hit_depth_limit {
                ParserV { depth: old(self)@.depth + 1, ..old(self)@ }
            } else {
                ParserV {
                    depth: old(self)@.depth + 1,
                    hit_depth_limit: true,
                    ..old(self)@.with_error(
                        (
                            nesting_msg(what@, fix@),
                            old(self)@.toks[old(self)@.pos].1,
                            old(self)@.toks[old(self)@.pos].2,
                        ),
                    )
                }
            }),
    {
        self.depth = self.depth + 1;
        if self.depth > MAX_NESTING {
            if !self.hit_depth_limit {
                self.hit_depth_limit = true;
                let mut msg = String::new();
                push_str(&mut msg, what);
                push_str(&mut msg, " nesting is too deep; simplify the ");
                push_str(&mut msg, fix);
                self.error(msg);
            }
            false
        } else {
            true
        }
    }

    /// Gives back the level `enter_nesting` counted.
    pub fn leave_nesting(&mut self)
        requires
            old(self)@.depth > 0,
        ensures
            final(self)@ == (ParserV { depth: old(self)@.depth - 1, ..old(self)@ }),
    {
        self.depth = self.depth - 1;
    }

    /// The binary operator the current token spells, with its left and right
    /// binding powers.
    pub fn peek_binop(&self) -> (r: Option<(BinOp, u8, u8)>)
        requires
            self@.wf(),
        ensures
            r == binop_info(self@.cur()),
    {
        binop_of_kind(self.peek())
    }
}

/// Whether the token after index `i` is `(`.
pub open spec fn paren_after(ts: Seq<TokV>, i: int) -> bool {
    i + 1 < ts.len() && ts[i + 1].0 is LParen
}

/// The mint lookahead from index `i` with angle depth `d`, scanning no
/// further than `end`: a `<` opens a level, a `>` closes one and a joined
/// `>>` two; the scan answers yes exactly when the levels close on zero with
/// `(` next, and no as soon as it meets a token a type argument list cannot
/// hold or the levels close below zero.
pub open spec fn mint_scan(ts: Seq<TokV>, i: int, end: int, d: int) -> bool
    decreases end - i,
{
    if i >= end || i < 0 {
        false
    } else {
        match ts[i].0 {
            TokenKindV::Lt => mint_scan(ts, i + 1, end, d + 1),
            TokenKindV::Gt => if d - 1 == 0 {
                paren_after(ts, i)
            } else {
                mint_scan(ts, i + 1, end, d - 1)
            },
            TokenKindV::Shr => if d - 2 <= 0 {
                d - 2 == 0 && paren_after(ts, i)
            } else {
                mint_scan(ts, i + 1, end, d - 2)
            },
            TokenKindV::Ident(_) | TokenKindV::Comma | TokenKindV::Star | TokenKindV::StarStar
            | TokenKindV::LBracket | TokenKindV::RBracket | TokenKindV::LParen
            | TokenKindV::RParen | TokenKindV::Arrow | TokenKindV::Int(..) => mint_scan(
                ts,
                i + 1,
                end,
                d,
            ),
            _ => false,
        }
    }
}

/// The end of the mint lookahead window: 128 tokens from `pos`, or the end.
pub open spec fn mint_end(ts: Seq<TokV>, pos: int) -> int {
    if pos + 128 < ts.len() { pos + 128 } else { ts.len() as int }
}

/// Whether a type argument list can close at token kind `k`: the lexer joins
/// `>>`, `>>=` and `>=` greedily, and each of them starts with the `>`.
pub open spec fn type_close(k: TokenKindV) -> bool {
    k is Gt || k is Shr || k is ShrEq || k is Ge
}

impl Parser {
    /// Decides, with the cursor on the `<` after `collector`, whether a mint
    /// `collector<T>(value)` follows rather than a comparison. It only looks:
    /// no token is consumed or rewritten.
    pub fn collector_mint_ahead(&self) -> (b: bool)
        requires
            self@.wf(),
        ensures
            b == mint_scan(self@.toks, self@.pos, mint_end(self@.toks, self@.pos), 0),
    {
        proof {
            assert(self@.toks.len() == self.toks@.len());
        }
        let mut i = self.pos;
        let mut depth: i32 = 0;
        let end = if self.toks.len() - self.pos > 128 { self.pos + 128 } else { self.toks.len() };
        let ghost ts = self@.toks;
        let ghost p0 = self@.pos;
        while i < end
            invariant
                ts == self@.toks,
                ts.len() == self.toks@.len(),
                p0 == self@.pos,
                end == mint_end(ts, p0),
                p0 <= i <= end,
                -2 * (i - p0) <= depth <= i - p0,
                mint_scan(ts, p0, end as int, 0) == mint_scan(ts, i as int, end as int, depth as int),
            decreases end - i,
        {
            match &self.toks[i].kind {
                TokenKind::Lt => {
                    depth = depth + 1;
                }
                TokenKind::Gt => {
                    depth = depth - 1;
                    if depth == 0 {
                        let r = i + 1 < self.toks.len() && match &self.toks[i + 1].kind {
                            TokenKind::LParen => true,
                            _ => false,
                        };
                        return r;
                    }
                }
                TokenKind::Shr => {
                    depth = depth - 2;
                    if depth <= 0 {
                        let r = depth == 0 && i + 1 < self.toks.len() && match &self.toks[i + 1].kind {
                            TokenKind::LParen => true,
                            _ => false,
                        };
                        return r;
                    }
                }
                TokenKind::Ident(_)
                | TokenKind::Comma
                | TokenKind::Star
                | TokenKind::StarStar
                | TokenKind::LBracket
                | TokenKind::RBracket
                | TokenKind::LParen
                | TokenKind::RParen
                | TokenKind::Arrow
                | TokenKind::Int { .. } => {}
                _ => {
                    return false;
                }
            }
            i = i + 1;
        }
        false
    }

    /// The diagnostics recorded so far.
    pub fn diagnostics(&self) -> (r: &Vec<Diagnostic>)
        ensures
            errs_view(r@) == self@.errors,
    {
        &self.errors
    }

    /// The cursor's index into the token stream.
    pub fn position(&self) -> (r: usize)
        ensures
            r == self@.pos,
    {
        self.pos
    }

    /// The live nesting depth.
    pub fn nesting(&self) -> (r: u32)
        ensures
            r == self@.depth,
    {
        self.depth
    }

    /// Whether the current token can close a generic argument list.
    pub fn at_type_close(&self) -> (b: bool)
        requires
            self@.wf(),
        ensures
            b == type_close(self@.cur()),
    {
        match self.peek() {
            TokenKind::Gt | TokenKind::Shr | TokenKind::ShrEq | TokenKind::Ge => true,
            _ => false,
        }
    }

    /// Reads an array length: an integer literal is consumed and its value
    /// returned, reinterpreted as unsigned; anything else records "expected an
    /// array length" and yields 0 without consuming.
    pub fn array_len(&mut self) -> (n: u64)
        requires
            old(self)@.wf(),
        ensures
            final(self)@.wf(),
            old(self)@.cur() matches TokenKindV::Int(v, _) ==> n == v as u64
                && final(self)@ == old(self)@.at_pos(old(self)@.pos + 1),
            !(old(self)@.cur() is Int) ==> n == 0 && final(self)@ == old(self)@.with_error(
                (
                    "expected an array length"@,
                    old(self)@.toks[old(self)@.pos].1,
                    old(self)@.toks[old(self)@.pos].2,
                ),
            ),
    {
        proof {
            assert(self@.toks.len() == self.toks@.len());
        }
        let val = if let TokenKind::Int { val, .. } = self.peek() {
            *val
        } else {
            let mut msg = String::new();
            push_str(&mut msg, "expected an array length");
            self.error(msg);
            return 0;
        };
        assert(self.pos != self.toks.len() - 1);
        self.pos = self.pos + 1;
        val as u64
    }
}

/// The binary operator a token kind spells.
pub open spec fn binop_token(k: TokenKindV) -> Option<BinOp> {
    match k {
        TokenKindV::OrOr => Some(BinOp::Or),
        TokenKindV::AndAnd => Some(BinOp::And),
        TokenKindV::EqEq => Some(BinOp::Eq),
        TokenKindV::Ne => Some(BinOp::Ne),
        TokenKindV::Lt => Some(BinOp::Lt),
        TokenKindV::Le => Some(BinOp::Le),
        TokenKindV::Gt => Some(BinOp::Gt),
        TokenKindV::Ge => Some(BinOp::Ge),
        TokenKindV::Pipe => Some(BinOp::BitOr),
        TokenKindV::Caret => Some(BinOp::BitXor),
        TokenKindV::Amp => Some(BinOp::BitAnd),
        TokenKindV::Shl => Some(BinOp::Shl),
        TokenKindV::Shr => Some(BinOp::Shr),
        TokenKindV::Plus => Some(BinOp::Add),
        TokenKindV::Minus => Some(BinOp::Sub),
        TokenKindV::Star => Some(BinOp::Mul),
        TokenKindV::Slash => Some(BinOp::Div),
        TokenKindV::Percent => Some(BinOp::Mod),
        TokenKindV::StarStar => Some(BinOp::Pow),
        _ => None,
    }
}

/// The precedence level of a binary operator, loosest first: `||`, `&&`, the
/// comparisons, `|`, `^`, `&`, the shifts, the additives, the multiplicatives,
/// `**`.
pub open spec fn binop_level(op: BinOp) -> int {
    match op {
        BinOp::Or => 1,
        BinOp::And => 2,
        BinOp::Eq | BinOp::Ne | BinOp::Lt | BinOp::Le | BinOp::Gt | BinOp::Ge => 3,
        BinOp::BitOr => 4,
        BinOp::BitXor => 5,
        BinOp::BitAnd => 6,
        BinOp::Shl | BinOp::Shr => 7,
        BinOp::Add | BinOp::Sub => 8,
        BinOp::Mul | BinOp::Div | BinOp::Mod => 9,
        BinOp::Pow => 10,
    }
}

/// A token's binary operator with its binding powers: `**` binds both sides
/// at 20; every other operator binds its left side at twice its level and its
/// right side one above that.
pub open spec fn binop_info(k: TokenKindV) -> Option<(BinOp, u8, u8)> {
    match binop_token(k) {
        Some(op) => if op == BinOp::Pow {
            Some((op, 20u8, 20u8))
        } else {
            Some((op, (2 * binop_level(op)) as u8, (2 * binop_level(op) + 1) as u8))
        },
        None => None,
    }
}

/// The binary operator and binding powers of a token kind.
pub fn binop_of_kind(k: &TokenKind) -> (r: Option<(BinOp, u8, u8)>)
    ensures
        r == binop_info(crate::lexer::token::kind_view(*k)),
{
    let op = match k {
        TokenKind::OrOr => BinOp::Or,
        TokenKind::AndAnd => BinOp::And,
        TokenKind::EqEq => BinOp::Eq,
        TokenKind::Ne => BinOp::Ne,
        TokenKind::Lt => BinOp::Lt,
        TokenKind::Le => BinOp::Le,
        TokenKind::Gt => BinOp::Gt,
        TokenKind::Ge => BinOp::Ge,
        TokenKind::Pipe => BinOp::BitOr,
        TokenKind::Caret => BinOp::BitXor,
        TokenKind::Amp => BinOp::BitAnd,
        TokenKind::Shl => BinOp::Shl,
        TokenKind::Shr => BinOp::Shr,
        TokenKind::Plus => BinOp::Add,
        TokenKind::Minus => BinOp::Sub,
        TokenKind::Star => BinOp::Mul,
        TokenKind::Slash => BinOp::Div,
        TokenKind::Percent => BinOp::Mod,
        TokenKind::StarStar => BinOp::Pow,
        _ => return None,
    };
    if let BinOp::Pow = op {
        return Some((op, 20, 20));
    }
    let lvl: u8 = match op {
        BinOp::Or => 1,
        BinOp::And => 2,
        BinOp::Eq | BinOp::Ne | BinOp::Lt | BinOp::Le | BinOp::Gt | BinOp::Ge => 3,
        BinOp::BitOr => 4,
        BinOp::BitXor => 5,
        BinOp::BitAnd => 6,
        BinOp::Shl | BinOp::Shr => 7,
        BinOp::Add | BinOp::Sub => 8,
        BinOp::Mul | BinOp::Div | BinOp::Mod => 9,
        BinOp::Pow => 10,
    };
    Some((op, lvl * 2, lvl * 2 + 1))
}

/// The operator a compound assignment token applies.
pub open spec fn compound_spec(k: TokenKindV) -> Option<BinOp> {
    match k {
        TokenKindV::PlusEq => Some(BinOp::Add),
        TokenKindV::MinusEq => Some(BinOp::Sub),
        TokenKindV::StarEq => Some(BinOp::Mul),
        TokenKindV::SlashEq => Some(BinOp::Div),
        TokenKindV::PercentEq => Some(BinOp::Mod),
        TokenKindV::AmpEq => Some(BinOp::BitAnd),
        TokenKindV::PipeEq => Some(BinOp::BitOr),
        TokenKindV::CaretEq => Some(BinOp::BitXor),
        TokenKindV::ShlEq => Some(BinOp::Shl),
        TokenKindV::ShrEq => Some(BinOp::Shr),
        _ => None,
    }
}

/// Maps a compound assignment token to its binary operator, or None when the
/// token does not begin a compound assignment.
pub fn compound_op(k: &TokenKind) -> (r: Option<BinOp>)
    ensures
        r == compound_spec(crate::lexer::token::kind_view(*k)),
{
    match k {
        TokenKind::PlusEq => Some(BinOp::Add),
        TokenKind::MinusEq => Some(BinOp::Sub),
        TokenKind::StarEq => Some(BinOp::Mul),
        TokenKind::SlashEq => Some(BinOp::Div),
        TokenKind::PercentEq => Some(BinOp::Mod),
        TokenKind::AmpEq => Some(BinOp::BitAnd),
        TokenKind::PipeEq => Some(BinOp::BitOr),
        TokenKind::CaretEq => Some(BinOp::BitXor),
        TokenKind::ShlEq => Some(BinOp::Shl),
        TokenKind::ShrEq => Some(BinOp::Shr),
        _ => None,
    }
}

/// The comparison operators, which cannot be chained.
pub open spec fn cmp_spec(op: BinOp) -> bool {
    op == BinOp::Eq || op == BinOp::Ne || op == BinOp::Lt || op == BinOp::Le
        || op == BinOp::Gt || op == BinOp::Ge
}

/// Whether `op` is a comparison.
pub fn is_cmp(op: BinOp) -> (b: bool)
    ensures
        b == cmp_spec(op),
{
    match op {
        BinOp::Eq | BinOp::Ne | BinOp::Lt | BinOp::Le | BinOp::Gt | BinOp::Ge => true,
        _ => false,
    }
}

/// An expression node of `kind` over `span`.
pub fn node(kind: ExprKind, span: Span) -> (e: Expr)
    ensures
        e.kind == kind,
        e.span == span,
{
    Expr { kind, span }
}

/// In the binding-power table, `**` alone lets its right operand take in
/// another operator of its own level, so `a ** b ** c` groups as
/// `a ** (b ** c)`; every other operator binds its right side one step
/// tighter than its left, so `a - b - c` groups as `(a - b) - c`. A tighter
/// level always outbinds a looser one on both sides.
pub proof fn law_binding_powers(k1: TokenKindV, k2: TokenKindV)
    ensures
        binop_info(k1) matches Some((op, l, r)) ==> ((op == BinOp::Pow <==> r <= l)
            && (op == BinOp::Pow ==> l == r) && (op != BinOp::Pow ==> r == l + 1)),
        binop_info(k1) matches Some((op1, l1, r1)) ==> (binop_info(k2) matches Some((op2, l2, r2))
            ==> (binop_level(op1) < binop_level(op2) ==> r1 < l2 && l1 < l2)),
{
}

} // verus!
