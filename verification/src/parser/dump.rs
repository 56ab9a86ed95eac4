//! Canonical escaping for the dump formats: printable ASCII passes through and
//! every other scalar becomes a `\u{hex}` escape.

use vstd::prelude::*;
use crate::diag::Span;
use crate::parser::ast::{
    Arm, Bind, BinOp, Block, DoBind, Enum, Expr, ExprKind, Field, For, Foreign, ForeignFunc, Func, If, Impl,
    Interface, Item, Lambda, Let, Match, MethodSig, Module, Param, Pattern, Stmt, Struct, Type, UnOp, Variant,
    While,
};
use crate::text::{chars_eq, chars_of, dec, push_char, push_dec, push_str};

verus! {

/// The lowercase hexadecimal digit for `d` in `0..16`.
pub open spec fn hex_digit(d: nat) -> char {
    if d < 10 {
        ((d + 48) as u32) as char
    } else {
        ((d + 87) as u32) as char
    }
}

/// The lowercase hexadecimal rendering of `n`, minimal width (zero is `0`).
pub open spec fn hex(n: nat) -> Seq<char>
    decreases n,
{
    if n < 16 {
        seq![hex_digit(n)]
    } else {
        hex(n / 16).push(hex_digit(n % 16))
    }
}

/// The canonical form of one scalar: itself when it is printable ASCII
/// (`0x20..=0x7e`), else `\u{` its code point in hex `}`.
pub open spec fn escape_one(c: char) -> Seq<char> {
    if 0x20 <= (c as u32) && (c as u32) <= 0x7e {
        seq![c]
    } else {
        "\\u{"@ + hex((c as u32) as nat) + "}"@
    }
}

/// The canonical form of a scalar sequence, one scalar at a time.
pub open spec fn escape_spec(s: Seq<char>) -> Seq<char>
    decreases s.len(),
{
    if s.len() == 0 {
        Seq::empty()
    } else {
        escape_spec(s.drop_last()) + escape_one(s.last())
    }
}

fn hex_char(d: u32) -> (c: char)
    requires
        d < 16,
    ensures
        c == hex_digit(d as nat),
{
    if d < 10 {
        let b: u8 = 48u8 + d as u8;
        b as char
    } else {
        let b: u8 = 87u8 + d as u8;
        b as char
    }
}

fn push_hex(s: &mut String, n: u32)
    ensures
        final(s)@ == old(s)@ + hex(n as nat),
    decreases n,
{
    if n < 16 {
        push_char(s, hex_char(n));
        assert(hex(n as nat) =~= seq![hex_digit(n as nat)]);
    } else {
        push_hex(s, n / 16);
        push_char(s, hex_char(n % 16));
        assert(old(s)@ + hex(n as nat) =~= old(s)@ + hex((n / 16) as nat) + seq![hex_digit((n % 16) as nat)]);
    }
}

/// Escapes a scalar sequence for a dump literal: printable ASCII passes
/// through, and everything else, controls and every non-ASCII scalar alike,
/// becomes a `\u{hex}` escape with the lowercase, minimal-width code point.
pub fn escape_canonical(chars: &[char]) -> (r: String)
    ensures
        r@ == escape_spec(chars@),
{
    let mut out = String::new();
    let mut i: usize = 0;
    while i < chars.len()
        invariant
            0 <= i <= chars.len(),
            out@ == escape_spec(chars@.take(i as int)),
        decreases chars.len() - i,
    {
        let c = chars[i];
        let cp = c as u32;
        let ghost before = out@;
        if 0x20 <= cp && cp <= 0x7e {
            push_char(&mut out, c);
        } else {
            push_str(&mut out, "\\u{");
            push_hex(&mut out, cp);
            push_str(&mut out, "}");
        }
        assert(chars@.take(i + 1).drop_last() =~= chars@.take(i as int));
        i = i + 1;
        assert(out@ =~= before + escape_one(c));
    }
    assert(chars@.take(i as int) =~= chars@);
    out
}

// The dump format: the pretty `Debug` layout. A struct is `Name {`, one line
// per field `name: value,` indented four spaces, then `}`; a tuple variant is
// `Name(`, one line per value, then `)`; a list is `[`, one line per entry,
// then `]` (`[]` when empty); a unit variant is its name. A nested value's
// lines are indented four spaces further.

/// `s` with every line after the first indented four spaces.
pub open spec fn pad(s: Seq<char>) -> Seq<char>
    decreases s.len(),
{
    if s.len() == 0 {
        Seq::empty()
    } else {
        pad(s.drop_last()) + if s.last() == '\n' { seq!['\n', ' ', ' ', ' ', ' '] } else { seq![s.last()] }
    }
}

/// One line of a tuple or list: the value indented, then a comma.
pub open spec fn entry(v: Seq<char>) -> Seq<char> {
    "    "@ + pad(v) + ",\n"@
}

/// One line of a struct: the field's name, the value indented, then a comma.
pub open spec fn field(name: Seq<char>, v: Seq<char>) -> Seq<char> {
    "    "@ + name + ": "@ + pad(v) + ",\n"@
}

pub open spec fn tuple1(name: Seq<char>, a: Seq<char>) -> Seq<char> {
    name + "(\n"@ + entry(a) + ")"@
}

pub open spec fn tuple2(name: Seq<char>, a: Seq<char>, b: Seq<char>) -> Seq<char> {
    name + "(\n"@ + entry(a) + entry(b) + ")"@
}

pub open spec fn tuple3(name: Seq<char>, a: Seq<char>, b: Seq<char>, c: Seq<char>) -> Seq<char> {
    name + "(\n"@ + entry(a) + entry(b) + entry(c) + ")"@
}

/// The entries of a list, one line each.
pub open spec fn lines(vs: Seq<Seq<char>>) -> Seq<char>
    decreases vs.len(),
{
    if vs.len() == 0 {
        Seq::empty()
    } else {
        lines(vs.drop_last()) + entry(vs.last())
    }
}

pub open spec fn list(vs: Seq<Seq<char>>) -> Seq<char> {
    if vs.len() == 0 {
        "[]"@
    } else {
        "[\n"@ + lines(vs) + "]"@
    }
}

pub open spec fn opt(v: Option<Seq<char>>) -> Seq<char> {
    match v {
        Some(x) => tuple1("Some"@, x),
        None => "None"@,
    }
}

pub open spec fn bool_s(b: bool) -> Seq<char> {
    if b { "true"@ } else { "false"@ }
}

pub open spec fn str_s(s: Seq<char>) -> Seq<char> {
    "\""@ + escape_spec(s) + "\""@
}

pub open spec fn char_s(c: char) -> Seq<char> {
    "'"@ + escape_spec(seq![c]) + "'"@
}

pub open spec fn i64_s(v: i64) -> Seq<char> {
    if v < 0 { "-"@ + dec((-v) as nat) } else { dec(v as nat) }
}

pub open spec fn span_s(sp: Span) -> Seq<char> {
    "Span {\n"@ + field("lo"@, dec(sp.lo as nat)) + field("hi"@, dec(sp.hi as nat)) + "}"@
}

pub open spec fn strs_s(v: Seq<String>) -> Seq<char> {
    list(Seq::new(v.len(), |i: int| str_s(v[i]@)))
}

/// The dump of a type.
pub open spec fn type_s(t: Type) -> Seq<char>
    decreases t, 1int,
{
    match t {
        Type::Named(n, args) => tuple2("Named"@, str_s(n@), types_s(args@)),
        Type::Ptr(b) => tuple1("Ptr"@, type_s(*b)),
        Type::RawPtr(b) => tuple1("RawPtr"@, type_s(*b)),
        Type::Slice(b) => tuple1("Slice"@, type_s(*b)),
        Type::Array(b, n) => tuple2("Array"@, type_s(*b), dec(n as nat)),
        Type::Tuple(xs) => tuple1("Tuple"@, types_s(xs@)),
        Type::Func(ps, r) => tuple2("Func"@, types_s(ps@), type_s(*r)),
        Type::Unit => "Unit"@,
    }
}

pub open spec fn types_s(v: Seq<Type>) -> Seq<char>
    decreases v, 1int,
{
    list(type_strs(v))
}

pub open spec fn type_strs(v: Seq<Type>) -> Seq<Seq<char>>
    decreases v, 0int,
{
    if v.len() == 0 {
        Seq::empty()
    } else {
        type_strs(v.drop_last()).push(type_s(v.last()))
    }
}

// Builders.

fn pad_into(out: &mut String, s: &String)
    ensures
        final(out)@ == old(out)@ + pad(s@),
{
    let cs = chars_of(s.as_str());
    let ghost start = out@;
    let mut i: usize = 0;
    while i < cs.len()
        invariant
            cs@ == s@,
            0 <= i <= cs@.len(),
            out@ == start + pad(cs@.take(i as int)),
        decreases cs.len() - i,
    {
        let ghost before = out@;
        if cs[i] == '\n' {
            push_str(out, "\n    ");
            proof {
                reveal_strlit("\n    ");
            }
        } else {
            push_char(out, cs[i]);
        }
        proof {
            assert(cs@.take(i + 1).drop_last() =~= cs@.take(i as int));
        }
        i = i + 1;
        assert(out@ =~= start + pad(cs@.take(i as int)));
    }
    assert(cs@.take(i as int) =~= s@);
}

fn push_entry(out: &mut String, v: &String)
    ensures
        final(out)@ == old(out)@ + entry(v@),
{
    let ghost start = out@;
    push_str(out, "    ");
    pad_into(out, v);
    push_str(out, ",\n");
    assert(out@ =~= start + entry(v@));
}

fn push_field(out: &mut String, name: &str, v: &String)
    ensures
        final(out)@ == old(out)@ + field(name@, v@),
{
    let ghost start = out@;
    push_str(out, "    ");
    push_str(out, name);
    push_str(out, ": ");
    pad_into(out, v);
    push_str(out, ",\n");
    assert(out@ =~= start + field(name@, v@));
}

fn tuple1_s(name: &str, a: &String) -> (r: String)
    ensures
        r@ == tuple1(name@, a@),
{
    let mut out = String::new();
    push_str(&mut out, name);
    push_str(&mut out, "(\n");
    push_entry(&mut out, a);
    push_str(&mut out, ")");
    assert(out@ =~= tuple1(name@, a@));
    out
}

fn tuple2_s(name: &str, a: &String, b: &String) -> (r: String)
    ensures
        r@ == tuple2(name@, a@, b@),
{
    let mut out = String::new();
    push_str(&mut out, name);
    push_str(&mut out, "(\n");
    push_entry(&mut out, a);
    push_entry(&mut out, b);
    push_str(&mut out, ")");
    assert(out@ =~= tuple2(name@, a@, b@));
    out
}

fn tuple3_s(name: &str, a: &String, b: &String, c: &String) -> (r: String)
    ensures
        r@ == tuple3(name@, a@, b@, c@),
{
    let mut out = String::new();
    push_str(&mut out, name);
    push_str(&mut out, "(\n");
    push_entry(&mut out, a);
    push_entry(&mut out, b);
    push_entry(&mut out, c);
    push_str(&mut out, ")");
    assert(out@ =~= tuple3(name@, a@, b@, c@));
    out
}

pub open spec fn strs_of(v: Seq<String>) -> Seq<Seq<char>> {
    Seq::new(v.len(), |i: int| v[i]@)
}

fn list_s(vs: &Vec<String>) -> (r: String)
    ensures
        r@ == list(strs_of(vs@)),
{
    let mut out = String::new();
    if vs.len() == 0 {
        push_str(&mut out, "[]");
        return out;
    }
    push_str(&mut out, "[\n");
    let ghost start = out@;
    let mut i: usize = 0;
    while i < vs.len()
        invariant
            0 <= i <= vs@.len(),
            out@ == start + lines(strs_of(vs@).take(i as int)),
        decreases vs.len() - i,
    {
        push_entry(&mut out, &vs[i]);
        proof {
            assert(strs_of(vs@).take(i + 1).drop_last() =~= strs_of(vs@).take(i as int));
        }
        i = i + 1;
        assert(out@ =~= start + lines(strs_of(vs@).take(i as int)));
    }
    push_str(&mut out, "]");
    assert(strs_of(vs@).take(i as int) =~= strs_of(vs@));
    out
}

fn opt_s(v: Option<String>) -> (r: String)
    ensures
        r@ == opt(match v {
            Some(x) => Some(x@),
            None => None,
        }),
{
    match v {
        Some(x) => tuple1_s("Some", &x),
        None => {
            let mut out = String::new();
            push_str(&mut out, "None");
            out
        },
    }
}

fn lit_s(t: &str) -> (r: String)
    ensures
        r@ == t@,
{
    let mut out = String::new();
    push_str(&mut out, t);
    out
}

fn bool_str(b: bool) -> (r: String)
    ensures
        r@ == bool_s(b),
{
    if b { lit_s("true") } else { lit_s("false") }
}

fn str_str(s: &String) -> (r: String)
    ensures
        r@ == str_s(s@),
{
    let cs = chars_of(s.as_str());
    let e = escape_canonical(cs.as_slice());
    let mut out = String::new();
    push_str(&mut out, "\"");
    push_str(&mut out, e.as_str());
    push_str(&mut out, "\"");
    assert(out@ =~= str_s(s@));
    out
}

fn char_str(c: char) -> (r: String)
    ensures
        r@ == char_s(c),
{
    let mut v: Vec<char> = Vec::new();
    v.push(c);
    assert(v@ =~= seq![c]);
    let e = escape_canonical(v.as_slice());
    let mut out = String::new();
    push_str(&mut out, "'");
    push_str(&mut out, e.as_str());
    push_str(&mut out, "'");
    assert(out@ =~= char_s(c));
    out
}

fn dec_str(n: u64) -> (r: String)
    ensures
        r@ == dec(n as nat),
{
    let mut out = String::new();
    push_dec(&mut out, n);
    assert(out@ =~= dec(n as nat));
    out
}

fn i64_str(v: i64) -> (r: String)
    ensures
        r@ == i64_s(v),
{
    if v < 0 {
        let m: u64 = ((-(v + 1)) as u64) + 1;
        assert(m as nat == (-v) as nat);
        let mut out = String::new();
        push_str(&mut out, "-");
        push_dec(&mut out, m);
        out
    } else {
        dec_str(v as u64)
    }
}

fn span_str(sp: Span) -> (r: String)
    ensures
        r@ == span_s(sp),
{
    let mut out = String::new();
    push_str(&mut out, "Span {\n");
    push_field(&mut out, "lo", &dec_str(sp.lo as u64));
    push_field(&mut out, "hi", &dec_str(sp.hi as u64));
    push_str(&mut out, "}");
    assert(out@ =~= span_s(sp));
    out
}

fn strs_str(v: &Vec<String>) -> (r: String)
    ensures
        r@ == strs_s(v@),
{
    let mut parts: Vec<String> = Vec::new();
    let mut i: usize = 0;
    while i < v.len()
        invariant
            0 <= i <= v@.len(),
            parts@.len() == i,
            forall|j: int| 0 <= j < i ==> (#[trigger] parts@[j])@ == str_s(v@[j]@),
        decreases v.len() - i,
    {
        parts.push(str_str(&v[i]));
        i = i + 1;
    }
    let r = list_s(&parts);
    assert(strs_of(parts@) =~= Seq::new(v@.len(), |i: int| str_s(v@[i]@)));
    r
}

/// The dump of a type.
pub fn type_str(t: &Type) -> (r: String)
    ensures
        r@ == type_s(*t),
    decreases t,
{
    match t {
        Type::Named(n, args) => tuple2_s("Named", &str_str(n), &types_str(args)),
        Type::Ptr(b) => tuple1_s("Ptr", &type_str(b)),
        Type::RawPtr(b) => tuple1_s("RawPtr", &type_str(b)),
        Type::Slice(b) => tuple1_s("Slice", &type_str(b)),
        Type::Array(b, n) => tuple2_s("Array", &type_str(b), &dec_str(*n)),
        Type::Tuple(xs) => tuple1_s("Tuple", &types_str(xs)),
        Type::Func(ps, r) => tuple2_s("Func", &types_str(ps), &type_str(r)),
        Type::Unit => lit_s("Unit"),
    }
}

fn types_str(v: &Vec<Type>) -> (r: String)
    ensures
        r@ == types_s(v@),
    decreases v,
{
    let mut parts: Vec<String> = Vec::new();
    let mut i: usize = 0;
    while i < v.len()
        invariant
            0 <= i <= v@.len(),
            strs_of(parts@) == type_strs(v@.take(i as int)),
        decreases v.len() - i,
    {
        proof {
            assert(decreases_to!(v => v@[i as int]));
        }
        let ghost p0 = parts@;
        parts.push(type_str(&v[i]));
        proof {
            assert(v@.take(i + 1).drop_last() =~= v@.take(i as int));
            assert(strs_of(parts@) =~= strs_of(p0).push(type_s(v@[i as int])));
        }
        i = i + 1;
    }
    assert(v@.take(i as int) =~= v@);
    list_s(&parts)
}

// Expressions and statements. A float literal dumps as the bits of its IEEE
// 754 value, `0x` and sixteen uppercase hex digits; the bits come in a table
// from literal text to bits, and a text not in the table dumps as zero.

pub open spec fn floats_view(v: Seq<(String, u64)>) -> Seq<(Seq<char>, u64)> {
    Seq::new(v.len(), |i: int| (v[i].0@, v[i].1))
}

/// The bits the table gives a float literal's text: its first entry, or 0.
pub open spec fn float_bits(fl: Seq<(Seq<char>, u64)>, t: Seq<char>, i: int) -> u64
    decreases fl.len() - i,
{
    if i < 0 || i >= fl.len() {
        0
    } else if fl[i].0 == t {
        fl[i].1
    } else {
        float_bits(fl, t, i + 1)
    }
}

/// The uppercase hexadecimal digit for `d` in `0..16`.
pub open spec fn hex_upper(d: nat) -> char {
    if d < 10 {
        ((d + 48) as u32) as char
    } else {
        ((d + 55) as u32) as char
    }
}

/// The last `n` hex digits of `b`, most significant first, zero padded.
pub open spec fn hex_fixed(b: nat, n: nat) -> Seq<char>
    decreases n,
{
    if n == 0 {
        Seq::empty()
    } else {
        hex_fixed(b / 16, (n - 1) as nat).push(hex_upper(b % 16))
    }
}

pub open spec fn float_s(fl: Seq<(Seq<char>, u64)>, t: Seq<char>) -> Seq<char> {
    "0x"@ + hex_fixed(float_bits(fl, t, 0) as nat, 16)
}

pub open spec fn opt_str(s: Option<String>) -> Seq<char> {
    opt(match s {
        Some(x) => Some(str_s(x@)),
        None => None,
    })
}

pub open spec fn unop_s(op: UnOp) -> Seq<char> {
    match op {
        UnOp::Deref => "Deref"@,
        UnOp::Neg => "Neg"@,
        UnOp::Not => "Not"@,
        UnOp::BitNot => "BitNot"@,
    }
}

pub open spec fn binop_s(op: BinOp) -> Seq<char> {
    match op {
        BinOp::Add => "Add"@,
        BinOp::Sub => "Sub"@,
        BinOp::Mul => "Mul"@,
        BinOp::Div => "Div"@,
        BinOp::Mod => "Mod"@,
        BinOp::Eq => "Eq"@,
        BinOp::Ne => "Ne"@,
        BinOp::Lt => "Lt"@,
        BinOp::Le => "Le"@,
        BinOp::Gt => "Gt"@,
        BinOp::Ge => "Ge"@,
        BinOp::And => "And"@,
        BinOp::Or => "Or"@,
        BinOp::BitAnd => "BitAnd"@,
        BinOp::BitOr => "BitOr"@,
        BinOp::BitXor => "BitXor"@,
        BinOp::Shl => "Shl"@,
        BinOp::Shr => "Shr"@,
        BinOp::Pow => "Pow"@,
    }
}

pub open spec fn param_s(p: Param) -> Seq<char> {
    "Param {\n"@ + field("using"@, bool_s(p.using)) + field("name"@, str_s(p.name@)) + field("ty"@, type_s(p.ty)) + "}"@
}

pub open spec fn params_s(v: Seq<Param>) -> Seq<char> {
    list(Seq::new(v.len(), |i: int| param_s(v[i])))
}

pub open spec fn bind_s(b: Bind) -> Seq<char> {
    "Bind {\n"@ + field("name"@, str_s(b.name@)) + field("ty"@, opt(match b.ty {
        Some(t) => Some(type_s(t)),
        None => None,
    })) + "}"@
}

pub open spec fn pattern_s(p: Pattern) -> Seq<char> {
    match p {
        Pattern::Wildcard => "Wildcard"@,
        Pattern::Ident(n) => tuple1("Ident"@, str_s(n@)),
        Pattern::Variant(n, bs) => tuple2("Variant"@, str_s(n@), strs_s(bs@)),
    }
}

/// The dump of an expression.
pub open spec fn expr_s(fl: Seq<(Seq<char>, u64)>, e: Expr) -> Seq<char>
    decreases e, 2int,
{
    "Expr"@ + " {\n"@ + field("kind"@, kind_s(fl, e)) + field("span"@, span_s(e.span)) + "}"@
}

pub open spec fn kind_s(fl: Seq<(Seq<char>, u64)>, e: Expr) -> Seq<char>
    decreases e, 1int,
{
    match e.kind {
        ExprKind::Int(v, sfx) => tuple2("Int"@, i64_s(v), opt_str(sfx)),
        ExprKind::Float(t, sfx) => tuple2("Float"@, float_s(fl, t@), opt_str(sfx)),
        ExprKind::Str(x) => tuple1("Str"@, str_s(x@)),
        ExprKind::Char(c) => tuple1("Char"@, char_s(c)),
        ExprKind::Rune(c) => tuple1("Rune"@, char_s(c)),
        ExprKind::Bool(b) => tuple1("Bool"@, bool_s(b)),
        ExprKind::Ident(n) => tuple1("Ident"@, str_s(n@)),
        ExprKind::Unary(op, x) => tuple2("Unary"@, unop_s(op), expr_s(fl, *x)),
        ExprKind::Binary(op, a, b) => tuple3("Binary"@, binop_s(op), expr_s(fl, *a), expr_s(fl, *b)),
        ExprKind::Call(f, args) => tuple2("Call"@, expr_s(fl, *f), list(expr_strs(fl, args@))),
        ExprKind::Field(b, n) => tuple2("Field"@, expr_s(fl, *b), str_s(n@)),
        ExprKind::Index(a, b) => tuple2("Index"@, expr_s(fl, *a), expr_s(fl, *b)),
        ExprKind::Range(a, b, incl) => tuple3("Range"@, expr_s(fl, *a), expr_s(fl, *b), bool_s(incl)),
        ExprKind::Tuple(xs) => tuple1("Tuple"@, list(expr_strs(fl, xs@))),
        ExprKind::Array(xs) => tuple1("Array"@, list(expr_strs(fl, xs@))),
        ExprKind::StructLit(n, fs) => tuple2("StructLit"@, str_s(n@), list(sfield_strs(fl, fs@))),
        ExprKind::Lambda(l) => tuple1(
            "Lambda"@,
            "Lambda"@ + " {\n"@ + field("params"@, params_s(l.params@)) + field("ret"@, type_s(l.ret)) + field(
                "body"@,
                block_s(fl, l.body),
            ) + "}"@,
        ),
        ExprKind::Match(m) => tuple1("Match"@, match_s(fl, *m)),
        ExprKind::Do(monad, binds) => tuple2("Do"@, opt_str(monad), list(dobind_strs(fl, binds@))),
        ExprKind::SizeofType(t) => tuple1("SizeofType"@, type_s(t)),
    }
}

pub open spec fn expr_strs(fl: Seq<(Seq<char>, u64)>, v: Seq<Expr>) -> Seq<Seq<char>>
    decreases v, 0int,
{
    if v.len() == 0 {
        Seq::empty()
    } else {
        expr_strs(fl, v.drop_last()).push(expr_s(fl, v.last()))
    }
}

pub open spec fn sfield_strs(fl: Seq<(Seq<char>, u64)>, v: Seq<(String, Expr)>) -> Seq<Seq<char>>
    decreases v, 0int,
{
    if v.len() == 0 {
        Seq::empty()
    } else {
        sfield_strs(fl, v.drop_last()).push(tuple2(""@, str_s(v.last().0@), expr_s(fl, v.last().1)))
    }
}

pub open spec fn dobind_strs(fl: Seq<(Seq<char>, u64)>, v: Seq<DoBind>) -> Seq<Seq<char>>
    decreases v, 0int,
{
    if v.len() == 0 {
        Seq::empty()
    } else {
        dobind_strs(fl, v.drop_last()).push(
            "DoBind"@ + " {\n"@ + field("name"@, opt_str(v.last().name)) + field("expr"@, expr_s(fl, v.last().expr)) + "}"@,
        )
    }
}

pub open spec fn block_s(fl: Seq<(Seq<char>, u64)>, b: Block) -> Seq<char>
    decreases b, 2int,
{
    "Block {\n"@ + field("stmts"@, list(stmt_strs(fl, b.stmts@))) + "}"@
}

pub open spec fn opt_block_s(fl: Seq<(Seq<char>, u64)>, b: Option<Block>) -> Seq<char>
    decreases b, 3int,
{
    match b {
        Some(x) => tuple1("Some"@, block_s(fl, x)),
        None => "None"@,
    }
}

pub open spec fn stmt_strs(fl: Seq<(Seq<char>, u64)>, v: Seq<Stmt>) -> Seq<Seq<char>>
    decreases v, 0int,
{
    if v.len() == 0 {
        Seq::empty()
    } else {
        stmt_strs(fl, v.drop_last()).push(stmt_s(fl, v.last()))
    }
}

pub open spec fn stmt_s(fl: Seq<(Seq<char>, u64)>, s: Stmt) -> Seq<char>
    decreases s, 2int,
{
    match s {
        Stmt::Let(l) => tuple1(
            "Let"@,
            "Let {\n"@ + field("mutable"@, bool_s(l.mutable)) + field("is_ref"@, bool_s(l.is_ref)) + field(
                "infer"@,
                bool_s(l.infer),
            ) + field("binds"@, list(Seq::new(l.binds@.len(), |i: int| bind_s(l.binds@[i])))) + field(
                "value"@,
                expr_s(fl, l.value),
            ) + "}"@,
        ),
        Stmt::Assign(a, b) => tuple2("Assign"@, expr_s(fl, a), expr_s(fl, b)),
        Stmt::AssignOp(op, a, b) => tuple3("AssignOp"@, binop_s(op), expr_s(fl, a), expr_s(fl, b)),
        Stmt::Break(_) => "Break"@,
        Stmt::Continue(_) => "Continue"@,
        Stmt::Return(v) => tuple1(
            "Return"@,
            match v {
                Some(x) => tuple1("Some"@, expr_s(fl, x)),
                None => "None"@,
            },
        ),
        Stmt::Defer(e) => tuple1("Defer"@, expr_s(fl, e)),
        Stmt::If(i) => tuple1(
            "If"@,
            "If"@ + " {\n"@ + field("cond"@, expr_s(fl, i.cond)) + field("then"@, block_s(fl, i.then_block)) + field(
                "els"@,
                opt_block_s(fl, i.els),
            ) + "}"@,
        ),
        Stmt::While(w) => tuple1(
            "While"@,
            "While"@ + " {\n"@ + field("cond"@, expr_s(fl, w.cond)) + field("body"@, block_s(fl, w.body)) + field(
                "post_test"@,
                bool_s(w.post_test),
            ) + "}"@,
        ),
        Stmt::For(f) => tuple1(
            "For"@,
            "For"@ + " {\n"@ + field("var"@, str_s(f.var@)) + field("iter"@, expr_s(fl, f.iter)) + field(
                "body"@,
                block_s(fl, f.body),
            ) + "}"@,
        ),
        Stmt::Match(m) => tuple1("Match"@, match_s(fl, m)),
        Stmt::Expr(e) => tuple1("Expr"@, expr_s(fl, e)),
    }
}

pub open spec fn match_s(fl: Seq<(Seq<char>, u64)>, m: Match) -> Seq<char>
    decreases m, 2int,
{
    "Match"@ + " {\n"@ + field("scrut"@, expr_s(fl, *m.scrut)) + field("arms"@, list(arm_strs(fl, m.arms@))) + "}"@
}

pub open spec fn arm_strs(fl: Seq<(Seq<char>, u64)>, v: Seq<Arm>) -> Seq<Seq<char>>
    decreases v, 0int,
{
    if v.len() == 0 {
        Seq::empty()
    } else {
        arm_strs(fl, v.drop_last()).push(
            "Arm"@ + " {\n"@ + field("pat"@, pattern_s(v.last().pat)) + field("body"@, block_s(fl, v.last().body)) + "}"@,
        )
    }
}

fn push_hex_fixed(out: &mut String, b: u64, n: u32)
    ensures
        final(out)@ == old(out)@ + hex_fixed(b as nat, n as nat),
    decreases n,
{
    if n > 0 {
        push_hex_fixed(out, b / 16, n - 1);
        let d = b % 16;
        let c: char = if d < 10 { (48u8 + d as u8) as char } else { (55u8 + d as u8) as char };
        assert(c == hex_upper(d as nat));
        push_char(out, c);
        assert(out@ =~= old(out)@ + hex_fixed(b as nat, n as nat));
    } else {
        assert(out@ =~= old(out)@ + hex_fixed(b as nat, n as nat));
    }
}

fn float_str(fl: &Vec<(String, u64)>, t: &String) -> (r: String)
    ensures
        r@ == float_s(floats_view(fl@), t@),
{
    let key = chars_of(t.as_str());
    let mut bits: u64 = 0;
    let mut i: usize = 0;
    let mut found = false;
    while i < fl.len() && !found
        invariant
            key@ == t@,
            0 <= i <= fl@.len(),
            found ==> bits == float_bits(floats_view(fl@), t@, 0),
            !found ==> bits == 0,
            !found ==> float_bits(floats_view(fl@), t@, 0) == float_bits(floats_view(fl@), t@, i as int),
        decreases fl.len() - i + if found { 0int } else { 1int },
    {
        let cur = chars_of(fl[i].0.as_str());
        assert(floats_view(fl@)[i as int] == (fl@[i as int].0@, fl@[i as int].1));
        if chars_eq(cur.as_slice(), key.as_slice()) {
            bits = fl[i].1;
            found = true;
        } else {
            i = i + 1;
        }
    }
    let mut out = String::new();
    push_str(&mut out, "0x");
    push_hex_fixed(&mut out, bits, 16);
    assert(bits == float_bits(floats_view(fl@), t@, 0));
    out
}

fn opt_str_str(s: &Option<String>) -> (r: String)
    ensures
        r@ == opt_str(*s),
{
    match s {
        Some(x) => tuple1_s("Some", &str_str(x)),
        None => lit_s("None"),
    }
}

fn unop_str(op: UnOp) -> (r: String)
    ensures
        r@ == unop_s(op),
{
    match op {
        UnOp::Deref => lit_s("Deref"),
        UnOp::Neg => lit_s("Neg"),
        UnOp::Not => lit_s("Not"),
        UnOp::BitNot => lit_s("BitNot"),
    }
}

fn binop_str(op: BinOp) -> (r: String)
    ensures
        r@ == binop_s(op),
{
    match op {
        BinOp::Add => lit_s("Add"),
        BinOp::Sub => lit_s("Sub"),
        BinOp::Mul => lit_s("Mul"),
        BinOp::Div => lit_s("Div"),
        BinOp::Mod => lit_s("Mod"),
        BinOp::Eq => lit_s("Eq"),
        BinOp::Ne => lit_s("Ne"),
        BinOp::Lt => lit_s("Lt"),
        BinOp::Le => lit_s("Le"),
        BinOp::Gt => lit_s("Gt"),
        BinOp::Ge => lit_s("Ge"),
        BinOp::And => lit_s("And"),
        BinOp::Or => lit_s("Or"),
        BinOp::BitAnd => lit_s("BitAnd"),
        BinOp::BitOr => lit_s("BitOr"),
        BinOp::BitXor => lit_s("BitXor"),
        BinOp::Shl => lit_s("Shl"),
        BinOp::Shr => lit_s("Shr"),
        BinOp::Pow => lit_s("Pow"),
    }
}

fn param_str(p: &Param) -> (r: String)
    ensures
        r@ == param_s(*p),
{
    let mut out = lit_s("Param {\n");
    push_field(&mut out, "using", &bool_str(p.using));
    push_field(&mut out, "name", &str_str(&p.name));
    push_field(&mut out, "ty", &type_str(&p.ty));
    push_str(&mut out, "}");
    assert(out@ =~= param_s(*p));
    out
}

fn params_str(v: &Vec<Param>) -> (r: String)
    ensures
        r@ == params_s(v@),
{
    let mut parts: Vec<String> = Vec::new();
    let mut i: usize = 0;
    while i < v.len()
        invariant
            0 <= i <= v@.len(),
            parts@.len() == i,
            forall|j: int| 0 <= j < i ==> (#[trigger] parts@[j])@ == param_s(v@[j]),
        decreases v.len() - i,
    {
        parts.push(param_str(&v[i]));
        i = i + 1;
    }
    let r = list_s(&parts);
    assert(strs_of(parts@) =~= Seq::new(v@.len(), |i: int| param_s(v@[i])));
    r
}

fn bind_str(b: &Bind) -> (r: String)
    ensures
        r@ == bind_s(*b),
{
    let mut out = lit_s("Bind {\n");
    push_field(&mut out, "name", &str_str(&b.name));
    let t = match &b.ty {
        Some(t) => tuple1_s("Some", &type_str(t)),
        None => lit_s("None"),
    };
    push_field(&mut out, "ty", &t);
    push_str(&mut out, "}");
    assert(out@ =~= bind_s(*b));
    out
}

fn binds_str(v: &Vec<Bind>) -> (r: String)
    ensures
        r@ == list(Seq::new(v@.len(), |i: int| bind_s(v@[i]))),
{
    let mut parts: Vec<String> = Vec::new();
    let mut i: usize = 0;
    while i < v.len()
        invariant
            0 <= i <= v@.len(),
            parts@.len() == i,
            forall|j: int| 0 <= j < i ==> (#[trigger] parts@[j])@ == bind_s(v@[j]),
        decreases v.len() - i,
    {
        parts.push(bind_str(&v[i]));
        i = i + 1;
    }
    let r = list_s(&parts);
    assert(strs_of(parts@) =~= Seq::new(v@.len(), |i: int| bind_s(v@[i])));
    r
}

fn pattern_str(p: &Pattern) -> (r: String)
    ensures
        r@ == pattern_s(*p),
{
    match p {
        Pattern::Wildcard => lit_s("Wildcard"),
        Pattern::Ident(n) => tuple1_s("Ident", &str_str(n)),
        Pattern::Variant(n, bs) => tuple2_s("Variant", &str_str(n), &strs_str(bs)),
    }
}

fn struct3(name: &str, f1: &str, v1: &String, f2: &str, v2: &String, f3: &str, v3: &String) -> (r: String)
    ensures
        r@ == name@ + " {\n"@ + field(f1@, v1@) + field(f2@, v2@) + field(f3@, v3@) + "}"@,
{
    let mut out = lit_s(name);
    push_str(&mut out, " {\n");
    push_field(&mut out, f1, v1);
    push_field(&mut out, f2, v2);
    push_field(&mut out, f3, v3);
    push_str(&mut out, "}");
    assert(out@ =~= name@ + " {\n"@ + field(f1@, v1@) + field(f2@, v2@) + field(f3@, v3@) + "}"@);
    out
}

fn struct2(name: &str, f1: &str, v1: &String, f2: &str, v2: &String) -> (r: String)
    ensures
        r@ == name@ + " {\n"@ + field(f1@, v1@) + field(f2@, v2@) + "}"@,
{
    let mut out = lit_s(name);
    push_str(&mut out, " {\n");
    push_field(&mut out, f1, v1);
    push_field(&mut out, f2, v2);
    push_str(&mut out, "}");
    assert(out@ =~= name@ + " {\n"@ + field(f1@, v1@) + field(f2@, v2@) + "}"@);
    out
}

fn expr_str(fl: &Vec<(String, u64)>, e: &Expr) -> (r: String)
    ensures
        r@ == expr_s(floats_view(fl@), *e),
    decreases e,
{
    let ghost f = floats_view(fl@);
    let k = match &e.kind {
        ExprKind::Int(v, sfx) => tuple2_s("Int", &i64_str(*v), &opt_str_str(sfx)),
        ExprKind::Float(t, sfx) => tuple2_s("Float", &float_str(fl, t), &opt_str_str(sfx)),
        ExprKind::Str(x) => tuple1_s("Str", &str_str(x)),
        ExprKind::Char(c) => tuple1_s("Char", &char_str(*c)),
        ExprKind::Rune(c) => tuple1_s("Rune", &char_str(*c)),
        ExprKind::Bool(b) => tuple1_s("Bool", &bool_str(*b)),
        ExprKind::Ident(n) => tuple1_s("Ident", &str_str(n)),
        ExprKind::Unary(op, x) => tuple2_s("Unary", &unop_str(*op), &expr_str(fl, x)),
        ExprKind::Binary(op, a, b) => tuple3_s("Binary", &binop_str(*op), &expr_str(fl, a), &expr_str(fl, b)),
        ExprKind::Call(g, args) => tuple2_s("Call", &expr_str(fl, g), &exprs_str(fl, args)),
        ExprKind::Field(b, n) => tuple2_s("Field", &expr_str(fl, b), &str_str(n)),
        ExprKind::Index(a, b) => tuple2_s("Index", &expr_str(fl, a), &expr_str(fl, b)),
        ExprKind::Range(a, b, incl) => tuple3_s("Range", &expr_str(fl, a), &expr_str(fl, b), &bool_str(*incl)),
        ExprKind::Tuple(xs) => tuple1_s("Tuple", &exprs_str(fl, xs)),
        ExprKind::Array(xs) => tuple1_s("Array", &exprs_str(fl, xs)),
        ExprKind::StructLit(n, fs) => tuple2_s("StructLit", &str_str(n), &sfields_str(fl, fs)),
        ExprKind::Lambda(l) => {
            let body = struct3(
                "Lambda",
                "params",
                &params_str(&l.params),
                "ret",
                &type_str(&l.ret),
                "body",
                &block_str(fl, &l.body),
            );
            tuple1_s("Lambda", &body)
        },
        ExprKind::Match(m) => tuple1_s("Match", &match_str(fl, m)),
        ExprKind::Do(monad, binds) => tuple2_s("Do", &opt_str_str(monad), &dobinds_str(fl, binds)),
        ExprKind::SizeofType(t) => tuple1_s("SizeofType", &type_str(t)),
    };
    assert(k@ == kind_s(f, *e));
    struct2("Expr", "kind", &k, "span", &span_str(e.span))
}

fn exprs_str(fl: &Vec<(String, u64)>, v: &Vec<Expr>) -> (r: String)
    ensures
        r@ == list(expr_strs(floats_view(fl@), v@)),
    decreases v,
{
    let ghost f = floats_view(fl@);
    let mut parts: Vec<String> = Vec::new();
    let mut i: usize = 0;
    while i < v.len()
        invariant
            0 <= i <= v@.len(),
            strs_of(parts@) == expr_strs(f, v@.take(i as int)),
            f == floats_view(fl@),
        decreases v.len() - i,
    {
        proof {
            assert(decreases_to!(v => v@[i as int]));
        }
        let ghost p0 = parts@;
        parts.push(expr_str(fl, &v[i]));
        proof {
            assert(v@.take(i + 1).drop_last() =~= v@.take(i as int));
            assert(strs_of(parts@) =~= strs_of(p0).push(expr_s(f, v@[i as int])));
        }
        i = i + 1;
    }
    assert(v@.take(i as int) =~= v@);
    list_s(&parts)
}

fn sfields_str(fl: &Vec<(String, u64)>, v: &Vec<(String, Expr)>) -> (r: String)
    ensures
        r@ == list(sfield_strs(floats_view(fl@), v@)),
    decreases v,
{
    let ghost f = floats_view(fl@);
    let mut parts: Vec<String> = Vec::new();
    let mut i: usize = 0;
    while i < v.len()
        invariant
            0 <= i <= v@.len(),
            strs_of(parts@) == sfield_strs(f, v@.take(i as int)),
            f == floats_view(fl@),
        decreases v.len() - i,
    {
        proof {
            assert(decreases_to!(v => v@[i as int]));
            assert(decreases_to!(v@[i as int] => v@[i as int].1));
        }
        let ghost p0 = parts@;
        parts.push(tuple2_s("", &str_str(&v[i].0), &expr_str(fl, &v[i].1)));
        proof {
            assert(v@.take(i + 1).drop_last() =~= v@.take(i as int));
            assert(strs_of(parts@) =~= strs_of(p0).push(tuple2(""@, str_s(v@[i as int].0@), expr_s(f, v@[i as int].1))));
        }
        i = i + 1;
    }
    assert(v@.take(i as int) =~= v@);
    list_s(&parts)
}

fn dobinds_str(fl: &Vec<(String, u64)>, v: &Vec<DoBind>) -> (r: String)
    ensures
        r@ == list(dobind_strs(floats_view(fl@), v@)),
    decreases v,
{
    let ghost f = floats_view(fl@);
    let mut parts: Vec<String> = Vec::new();
    let mut i: usize = 0;
    while i < v.len()
        invariant
            0 <= i <= v@.len(),
            strs_of(parts@) == dobind_strs(f, v@.take(i as int)),
            f == floats_view(fl@),
        decreases v.len() - i,
    {
        proof {
            assert(decreases_to!(v => v@[i as int]));
            assert(decreases_to!(v@[i as int] => v@[i as int].expr));
        }
        let ghost p0 = parts@;
        let d = struct2("DoBind", "name", &opt_str_str(&v[i].name), "expr", &expr_str(fl, &v[i].expr));
        parts.push(d);
        proof {
            assert(v@.take(i + 1).drop_last() =~= v@.take(i as int));
            assert(strs_of(parts@) =~= strs_of(p0).push(d@));
        }
        i = i + 1;
    }
    assert(v@.take(i as int) =~= v@);
    list_s(&parts)
}

fn block_str(fl: &Vec<(String, u64)>, b: &Block) -> (r: String)
    ensures
        r@ == block_s(floats_view(fl@), *b),
    decreases b,
{
    let ghost f = floats_view(fl@);
    let v = &b.stmts;
    let mut parts: Vec<String> = Vec::new();
    let mut i: usize = 0;
    while i < v.len()
        invariant
            0 <= i <= v@.len(),
            v == &b.stmts,
            strs_of(parts@) == stmt_strs(f, v@.take(i as int)),
            f == floats_view(fl@),
        decreases v.len() - i,
    {
        proof {
            assert(decreases_to!(*b => b.stmts));
            assert(decreases_to!(b.stmts => v@[i as int]));
        }
        let ghost p0 = parts@;
        parts.push(stmt_str(fl, &v[i]));
        proof {
            assert(v@.take(i + 1).drop_last() =~= v@.take(i as int));
            assert(strs_of(parts@) =~= strs_of(p0).push(stmt_s(f, v@[i as int])));
        }
        i = i + 1;
    }
    assert(v@.take(i as int) =~= v@);
    let l = list_s(&parts);
    let mut out = lit_s("Block {\n");
    push_field(&mut out, "stmts", &l);
    push_str(&mut out, "}");
    assert(out@ =~= block_s(f, *b));
    out
}

#[verifier::rlimit(60)]
fn stmt_str(fl: &Vec<(String, u64)>, s: &Stmt) -> (r: String)
    ensures
        r@ == stmt_s(floats_view(fl@), *s),
    decreases s,
{
    let ghost f = floats_view(fl@);
    match s {
        Stmt::Let(l) => {
            let mut out = lit_s("Let {\n");
            push_field(&mut out, "mutable", &bool_str(l.mutable));
            push_field(&mut out, "is_ref", &bool_str(l.is_ref));
            push_field(&mut out, "infer", &bool_str(l.infer));
            push_field(&mut out, "binds", &binds_str(&l.binds));
            push_field(&mut out, "value", &expr_str(fl, &l.value));
            push_str(&mut out, "}");
            let r = tuple1_s("Let", &out);
            assert(r@ =~= stmt_s(f, *s));
            r
        },
        Stmt::Assign(a, b) => tuple2_s("Assign", &expr_str(fl, a), &expr_str(fl, b)),
        Stmt::AssignOp(op, a, b) => tuple3_s("AssignOp", &binop_str(*op), &expr_str(fl, a), &expr_str(fl, b)),
        Stmt::Break(_) => lit_s("Break"),
        Stmt::Continue(_) => lit_s("Continue"),
        Stmt::Return(v) => {
            let x = match v {
                Some(e) => tuple1_s("Some", &expr_str(fl, e)),
                None => lit_s("None"),
            };
            tuple1_s("Return", &x)
        },
        Stmt::Defer(e) => tuple1_s("Defer", &expr_str(fl, e)),
        Stmt::If(i) => {
            let els = match &i.els {
                Some(b) => tuple1_s("Some", &block_str(fl, b)),
                None => lit_s("None"),
            };
            let body = struct3(
                "If",
                "cond",
                &expr_str(fl, &i.cond),
                "then",
                &block_str(fl, &i.then_block),
                "els",
                &els,
            );
            tuple1_s("If", &body)
        },
        Stmt::While(w) => {
            let body = struct3(
                "While",
                "cond",
                &expr_str(fl, &w.cond),
                "body",
                &block_str(fl, &w.body),
                "post_test",
                &bool_str(w.post_test),
            );
            tuple1_s("While", &body)
        },
        Stmt::For(x) => {
            let body = struct3(
                "For",
                "var",
                &str_str(&x.var),
                "iter",
                &expr_str(fl, &x.iter),
                "body",
                &block_str(fl, &x.body),
            );
            tuple1_s("For", &body)
        },
        Stmt::Match(m) => tuple1_s("Match", &match_str(fl, m)),
        Stmt::Expr(e) => tuple1_s("Expr", &expr_str(fl, e)),
    }
}

fn match_str(fl: &Vec<(String, u64)>, m: &Match) -> (r: String)
    ensures
        r@ == match_s(floats_view(fl@), *m),
    decreases m,
{
    let ghost f = floats_view(fl@);
    let scrut = expr_str(fl, &m.scrut);
    let v = &m.arms;
    let mut parts: Vec<String> = Vec::new();
    let mut i: usize = 0;
    while i < v.len()
        invariant
            0 <= i <= v@.len(),
            v == &m.arms,
            strs_of(parts@) == arm_strs(f, v@.take(i as int)),
            f == floats_view(fl@),
        decreases v.len() - i,
    {
        proof {
            assert(decreases_to!(*m => m.arms));
            assert(decreases_to!(m.arms => v@[i as int]));
            assert(decreases_to!(v@[i as int] => v@[i as int].body));
        }
        let ghost p0 = parts@;
        let a = struct2("Arm", "pat", &pattern_str(&v[i].pat), "body", &block_str(fl, &v[i].body));
        parts.push(a);
        proof {
            assert(v@.take(i + 1).drop_last() =~= v@.take(i as int));
            assert(strs_of(parts@) =~= strs_of(p0).push(a@));
        }
        i = i + 1;
    }
    assert(v@.take(i as int) =~= v@);
    let l = list_s(&parts);
    struct2("Match", "scrut", &scrut, "arms", &l)
}

// Items and the module.

pub open spec fn func_s(fl: Seq<(Seq<char>, u64)>, f: Func) -> Seq<char> {
    "Func {\n"@ + field("exported"@, bool_s(f.exported)) + field("is_async"@, bool_s(f.is_async)) + field(
        "name"@,
        str_s(f.name@),
    ) + field("span"@, span_s(f.span)) + field("generics"@, strs_s(f.generics@)) + field(
        "params"@,
        params_s(f.params@),
    ) + field("ret"@, type_s(f.ret)) + field("body"@, block_s(fl, f.body)) + "}"@
}

pub open spec fn field_s(x: Field) -> Seq<char> {
    "Field {\n"@ + field("name"@, str_s(x.name@)) + field("ty"@, type_s(x.ty)) + "}"@
}

pub open spec fn fields_s(v: Seq<Field>) -> Seq<char> {
    list(Seq::new(v.len(), |i: int| field_s(v[i])))
}

pub open spec fn variant_s(x: Variant) -> Seq<char> {
    "Variant {\n"@ + field("name"@, str_s(x.name@)) + field("fields"@, fields_s(x.fields@)) + "}"@
}

pub open spec fn sig_s(x: MethodSig) -> Seq<char> {
    "MethodSig {\n"@ + field("name"@, str_s(x.name@)) + field("params"@, params_s(x.params@)) + field(
        "ret"@,
        type_s(x.ret),
    ) + "}"@
}

pub open spec fn ffunc_s(x: ForeignFunc) -> Seq<char> {
    "ForeignFunc {\n"@ + field("name"@, str_s(x.name@)) + field("params"@, params_s(x.params@)) + field(
        "ret"@,
        type_s(x.ret),
    ) + "}"@
}

pub open spec fn item_s(fl: Seq<(Seq<char>, u64)>, it: Item) -> Seq<char> {
    match it {
        Item::Func(f) => tuple1("Func"@, func_s(fl, f)),
        Item::Struct(x) => tuple1(
            "Struct"@,
            "Struct {\n"@ + field("exported"@, bool_s(x.exported)) + field("name"@, str_s(x.name@)) + field(
                "generics"@,
                strs_s(x.generics@),
            ) + field("fields"@, fields_s(x.fields@)) + "}"@,
        ),
        Item::Enum(x) => tuple1(
            "Enum"@,
            "Enum {\n"@ + field("exported"@, bool_s(x.exported)) + field("name"@, str_s(x.name@)) + field(
                "generics"@,
                strs_s(x.generics@),
            ) + field("variants"@, list(Seq::new(x.variants@.len(), |i: int| variant_s(x.variants@[i])))) + "}"@,
        ),
        Item::Interface(x) => tuple1(
            "Interface"@,
            "Interface {\n"@ + field("exported"@, bool_s(x.exported)) + field("name"@, str_s(x.name@)) + field(
                "generics"@,
                strs_s(x.generics@),
            ) + field("methods"@, list(Seq::new(x.methods@.len(), |i: int| sig_s(x.methods@[i])))) + "}"@,
        ),
        Item::Impl(x) => tuple1(
            "Impl"@,
            "Impl {\n"@ + field("iface"@, opt_str(x.iface)) + field("ty"@, str_s(x.ty@)) + field(
                "span"@,
                span_s(x.span),
            ) + field("methods"@, list(Seq::new(x.methods@.len(), |i: int| func_s(fl, x.methods@[i])))) + "}"@,
        ),
        Item::Foreign(x) => tuple1(
            "Foreign"@,
            "Foreign {\n"@ + field("abi"@, str_s(x.abi@)) + field("span"@, span_s(x.span)) + field(
                "funcs"@,
                list(Seq::new(x.funcs@.len(), |i: int| ffunc_s(x.funcs@[i]))),
            ) + "}"@,
        ),
    }
}

/// The canonical dump of a module: the pretty `Debug` layout of its syntax
/// tree, with strings and characters escaped canonically and each float
/// literal as the bits the table gives its text.
pub open spec fn module_s(fl: Seq<(Seq<char>, u64)>, m: Module) -> Seq<char> {
    "Module {\n"@ + field("paradigms"@, strs_s(m.paradigms@)) + field("imports"@, strs_s(m.imports@)) + field(
        "monads"@,
        list(Seq::new(m.monads@.len(), |i: int| tuple2(""@, str_s(m.monads@[i].0@), span_s(m.monads@[i].1)))),
    ) + field("items"@, list(Seq::new(m.items@.len(), |i: int| item_s(fl, m.items@[i])))) + "}"@
}

fn func_str(fl: &Vec<(String, u64)>, f: &Func) -> (r: String)
    ensures
        r@ == func_s(floats_view(fl@), *f),
{
    let mut out = lit_s("Func {\n");
    push_field(&mut out, "exported", &bool_str(f.exported));
    push_field(&mut out, "is_async", &bool_str(f.is_async));
    push_field(&mut out, "name", &str_str(&f.name));
    push_field(&mut out, "span", &span_str(f.span));
    push_field(&mut out, "generics", &strs_str(&f.generics));
    push_field(&mut out, "params", &params_str(&f.params));
    push_field(&mut out, "ret", &type_str(&f.ret));
    push_field(&mut out, "body", &block_str(fl, &f.body));
    push_str(&mut out, "}");
    assert(out@ =~= func_s(floats_view(fl@), *f));
    out
}

fn field_str(x: &Field) -> (r: String)
    ensures
        r@ == field_s(*x),
{
    let mut out = lit_s("Field {\n");
    push_field(&mut out, "name", &str_str(&x.name));
    push_field(&mut out, "ty", &type_str(&x.ty));
    push_str(&mut out, "}");
    assert(out@ =~= field_s(*x));
    out
}

fn fields_str(v: &Vec<Field>) -> (r: String)
    ensures
        r@ == fields_s(v@),
{
    let mut parts: Vec<String> = Vec::new();
    let mut i: usize = 0;
    while i < v.len()
        invariant
            0 <= i <= v@.len(),
            parts@.len() == i,
            forall|j: int| 0 <= j < i ==> (#[trigger] parts@[j])@ == field_s(v@[j]),
        decreases v.len() - i,
    {
        parts.push(field_str(&v[i]));
        i = i + 1;
    }
    let r = list_s(&parts);
    assert(strs_of(parts@) =~= Seq::new(v@.len(), |i: int| field_s(v@[i])));
    r
}

fn variant_str(x: &Variant) -> (r: String)
    ensures
        r@ == variant_s(*x),
{
    let mut out = lit_s("Variant {\n");
    push_field(&mut out, "name", &str_str(&x.name));
    push_field(&mut out, "fields", &fields_str(&x.fields));
    push_str(&mut out, "}");
    assert(out@ =~= variant_s(*x));
    out
}

fn sig_str(x: &MethodSig) -> (r: String)
    ensures
        r@ == sig_s(*x),
{
    let mut out = lit_s("MethodSig {\n");
    push_field(&mut out, "name", &str_str(&x.name));
    push_field(&mut out, "params", &params_str(&x.params));
    push_field(&mut out, "ret", &type_str(&x.ret));
    push_str(&mut out, "}");
    assert(out@ =~= sig_s(*x));
    out
}

fn ffunc_str(x: &ForeignFunc) -> (r: String)
    ensures
        r@ == ffunc_s(*x),
{
    let mut out = lit_s("ForeignFunc {\n");
    push_field(&mut out, "name", &str_str(&x.name));
    push_field(&mut out, "params", &params_str(&x.params));
    push_field(&mut out, "ret", &type_str(&x.ret));
    push_str(&mut out, "}");
    assert(out@ =~= ffunc_s(*x));
    out
}

#[verifier::rlimit(60)]
fn item_str(fl: &Vec<(String, u64)>, it: &Item) -> (r: String)
    ensures
        r@ == item_s(floats_view(fl@), *it),
{
    let ghost f = floats_view(fl@);
    match it {
        Item::Func(x) => tuple1_s("Func", &func_str(fl, x)),
        Item::Struct(x) => {
            let mut out = lit_s("Struct {\n");
            push_field(&mut out, "exported", &bool_str(x.exported));
            push_field(&mut out, "name", &str_str(&x.name));
            push_field(&mut out, "generics", &strs_str(&x.generics));
            push_field(&mut out, "fields", &fields_str(&x.fields));
            push_str(&mut out, "}");
            let r = tuple1_s("Struct", &out);
            assert(r@ =~= item_s(f, *it));
            r
        },
        Item::Enum(x) => {
            let mut parts: Vec<String> = Vec::new();
            let mut i: usize = 0;
            while i < x.variants.len()
                invariant
                    0 <= i <= x.variants@.len(),
                    parts@.len() == i,
                    forall|j: int| 0 <= j < i ==> (#[trigger] parts@[j])@ == variant_s(x.variants@[j]),
                decreases x.variants.len() - i,
            {
                parts.push(variant_str(&x.variants[i]));
                i = i + 1;
            }
            let vs = list_s(&parts);
            assert(strs_of(parts@) =~= Seq::new(x.variants@.len(), |i: int| variant_s(x.variants@[i])));
            let mut out = lit_s("Enum {\n");
            push_field(&mut out, "exported", &bool_str(x.exported));
            push_field(&mut out, "name", &str_str(&x.name));
            push_field(&mut out, "generics", &strs_str(&x.generics));
            push_field(&mut out, "variants", &vs);
            push_str(&mut out, "}");
            let r = tuple1_s("Enum", &out);
            assert(r@ =~= item_s(f, *it));
            r
        },
        Item::Interface(x) => {
            let mut parts: Vec<String> = Vec::new();
            let mut i: usize = 0;
            while i < x.methods.len()
                invariant
                    0 <= i <= x.methods@.len(),
                    parts@.len() == i,
                    forall|j: int| 0 <= j < i ==> (#[trigger] parts@[j])@ == sig_s(x.methods@[j]),
                decreases x.methods.len() - i,
            {
                parts.push(sig_str(&x.methods[i]));
                i = i + 1;
            }
            let ms = list_s(&parts);
            assert(strs_of(parts@) =~= Seq::new(x.methods@.len(), |i: int| sig_s(x.methods@[i])));
            let mut out = lit_s("Interface {\n");
            push_field(&mut out, "exported", &bool_str(x.exported));
            push_field(&mut out, "name", &str_str(&x.name));
            push_field(&mut out, "generics", &strs_str(&x.generics));
            push_field(&mut out, "methods", &ms);
            push_str(&mut out, "}");
            let r = tuple1_s("Interface", &out);
            assert(r@ =~= item_s(f, *it));
            r
        },
        Item::Impl(x) => {
            let mut parts: Vec<String> = Vec::new();
            let mut i: usize = 0;
            while i < x.methods.len()
                invariant
                    0 <= i <= x.methods@.len(),
                    parts@.len() == i,
                    f == floats_view(fl@),
                    forall|j: int| 0 <= j < i ==> (#[trigger] parts@[j])@ == func_s(f, x.methods@[j]),
                decreases x.methods.len() - i,
            {
                parts.push(func_str(fl, &x.methods[i]));
                i = i + 1;
            }
            let ms = list_s(&parts);
            assert(strs_of(parts@) =~= Seq::new(x.methods@.len(), |i: int| func_s(f, x.methods@[i])));
            let mut out = lit_s("Impl {\n");
            push_field(&mut out, "iface", &opt_str_str(&x.iface));
            push_field(&mut out, "ty", &str_str(&x.ty));
            push_field(&mut out, "span", &span_str(x.span));
            push_field(&mut out, "methods", &ms);
            push_str(&mut out, "}");
            let r = tuple1_s("Impl", &out);
            assert(r@ =~= item_s(f, *it));
            r
        },
        Item::Foreign(x) => {
            let mut parts: Vec<String> = Vec::new();
            let mut i: usize = 0;
            while i < x.funcs.len()
                invariant
                    0 <= i <= x.funcs@.len(),
                    parts@.len() == i,
                    forall|j: int| 0 <= j < i ==> (#[trigger] parts@[j])@ == ffunc_s(x.funcs@[j]),
                decreases x.funcs.len() - i,
            {
                parts.push(ffunc_str(&x.funcs[i]));
                i = i + 1;
            }
            let fs = list_s(&parts);
            assert(strs_of(parts@) =~= Seq::new(x.funcs@.len(), |i: int| ffunc_s(x.funcs@[i])));
            let mut out = lit_s("Foreign {\n");
            push_field(&mut out, "abi", &str_str(&x.abi));
            push_field(&mut out, "span", &span_str(x.span));
            push_field(&mut out, "funcs", &fs);
            push_str(&mut out, "}");
            let r = tuple1_s("Foreign", &out);
            assert(r@ =~= item_s(f, *it));
            r
        },
    }
}

/// Renders a module in the canonical dump format. `floats` gives the IEEE 754
/// bits of each float literal's text; a text it lacks dumps as zero.
pub fn render_module(m: &Module, floats: &Vec<(String, u64)>) -> (s: String)
    ensures
        s@ == module_s(floats_view(floats@), *m),
{
    let ghost f = floats_view(floats@);
    let mut mparts: Vec<String> = Vec::new();
    let mut i: usize = 0;
    while i < m.monads.len()
        invariant
            0 <= i <= m.monads@.len(),
            mparts@.len() == i,
            forall|j: int| 0 <= j < i ==> (#[trigger] mparts@[j])@ == tuple2(""@, str_s(m.monads@[j].0@), span_s(m.monads@[j].1)),
        decreases m.monads.len() - i,
    {
        mparts.push(tuple2_s("", &str_str(&m.monads[i].0), &span_str(m.monads[i].1)));
        i = i + 1;
    }
    let monads = list_s(&mparts);
    assert(strs_of(mparts@) =~= Seq::new(m.monads@.len(), |i: int| tuple2(""@, str_s(m.monads@[i].0@), span_s(m.monads@[i].1))));
    let mut iparts: Vec<String> = Vec::new();
    i = 0;
    while i < m.items.len()
        invariant
            0 <= i <= m.items@.len(),
            iparts@.len() == i,
            f == floats_view(floats@),
            forall|j: int| 0 <= j < i ==> (#[trigger] iparts@[j])@ == item_s(f, m.items@[j]),
        decreases m.items.len() - i,
    {
        iparts.push(item_str(floats, &m.items[i]));
        i = i + 1;
    }
    let items = list_s(&iparts);
    assert(strs_of(iparts@) =~= Seq::new(m.items@.len(), |i: int| item_s(f, m.items@[i])));
    let mut out = lit_s("Module {\n");
    push_field(&mut out, "paradigms", &strs_str(&m.paradigms));
    push_field(&mut out, "imports", &strs_str(&m.imports));
    push_field(&mut out, "monads", &monads);
    push_field(&mut out, "items", &items);
    push_str(&mut out, "}");
    assert(out@ =~= module_s(f, *m));
    out
}

} // verus!
