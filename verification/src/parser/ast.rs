//! Abstract syntax tree, and the free variable collection that closure
//! lowering and the escape check share.

use vstd::prelude::*;
use crate::diag::Span;
use crate::loader::{insert_name, no_dups, set_of, strings_view};
use crate::text::chars_of;

verus! {

/// A parsed source file: its directives and top level items.
#[derive(Debug)]
pub struct Module {
    pub paradigms: Vec<String>,
    pub imports: Vec<String>,
    /// The `monad Name { ... }` blocks declared, with where each starts.
    pub monads: Vec<(String, Span)>,
    pub items: Vec<Item>,
}

#[derive(Debug)]
pub enum Item {
    Func(Func),
    Struct(Struct),
    Enum(Enum),
    Interface(Interface),
    Impl(Impl),
    Foreign(Foreign),
}

#[derive(Debug)]
pub struct Func {
    pub exported: bool,
    /// Declared `async func`: it lowers to a poll function over a task frame.
    pub is_async: bool,
    pub name: String,
    pub span: Span,
    pub generics: Vec<String>,
    pub params: Vec<Param>,
    pub ret: Type,
    pub body: Block,
}

#[derive(Debug)]
pub struct Param {
    pub using: bool,
    pub name: String,
    pub ty: Type,
}

#[derive(Debug)]
pub struct Struct {
    pub exported: bool,
    pub name: String,
    pub generics: Vec<String>,
    pub fields: Vec<Field>,
}

#[derive(Debug)]
pub struct Field {
    pub name: String,
    pub ty: Type,
}

#[derive(Debug)]
pub struct Enum {
    pub exported: bool,
    pub name: String,
    pub generics: Vec<String>,
    pub variants: Vec<Variant>,
}

#[derive(Debug)]
pub struct Variant {
    pub name: String,
    pub fields: Vec<Field>,
}

#[derive(Debug)]
pub struct Interface {
    pub exported: bool,
    pub name: String,
    pub generics: Vec<String>,
    pub methods: Vec<MethodSig>,
}

#[derive(Debug)]
pub struct MethodSig {
    pub name: String,
    pub params: Vec<Param>,
    pub ret: Type,
}

#[derive(Debug)]
pub struct Impl {
    pub iface: Option<String>,
    pub ty: String,
    pub span: Span,
    pub methods: Vec<Func>,
}

/// A block of external function declarations bound to a calling convention, as in
/// `foreign "C" { func write(fd: int32, buf: *raw int8, count: int) -> int }`.
#[derive(Debug)]
pub struct Foreign {
    pub abi: String,
    pub span: Span,
    pub funcs: Vec<ForeignFunc>,
}

#[derive(Debug)]
pub struct ForeignFunc {
    pub name: String,
    pub params: Vec<Param>,
    pub ret: Type,
}

#[derive(Debug)]
pub enum Type {
    Named(String, Vec<Type>),
    Ptr(Box<Type>),
    RawPtr(Box<Type>),
    Slice(Box<Type>),
    Array(Box<Type>, u64),
    Tuple(Vec<Type>),
    Func(Vec<Type>, Box<Type>),
    Unit,
}

/// The mathematical form of a type.
#[verifier::ext_equal]
pub enum TypeV {
    Named(Seq<char>, Seq<TypeV>),
    Ptr(Box<TypeV>),
    RawPtr(Box<TypeV>),
    Slice(Box<TypeV>),
    Array(Box<TypeV>, u64),
    Tuple(Seq<TypeV>),
    Func(Seq<TypeV>, Box<TypeV>),
    Unit,
}

/// The mathematical form of a type.
pub open spec fn tv(t: Type) -> TypeV
    decreases t,
{
    match t {
        Type::Named(n, args) => TypeV::Named(n@, tvs(args@)),
        Type::Ptr(b) => TypeV::Ptr(Box::new(tv(*b))),
        Type::RawPtr(b) => TypeV::RawPtr(Box::new(tv(*b))),
        Type::Slice(b) => TypeV::Slice(Box::new(tv(*b))),
        Type::Array(b, n) => TypeV::Array(Box::new(tv(*b)), n),
        Type::Tuple(xs) => TypeV::Tuple(tvs(xs@)),
        Type::Func(ps, r) => TypeV::Func(tvs(ps@), Box::new(tv(*r))),
        Type::Unit => TypeV::Unit,
    }
}

/// The mathematical forms of a list of types.
pub open spec fn tvs(s: Seq<Type>) -> Seq<TypeV>
    decreases s,
{
    Seq::new(s.len(), |i: int| if 0 <= i < s.len() { tv(s[i]) } else { TypeV::Unit })
}

#[derive(Debug)]
pub struct Block {
    pub stmts: Vec<Stmt>,
}

#[derive(Debug)]
pub enum Stmt {
    Let(Let),
    Assign(Expr, Expr),
    /// A compound assignment `place op= value`.
    AssignOp(BinOp, Expr, Expr),
    Return(Option<Expr>),
    Defer(Expr),
    If(If),
    While(While),
    For(For),
    Match(Match),
    Break(Span),
    Continue(Span),
    Expr(Expr),
}

#[derive(Debug)]
pub struct Let {
    pub mutable: bool,
    pub is_ref: bool,
    pub infer: bool,
    pub binds: Vec<Bind>,
    pub value: Expr,
}

#[derive(Debug)]
pub struct Bind {
    pub name: String,
    pub ty: Option<Type>,
}

#[derive(Debug)]
pub struct If {
    pub cond: Expr,
    pub then_block: Block,
    pub els: Option<Block>,
}

#[derive(Debug)]
pub struct While {
    pub cond: Expr,
    pub body: Block,
    pub post_test: bool,
}

#[derive(Debug)]
pub struct For {
    pub var: String,
    pub iter: Expr,
    pub body: Block,
}

#[derive(Debug)]
pub struct Match {
    pub scrut: Box<Expr>,
    pub arms: Vec<Arm>,
}

#[derive(Debug)]
pub struct Arm {
    pub pat: Pattern,
    pub body: Block,
}

#[derive(Debug, Clone, PartialEq)]
pub enum Pattern {
    Wildcard,
    Ident(String),
    Variant(String, Vec<String>),
}

#[derive(Debug)]
pub struct Lambda {
    pub params: Vec<Param>,
    pub ret: Type,
    pub body: Block,
}

/// One element of a monadic `do` block: either `name <- expr` (a monadic bind)
/// or a bare expression. The last element is the result lifted with `unit`.
#[derive(Debug)]
pub struct DoBind {
    pub name: Option<String>,
    pub expr: Expr,
}

/// An expression node carrying its source span.
#[derive(Debug)]
pub struct Expr {
    pub kind: ExprKind,
    pub span: Span,
}

/// Expression forms. A float literal keeps the digits it was written with.
#[derive(Debug)]
pub enum ExprKind {
    Int(i64, Option<String>),
    Float(String, Option<String>),
    Str(String),
    Char(char),
    /// A rune literal: any Unicode scalar.
    Rune(char),
    Bool(bool),
    Ident(String),
    Unary(UnOp, Box<Expr>),
    Binary(BinOp, Box<Expr>, Box<Expr>),
    Call(Box<Expr>, Vec<Expr>),
    Field(Box<Expr>, String),
    Index(Box<Expr>, Box<Expr>),
    /// `lo..hi`, or `lo..=hi` when the flag is set.
    Range(Box<Expr>, Box<Expr>, bool),
    Tuple(Vec<Expr>),
    Array(Vec<Expr>),
    StructLit(String, Vec<(String, Expr)>),
    Lambda(Lambda),
    Match(Box<Match>),
    /// A monadic `do` block, with an optional monad name as in `do Maybe { ... }`.
    Do(Option<String>, Vec<DoBind>),
    /// `sizeof` of a resolved type.
    SizeofType(Type),
}

#[derive(Debug, Clone, Copy, PartialEq, Eq, Structural)]
pub enum UnOp {
    Deref,
    Neg,
    Not,
    BitNot,
}

#[derive(Debug, Clone, Copy, PartialEq, Eq, Structural)]
pub enum BinOp {
    Add,
    Sub,
    Mul,
    Div,
    Mod,
    Eq,
    Ne,
    Lt,
    Le,
    Gt,
    Ge,
    And,
    Or,
    BitAnd,
    BitOr,
    BitXor,
    Shl,
    Shr,
    Pow,
}

// Free variable collection, shared by closure lowering and the escape check.
// The `used` list accumulates every identifier read, in walk order, and `bound`
// the names a scope introduces, so a name in `used` that is not in `bound` is
// captured from an enclosing scope. `bound` is a set, kept as a list without
// repeats.

/// The identifiers an expression reads, in the order a left to right walk
/// meets them.
pub open spec fn uses_expr(e: Expr) -> Seq<Seq<char>>
    decreases e, 0int,
{
    match e.kind {
        ExprKind::Ident(n) => seq![n@],
        ExprKind::Unary(_, x) => uses_expr(*x),
        ExprKind::Binary(_, a, b) => uses_expr(*a) + uses_expr(*b),
        ExprKind::Index(a, b) => uses_expr(*a) + uses_expr(*b),
        ExprKind::Range(a, b, _) => uses_expr(*a) + uses_expr(*b),
        ExprKind::Call(f, args) => uses_expr(*f) + uses_exprs(args@, args@.len() as int),
        ExprKind::Field(b, _) => uses_expr(*b),
        ExprKind::Tuple(xs) => uses_exprs(xs@, xs@.len() as int),
        ExprKind::Array(xs) => uses_exprs(xs@, xs@.len() as int),
        ExprKind::StructLit(_, fs) => uses_fields(fs@, fs@.len() as int),
        ExprKind::Lambda(l) => uses_stmts(l.body.stmts@, l.body.stmts@.len() as int),
        ExprKind::Match(m) => uses_match(*m),
        _ => seq![],
    }
}

/// The identifiers the first `i` expressions read.
pub open spec fn uses_exprs(v: Seq<Expr>, i: int) -> Seq<Seq<char>>
    decreases v, i,
{
    if i <= 0 || i > v.len() {
        seq![]
    } else {
        uses_exprs(v, i - 1) + uses_expr(v[i - 1])
    }
}

pub open spec fn uses_fields(v: Seq<(String, Expr)>, i: int) -> Seq<Seq<char>>
    decreases v, i,
{
    if i <= 0 || i > v.len() {
        seq![]
    } else {
        uses_fields(v, i - 1) + uses_expr(v[i - 1].1)
    }
}

pub open spec fn uses_stmt(s: Stmt) -> Seq<Seq<char>>
    decreases s, 0int,
{
    match s {
        Stmt::Let(l) => uses_expr(l.value),
        Stmt::Assign(a, b) => uses_expr(a) + uses_expr(b),
        Stmt::AssignOp(_, a, b) => uses_expr(a) + uses_expr(b),
        Stmt::Break(_) => seq![],
        Stmt::Continue(_) => seq![],
        Stmt::Return(Some(e)) => uses_expr(e),
        Stmt::Return(None) => seq![],
        Stmt::Defer(e) => uses_expr(e),
        Stmt::Expr(e) => uses_expr(e),
        Stmt::If(i) => uses_expr(i.cond) + uses_stmts(i.then_block.stmts@, i.then_block.stmts@.len() as int) + (
        match i.els {
            Some(b) => uses_stmts(b.stmts@, b.stmts@.len() as int),
            None => seq![],
        }),
        Stmt::While(w) => uses_expr(w.cond) + uses_stmts(w.body.stmts@, w.body.stmts@.len() as int),
        Stmt::For(f) => uses_expr(f.iter) + uses_stmts(f.body.stmts@, f.body.stmts@.len() as int),
        Stmt::Match(m) => uses_match(m),
    }
}

/// The identifiers the first `i` statements read.
pub open spec fn uses_stmts(v: Seq<Stmt>, i: int) -> Seq<Seq<char>>
    decreases v, i,
{
    if i <= 0 || i > v.len() {
        seq![]
    } else {
        uses_stmts(v, i - 1) + uses_stmt(v[i - 1])
    }
}

pub open spec fn uses_match(m: Match) -> Seq<Seq<char>>
    decreases m, 0int,
{
    uses_expr(*m.scrut) + uses_arms(m.arms@, m.arms@.len() as int)
}

pub open spec fn uses_arms(v: Seq<Arm>, i: int) -> Seq<Seq<char>>
    decreases v, i,
{
    if i <= 0 || i > v.len() {
        seq![]
    } else {
        uses_arms(v, i - 1) + uses_stmts(v[i - 1].body.stmts@, v[i - 1].body.stmts@.len() as int)
    }
}

/// The names a list of binds introduces.
pub open spec fn bind_names(v: Seq<Bind>) -> Set<Seq<char>> {
    Set::new(|s: Seq<char>| exists|j: int| 0 <= j < v.len() && (#[trigger] v[j]).name@ == s)
}

/// The names a list of parameters introduces.
pub open spec fn param_names(v: Seq<Param>) -> Set<Seq<char>> {
    Set::new(|s: Seq<char>| exists|j: int| 0 <= j < v.len() && (#[trigger] v[j]).name@ == s)
}

/// The names a pattern binds.
pub open spec fn pattern_names(p: Pattern) -> Set<Seq<char>> {
    match p {
        Pattern::Variant(_, binds) => Set::new(
            |s: Seq<char>| exists|j: int| 0 <= j < binds@.len() && (#[trigger] binds@[j])@ == s,
        ),
        Pattern::Ident(n) => set![n@],
        Pattern::Wildcard => Set::empty(),
    }
}

/// The names an expression's scopes introduce.
pub open spec fn binds_expr(e: Expr) -> Set<Seq<char>>
    decreases e, 0int,
{
    match e.kind {
        ExprKind::Unary(_, x) => binds_expr(*x),
        ExprKind::Binary(_, a, b) => binds_expr(*a).union(binds_expr(*b)),
        ExprKind::Index(a, b) => binds_expr(*a).union(binds_expr(*b)),
        ExprKind::Range(a, b, _) => binds_expr(*a).union(binds_expr(*b)),
        ExprKind::Call(f, args) => binds_expr(*f).union(binds_exprs(args@, args@.len() as int)),
        ExprKind::Field(b, _) => binds_expr(*b),
        ExprKind::Tuple(xs) => binds_exprs(xs@, xs@.len() as int),
        ExprKind::Array(xs) => binds_exprs(xs@, xs@.len() as int),
        ExprKind::StructLit(_, fs) => binds_fields(fs@, fs@.len() as int),
        ExprKind::Lambda(l) => param_names(l.params@).union(
            binds_stmts(l.body.stmts@, l.body.stmts@.len() as int),
        ),
        ExprKind::Match(m) => binds_match(*m),
        _ => Set::empty(),
    }
}

pub open spec fn binds_exprs(v: Seq<Expr>, i: int) -> Set<Seq<char>>
    decreases v, i,
{
    if i <= 0 || i > v.len() {
        Set::empty()
    } else {
        binds_exprs(v, i - 1).union(binds_expr(v[i - 1]))
    }
}

pub open spec fn binds_fields(v: Seq<(String, Expr)>, i: int) -> Set<Seq<char>>
    decreases v, i,
{
    if i <= 0 || i > v.len() {
        Set::empty()
    } else {
        binds_fields(v, i - 1).union(binds_expr(v[i - 1].1))
    }
}

pub open spec fn binds_stmt(s: Stmt) -> Set<Seq<char>>
    decreases s, 0int,
{
    match s {
        Stmt::Let(l) => binds_expr(l.value).union(bind_names(l.binds@)),
        Stmt::Assign(a, b) => binds_expr(a).union(binds_expr(b)),
        Stmt::AssignOp(_, a, b) => binds_expr(a).union(binds_expr(b)),
        Stmt::Break(_) => Set::empty(),
        Stmt::Continue(_) => Set::empty(),
        Stmt::Return(Some(e)) => binds_expr(e),
        Stmt::Return(None) => Set::empty(),
        Stmt::Defer(e) => binds_expr(e),
        Stmt::Expr(e) => binds_expr(e),
        Stmt::If(i) => binds_expr(i.cond).union(
            binds_stmts(i.then_block.stmts@, i.then_block.stmts@.len() as int),
        ).union(
            match i.els {
                Some(b) => binds_stmts(b.stmts@, b.stmts@.len() as int),
                None => Set::empty(),
            },
        ),
        Stmt::While(w) => binds_expr(w.cond).union(
            binds_stmts(w.body.stmts@, w.body.stmts@.len() as int),
        ),
        Stmt::For(f) => binds_expr(f.iter).insert(f.var@).union(
            binds_stmts(f.body.stmts@, f.body.stmts@.len() as int),
        ),
        Stmt::Match(m) => binds_match(m),
    }
}

pub open spec fn binds_stmts(v: Seq<Stmt>, i: int) -> Set<Seq<char>>
    decreases v, i,
{
    if i <= 0 || i > v.len() {
        Set::empty()
    } else {
        binds_stmts(v, i - 1).union(binds_stmt(v[i - 1]))
    }
}

pub open spec fn binds_match(m: Match) -> Set<Seq<char>>
    decreases m, 0int,
{
    binds_expr(*m.scrut).union(binds_arms(m.arms@, m.arms@.len() as int))
}

pub open spec fn binds_arms(v: Seq<Arm>, i: int) -> Set<Seq<char>>
    decreases v, i,
{
    if i <= 0 || i > v.len() {
        Set::empty()
    } else {
        binds_arms(v, i - 1).union(pattern_names(v[i - 1].pat)).union(
            binds_stmts(v[i - 1].body.stmts@, v[i - 1].body.stmts@.len() as int),
        )
    }
}


/// Appends a read identifier.
fn push_use(used: &mut Vec<String>, n: &String)
    ensures
        strings_view(final(used)@) == strings_view(old(used)@).push(n@),
{
    let ghost before = used@;
    used.push(n.clone());
    assert(strings_view(used@) =~= strings_view(before).push(n@));
}

/// Adds a bound name to the set.
fn bind_name(bound: &mut Vec<String>, n: &String)
    requires
        no_dups(old(bound)@),
    ensures
        no_dups(final(bound)@),
        set_of(final(bound)@) == set_of(old(bound)@).insert(n@),
{
    let cs = chars_of(n.as_str());
    insert_name(bound, &cs);
}

fn bind_all(bound: &mut Vec<String>, binds: &Vec<Bind>)
    requires
        no_dups(old(bound)@),
    ensures
        no_dups(final(bound)@),
        set_of(final(bound)@) == set_of(old(bound)@).union(bind_names(binds@)),
{
    let ghost s0 = set_of(bound@);
    let mut i: usize = 0;
    while i < binds.len()
        invariant
            0 <= i <= binds@.len(),
            no_dups(bound@),
            set_of(bound@) == s0.union(bind_names(binds@.take(i as int))),
        decreases binds.len() - i,
    {
        bind_name(bound, &binds[i].name);
        proof {
            assert(bind_names(binds@.take(i + 1)) =~= bind_names(binds@.take(i as int)).insert(
                binds@[i as int].name@,
            )) by {
                assert(binds@.take(i + 1)[i as int] == binds@[i as int]);
                assert forall|s: Seq<char>| bind_names(binds@.take(i as int)).contains(s) implies bind_names(binds@.take(i + 1)).contains(s) by {
                    let j = choose|j: int| 0 <= j < i && (#[trigger] binds@.take(i as int)[j]).name@ == s;
                    assert(binds@.take(i + 1)[j] == binds@.take(i as int)[j]);
                }
                assert forall|s: Seq<char>| bind_names(binds@.take(i + 1)).contains(s) implies bind_names(binds@.take(i as int)).insert(binds@[i as int].name@).contains(s) by {
                    let j = choose|j: int| 0 <= j < i + 1 && (#[trigger] binds@.take(i + 1)[j]).name@ == s;
                    if j < i {
                        assert(binds@.take(i + 1)[j] == binds@.take(i as int)[j]);
                    }
                }
            }
        }
        i = i + 1;
    }
    assert(binds@.take(i as int) =~= binds@);
}

fn bind_params(bound: &mut Vec<String>, params: &Vec<Param>)
    requires
        no_dups(old(bound)@),
    ensures
        no_dups(final(bound)@),
        set_of(final(bound)@) == set_of(old(bound)@).union(param_names(params@)),
{
    let ghost s0 = set_of(bound@);
    let mut i: usize = 0;
    while i < params.len()
        invariant
            0 <= i <= params@.len(),
            no_dups(bound@),
            set_of(bound@) == s0.union(param_names(params@.take(i as int))),
        decreases params.len() - i,
    {
        bind_name(bound, &params[i].name);
        proof {
            assert(param_names(params@.take(i + 1)) =~= param_names(params@.take(i as int)).insert(
                params@[i as int].name@,
            )) by {
                assert(params@.take(i + 1)[i as int] == params@[i as int]);
                assert forall|s: Seq<char>| param_names(params@.take(i as int)).contains(s) implies param_names(params@.take(i + 1)).contains(s) by {
                    let j = choose|j: int| 0 <= j < i && (#[trigger] params@.take(i as int)[j]).name@ == s;
                    assert(params@.take(i + 1)[j] == params@.take(i as int)[j]);
                }
                assert forall|s: Seq<char>| param_names(params@.take(i + 1)).contains(s) implies param_names(params@.take(i as int)).insert(params@[i as int].name@).contains(s) by {
                    let j = choose|j: int| 0 <= j < i + 1 && (#[trigger] params@.take(i + 1)[j]).name@ == s;
                    if j < i {
                        assert(params@.take(i + 1)[j] == params@.take(i as int)[j]);
                    }
                }
            }
        }
        i = i + 1;
    }
    assert(params@.take(i as int) =~= params@);
}

fn bind_pattern(bound: &mut Vec<String>, p: &Pattern)
    requires
        no_dups(old(bound)@),
    ensures
        no_dups(final(bound)@),
        set_of(final(bound)@) == set_of(old(bound)@).union(pattern_names(*p)),
{
    match p {
        Pattern::Variant(_, binds) => {
            let ghost s0 = set_of(bound@);
            let ghost all = pattern_names(*p);
            let mut i: usize = 0;
            while i < binds.len()
                invariant
                    0 <= i <= binds@.len(),
                    no_dups(bound@),
                    all == Set::new(|s: Seq<char>| exists|j: int| 0 <= j < binds@.len() && (#[trigger] binds@[j])@ == s),
                    set_of(bound@) == s0.union(Set::new(|s: Seq<char>| exists|j: int| 0 <= j < i && (#[trigger] binds@[j])@ == s)),
                decreases binds.len() - i,
            {
                let ghost before = set_of(bound@);
                bind_name(bound, &binds[i]);
                proof {
                    assert(set_of(bound@) =~= s0.union(Set::new(|s: Seq<char>| exists|j: int| 0 <= j < i + 1 && (#[trigger] binds@[j])@ == s))) by {
                        assert forall|s: Seq<char>| #[trigger] set_of(bound@).contains(s) implies s0.union(Set::new(|s: Seq<char>| exists|j: int| 0 <= j < i + 1 && (#[trigger] binds@[j])@ == s)).contains(s) by {
                            if s == binds@[i as int]@ {
                                assert(Set::new(|s: Seq<char>| exists|j: int| 0 <= j < i + 1 && (#[trigger] binds@[j])@ == s).contains(s));
                            }
                        }
                    }
                }
                i = i + 1;
            }
            assert(set_of(bound@) =~= s0.union(all));
        },
        Pattern::Ident(n) => {
            let ghost s0 = set_of(bound@);
            bind_name(bound, n);
            assert(set_of(bound@) =~= s0.union(set![n@]));
        },
        Pattern::Wildcard => {
            assert(set_of(bound@) =~= set_of(bound@).union(Set::empty()));
        },
    }
}

/// Collects the reads and binders of every statement of a block.
pub fn collect_block(b: &Block, used: &mut Vec<String>, bound: &mut Vec<String>)
    requires
        no_dups(old(bound)@),
    ensures
        no_dups(final(bound)@),
        strings_view(final(used)@) == strings_view(old(used)@) + uses_stmts(
            b.stmts@,
            b.stmts@.len() as int,
        ),
        set_of(final(bound)@) == set_of(old(bound)@).union(
            binds_stmts(b.stmts@, b.stmts@.len() as int),
        ),
    decreases b, 1int,
{
    let ghost u0 = strings_view(used@);
    let ghost s0 = set_of(bound@);
    let mut i: usize = 0;
    assert(u0 + uses_stmts(b.stmts@, 0) =~= u0);
    assert(s0.union(binds_stmts(b.stmts@, 0)) =~= s0);
    while i < b.stmts.len()
        invariant
            0 <= i <= b.stmts@.len(),
            no_dups(bound@),
            strings_view(used@) == u0 + uses_stmts(b.stmts@, i as int),
            set_of(bound@) == s0.union(binds_stmts(b.stmts@, i as int)),
        decreases b.stmts.len() - i,
    {
        proof {
            assert(decreases_to!(b => b.stmts));
            assert(decreases_to!(b.stmts => b.stmts@[i as int]));
        }
        collect_stmt(&b.stmts[i], used, bound);
        assert(u0 + uses_stmts(b.stmts@, i + 1) =~= u0 + uses_stmts(b.stmts@, i as int) + uses_stmt(b.stmts@[i as int]));
        assert(s0.union(binds_stmts(b.stmts@, i + 1)) =~= s0.union(binds_stmts(b.stmts@, i as int)).union(binds_stmt(b.stmts@[i as int])));
        i = i + 1;
    }
}

/// Collects the reads and binders of one statement.
pub fn collect_stmt(s: &Stmt, used: &mut Vec<String>, bound: &mut Vec<String>)
    requires
        no_dups(old(bound)@),
    ensures
        no_dups(final(bound)@),
        strings_view(final(used)@) == strings_view(old(used)@) + uses_stmt(*s),
        set_of(final(bound)@) == set_of(old(bound)@).union(binds_stmt(*s)),
    decreases s, 1int,
{
    let ghost u0 = strings_view(used@);
    let ghost s0 = set_of(bound@);
    match s {
        Stmt::Let(l) => {
            collect_expr(&l.value, used, bound);
            bind_all(bound, &l.binds);
            assert(strings_view(used@) =~= u0 + uses_stmt(*s));
            assert(set_of(bound@) =~= s0.union(binds_stmt(*s)));
        },
        Stmt::Assign(a, b) => {
            collect_expr(a, used, bound);
            collect_expr(b, used, bound);
            assert(strings_view(used@) =~= u0 + uses_stmt(*s));
            assert(set_of(bound@) =~= s0.union(binds_stmt(*s)));
        },
        Stmt::AssignOp(_, a, b) => {
            collect_expr(a, used, bound);
            collect_expr(b, used, bound);
            assert(strings_view(used@) =~= u0 + uses_stmt(*s));
            assert(set_of(bound@) =~= s0.union(binds_stmt(*s)));
        },
        Stmt::Break(_) | Stmt::Continue(_) => {
            assert(strings_view(used@) =~= u0 + uses_stmt(*s));
            assert(set_of(bound@) =~= s0.union(binds_stmt(*s)));
        },
        Stmt::Return(Some(e)) => {
            collect_expr(e, used, bound);
        },
        Stmt::Defer(e) => {
            collect_expr(e, used, bound);
        },
        Stmt::Expr(e) => {
            collect_expr(e, used, bound);
        },
        Stmt::Return(None) => {
            assert(strings_view(used@) =~= u0 + uses_stmt(*s));
            assert(set_of(bound@) =~= s0.union(binds_stmt(*s)));
        },
        Stmt::If(i) => {
            collect_expr(&i.cond, used, bound);
            collect_block(&i.then_block, used, bound);
            let ghost u1 = strings_view(used@);
            let ghost s1 = set_of(bound@);
            match &i.els {
                Some(e) => {
                    collect_block(e, used, bound);
                },
                None => {
                    assert(strings_view(used@) =~= u1 + Seq::<Seq<char>>::empty());
                    assert(set_of(bound@) =~= s1.union(Set::<Seq<char>>::empty()));
                },
            }
            assert(strings_view(used@) =~= u0 + uses_stmt(*s));
            assert(set_of(bound@) =~= s0.union(binds_stmt(*s)));
        },
        Stmt::While(w) => {
            collect_expr(&w.cond, used, bound);
            collect_block(&w.body, used, bound);
            assert(strings_view(used@) =~= u0 + uses_stmt(*s));
            assert(set_of(bound@) =~= s0.union(binds_stmt(*s)));
        },
        Stmt::For(f) => {
            collect_expr(&f.iter, used, bound);
            bind_name(bound, &f.var);
            collect_block(&f.body, used, bound);
            assert(strings_view(used@) =~= u0 + uses_stmt(*s));
            assert(set_of(bound@) =~= s0.union(binds_stmt(*s)));
        },
        Stmt::Match(m) => {
            collect_match(m, used, bound);
        },
    }
}

/// Collects the reads and binders of a match: the scrutinee, then each arm's
/// pattern names and body.
pub fn collect_match(m: &Match, used: &mut Vec<String>, bound: &mut Vec<String>)
    requires
        no_dups(old(bound)@),
    ensures
        no_dups(final(bound)@),
        strings_view(final(used)@) == strings_view(old(used)@) + uses_match(*m),
        set_of(final(bound)@) == set_of(old(bound)@).union(binds_match(*m)),
    decreases m, 1int,
{
    let ghost u0 = strings_view(used@);
    let ghost s0 = set_of(bound@);
    collect_expr(&m.scrut, used, bound);
    let ghost u1 = strings_view(used@);
    let ghost s1 = set_of(bound@);
    let mut i: usize = 0;
    assert(u1 + uses_arms(m.arms@, 0) =~= u1);
    assert(s1.union(binds_arms(m.arms@, 0)) =~= s1);
    while i < m.arms.len()
        invariant
            0 <= i <= m.arms@.len(),
            no_dups(bound@),
            strings_view(used@) == u1 + uses_arms(m.arms@, i as int),
            set_of(bound@) == s1.union(binds_arms(m.arms@, i as int)),
        decreases m.arms.len() - i,
    {
        let arm = &m.arms[i];
        bind_pattern(bound, &arm.pat);
        proof {
            assert(decreases_to!(m => m.arms));
            assert(decreases_to!(m.arms => m.arms@[i as int]));
            assert(decreases_to!(m.arms@[i as int] => m.arms@[i as int].body));
        }
        collect_block(&arm.body, used, bound);
        assert(u1 + uses_arms(m.arms@, i + 1) =~= u1 + uses_arms(m.arms@, i as int) + uses_stmts(arm.body.stmts@, arm.body.stmts@.len() as int));
        assert(s1.union(binds_arms(m.arms@, i + 1)) =~= s1.union(binds_arms(m.arms@, i as int)).union(pattern_names(arm.pat)).union(binds_stmts(arm.body.stmts@, arm.body.stmts@.len() as int)));
        i = i + 1;
    }
    assert(strings_view(used@) =~= u0 + uses_match(*m));
    assert(set_of(bound@) =~= s0.union(binds_match(*m)));
}

fn collect_exprs(v: &Vec<Expr>, used: &mut Vec<String>, bound: &mut Vec<String>)
    requires
        no_dups(old(bound)@),
    ensures
        no_dups(final(bound)@),
        strings_view(final(used)@) == strings_view(old(used)@) + uses_exprs(v@, v@.len() as int),
        set_of(final(bound)@) == set_of(old(bound)@).union(binds_exprs(v@, v@.len() as int)),
    decreases v, 1int,
{
    let ghost u0 = strings_view(used@);
    let ghost s0 = set_of(bound@);
    let mut i: usize = 0;
    assert(u0 + uses_exprs(v@, 0) =~= u0);
    assert(s0.union(binds_exprs(v@, 0)) =~= s0);
    while i < v.len()
        invariant
            0 <= i <= v@.len(),
            no_dups(bound@),
            strings_view(used@) == u0 + uses_exprs(v@, i as int),
            set_of(bound@) == s0.union(binds_exprs(v@, i as int)),
        decreases v.len() - i,
    {
        proof {
            assert(decreases_to!(v => v@[i as int]));
        }
        collect_expr(&v[i], used, bound);
        assert(u0 + uses_exprs(v@, i + 1) =~= u0 + uses_exprs(v@, i as int) + uses_expr(v@[i as int]));
        assert(s0.union(binds_exprs(v@, i + 1)) =~= s0.union(binds_exprs(v@, i as int)).union(binds_expr(v@[i as int])));
        i = i + 1;
    }
}

fn collect_fields(v: &Vec<(String, Expr)>, used: &mut Vec<String>, bound: &mut Vec<String>)
    requires
        no_dups(old(bound)@),
    ensures
        no_dups(final(bound)@),
        strings_view(final(used)@) == strings_view(old(used)@) + uses_fields(v@, v@.len() as int),
        set_of(final(bound)@) == set_of(old(bound)@).union(binds_fields(v@, v@.len() as int)),
    decreases v, 1int,
{
    let ghost u0 = strings_view(used@);
    let ghost s0 = set_of(bound@);
    let mut i: usize = 0;
    assert(u0 + uses_fields(v@, 0) =~= u0);
    assert(s0.union(binds_fields(v@, 0)) =~= s0);
    while i < v.len()
        invariant
            0 <= i <= v@.len(),
            no_dups(bound@),
            strings_view(used@) == u0 + uses_fields(v@, i as int),
            set_of(bound@) == s0.union(binds_fields(v@, i as int)),
        decreases v.len() - i,
    {
        proof {
            assert(decreases_to!(v => v@[i as int]));
            assert(decreases_to!(v@[i as int] => v@[i as int].1));
        }
        collect_expr(&v[i].1, used, bound);
        assert(u0 + uses_fields(v@, i + 1) =~= u0 + uses_fields(v@, i as int) + uses_expr(v@[i as int].1));
        assert(s0.union(binds_fields(v@, i + 1)) =~= s0.union(binds_fields(v@, i as int)).union(binds_expr(v@[i as int].1)));
        i = i + 1;
    }
}

/// Collects the reads and binders of an expression. Lambda parameters and
/// match patterns bind names; every identifier is a read.
pub fn collect_expr(e: &Expr, used: &mut Vec<String>, bound: &mut Vec<String>)
    requires
        no_dups(old(bound)@),
    ensures
        no_dups(final(bound)@),
        strings_view(final(used)@) == strings_view(old(used)@) + uses_expr(*e),
        set_of(final(bound)@) == set_of(old(bound)@).union(binds_expr(*e)),
    decreases e, 1int,
{
    let ghost u0 = strings_view(used@);
    let ghost s0 = set_of(bound@);
    match &e.kind {
        ExprKind::Ident(n) => {
            push_use(used, n);
            assert(strings_view(used@) =~= u0 + uses_expr(*e));
            assert(set_of(bound@) =~= s0.union(binds_expr(*e)));
        },
        ExprKind::Unary(_, x) => {
            collect_expr(x, used, bound);
        },
        ExprKind::Binary(_, a, b) => {
            collect_expr(a, used, bound);
            collect_expr(b, used, bound);
            assert(strings_view(used@) =~= u0 + uses_expr(*e));
            assert(set_of(bound@) =~= s0.union(binds_expr(*e)));
        },
        ExprKind::Index(a, b) => {
            collect_expr(a, used, bound);
            collect_expr(b, used, bound);
            assert(strings_view(used@) =~= u0 + uses_expr(*e));
            assert(set_of(bound@) =~= s0.union(binds_expr(*e)));
        },
        ExprKind::Range(a, b, _) => {
            collect_expr(a, used, bound);
            collect_expr(b, used, bound);
            assert(strings_view(used@) =~= u0 + uses_expr(*e));
            assert(set_of(bound@) =~= s0.union(binds_expr(*e)));
        },
        ExprKind::Call(f, args) => {
            collect_expr(f, used, bound);
            collect_exprs(args, used, bound);
            assert(strings_view(used@) =~= u0 + uses_expr(*e));
            assert(set_of(bound@) =~= s0.union(binds_expr(*e)));
        },
        ExprKind::Field(b, _) => {
            collect_expr(b, used, bound);
        },
        ExprKind::Tuple(xs) => {
            collect_exprs(xs, used, bound);
        },
        ExprKind::Array(xs) => {
            collect_exprs(xs, used, bound);
        },
        ExprKind::StructLit(_, fs) => {
            collect_fields(fs, used, bound);
        },
        ExprKind::Lambda(l) => {
            bind_params(bound, &l.params);
            collect_block(&l.body, used, bound);
            assert(strings_view(used@) =~= u0 + uses_expr(*e));
            assert(set_of(bound@) =~= s0.union(binds_expr(*e)));
        },
        ExprKind::Match(m) => {
            collect_match(m, used, bound);
        },
        _ => {
            assert(strings_view(used@) =~= u0 + uses_expr(*e));
            assert(set_of(bound@) =~= s0.union(binds_expr(*e)));
        },
    }
}

} // verus!
