//! The type layer of lowering: lowered types and their LLVM spelling, the
//! nominal kind of each declared name, the signature tables the lowering
//! context reads, and the interface bridging code (vtables and thunks).

use vstd::prelude::*;
use crate::parser::ast::{
    tv, tvs, BinOp, Enum, Expr, ExprKind, Field, Func, Interface, Item, MethodSig, Module, Param, Type, TypeV,
    Variant,
};
use crate::text::{chars_of, dec, is_lit, push_dec, push_str};
use super::llvm::{Module as IrModule, ModuleV};
use super::frame::{align_up, lemma_align_up, spec_align_up};
use crate::mono::{clone_type, mangle, mangle_spec};
use vstd::arithmetic::div_mod::lemma_fundamental_div_mod;

verus! {

/// A lowered type.
#[derive(Debug)]
pub enum CTy {
    Int(u32),
    Char,
    F64,
    F32,
    Bool,
    Void,
    Ptr(Box<CTy>),
    RawPtr(Box<CTy>),
    Slice(Box<CTy>),
    Array(Box<CTy>, u64),
    Struct(String),
    Enum(String),
    Iface(String),
    Closure(Vec<CTy>, Box<CTy>),
    Error,
    Thread,
    Tuple(Vec<CTy>),
    Unknown,
}

/// The mathematical form of a lowered type.
pub enum CTyV {
    Int(u32),
    Char,
    F64,
    F32,
    Bool,
    Void,
    Ptr(Box<CTyV>),
    RawPtr(Box<CTyV>),
    Slice(Box<CTyV>),
    Array(Box<CTyV>, u64),
    Struct(Seq<char>),
    Enum(Seq<char>),
    Iface(Seq<char>),
    Closure(Seq<CTyV>, Box<CTyV>),
    Error,
    Thread,
    Tuple(Seq<CTyV>),
    Unknown,
}

pub open spec fn cv(t: CTy) -> CTyV
    decreases t,
{
    match t {
        CTy::Int(n) => CTyV::Int(n),
        CTy::Char => CTyV::Char,
        CTy::F64 => CTyV::F64,
        CTy::F32 => CTyV::F32,
        CTy::Bool => CTyV::Bool,
        CTy::Void => CTyV::Void,
        CTy::Ptr(b) => CTyV::Ptr(Box::new(cv(*b))),
        CTy::RawPtr(b) => CTyV::RawPtr(Box::new(cv(*b))),
        CTy::Slice(b) => CTyV::Slice(Box::new(cv(*b))),
        CTy::Array(b, n) => CTyV::Array(Box::new(cv(*b)), n),
        CTy::Struct(n) => CTyV::Struct(n@),
        CTy::Enum(n) => CTyV::Enum(n@),
        CTy::Iface(n) => CTyV::Iface(n@),
        CTy::Closure(ps, r) => CTyV::Closure(cvs(ps@), Box::new(cv(*r))),
        CTy::Error => CTyV::Error,
        CTy::Thread => CTyV::Thread,
        CTy::Tuple(ts) => CTyV::Tuple(cvs(ts@)),
        CTy::Unknown => CTyV::Unknown,
    }
}

pub open spec fn cvs(s: Seq<CTy>) -> Seq<CTyV>
    decreases s,
{
    Seq::new(s.len(), |i: int| if 0 <= i < s.len() { cv(s[i]) } else { CTyV::Unknown })
}

/// The LLVM spelling of a lowered type.
pub open spec fn ll_spec(t: CTyV) -> Seq<char>
    decreases t, 0int,
{
    match t {
        CTyV::Int(n) => "i"@ + dec(n as nat),
        CTyV::Char => "i8"@,
        CTyV::F64 => "double"@,
        CTyV::F32 => "float"@,
        CTyV::Bool => "i1"@,
        CTyV::Void => "void"@,
        CTyV::Ptr(_) => "{ ptr, i64 }"@,
        CTyV::RawPtr(_) => "ptr"@,
        CTyV::Slice(_) => "{ ptr, i64 }"@,
        CTyV::Array(e, n) => "["@ + dec(n as nat) + " x "@ + ll_spec(*e) + "]"@,
        CTyV::Struct(n) => "%"@ + n,
        CTyV::Enum(n) => "%"@ + n,
        CTyV::Iface(_) => "{ ptr, ptr }"@,
        CTyV::Closure(_, _) => "{ ptr, ptr }"@,
        CTyV::Error => "ptr"@,
        CTyV::Thread => "{ ptr, i64 }"@,
        CTyV::Tuple(ts) => "{ "@ + ll_join(ts, ts.len() as int) + " }"@,
        CTyV::Unknown => "i64"@,
    }
}

/// The spellings of the first `i` types, joined by `", "`.
pub open spec fn ll_join(ts: Seq<CTyV>, i: int) -> Seq<char>
    decreases ts, i,
{
    if i <= 0 || i > ts.len() {
        Seq::empty()
    } else if i == 1 {
        ll_spec(ts[0])
    } else {
        ll_join(ts, i - 1) + ", "@ + ll_spec(ts[i - 1])
    }
}

/// A copy of a lowered type.
pub fn clone_cty(t: &CTy) -> (r: CTy)
    ensures
        cv(r) == cv(*t),
    decreases t,
{
    match t {
        CTy::Int(n) => CTy::Int(*n),
        CTy::Char => CTy::Char,
        CTy::F64 => CTy::F64,
        CTy::F32 => CTy::F32,
        CTy::Bool => CTy::Bool,
        CTy::Void => CTy::Void,
        CTy::Ptr(b) => CTy::Ptr(Box::new(clone_cty(b))),
        CTy::RawPtr(b) => CTy::RawPtr(Box::new(clone_cty(b))),
        CTy::Slice(b) => CTy::Slice(Box::new(clone_cty(b))),
        CTy::Array(b, n) => CTy::Array(Box::new(clone_cty(b)), *n),
        CTy::Struct(n) => CTy::Struct(n.clone()),
        CTy::Enum(n) => CTy::Enum(n.clone()),
        CTy::Iface(n) => CTy::Iface(n.clone()),
        CTy::Closure(ps, r) => CTy::Closure(clone_ctys(ps), Box::new(clone_cty(r))),
        CTy::Error => CTy::Error,
        CTy::Thread => CTy::Thread,
        CTy::Tuple(ts) => CTy::Tuple(clone_ctys(ts)),
        CTy::Unknown => CTy::Unknown,
    }
}

pub fn clone_ctys(v: &Vec<CTy>) -> (r: Vec<CTy>)
    ensures
        cvs(r@) == cvs(v@),
    decreases v,
{
    let mut out: Vec<CTy> = Vec::new();
    let mut i: usize = 0;
    while i < v.len()
        invariant
            0 <= i <= v@.len(),
            out@.len() == i,
            forall|j: int| 0 <= j < i ==> cv(#[trigger] out@[j]) == cv(v@[j]),
        decreases v.len() - i,
    {
        proof {
            assert(decreases_to!(v => v@[i as int]));
        }
        out.push(clone_cty(&v[i]));
        i = i + 1;
    }
    assert(cvs(out@) =~= cvs(v@));
    out
}

impl CTy {
    /// The LLVM spelling of this type.
    pub fn ll(&self) -> (s: String)
        ensures
            s@ == ll_spec(cv(*self)),
        decreases self,
    {
        let mut s = String::new();
        self.push_ll(&mut s);
        assert(s@ =~= ll_spec(cv(*self)));
        s
    }

    /// Appends the LLVM spelling of this type.
    fn push_ll(&self, out: &mut String)
        ensures
            final(out)@ == old(out)@ + ll_spec(cv(*self)),
        decreases self,
    {
        let ghost before = out@;
        match self {
            CTy::Int(n) => {
                push_str(out, "i");
                push_dec(out, *n as u64);
            },
            CTy::Char => push_str(out, "i8"),
            CTy::F64 => push_str(out, "double"),
            CTy::F32 => push_str(out, "float"),
            CTy::Bool => push_str(out, "i1"),
            CTy::Void => push_str(out, "void"),
            CTy::Ptr(_) => push_str(out, "{ ptr, i64 }"),
            CTy::RawPtr(_) => push_str(out, "ptr"),
            CTy::Slice(_) => push_str(out, "{ ptr, i64 }"),
            CTy::Array(e, n) => {
                push_str(out, "[");
                push_dec(out, *n);
                push_str(out, " x ");
                e.push_ll(out);
                push_str(out, "]");
            },
            CTy::Struct(n) => {
                push_str(out, "%");
                push_str(out, n.as_str());
            },
            CTy::Enum(n) => {
                push_str(out, "%");
                push_str(out, n.as_str());
            },
            CTy::Iface(_) => push_str(out, "{ ptr, ptr }"),
            CTy::Closure(_, _) => push_str(out, "{ ptr, ptr }"),
            CTy::Error => push_str(out, "ptr"),
            CTy::Thread => push_str(out, "{ ptr, i64 }"),
            CTy::Tuple(ts) => {
                push_str(out, "{ ");
                push_ll_join(ts, out);
                push_str(out, " }");
            },
            CTy::Unknown => push_str(out, "i64"),
        }
        assert(out@ =~= before + ll_spec(cv(*self)));
    }

    /// Whether a value of this type is passed as an aggregate.
    pub fn is_aggregate(&self) -> (r: bool)
        ensures
            r == is_aggregate_spec(cv(*self)),
    {
        match self {
            CTy::Ptr(_) | CTy::Struct(_) | CTy::Enum(_) | CTy::Iface(_) | CTy::Closure(..)
            | CTy::Slice(_) | CTy::Array(..) | CTy::Tuple(_) | CTy::Thread => true,
            _ => false,
        }
    }

    pub fn is_float(&self) -> (r: bool)
        ensures
            r == (cv(*self) is F64 || cv(*self) is F32),
    {
        match self {
            CTy::F64 | CTy::F32 => true,
            _ => false,
        }
    }

    /// The bit width of an integer-like type.
    pub fn int_bits(&self) -> (r: Option<u32>)
        ensures
            r == int_bits_spec(cv(*self)),
    {
        match self {
            CTy::Int(n) => Some(*n),
            CTy::Char => Some(8),
            CTy::Bool => Some(1),
            _ => None,
        }
    }
}

pub open spec fn is_aggregate_spec(t: CTyV) -> bool {
    match t {
        CTyV::Ptr(_) | CTyV::Struct(_) | CTyV::Enum(_) | CTyV::Iface(_) | CTyV::Closure(_, _)
        | CTyV::Slice(_) | CTyV::Array(_, _) | CTyV::Tuple(_) | CTyV::Thread => true,
        _ => false,
    }
}

pub open spec fn int_bits_spec(t: CTyV) -> Option<u32> {
    match t {
        CTyV::Int(n) => Some(n),
        CTyV::Char => Some(8u32),
        CTyV::Bool => Some(1u32),
        _ => None,
    }
}

fn push_ll_join(ts: &Vec<CTy>, out: &mut String)
    ensures
        final(out)@ == old(out)@ + ll_join(cvs(ts@), ts@.len() as int),
    decreases ts,
{
    let ghost before = out@;
    let ghost vs = cvs(ts@);
    let mut i: usize = 0;
    while i < ts.len()
        invariant
            0 <= i <= ts@.len(),
            vs == cvs(ts@),
            out@ == before + ll_join(vs, i as int),
        decreases ts.len() - i,
    {
        proof {
            assert(decreases_to!(ts => ts@[i as int]));
        }
        if i > 0 {
            push_str(out, ", ");
        }
        ts[i].push_ll(out);
        assert(vs[i as int] == cv(ts@[i as int]));
        assert(out@ =~= before + ll_join(vs, i + 1));
        i = i + 1;
    }
}

/// The tag width of an enum with `count` variants.
pub fn tag_bits(count: usize) -> (r: u32)
    ensures
        r == (if count <= 256 {
            8u32
        } else if count <= 65536 {
            16u32
        } else {
            32u32
        }),
{
    if count <= 256 {
        8
    } else if count <= 65536 {
        16
    } else {
        32
    }
}

/// A user-facing name for a lowered type, for a diagnostic message. A nominal
/// type reads as its source name; anything else falls back to its LLVM form.
pub open spec fn ty_name_spec(t: CTyV) -> Seq<char> {
    match t {
        CTyV::Iface(n) => n,
        CTyV::Struct(n) => n,
        CTyV::Enum(n) => n,
        _ => ll_spec(t),
    }
}

pub fn ty_name(t: &CTy) -> (s: String)
    ensures
        s@ == ty_name_spec(cv(*t)),
{
    match t {
        CTy::Iface(n) | CTy::Struct(n) | CTy::Enum(n) => n.clone(),
        _ => t.ll(),
    }
}


/// The nominal kind a declared name has.
#[derive(Clone, Copy, Debug, PartialEq, Eq, Structural)]
pub enum Nom {
    Struct,
    Enum,
    Iface,
    Absent,
}

/// A table from names to values with the semantics of a map that a later
/// insert of a name overrides: every insert is recorded and a lookup takes the
/// latest entry for the name.
pub struct Table<V> {
    entries: Vec<(String, V)>,
}

/// The map the first `i` entries describe.
pub open spec fn entries_map<V>(e: Seq<(String, V)>, i: int) -> Map<Seq<char>, V>
    decreases i,
{
    if i <= 0 {
        Map::empty()
    } else {
        entries_map(e, i - 1).insert(e[i - 1].0@, e[i - 1].1)
    }
}

impl<V> Table<V> {
    pub closed spec fn map(&self) -> Map<Seq<char>, V> {
        entries_map(self.entries@, self.entries@.len() as int)
    }

    pub fn new() -> (t: Self)
        ensures
            t.map() == Map::<Seq<char>, V>::empty(),
    {
        Table { entries: Vec::new() }
    }

    pub fn insert(&mut self, k: String, v: V)
        ensures
            final(self).map() == old(self).map().insert(k@, v),
    {
        self.entries.push((k, v));
        assert(self.entries@.drop_last() =~= old(self).entries@);
        assert(entries_map(self.entries@, self.entries@.len() - 1) == entries_map(old(self).entries@, old(self).entries@.len() as int)) by {
            lemma_entries_map_prefix(self.entries@, old(self).entries@, old(self).entries@.len() as int);
        }
    }

    /// The value of the latest entry for `k`.
    pub fn get(&self, k: &String) -> (r: Option<&V>)
        ensures
            match r {
                Some(v) => self.map().contains_key(k@) && *v == self.map()[k@],
                None => !self.map().contains_key(k@),
            },
    {
        let ghost e = self.entries@;
        let ghost n = e.len() as int;
        let mut j = self.entries.len();
        while j > 0
            invariant
                e == self.entries@,
                n == e.len(),
                0 <= j <= n,
                entries_map(e, n).contains_key(k@) == entries_map(e, j as int).contains_key(k@),
                entries_map(e, j as int).contains_key(k@) ==> entries_map(e, n)[k@] == entries_map(
                    e,
                    j as int,
                )[k@],
            decreases j,
        {
            if self.entries[j - 1].0 == *k {
                return Some(&self.entries[j - 1].1);
            }
            j = j - 1;
        }
        None
    }
}

proof fn lemma_entries_map_prefix<V>(a: Seq<(String, V)>, b: Seq<(String, V)>, i: int)
    requires
        0 <= i <= b.len(),
        i <= a.len(),
        forall|j: int| 0 <= j < i ==> a[j] == b[j],
    ensures
        entries_map(a, i) == entries_map(b, i),
    decreases i,
{
    if i > 0 {
        lemma_entries_map_prefix(a, b, i - 1);
    }
}

/// The kind a name has in the table, `None` when it is not declared.
pub open spec fn nom_get(noms: Map<Seq<char>, Nom>, n: Seq<char>) -> Nom {
    if noms.contains_key(n) {
        noms[n]
    } else {
        Nom::Absent
    }
}

/// How a named type lowers: a builtin scalar name, or a declared nominal type.
pub open spec fn lower_named_spec(n: Seq<char>, noms: Map<Seq<char>, Nom>) -> CTyV {
    if n == "int8"@ || n == "uint8"@ {
        CTyV::Int(8)
    } else if n == "int16"@ || n == "uint16"@ {
        CTyV::Int(16)
    } else if n == "int32"@ || n == "uint32"@ {
        CTyV::Int(32)
    } else if n == "int64"@ || n == "uint64"@ {
        CTyV::Int(64)
    } else if n == "bool"@ {
        CTyV::Bool
    } else if n == "char"@ {
        CTyV::Char
    } else if n == "rune"@ {
        CTyV::Int(32)
    } else if n == "float64"@ {
        CTyV::F64
    } else if n == "float32"@ {
        CTyV::F32
    } else if n == "string"@ {
        CTyV::RawPtr(Box::new(CTyV::Char))
    } else if n == "error"@ {
        CTyV::Error
    } else if n == "thread"@ {
        CTyV::Thread
    } else {
        match nom_get(noms, n) {
            Nom::Struct => CTyV::Struct(n),
            Nom::Enum => CTyV::Enum(n),
            Nom::Iface => CTyV::Iface(n),
            Nom::Absent => CTyV::Unknown,
        }
    }
}

/// How a source type lowers, given the nominal kind of every declared name.
pub open spec fn lower_spec(t: TypeV, noms: Map<Seq<char>, Nom>) -> CTyV
    decreases t,
{
    match t {
        TypeV::Named(n, _) => lower_named_spec(n, noms),
        TypeV::Ptr(b) => if *b is Unit {
            CTyV::RawPtr(Box::new(CTyV::Void))
        } else {
            CTyV::Ptr(Box::new(lower_spec(*b, noms)))
        },
        TypeV::RawPtr(b) => CTyV::RawPtr(Box::new(lower_spec(*b, noms))),
        TypeV::Slice(b) => CTyV::Slice(Box::new(lower_spec(*b, noms))),
        TypeV::Array(b, n) => CTyV::Array(Box::new(lower_spec(*b, noms)), n),
        TypeV::Func(ps, r) => CTyV::Closure(lowers_spec(ps, noms), Box::new(lower_spec(*r, noms))),
        TypeV::Tuple(ts) => CTyV::Tuple(lowers_spec(ts, noms)),
        TypeV::Unit => CTyV::Void,
    }
}

pub open spec fn lowers_spec(s: Seq<TypeV>, noms: Map<Seq<char>, Nom>) -> Seq<CTyV>
    decreases s,
{
    Seq::new(s.len(), |i: int| if 0 <= i < s.len() { lower_spec(s[i], noms) } else { CTyV::Unknown })
}

/// Lowers a named type.
fn lower_named(n: &String, noms: &Table<Nom>) -> (r: CTy)
    ensures
        cv(r) == lower_named_spec(n@, noms.map()),
{
    let cs = chars_of(n.as_str());
    let c = cs.as_slice();
    assert(c@ == n@);
    if is_lit(c, "int8") || is_lit(c, "uint8") {
        CTy::Int(8)
    } else if is_lit(c, "int16") || is_lit(c, "uint16") {
        CTy::Int(16)
    } else if is_lit(c, "int32") || is_lit(c, "uint32") {
        CTy::Int(32)
    } else if is_lit(c, "int64") || is_lit(c, "uint64") {
        CTy::Int(64)
    } else if is_lit(c, "bool") {
        CTy::Bool
    } else if is_lit(c, "char") {
        CTy::Char
    } else if is_lit(c, "rune") {
        CTy::Int(32)
    } else if is_lit(c, "float64") {
        CTy::F64
    } else if is_lit(c, "float32") {
        CTy::F32
    } else if is_lit(c, "string") {
        assert(cv(CTy::Char) == CTyV::Char);
        CTy::RawPtr(Box::new(CTy::Char))
    } else if is_lit(c, "error") {
        CTy::Error
    } else if is_lit(c, "thread") {
        CTy::Thread
    } else {
        let k = match noms.get(n) {
            Some(k) => *k,
            None => Nom::Absent,
        };
        assert(k == nom_get(noms.map(), n@));
        match k {
            Nom::Struct => CTy::Struct(n.clone()),
            Nom::Enum => CTy::Enum(n.clone()),
            Nom::Iface => CTy::Iface(n.clone()),
            Nom::Absent => CTy::Unknown,
        }
    }
}


/// Lowers a source type. `*void` (a pointer to the unit type) is the erased raw
/// currency of the allocator and foreign layer, a thin pointer.
pub fn lower_ty(t: &Type, noms: &Table<Nom>) -> (r: CTy)
    ensures
        cv(r) == lower_spec(tv(*t), noms.map()),
    decreases t,
{
    match t {
        Type::Named(n, args) => {
            assert(tv(*t) == TypeV::Named(n@, tvs(args@)));
            lower_named(n, noms)
        },
        Type::Ptr(b) => {
            if matches!(&**b, Type::Unit) {
                assert(tv(**b) == TypeV::Unit);
                assert(cv(CTy::Void) == CTyV::Void);
                CTy::RawPtr(Box::new(CTy::Void))
            } else {
                assert(!(tv(**b) is Unit));
                CTy::Ptr(Box::new(lower_ty(b, noms)))
            }
        },
        Type::RawPtr(b) => CTy::RawPtr(Box::new(lower_ty(b, noms))),
        Type::Slice(b) => CTy::Slice(Box::new(lower_ty(b, noms))),
        Type::Array(b, n) => CTy::Array(Box::new(lower_ty(b, noms)), *n),
        Type::Func(ps, r) => CTy::Closure(lower_tys(ps, noms), Box::new(lower_ty(r, noms))),
        Type::Tuple(ts) => CTy::Tuple(lower_tys(ts, noms)),
        Type::Unit => CTy::Void,
    }
}

pub fn lower_tys(v: &Vec<Type>, noms: &Table<Nom>) -> (r: Vec<CTy>)
    ensures
        cvs(r@) == lowers_spec(tvs(v@), noms.map()),
    decreases v,
{
    let mut out: Vec<CTy> = Vec::new();
    let mut i: usize = 0;
    while i < v.len()
        invariant
            0 <= i <= v@.len(),
            out@.len() == i,
            forall|j: int| 0 <= j < i ==> cv(#[trigger] out@[j]) == lower_spec(tv(v@[j]), noms.map()),
        decreases v.len() - i,
    {
        proof {
            assert(decreases_to!(v => v@[i as int]));
        }
        out.push(lower_ty(&v[i], noms));
        i = i + 1;
    }
    assert(cvs(out@) =~= lowers_spec(tvs(v@), noms.map()));
    out
}


/// An interface method slot: its name and lowered signature (return plus the
/// parameters after the receiver).
pub struct IMethod {
    pub name: String,
    pub ret: CTy,
    pub params: Vec<CTy>,
}

pub struct IfaceDef {
    pub name: String,
    pub methods: Vec<IMethod>,
}

/// An `impl Iface for Type` record: the concrete type and interface it links.
pub struct ImplInfo {
    pub iface: String,
    pub ty: String,
}

pub struct VariantDef {
    pub name: String,
    pub tag: u64,
    pub fields: Vec<(String, CTy)>,
}

pub struct EnumDef {
    pub name: String,
    pub tag_bits: u32,
    pub variants: Vec<VariantDef>,
}

/// An async function's lowered signature, shared by its poll emission and
/// every call site: the parameter types (so both compute the same frame
/// prefix), the declared return type, and the `Future$...` struct a call packs.
pub struct AsyncInfo {
    pub params: Vec<CTy>,
    pub ret: CTy,
    pub fut_struct: String,
}

pub open spec fn async_view(a: AsyncInfo) -> (Seq<CTyV>, CTyV, Seq<char>) {
    (cvs(a.params@), cv(a.ret), a.fut_struct@)
}

/// What lowering reads of the declared items: each struct's lowered fields,
/// each enum's variants, each interface's method slots, the interface impls,
/// the signature of every function and method, every name's nominal kind,
/// and every async function's lowered signature.
pub struct Ctx {
    pub structs: Vec<(String, Vec<(String, CTy)>)>,
    pub enums: Vec<EnumDef>,
    pub ifaces: Vec<IfaceDef>,
    pub impls: Vec<ImplInfo>,
    pub fns: Table<(CTy, Vec<CTy>)>,
    pub methods: Table<(CTy, Vec<CTy>)>,
    pub noms: Table<Nom>,
    pub async_fns: Table<AsyncInfo>,
}

pub struct VariantV {
    pub name: Seq<char>,
    pub tag: u64,
    pub fields: Seq<(Seq<char>, CTyV)>,
}

pub struct EnumV {
    pub name: Seq<char>,
    pub tag_bits: u32,
    pub variants: Seq<VariantV>,
}

pub struct IMethodV {
    pub name: Seq<char>,
    pub ret: CTyV,
    pub params: Seq<CTyV>,
}

pub struct IfaceV {
    pub name: Seq<char>,
    pub methods: Seq<IMethodV>,
}

pub open spec fn fields_view(f: Seq<(String, CTy)>) -> Seq<(Seq<char>, CTyV)> {
    Seq::new(f.len(), |i: int| (f[i].0@, cv(f[i].1)))
}

pub open spec fn structs_view(s: Seq<(String, Vec<(String, CTy)>)>) -> Seq<(Seq<char>, Seq<(Seq<char>, CTyV)>)> {
    Seq::new(s.len(), |i: int| (s[i].0@, fields_view(s[i].1@)))
}

pub open spec fn variant_view(v: VariantDef) -> VariantV {
    VariantV { name: v.name@, tag: v.tag, fields: fields_view(v.fields@) }
}

pub open spec fn enum_view(e: EnumDef) -> EnumV {
    EnumV {
        name: e.name@,
        tag_bits: e.tag_bits,
        variants: Seq::new(e.variants@.len(), |i: int| variant_view(e.variants@[i])),
    }
}

pub open spec fn enums_view(s: Seq<EnumDef>) -> Seq<EnumV> {
    Seq::new(s.len(), |i: int| enum_view(s[i]))
}

pub open spec fn imethod_view(m: IMethod) -> IMethodV {
    IMethodV { name: m.name@, ret: cv(m.ret), params: cvs(m.params@) }
}

pub open spec fn iface_view(d: IfaceDef) -> IfaceV {
    IfaceV { name: d.name@, methods: Seq::new(d.methods@.len(), |i: int| imethod_view(d.methods@[i])) }
}

pub open spec fn ifaces_view(s: Seq<IfaceDef>) -> Seq<IfaceV> {
    Seq::new(s.len(), |i: int| iface_view(s[i]))
}

pub open spec fn impls_view(s: Seq<ImplInfo>) -> Seq<(Seq<char>, Seq<char>)> {
    Seq::new(s.len(), |i: int| (s[i].iface@, s[i].ty@))
}

pub open spec fn sig_view(s: (CTy, Vec<CTy>)) -> (CTyV, Seq<CTyV>) {
    (cv(s.0), cvs(s.1@))
}

/// A signature table holds, name for name, the signatures of a spec map.
pub open spec fn sigs_match(t: Map<Seq<char>, (CTy, Vec<CTy>)>, s: Map<Seq<char>, (CTyV, Seq<CTyV>)>) -> bool {
    &&& t.dom() == s.dom()
    &&& forall|k: Seq<char>| #[trigger] t.contains_key(k) ==> sig_view(t[k]) == s[k]
}

/// The nominal kind an item declares, if any.
pub open spec fn item_nom(it: Item) -> Option<(Seq<char>, Nom)> {
    match it {
        Item::Struct(s) => Some((s.name@, Nom::Struct)),
        Item::Enum(e) => Some((e.name@, Nom::Enum)),
        Item::Interface(i) => Some((i.name@, Nom::Iface)),
        _ => None,
    }
}

/// The nominal kind of each name the first `i` items declare; a later
/// declaration of a name overrides an earlier one.
pub open spec fn noms_spec(items: Seq<Item>, i: int) -> Map<Seq<char>, Nom>
    decreases i,
{
    if i <= 0 {
        Map::empty()
    } else {
        match item_nom(items[i - 1]) {
            Some((n, k)) => noms_spec(items, i - 1).insert(n, k),
            None => noms_spec(items, i - 1),
        }
    }
}

pub open spec fn lowered_fields(fs: Seq<Field>, noms: Map<Seq<char>, Nom>) -> Seq<(Seq<char>, CTyV)> {
    Seq::new(fs.len(), |i: int| (fs[i].name@, lower_spec(tv(fs[i].ty), noms)))
}

pub open spec fn param_tys(ps: Seq<Param>, noms: Map<Seq<char>, Nom>) -> Seq<CTyV> {
    Seq::new(ps.len(), |i: int| lower_spec(tv(ps[i].ty), noms))
}

pub open spec fn tag_bits_spec(count: int) -> u32 {
    if count <= 256 {
        8u32
    } else if count <= 65536 {
        16u32
    } else {
        32u32
    }
}

pub open spec fn enum_spec(e: Enum, noms: Map<Seq<char>, Nom>) -> EnumV {
    EnumV {
        name: e.name@,
        tag_bits: tag_bits_spec(e.variants@.len() as int),
        variants: Seq::new(
            e.variants@.len(),
            |i: int|
                VariantV {
                    name: e.variants@[i].name@,
                    tag: i as u64,
                    fields: lowered_fields(e.variants@[i].fields@, noms),
                },
        ),
    }
}

pub open spec fn iface_spec(d: Interface, noms: Map<Seq<char>, Nom>) -> IfaceV {
    IfaceV {
        name: d.name@,
        methods: Seq::new(
            d.methods@.len(),
            |i: int|
                IMethodV {
                    name: d.methods@[i].name@,
                    ret: lower_spec(tv(d.methods@[i].ret), noms),
                    params: param_tys(d.methods@[i].params@, noms),
                },
        ),
    }
}

/// Each struct of the first `i` items, with its lowered fields, in order.
pub open spec fn structs_spec(items: Seq<Item>, i: int, noms: Map<Seq<char>, Nom>) -> Seq<(Seq<char>, Seq<(Seq<char>, CTyV)>)>
    decreases i,
{
    if i <= 0 {
        Seq::empty()
    } else {
        match items[i - 1] {
            Item::Struct(s) => structs_spec(items, i - 1, noms).push((s.name@, lowered_fields(s.fields@, noms))),
            _ => structs_spec(items, i - 1, noms),
        }
    }
}

pub open spec fn enums_spec(items: Seq<Item>, i: int, noms: Map<Seq<char>, Nom>) -> Seq<EnumV>
    decreases i,
{
    if i <= 0 {
        Seq::empty()
    } else {
        match items[i - 1] {
            Item::Enum(e) => enums_spec(items, i - 1, noms).push(enum_spec(e, noms)),
            _ => enums_spec(items, i - 1, noms),
        }
    }
}

pub open spec fn ifaces_spec(items: Seq<Item>, i: int, noms: Map<Seq<char>, Nom>) -> Seq<IfaceV>
    decreases i,
{
    if i <= 0 {
        Seq::empty()
    } else {
        match items[i - 1] {
            Item::Interface(d) => ifaces_spec(items, i - 1, noms).push(iface_spec(d, noms)),
            _ => ifaces_spec(items, i - 1, noms),
        }
    }
}

/// The `(interface, type)` pair of each interface impl, in order.
pub open spec fn impls_spec(items: Seq<Item>, i: int) -> Seq<(Seq<char>, Seq<char>)>
    decreases i,
{
    if i <= 0 {
        Seq::empty()
    } else {
        match items[i - 1] {
            Item::Impl(im) => match im.iface {
                Some(x) => impls_spec(items, i - 1).push((x@, im.ty@)),
                None => impls_spec(items, i - 1),
            },
            _ => impls_spec(items, i - 1),
        }
    }
}

pub open spec fn foreign_sigs(
    m: Map<Seq<char>, (CTyV, Seq<CTyV>)>,
    fs: Seq<crate::parser::ast::ForeignFunc>,
    j: int,
    noms: Map<Seq<char>, Nom>,
) -> Map<Seq<char>, (CTyV, Seq<CTyV>)>
    decreases j,
{
    if j <= 0 {
        m
    } else {
        foreign_sigs(m, fs, j - 1, noms).insert(
            fs[j - 1].name@,
            (lower_spec(tv(fs[j - 1].ret), noms), param_tys(fs[j - 1].params@, noms)),
        )
    }
}

/// The signature of every function and foreign function of the first `i`
/// items, by name; a later one of a name overrides an earlier one.
pub open spec fn fns_spec(items: Seq<Item>, i: int, noms: Map<Seq<char>, Nom>) -> Map<Seq<char>, (CTyV, Seq<CTyV>)>
    decreases i,
{
    if i <= 0 {
        Map::empty()
    } else {
        match items[i - 1] {
            Item::Func(f) => fns_spec(items, i - 1, noms).insert(
                f.name@,
                (lower_spec(tv(f.ret), noms), param_tys(f.params@, noms)),
            ),
            Item::Foreign(fb) => foreign_sigs(fns_spec(items, i - 1, noms), fb.funcs@, fb.funcs@.len() as int, noms),
            _ => fns_spec(items, i - 1, noms),
        }
    }
}

/// The async functions among the first `i` items, by name (a later one of
/// the same name replaces an earlier): parameter types, return type, and the
/// `Future` instance for the declared return type, `mangle("Future", [ret])`.
pub open spec fn async_spec(items: Seq<Item>, i: int, noms: Map<Seq<char>, Nom>) -> Map<Seq<char>, (Seq<CTyV>, CTyV, Seq<char>)>
    decreases i,
{
    if i <= 0 {
        Map::empty()
    } else {
        match items[i - 1] {
            Item::Func(f) => if f.is_async {
                async_spec(items, i - 1, noms).insert(
                    f.name@,
                    (param_tys(f.params@, noms), lower_spec(tv(f.ret), noms), mangle_spec("Future"@, seq![tv(f.ret)])),
                )
            } else {
                async_spec(items, i - 1, noms)
            },
            _ => async_spec(items, i - 1, noms),
        }
    }
}

/// An async table holds, name for name, the entries of a spec map.
pub open spec fn asyncs_match(t: Map<Seq<char>, AsyncInfo>, s: Map<Seq<char>, (Seq<CTyV>, CTyV, Seq<char>)>) -> bool {
    &&& t.dom() == s.dom()
    &&& forall|k: Seq<char>| #[trigger] t.contains_key(k) ==> async_view(t[k]) == s[k]
}

/// The key of a method: the implementing type, a dot, and the method's name.
pub open spec fn method_key(ty: Seq<char>, name: Seq<char>) -> Seq<char> {
    ty + "."@ + name
}

pub open spec fn impl_sigs(
    m: Map<Seq<char>, (CTyV, Seq<CTyV>)>,
    ty: Seq<char>,
    ms: Seq<Func>,
    j: int,
    noms: Map<Seq<char>, Nom>,
) -> Map<Seq<char>, (CTyV, Seq<CTyV>)>
    decreases j,
{
    if j <= 0 {
        m
    } else {
        impl_sigs(m, ty, ms, j - 1, noms).insert(
            method_key(ty, ms[j - 1].name@),
            (lower_spec(tv(ms[j - 1].ret), noms), seq![CTyV::Struct(ty)] + param_tys(ms[j - 1].params@, noms)),
        )
    }
}

/// The signature of every impl method of the first `i` items, its receiver
/// first, by method key.
pub open spec fn methods_spec(items: Seq<Item>, i: int, noms: Map<Seq<char>, Nom>) -> Map<Seq<char>, (CTyV, Seq<CTyV>)>
    decreases i,
{
    if i <= 0 {
        Map::empty()
    } else {
        match items[i - 1] {
            Item::Impl(im) => impl_sigs(methods_spec(items, i - 1, noms), im.ty@, im.methods@, im.methods@.len() as int, noms),
            _ => methods_spec(items, i - 1, noms),
        }
    }
}

proof fn lemma_sigs_insert(
    t: Map<Seq<char>, (CTy, Vec<CTy>)>,
    s: Map<Seq<char>, (CTyV, Seq<CTyV>)>,
    k: Seq<char>,
    v: (CTy, Vec<CTy>),
)
    requires
        sigs_match(t, s),
    ensures
        sigs_match(t.insert(k, v), s.insert(k, sig_view(v))),
{
    assert(t.insert(k, v).dom() =~= s.insert(k, sig_view(v)).dom());
}

fn lower_fields(fs: &Vec<Field>, noms: &Table<Nom>) -> (r: Vec<(String, CTy)>)
    ensures
        fields_view(r@) == lowered_fields(fs@, noms.map()),
{
    let mut out: Vec<(String, CTy)> = Vec::new();
    let mut i: usize = 0;
    while i < fs.len()
        invariant
            0 <= i <= fs@.len(),
            out@.len() == i,
            forall|j: int| 0 <= j < i ==> (#[trigger] out@[j]).0@ == fs@[j].name@ && cv(out@[j].1) == lower_spec(tv(fs@[j].ty), noms.map()),
        decreases fs.len() - i,
    {
        out.push((fs[i].name.clone(), lower_ty(&fs[i].ty, noms)));
        i = i + 1;
    }
    assert(fields_view(out@) =~= lowered_fields(fs@, noms.map()));
    out
}

fn lower_params(ps: &Vec<Param>, noms: &Table<Nom>) -> (r: Vec<CTy>)
    ensures
        cvs(r@) == param_tys(ps@, noms.map()),
{
    let mut out: Vec<CTy> = Vec::new();
    let mut i: usize = 0;
    while i < ps.len()
        invariant
            0 <= i <= ps@.len(),
            out@.len() == i,
            forall|j: int| 0 <= j < i ==> cv(#[trigger] out@[j]) == lower_spec(tv(ps@[j].ty), noms.map()),
        decreases ps.len() - i,
    {
        out.push(lower_ty(&ps[i].ty, noms));
        i = i + 1;
    }
    assert(cvs(out@) =~= param_tys(ps@, noms.map()));
    out
}

fn lower_enum(e: &Enum, noms: &Table<Nom>) -> (r: EnumDef)
    ensures
        enum_view(r) == enum_spec(*e, noms.map()),
{
    let mut vs: Vec<VariantDef> = Vec::new();
    let mut i: usize = 0;
    while i < e.variants.len()
        invariant
            0 <= i <= e.variants@.len(),
            vs@.len() == i,
            forall|j: int|
                0 <= j < i ==> variant_view(#[trigger] vs@[j]) == (VariantV {
                    name: e.variants@[j].name@,
                    tag: j as u64,
                    fields: lowered_fields(e.variants@[j].fields@, noms.map()),
                }),
        decreases e.variants.len() - i,
    {
        let v = &e.variants[i];
        vs.push(VariantDef { name: v.name.clone(), tag: i as u64, fields: lower_fields(&v.fields, noms) });
        i = i + 1;
    }
    let d = EnumDef { name: e.name.clone(), tag_bits: tag_bits(e.variants.len()), variants: vs };
    assert(enum_view(d).variants =~= enum_spec(*e, noms.map()).variants);
    d
}

fn lower_iface(d: &Interface, noms: &Table<Nom>) -> (r: IfaceDef)
    ensures
        iface_view(r) == iface_spec(*d, noms.map()),
{
    let mut ms: Vec<IMethod> = Vec::new();
    let mut i: usize = 0;
    while i < d.methods.len()
        invariant
            0 <= i <= d.methods@.len(),
            ms@.len() == i,
            forall|j: int|
                0 <= j < i ==> imethod_view(#[trigger] ms@[j]) == (IMethodV {
                    name: d.methods@[j].name@,
                    ret: lower_spec(tv(d.methods@[j].ret), noms.map()),
                    params: param_tys(d.methods@[j].params@, noms.map()),
                }),
        decreases d.methods.len() - i,
    {
        let m = &d.methods[i];
        ms.push(IMethod { name: m.name.clone(), ret: lower_ty(&m.ret, noms), params: lower_params(&m.params, noms) });
        i = i + 1;
    }
    let r = IfaceDef { name: d.name.clone(), methods: ms };
    assert(iface_view(r).methods =~= iface_spec(*d, noms.map()).methods);
    r
}

impl Ctx {
    /// Builds the lowering context of a module: first every name's nominal
    /// kind, then, with all kinds known, the lowered struct fields, enum
    /// variants, interface slots, impls, and function and method signatures.
    pub fn new(module: &Module) -> (ctx: Self)
        ensures
            ({
                let items = module.items@;
                let n = items.len() as int;
                let noms = noms_spec(items, n);
                &&& ctx.noms.map() == noms
                &&& structs_view(ctx.structs@) == structs_spec(items, n, noms)
                &&& enums_view(ctx.enums@) == enums_spec(items, n, noms)
                &&& ifaces_view(ctx.ifaces@) == ifaces_spec(items, n, noms)
                &&& impls_view(ctx.impls@) == impls_spec(items, n)
                &&& sigs_match(ctx.fns.map(), fns_spec(items, n, noms))
                &&& sigs_match(ctx.methods.map(), methods_spec(items, n, noms))
                &&& asyncs_match(ctx.async_fns.map(), async_spec(items, n, noms))
            }),
    {
        let items = &module.items;
        let ghost its = items@;
        let mut noms: Table<Nom> = Table::new();
        let mut i: usize = 0;
        while i < items.len()
            invariant
                its == items@,
                0 <= i <= its.len(),
                noms.map() == noms_spec(its, i as int),
            decreases items.len() - i,
        {
            match &items[i] {
                Item::Struct(s) => noms.insert(s.name.clone(), Nom::Struct),
                Item::Enum(e) => noms.insert(e.name.clone(), Nom::Enum),
                Item::Interface(d) => noms.insert(d.name.clone(), Nom::Iface),
                _ => {},
            }
            i = i + 1;
        }
        let ghost nm = noms.map();
        let mut structs: Vec<(String, Vec<(String, CTy)>)> = Vec::new();
        let mut enums: Vec<EnumDef> = Vec::new();
        i = 0;
        assert(structs_view(structs@) =~= Seq::empty());
        assert(enums_view(enums@) =~= Seq::empty());
        while i < items.len()
            invariant
                its == items@,
                nm == noms.map(),
                0 <= i <= its.len(),
                structs_view(structs@) == structs_spec(its, i as int, nm),
                enums_view(enums@) == enums_spec(its, i as int, nm),
            decreases items.len() - i,
        {
            let ghost s0 = structs@;
            let ghost e0 = enums@;
            match &items[i] {
                Item::Struct(s) => {
                    structs.push((s.name.clone(), lower_fields(&s.fields, &noms)));
                    assert(structs_view(structs@) =~= structs_view(s0).push((s.name@, lowered_fields(s.fields@, nm))));
                },
                Item::Enum(e) => {
                    enums.push(lower_enum(e, &noms));
                    assert(enums_view(enums@) =~= enums_view(e0).push(enum_spec(*e, nm)));
                },
                _ => {},
            }
            i = i + 1;
        }
        let mut ifaces: Vec<IfaceDef> = Vec::new();
        let mut impls: Vec<ImplInfo> = Vec::new();
        i = 0;
        assert(ifaces_view(ifaces@) =~= Seq::empty());
        assert(impls_view(impls@) =~= Seq::empty());
        while i < items.len()
            invariant
                its == items@,
                nm == noms.map(),
                0 <= i <= its.len(),
                ifaces_view(ifaces@) == ifaces_spec(its, i as int, nm),
                impls_view(impls@) == impls_spec(its, i as int),
            decreases items.len() - i,
        {
            let ghost f0 = ifaces@;
            let ghost m0 = impls@;
            match &items[i] {
                Item::Interface(d) => {
                    ifaces.push(lower_iface(d, &noms));
                    assert(ifaces_view(ifaces@) =~= ifaces_view(f0).push(iface_spec(*d, nm)));
                },
                Item::Impl(im) => {
                    match &im.iface {
                        Some(x) => {
                            impls.push(ImplInfo { iface: x.clone(), ty: im.ty.clone() });
                            assert(impls_view(impls@) =~= impls_view(m0).push((x@, im.ty@)));
                        },
                        None => {},
                    }
                },
                _ => {},
            }
            i = i + 1;
        }
        let mut fns: Table<(CTy, Vec<CTy>)> = Table::new();
        let mut methods: Table<(CTy, Vec<CTy>)> = Table::new();
        i = 0;
        assert(fns.map().dom() =~= fns_spec(its, 0, nm).dom());
        assert(methods.map().dom() =~= methods_spec(its, 0, nm).dom());
        while i < items.len()
            invariant
                its == items@,
                nm == noms.map(),
                0 <= i <= its.len(),
                sigs_match(fns.map(), fns_spec(its, i as int, nm)),
                sigs_match(methods.map(), methods_spec(its, i as int, nm)),
            decreases items.len() - i,
        {
            match &items[i] {
                Item::Func(f) => {
                    let sig = (lower_ty(&f.ret, &noms), lower_params(&f.params, &noms));
                    proof {
                        lemma_sigs_insert(fns.map(), fns_spec(its, i as int, nm), f.name@, sig);
                    }
                    fns.insert(f.name.clone(), sig);
                },
                Item::Impl(im) => {
                    let ghost m0 = methods_spec(its, i as int, nm);
                    let mut j: usize = 0;
                    while j < im.methods.len()
                        invariant
                            nm == noms.map(),
                            0 <= j <= im.methods@.len(),
                            sigs_match(methods.map(), impl_sigs(m0, im.ty@, im.methods@, j as int, nm)),
                        decreases im.methods.len() - j,
                    {
                        let m = &im.methods[j];
                        let mut params: Vec<CTy> = Vec::new();
                        params.push(CTy::Struct(im.ty.clone()));
                        let mut rest = lower_params(&m.params, &noms);
                        let ghost p0 = params@;
                        let ghost r0 = rest@;
                        params.append(&mut rest);
                        assert(cvs(params@) =~= seq![CTyV::Struct(im.ty@)] + param_tys(m.params@, nm)) by {
                            assert(params@ == p0 + r0);
                            assert(cvs(r0) == param_tys(m.params@, nm));
                            assert(cvs(params@)[0] == cv(p0[0]));
                        }
                        let mut key = String::new();
                        push_str(&mut key, im.ty.as_str());
                        push_str(&mut key, ".");
                        push_str(&mut key, m.name.as_str());
                        let sig = (lower_ty(&m.ret, &noms), params);
                        proof {
                            assert(key@ =~= method_key(im.ty@, m.name@));
                            lemma_sigs_insert(methods.map(), impl_sigs(m0, im.ty@, im.methods@, j as int, nm), key@, sig);
                        }
                        methods.insert(key, sig);
                        j = j + 1;
                    }
                },
                Item::Foreign(fb) => {
                    let ghost f0 = fns_spec(its, i as int, nm);
                    let mut j: usize = 0;
                    while j < fb.funcs.len()
                        invariant
                            nm == noms.map(),
                            0 <= j <= fb.funcs@.len(),
                            sigs_match(fns.map(), foreign_sigs(f0, fb.funcs@, j as int, nm)),
                        decreases fb.funcs.len() - j,
                    {
                        let ff = &fb.funcs[j];
                        let sig = (lower_ty(&ff.ret, &noms), lower_params(&ff.params, &noms));
                        proof {
                            lemma_sigs_insert(fns.map(), foreign_sigs(f0, fb.funcs@, j as int, nm), ff.name@, sig);
                        }
                        fns.insert(ff.name.clone(), sig);
                        j = j + 1;
                    }
                },
                _ => {},
            }
            i = i + 1;
        }
        let mut async_fns: Table<AsyncInfo> = Table::new();
        i = 0;
        assert(async_fns.map().dom() =~= async_spec(its, 0, nm).dom());
        while i < items.len()
            invariant
                its == items@,
                nm == noms.map(),
                0 <= i <= its.len(),
                asyncs_match(async_fns.map(), async_spec(its, i as int, nm)),
            decreases items.len() - i,
        {
            match &items[i] {
                Item::Func(f) => {
                    if f.is_async {
                        let mut rets: Vec<Type> = Vec::new();
                        rets.push(clone_type(&f.ret));
                        proof {
                            assert(tvs(rets@) =~= seq![tv(f.ret)]);
                        }
                        let info = AsyncInfo {
                            params: lower_params(&f.params, &noms),
                            ret: lower_ty(&f.ret, &noms),
                            fut_struct: mangle("Future", &rets),
                        };
                        let ghost t0 = async_fns.map();
                        let ghost s0 = async_spec(its, i as int, nm);
                        async_fns.insert(f.name.clone(), info);
                        proof {
                            assert(async_fns.map().dom() =~= s0.insert(f.name@, async_view(info)).dom());
                        }
                    }
                },
                _ => {},
            }
            i = i + 1;
        }
        Ctx { structs, enums, ifaces, impls, fns, methods, noms, async_fns }
    }
}


/// The index of the first name equal to `n` at or after `i`.
pub open spec fn first_of(names: Seq<Seq<char>>, n: Seq<char>, i: int) -> Option<int>
    decreases names.len() - i,
{
    if i < 0 || i >= names.len() {
        None
    } else if names[i] == n {
        Some(i)
    } else {
        first_of(names, n, i + 1)
    }
}

pub proof fn lemma_first_of(names: Seq<Seq<char>>, n: Seq<char>, i: int)
    requires
        0 <= i,
    ensures
        first_of(names, n, i) matches Some(j) ==> i <= j < names.len() && names[j] == n && forall|k: int|
            i <= k < j ==> names[k] != n,
        first_of(names, n, i) is None ==> forall|k: int| i <= k < names.len() ==> names[k] != n,
    decreases names.len() - i,
{
    if i < names.len() && names[i] != n {
        lemma_first_of(names, n, i + 1);
    }
}

pub open spec fn struct_names(s: Seq<(String, Vec<(String, CTy)>)>) -> Seq<Seq<char>> {
    Seq::new(s.len(), |j: int| s[j].0@)
}

pub open spec fn enum_names(s: Seq<EnumDef>) -> Seq<Seq<char>> {
    Seq::new(s.len(), |j: int| s[j].name@)
}

pub open spec fn iface_names(s: Seq<IfaceDef>) -> Seq<Seq<char>> {
    Seq::new(s.len(), |j: int| s[j].name@)
}

pub open spec fn method_names(s: Seq<IMethod>) -> Seq<Seq<char>> {
    Seq::new(s.len(), |j: int| s[j].name@)
}

pub open spec fn field_names(s: Seq<(String, CTy)>) -> Seq<Seq<char>> {
    Seq::new(s.len(), |j: int| s[j].0@)
}

pub open spec fn variant_names(s: Seq<VariantDef>) -> Seq<Seq<char>> {
    Seq::new(s.len(), |j: int| s[j].name@)
}

impl Ctx {
    /// The nominal kind of a name.
    pub fn nom(&self, name: &String) -> (k: Nom)
        ensures
            k == nom_get(self.noms.map(), name@),
    {
        match self.noms.get(name) {
            Some(k) => *k,
            None => Nom::Absent,
        }
    }

    /// The first interface of the name.
    pub fn iface(&self, name: &String) -> (r: Option<&IfaceDef>)
        ensures
            match first_of(iface_names(self.ifaces@), name@, 0) {
                Some(j) => r == Some(&self.ifaces@[j]),
                None => r is None,
            },
    {
        let ghost names = iface_names(self.ifaces@);
        let mut i: usize = 0;
        while i < self.ifaces.len()
            invariant
                names == iface_names(self.ifaces@),
                0 <= i <= self.ifaces@.len(),
                first_of(names, name@, 0) == first_of(names, name@, i as int),
            decreases self.ifaces.len() - i,
        {
            if self.ifaces[i].name == *name {
                return Some(&self.ifaces[i]);
            }
            i = i + 1;
        }
        None
    }

    /// The slot index and slot of an interface method, for vtable lookup.
    pub fn iface_method(&self, iface: &String, method: &String) -> (r: Option<(usize, &IMethod)>)
        ensures
            match first_of(iface_names(self.ifaces@), iface@, 0) {
                Some(j) => match first_of(method_names(self.ifaces@[j].methods@), method@, 0) {
                    Some(k) => r == Some((k as usize, &self.ifaces@[j].methods@[k])),
                    None => r is None,
                },
                None => r is None,
            },
    {
        let d = match self.iface(iface) {
            Some(d) => d,
            None => return None,
        };
        let ghost j = first_of(iface_names(self.ifaces@), iface@, 0)->0;
        assert(*d == self.ifaces@[j]);
        let ghost names = method_names(d.methods@);
        let mut i: usize = 0;
        while i < d.methods.len()
            invariant
                names == method_names(d.methods@),
                first_of(iface_names(self.ifaces@), iface@, 0) == Some(j),
                *d == self.ifaces@[j],
                0 <= i <= d.methods@.len(),
                first_of(names, method@, 0) == first_of(names, method@, i as int),
            decreases d.methods.len() - i,
        {
            if d.methods[i].name == *method {
                return Some((i, &d.methods[i]));
            }
            i = i + 1;
        }
        None
    }

    /// The fields of the first struct of the name.
    pub fn fields(&self, name: &String) -> (r: Option<&Vec<(String, CTy)>>)
        ensures
            match first_of(struct_names(self.structs@), name@, 0) {
                Some(j) => r == Some(&self.structs@[j].1),
                None => r is None,
            },
    {
        let ghost names = struct_names(self.structs@);
        let mut i: usize = 0;
        while i < self.structs.len()
            invariant
                names == struct_names(self.structs@),
                0 <= i <= self.structs@.len(),
                first_of(names, name@, 0) == first_of(names, name@, i as int),
            decreases self.structs.len() - i,
        {
            if self.structs[i].0 == *name {
                return Some(&self.structs[i].1);
            }
            i = i + 1;
        }
        None
    }

    /// The position and lowered type of a struct's field.
    pub fn field(&self, name: &String, field: &String) -> (r: Option<(u32, CTy)>)
        ensures
            match first_of(struct_names(self.structs@), name@, 0) {
                Some(j) => match first_of(field_names(self.structs@[j].1@), field@, 0) {
                    Some(k) => r matches Some(p) && p.0 == k as u32 && cv(p.1) == cv(self.structs@[j].1@[k].1),
                    None => r is None,
                },
                None => r is None,
            },
    {
        let fs = match self.fields(name) {
            Some(fs) => fs,
            None => return None,
        };
        let ghost j = first_of(struct_names(self.structs@), name@, 0)->0;
        assert(*fs == self.structs@[j].1);
        let ghost names = field_names(fs@);
        let mut i: usize = 0;
        while i < fs.len()
            invariant
                names == field_names(fs@),
                first_of(struct_names(self.structs@), name@, 0) == Some(j),
                *fs == self.structs@[j].1,
                0 <= i <= fs@.len(),
                first_of(names, field@, 0) == first_of(names, field@, i as int),
            decreases fs.len() - i,
        {
            if fs[i].0 == *field {
                return Some((i as u32, clone_cty(&fs[i].1)));
            }
            i = i + 1;
        }
        None
    }

    /// The first enum of the name.
    pub fn enum_def(&self, name: &String) -> (r: Option<&EnumDef>)
        ensures
            match first_of(enum_names(self.enums@), name@, 0) {
                Some(j) => r == Some(&self.enums@[j]),
                None => r is None,
            },
    {
        let ghost names = enum_names(self.enums@);
        let mut i: usize = 0;
        while i < self.enums.len()
            invariant
                names == enum_names(self.enums@),
                0 <= i <= self.enums@.len(),
                first_of(names, name@, 0) == first_of(names, name@, i as int),
            decreases self.enums.len() - i,
        {
            if self.enums[i].name == *name {
                return Some(&self.enums[i]);
            }
            i = i + 1;
        }
        None
    }

    /// A variant of an enum, by name.
    pub fn variant(&self, ename: &String, vname: &String) -> (r: Option<&VariantDef>)
        ensures
            match first_of(enum_names(self.enums@), ename@, 0) {
                Some(j) => match first_of(variant_names(self.enums@[j].variants@), vname@, 0) {
                    Some(k) => r == Some(&self.enums@[j].variants@[k]),
                    None => r is None,
                },
                None => r is None,
            },
    {
        let d = match self.enum_def(ename) {
            Some(d) => d,
            None => return None,
        };
        let ghost j = first_of(enum_names(self.enums@), ename@, 0)->0;
        assert(*d == self.enums@[j]);
        let ghost names = variant_names(d.variants@);
        let mut i: usize = 0;
        while i < d.variants.len()
            invariant
                names == variant_names(d.variants@),
                first_of(enum_names(self.enums@), ename@, 0) == Some(j),
                *d == self.enums@[j],
                0 <= i <= d.variants@.len(),
                first_of(names, vname@, 0) == first_of(names, vname@, i as int),
            decreases d.variants.len() - i,
        {
            if d.variants[i].name == *vname {
                return Some(&d.variants[i]);
            }
            i = i + 1;
        }
        None
    }
}


/// `", T %aI"` for each of the first `i` parameters.
pub open spec fn arg_tail(ps: Seq<CTyV>, i: int) -> Seq<char>
    decreases i,
{
    if i <= 0 {
        Seq::empty()
    } else {
        arg_tail(ps, i - 1) + ", "@ + ll_spec(ps[i - 1]) + " %a"@ + dec((i - 1) as nat)
    }
}

/// `"T %aI"` for each of the first `i` parameters, joined by `", "`.
pub open spec fn arg_list(ps: Seq<CTyV>, i: int) -> Seq<char>
    decreases i,
{
    if i <= 0 {
        Seq::empty()
    } else if i == 1 {
        ll_spec(ps[0]) + " %a0"@
    } else {
        arg_list(ps, i - 1) + ", "@ + ll_spec(ps[i - 1]) + " %a"@ + dec((i - 1) as nat)
    }
}

/// The body of a forwarding function: call `callee` with `args` and return
/// what it returns.
pub open spec fn forward_body(ret: CTyV, callee: Seq<char>, args: Seq<char>) -> Seq<char> {
    if ret is Void {
        "entry:\n"@ + "  call void @"@ + callee + "("@ + args + ")\n"@ + "  ret void\n"@
    } else {
        "entry:\n"@ + "  %r = call "@ + ll_spec(ret) + " @"@ + callee + "("@ + args + ")\n"@ + "  ret "@
            + ll_spec(ret) + " %r\n"@
    }
}

/// A vtable slot's thunk: it takes the data pointer, then the method's
/// parameters, and forwards all of them to the method `ty.name`.
pub open spec fn thunk_spec(ty: Seq<char>, m: IMethodV, name: Seq<char>) -> Seq<char> {
    let args = "ptr %d"@ + arg_tail(m.params, m.params.len() as int);
    "define "@ + ll_spec(m.ret) + " "@ + name + "("@ + args + ") {\n"@ + forward_body(
        m.ret,
        method_key(ty, m.name),
        args,
    ) + "}"@
}

/// The thunk that lets a plain function be used as a closure value: it takes
/// an env pointer it ignores, then the function's parameters.
pub open spec fn funcval_thunk_spec(name: Seq<char>, ret: CTyV, params: Seq<CTyV>) -> Seq<char> {
    "define "@ + ll_spec(ret) + " @"@ + name + ".funcval("@ + "ptr %env"@ + arg_tail(params, params.len() as int)
        + ") {\n"@ + forward_body(ret, name, arg_list(params, params.len() as int)) + "}"@
}

fn push_arg_tail(out: &mut String, ps: &Vec<CTy>)
    ensures
        final(out)@ == old(out)@ + arg_tail(cvs(ps@), ps@.len() as int),
{
    let ghost before = out@;
    let ghost vs = cvs(ps@);
    let mut i: usize = 0;
    while i < ps.len()
        invariant
            0 <= i <= ps@.len(),
            vs == cvs(ps@),
            out@ == before + arg_tail(vs, i as int),
        decreases ps.len() - i,
    {
        push_str(out, ", ");
        ps[i].push_ll(out);
        push_str(out, " %a");
        push_dec(out, i as u64);
        assert(vs[i as int] == cv(ps@[i as int]));
        assert(out@ =~= before + arg_tail(vs, i + 1));
        i = i + 1;
    }
}

fn push_arg_list(out: &mut String, ps: &Vec<CTy>)
    ensures
        final(out)@ == old(out)@ + arg_list(cvs(ps@), ps@.len() as int),
{
    let ghost before = out@;
    let ghost vs = cvs(ps@);
    let mut i: usize = 0;
    while i < ps.len()
        invariant
            0 <= i <= ps@.len(),
            vs == cvs(ps@),
            out@ == before + arg_list(vs, i as int),
        decreases ps.len() - i,
    {
        if i > 0 {
            push_str(out, ", ");
        }
        ps[i].push_ll(out);
        push_str(out, " %a");
        push_dec(out, i as u64);
        proof {
            assert(vs[i as int] == cv(ps@[i as int]));
            if i == 0 {
                reveal_strlit(" %a0");
                reveal_strlit(" %a");
                assert(dec(0) == seq!['0']);
                assert(" %a"@ + dec(0) =~= " %a0"@);
            }
        }
        assert(out@ =~= before + arg_list(vs, i + 1));
        i = i + 1;
    }
}

fn push_forward_body(out: &mut String, ret: &CTy, callee: &str, args: &str)
    ensures
        final(out)@ == old(out)@ + forward_body(cv(*ret), callee@, args@),
{
    let ghost before = out@;
    push_str(out, "entry:\n");
    if matches!(ret, CTy::Void) {
        push_str(out, "  call void @");
        push_str(out, callee);
        push_str(out, "(");
        push_str(out, args);
        push_str(out, ")\n");
        push_str(out, "  ret void\n");
    } else {
        push_str(out, "  %r = call ");
        ret.push_ll(out);
        push_str(out, " @");
        push_str(out, callee);
        push_str(out, "(");
        push_str(out, args);
        push_str(out, ")\n");
        push_str(out, "  ret ");
        ret.push_ll(out);
        push_str(out, " %r\n");
    }
    assert(out@ =~= before + forward_body(cv(*ret), callee@, args@));
}

/// Emits a vtable slot's thunk, which forwards to the by value method
/// `ty.name`, the receiver passed straight through as the data pointer.
pub fn emit_thunk(m: &mut IrModule, ty: &String, meth: &IMethod, name: &String)
    ensures
        final(m)@ == (ModuleV { funcs: old(m)@.funcs.push(thunk_spec(ty@, imethod_view(*meth), name@)), ..old(m)@ }),
{
    let mut args = String::new();
    push_str(&mut args, "ptr %d");
    push_arg_tail(&mut args, &meth.params);
    let mut callee = String::new();
    push_str(&mut callee, ty.as_str());
    push_str(&mut callee, ".");
    push_str(&mut callee, meth.name.as_str());
    let mut text = String::new();
    push_str(&mut text, "define ");
    meth.ret.push_ll(&mut text);
    push_str(&mut text, " ");
    push_str(&mut text, name.as_str());
    push_str(&mut text, "(");
    push_str(&mut text, args.as_str());
    push_str(&mut text, ") {\n");
    push_forward_body(&mut text, &meth.ret, callee.as_str(), args.as_str());
    push_str(&mut text, "}");
    assert(text@ =~= thunk_spec(ty@, imethod_view(*meth), name@));
    m.push_function(text);
}

/// Emits a forwarding thunk that adapts a bare top-level function to the
/// closure calling convention, so a plain function name can be used as a
/// `{ env, fn }` value.
pub fn emit_funcval_thunk(m: &mut IrModule, name: &String, ret: &CTy, params: &Vec<CTy>)
    ensures
        final(m)@ == (ModuleV {
            funcs: old(m)@.funcs.push(funcval_thunk_spec(name@, cv(*ret), cvs(params@))),
            ..old(m)@
        }),
{
    let mut args = String::new();
    push_arg_list(&mut args, params);
    let mut text = String::new();
    push_str(&mut text, "define ");
    ret.push_ll(&mut text);
    push_str(&mut text, " @");
    push_str(&mut text, name.as_str());
    push_str(&mut text, ".funcval(");
    push_str(&mut text, "ptr %env");
    push_arg_tail(&mut text, params);
    push_str(&mut text, ") {\n");
    push_forward_body(&mut text, ret, name.as_str(), args.as_str());
    push_str(&mut text, "}");
    assert(text@ =~= funcval_thunk_spec(name@, cv(*ret), cvs(params@)));
    m.push_function(text);
}

/// The C ABI entry wrapper for an argc/argv main. It receives `(int, char**)`,
/// builds the `string[]` slice as `{ argv, argc }`, and calls the renamed user
/// main, handing back its result as the process exit code.
pub open spec fn main_wrapper_spec(rty: Seq<char>) -> Seq<char> {
    "define "@ + rty + " @main(i32 %argc, ptr %argv) {\n"@ + "entry:\n"@
        + "  %len = sext i32 %argc to i64\n"@ + "  %s0 = insertvalue { ptr, i64 } undef, ptr %argv, 0\n"@
        + "  %s1 = insertvalue { ptr, i64 } %s0, i64 %len, 1\n"@ + "  %r = call "@ + rty
        + " @dusk__main(i32 %argc, { ptr, i64 } %s1)\n"@ + "  ret "@ + rty + " %r\n"@ + "}"@
}

pub fn emit_main_wrapper(ctx: &Ctx, f: &Func) -> (s: String)
    ensures
        s@ == main_wrapper_spec(ll_spec(lower_spec(tv(f.ret), ctx.noms.map()))),
{
    let rty = lower_ty(&f.ret, &ctx.noms).ll();
    let r = rty.as_str();
    let mut s = String::new();
    push_str(&mut s, "define ");
    push_str(&mut s, r);
    push_str(&mut s, " @main(i32 %argc, ptr %argv) {\n");
    push_str(&mut s, "entry:\n");
    push_str(&mut s, "  %len = sext i32 %argc to i64\n");
    push_str(&mut s, "  %s0 = insertvalue { ptr, i64 } undef, ptr %argv, 0\n");
    push_str(&mut s, "  %s1 = insertvalue { ptr, i64 } %s0, i64 %len, 1\n");
    push_str(&mut s, "  %r = call ");
    push_str(&mut s, r);
    push_str(&mut s, " @dusk__main(i32 %argc, { ptr, i64 } %s1)\n");
    push_str(&mut s, "  ret ");
    push_str(&mut s, r);
    push_str(&mut s, " %r\n");
    push_str(&mut s, "}");
    assert(s@ =~= main_wrapper_spec(rty@));
    s
}

/// True for the `main(argc: int32, argv: string[])` form, the only main that
/// needs the C ABI entry wrapper. A no argument main is already a valid C entry.
pub fn main_is_argc_argv(ctx: &Ctx, f: &Func) -> (r: bool)
    ensures
        r == (f.params@.len() == 2 && lower_spec(tv(f.params@[0].ty), ctx.noms.map()) == CTyV::Int(32)
            && lower_spec(tv(f.params@[1].ty), ctx.noms.map()) is Slice),
{
    if f.params.len() != 2 {
        return false;
    }
    let a = lower_ty(&f.params[0].ty, &ctx.noms);
    let b = lower_ty(&f.params[1].ty, &ctx.noms);
    let first = match a {
        CTy::Int(n) => n == 32,
        _ => false,
    };
    let second = match b {
        CTy::Slice(_) => true,
        _ => false,
    };
    first && second
}

/// The thunk label of a vtable slot.
pub open spec fn thunk_label(iface: Seq<char>, ty: Seq<char>, meth: Seq<char>) -> Seq<char> {
    "@thunk."@ + iface + "."@ + ty + "."@ + meth
}

/// `"ptr LABEL"` for each of the first `i` slots, joined by `", "`.
pub open spec fn slot_list(iface: Seq<char>, ty: Seq<char>, ms: Seq<IMethodV>, i: int) -> Seq<char>
    decreases i,
{
    if i <= 0 {
        Seq::empty()
    } else if i == 1 {
        "ptr "@ + thunk_label(iface, ty, ms[0].name)
    } else {
        slot_list(iface, ty, ms, i - 1) + ", "@ + "ptr "@ + thunk_label(iface, ty, ms[i - 1].name)
    }
}

/// The thunks of the first `i` slots, in order.
pub open spec fn slot_thunks(iface: Seq<char>, ty: Seq<char>, ms: Seq<IMethodV>, i: int) -> Seq<Seq<char>>
    decreases i,
{
    if i <= 0 {
        Seq::empty()
    } else {
        slot_thunks(iface, ty, ms, i - 1).push(thunk_spec(ty, ms[i - 1], thunk_label(iface, ty, ms[i - 1].name)))
    }
}

/// The vtable constant of `impl iface for ty`.
pub open spec fn vtable_spec(iface: Seq<char>, ty: Seq<char>, ms: Seq<IMethodV>) -> Seq<char> {
    "@vtable."@ + iface + "."@ + ty + " = constant ["@ + dec(ms.len()) + " x ptr] ["@ + slot_list(
        iface,
        ty,
        ms,
        ms.len() as int,
    ) + "]"@
}

/// The interface an impl names, as its view, when the context declares it.
pub open spec fn impl_iface(ctx: Ctx, iface: Seq<char>) -> Option<IfaceV> {
    match first_of(iface_names(ctx.ifaces@), iface, 0) {
        Some(j) => Some(iface_view(ctx.ifaces@[j])),
        None => None,
    }
}

/// The thunks and vtables of the first `i` impls: the functions and the
/// globals emitted, in order. An impl of an undeclared interface emits nothing.
pub open spec fn vtables_spec(ctx: Ctx, i: int) -> (Seq<Seq<char>>, Seq<Seq<char>>)
    decreases i,
{
    if i <= 0 {
        (Seq::empty(), Seq::empty())
    } else {
        let prev = vtables_spec(ctx, i - 1);
        let im = ctx.impls@[i - 1];
        match impl_iface(ctx, im.iface@) {
            Some(d) => (
                prev.0 + slot_thunks(im.iface@, im.ty@, d.methods, d.methods.len() as int),
                prev.1.push(vtable_spec(im.iface@, im.ty@, d.methods)),
            ),
            None => prev,
        }
    }
}

/// Emits one vtable constant per `impl Iface for Type`, plus a thunk per slot
/// that forwards to the by value method, bridging dynamic dispatch to the
/// static method calling convention.
pub fn emit_vtables(m: &mut IrModule, ctx: &Ctx)
    ensures
        final(m)@ == (ModuleV {
            funcs: old(m)@.funcs + vtables_spec(*ctx, ctx.impls@.len() as int).0,
            globals: old(m)@.globals + vtables_spec(*ctx, ctx.impls@.len() as int).1,
            ..old(m)@
        }),
{
    let ghost m0 = m@;
    let mut i: usize = 0;
    assert(m0.funcs + vtables_spec(*ctx, 0).0 =~= m0.funcs);
    assert(m0.globals + vtables_spec(*ctx, 0).1 =~= m0.globals);
    while i < ctx.impls.len()
        invariant
            0 <= i <= ctx.impls@.len(),
            m@ == (ModuleV {
                funcs: m0.funcs + vtables_spec(*ctx, i as int).0,
                globals: m0.globals + vtables_spec(*ctx, i as int).1,
                ..m0
            }),
        decreases ctx.impls.len() - i,
    {
        let im = &ctx.impls[i];
        match ctx.iface(&im.iface) {
            Some(idef) => {
                let ghost f0 = m@.funcs;
                let ghost dv = iface_view(*idef);
                let mut slots = String::new();
                let mut k: usize = 0;
                assert(f0 + slot_thunks(im.iface@, im.ty@, dv.methods, 0) =~= f0);
                while k < idef.methods.len()
                    invariant
                        0 <= k <= idef.methods@.len(),
                        dv == iface_view(*idef),
                        slots@ == slot_list(im.iface@, im.ty@, dv.methods, k as int),
                        m@ == (ModuleV {
                            funcs: f0 + slot_thunks(im.iface@, im.ty@, dv.methods, k as int),
                            globals: m0.globals + vtables_spec(*ctx, i as int).1,
                            ..m0
                        }),
                    decreases idef.methods.len() - k,
                {
                    let meth = &idef.methods[k];
                    let mut thunk = String::new();
                    push_str(&mut thunk, "@thunk.");
                    push_str(&mut thunk, im.iface.as_str());
                    push_str(&mut thunk, ".");
                    push_str(&mut thunk, im.ty.as_str());
                    push_str(&mut thunk, ".");
                    push_str(&mut thunk, meth.name.as_str());
                    assert(thunk@ =~= thunk_label(im.iface@, im.ty@, meth.name@));
                    assert(dv.methods[k as int] == imethod_view(*meth));
                    emit_thunk(m, &im.ty, meth, &thunk);
                    if k > 0 {
                        push_str(&mut slots, ", ");
                    }
                    push_str(&mut slots, "ptr ");
                    push_str(&mut slots, thunk.as_str());
                    assert(slots@ =~= slot_list(im.iface@, im.ty@, dv.methods, k + 1));
                    assert(f0 + slot_thunks(im.iface@, im.ty@, dv.methods, k + 1) =~= (f0 + slot_thunks(im.iface@, im.ty@, dv.methods, k as int)).push(thunk_spec(im.ty@, imethod_view(*meth), thunk@)));
                    k = k + 1;
                }
                let mut g = String::new();
                push_str(&mut g, "@vtable.");
                push_str(&mut g, im.iface.as_str());
                push_str(&mut g, ".");
                push_str(&mut g, im.ty.as_str());
                push_str(&mut g, " = constant [");
                push_dec(&mut g, idef.methods.len() as u64);
                push_str(&mut g, " x ptr] [");
                push_str(&mut g, slots.as_str());
                push_str(&mut g, "]");
                assert(g@ =~= vtable_spec(im.iface@, im.ty@, dv.methods));
                m.global(g);
                assert(m@.funcs =~= m0.funcs + vtables_spec(*ctx, i + 1).0);
                assert(m@.globals =~= m0.globals + vtables_spec(*ctx, i + 1).1);
            },
            None => {},
        }
        i = i + 1;
    }
}


// Sizes and alignments. A struct's size is its fields' sequential layout and
// an enum's is its tag plus a payload blob of i64 lanes; a type that holds
// itself by value has no size. The layout below is stated with a fuel that
// each expansion of a struct or enum name spends: a type is sized when some
// fuel suffices and no size, offset or padding along the way exceeds u64, and
// then every sufficient fuel gives the same result.

pub open spec fn max_int(a: int, b: int) -> int {
    if a >= b {
        a
    } else {
        b
    }
}

/// The size and alignment of a lowered type, spending one unit of fuel per
/// expansion of a declared struct or enum; `None` when the fuel runs out or a
/// value exceeds u64.
pub open spec fn sa_spec(ctx: Ctx, t: CTy, fuel: nat) -> Option<(int, int)>
    decreases fuel, t, 0int,
{
    match t {
        CTy::Bool => Some((1, 1)),
        CTy::Char => Some((1, 1)),
        CTy::Int(n) => {
            let b = max_int(n as int / 8, 1);
            Some((b, b))
        },
        CTy::F32 => Some((4, 4)),
        CTy::F64 => Some((8, 8)),
        CTy::Ptr(_) => Some((16, 8)),
        CTy::RawPtr(_) => Some((8, 8)),
        CTy::Slice(_) => Some((16, 8)),
        CTy::Array(e, n) => match sa_spec(ctx, *e, fuel) {
            Some((es, ea)) => {
                let u = spec_align_up(es, ea);
                if u <= u64::MAX && u * n <= u64::MAX {
                    Some((u * n, ea))
                } else {
                    None
                }
            },
            None => None,
        },
        CTy::Struct(name) => match first_of(struct_names(ctx.structs@), name@, 0) {
            Some(j) => if fuel == 0 {
                None
            } else {
                layout_spec(ctx, ctx.structs@[j].1@, (fuel - 1) as nat)
            },
            None => Some((8, 8)),
        },
        CTy::Enum(name) => match first_of(enum_names(ctx.enums@), name@, 0) {
            Some(j) => if fuel == 0 {
                None
            } else {
                enum_sa_spec(ctx, ctx.enums@[j].tag_bits, variant_fields(ctx.enums@[j]), (fuel - 1) as nat)
            },
            None => Some((8, 8)),
        },
        CTy::Iface(_) => Some((16, 8)),
        CTy::Closure(_, _) => Some((16, 8)),
        CTy::Error => Some((8, 8)),
        CTy::Thread => Some((16, 8)),
        CTy::Tuple(ts) => match tuple_acc(ctx, ts@, ts@.len() as int, fuel) {
            Some((size, align)) => {
                let f = spec_align_up(size, align);
                if f <= u64::MAX {
                    Some((f, align))
                } else {
                    None
                }
            },
            None => None,
        },
        CTy::Void => Some((0, 1)),
        CTy::Unknown => Some((8, 8)),
    }
}

/// Size and alignment after laying out the first `i` tuple elements, before
/// the final rounding.
pub open spec fn tuple_acc(ctx: Ctx, ts: Seq<CTy>, i: int, fuel: nat) -> Option<(int, int)>
    decreases fuel, ts, i,
{
    if i <= 0 || i > ts.len() {
        Some((0, 1))
    } else {
        match (tuple_acc(ctx, ts, i - 1, fuel), sa_spec(ctx, ts[i - 1], fuel)) {
            (Some((size, align)), Some((s, a))) => {
                let u = spec_align_up(size, a);
                if u + s <= u64::MAX {
                    Some((u + s, max_int(align, a)))
                } else {
                    None
                }
            },
            _ => None,
        }
    }
}

/// End offset and alignment after laying out the first `i` fields in order.
pub open spec fn layout_acc(ctx: Ctx, fs: Seq<(String, CTy)>, i: int, fuel: nat) -> Option<(int, int)>
    decreases fuel, fs, i,
{
    if i <= 0 || i > fs.len() {
        Some((0, 1))
    } else {
        match (layout_acc(ctx, fs, i - 1, fuel), sa_spec(ctx, fs[i - 1].1, fuel)) {
            (Some((off, align)), Some((s, a))) => {
                let u = spec_align_up(off, a);
                if u + s <= u64::MAX {
                    Some((u + s, max_int(align, a)))
                } else {
                    None
                }
            },
            _ => None,
        }
    }
}

/// Sequential field layout: total size, rounded to the alignment, and the
/// alignment.
pub open spec fn layout_spec(ctx: Ctx, fs: Seq<(String, CTy)>, fuel: nat) -> Option<(int, int)>
    decreases fuel, fs, fs.len() + 1,
{
    match layout_acc(ctx, fs, fs.len() as int, fuel) {
        Some((off, align)) => {
            let al = max_int(align, 1);
            let f = spec_align_up(off, al);
            if f <= u64::MAX {
                Some((f, al))
            } else {
                None
            }
        },
        None => None,
    }
}

/// The field lists of an enum's variants, in order.
pub open spec fn variant_fields(d: EnumDef) -> Seq<Seq<(String, CTy)>> {
    Seq::new(d.variants@.len(), |k: int| d.variants@[k].fields@)
}

/// The largest payload size among the first `i` variants' field lists.
pub open spec fn max_layout(ctx: Ctx, fss: Seq<Seq<(String, CTy)>>, i: int, fuel: nat) -> Option<int>
    decreases fuel, fss, i,
{
    if i <= 0 || i > fss.len() {
        Some(0)
    } else {
        match (max_layout(ctx, fss, i - 1, fuel), layout_spec(ctx, fss[i - 1], fuel)) {
            (Some(m), Some((s, _))) => Some(max_int(m, s)),
            _ => None,
        }
    }
}

/// An enum's size and alignment: its tag rounded to 8, then a payload blob of
/// i64 lanes covering the largest variant.
pub open spec fn enum_sa_spec(ctx: Ctx, tag_bits: u32, fss: Seq<Seq<(String, CTy)>>, fuel: nat) -> Option<(int, int)>
    decreases fuel, fss, fss.len() + 1,
{
    match max_layout(ctx, fss, fss.len() as int, fuel) {
        Some(m) => {
            let lanes = (m + 7) / 8;
            let size = spec_align_up(tag_bits as int / 8, 8) + lanes * 8;
            if size <= u64::MAX {
                Some((max_int(size, 8), 8))
            } else {
                None
            }
        },
        None => None,
    }
}

/// Whether some fuel sizes the type.
pub open spec fn sized(ctx: Ctx, t: CTy) -> bool {
    exists|f: nat| #[trigger] sa_spec(ctx, t, f) is Some
}

pub proof fn lemma_sa_mono(ctx: Ctx, t: CTy, f: nat, g: nat)
    requires
        f <= g,
        sa_spec(ctx, t, f) is Some,
    ensures
        sa_spec(ctx, t, g) == sa_spec(ctx, t, f),
    decreases f, t, 0int,
{
    match t {
        CTy::Array(e, _) => {
            lemma_sa_mono(ctx, *e, f, g);
        },
        CTy::Struct(name) => {
            if let Some(j) = first_of(struct_names(ctx.structs@), name@, 0) {
                lemma_layout_mono(ctx, ctx.structs@[j].1@, (f - 1) as nat, (g - 1) as nat);
            }
        },
        CTy::Enum(name) => {
            if let Some(j) = first_of(enum_names(ctx.enums@), name@, 0) {
                lemma_enum_mono(ctx, ctx.enums@[j].tag_bits, variant_fields(ctx.enums@[j]), (f - 1) as nat, (g - 1) as nat);
            }
        },
        CTy::Tuple(ts) => {
            lemma_tuple_mono(ctx, ts@, ts@.len() as int, f, g);
        },
        _ => {},
    }
}

proof fn lemma_tuple_mono(ctx: Ctx, ts: Seq<CTy>, i: int, f: nat, g: nat)
    requires
        f <= g,
        tuple_acc(ctx, ts, i, f) is Some,
    ensures
        tuple_acc(ctx, ts, i, g) == tuple_acc(ctx, ts, i, f),
    decreases f, ts, i,
{
    if 0 < i <= ts.len() {
        lemma_tuple_mono(ctx, ts, i - 1, f, g);
        lemma_sa_mono(ctx, ts[i - 1], f, g);
    }
}

proof fn lemma_layout_acc_mono(ctx: Ctx, fs: Seq<(String, CTy)>, i: int, f: nat, g: nat)
    requires
        f <= g,
        layout_acc(ctx, fs, i, f) is Some,
    ensures
        layout_acc(ctx, fs, i, g) == layout_acc(ctx, fs, i, f),
    decreases f, fs, i,
{
    if 0 < i <= fs.len() {
        lemma_layout_acc_mono(ctx, fs, i - 1, f, g);
        lemma_sa_mono(ctx, fs[i - 1].1, f, g);
    }
}

proof fn lemma_layout_mono(ctx: Ctx, fs: Seq<(String, CTy)>, f: nat, g: nat)
    requires
        f <= g,
        layout_spec(ctx, fs, f) is Some,
    ensures
        layout_spec(ctx, fs, g) == layout_spec(ctx, fs, f),
    decreases f, fs, fs.len() + 1,
{
    lemma_layout_acc_mono(ctx, fs, fs.len() as int, f, g);
}

proof fn lemma_max_layout_mono(ctx: Ctx, fss: Seq<Seq<(String, CTy)>>, i: int, f: nat, g: nat)
    requires
        f <= g,
        max_layout(ctx, fss, i, f) is Some,
    ensures
        max_layout(ctx, fss, i, g) == max_layout(ctx, fss, i, f),
    decreases f, fss, i,
{
    if 0 < i <= fss.len() {
        lemma_max_layout_mono(ctx, fss, i - 1, f, g);
        lemma_layout_mono(ctx, fss[i - 1], f, g);
    }
}

proof fn lemma_enum_mono(ctx: Ctx, tag_bits: u32, fss: Seq<Seq<(String, CTy)>>, f: nat, g: nat)
    requires
        f <= g,
        enum_sa_spec(ctx, tag_bits, fss, f) is Some,
    ensures
        enum_sa_spec(ctx, tag_bits, fss, g) == enum_sa_spec(ctx, tag_bits, fss, f),
    decreases f, fss, fss.len() + 1,
{
    lemma_max_layout_mono(ctx, fss, fss.len() as int, f, g);
}

/// A size is the same under every fuel that gives one.
pub proof fn lemma_sa_unique(ctx: Ctx, t: CTy, f: nat, g: nat)
    requires
        sa_spec(ctx, t, f) is Some,
        sa_spec(ctx, t, g) is Some,
    ensures
        sa_spec(ctx, t, f) == sa_spec(ctx, t, g),
{
    if f <= g {
        lemma_sa_mono(ctx, t, f, g);
    } else {
        lemma_sa_mono(ctx, t, g, f);
    }
}


proof fn lemma_tuple_prefix(ctx: Ctx, ts: Seq<CTy>, i: int, j: int, fuel: nat)
    requires
        0 <= i <= j <= ts.len(),
        tuple_acc(ctx, ts, j, fuel) is Some,
    ensures
        tuple_acc(ctx, ts, i, fuel) is Some,
    decreases j - i,
{
    if i < j {
        lemma_tuple_prefix(ctx, ts, i, j - 1, fuel);
    }
}

proof fn lemma_layout_prefix(ctx: Ctx, fs: Seq<(String, CTy)>, i: int, j: int, fuel: nat)
    requires
        0 <= i <= j <= fs.len(),
        layout_acc(ctx, fs, j, fuel) is Some,
    ensures
        layout_acc(ctx, fs, i, fuel) is Some,
    decreases j - i,
{
    if i < j {
        lemma_layout_prefix(ctx, fs, i, j - 1, fuel);
    }
}

proof fn lemma_max_prefix(ctx: Ctx, fss: Seq<Seq<(String, CTy)>>, i: int, j: int, fuel: nat)
    requires
        0 <= i <= j <= fss.len(),
        max_layout(ctx, fss, j, fuel) is Some,
    ensures
        max_layout(ctx, fss, i, fuel) is Some,
        max_layout(ctx, fss, i, fuel)->0 <= max_layout(ctx, fss, j, fuel)->0,
    decreases j - i,
{
    if i < j {
        lemma_max_prefix(ctx, fss, i, j - 1, fuel);
    }
}

impl Ctx {
    fn sa(&self, ty: &CTy, Ghost(fuel): Ghost<nat>) -> (r: (u64, u64))
        requires
            sa_spec(*self, *ty, fuel) is Some,
        ensures
            sa_spec(*self, *ty, fuel) == Some((r.0 as int, r.1 as int)),
        decreases fuel, *ty, 0int,
    {
        match ty {
            CTy::Bool => (1, 1),
            CTy::Char => (1, 1),
            CTy::Int(n) => {
                let q = *n as u64 / 8;
                let b = if q >= 1 { q } else { 1 };
                (b, b)
            },
            CTy::F32 => (4, 4),
            CTy::F64 => (8, 8),
            CTy::Ptr(_) => (16, 8),
            CTy::RawPtr(_) => (8, 8),
            CTy::Slice(_) => (16, 8),
            CTy::Array(e, n) => {
                let (es, ea) = self.sa(e, Ghost(fuel));
                let u = align_up(es, ea);
                (u * *n, ea)
            },
            CTy::Struct(name) => match self.fields(name) {
                Some(fs) => self.layout_f(fs, Ghost((fuel - 1) as nat)),
                None => (8, 8),
            },
            CTy::Enum(name) => match self.enum_def(name) {
                Some(d) => self.enum_f(d, Ghost((fuel - 1) as nat)),
                None => (8, 8),
            },
            CTy::Iface(_) => (16, 8),
            CTy::Closure(..) => (16, 8),
            CTy::Error => (8, 8),
            CTy::Thread => (16, 8),
            CTy::Tuple(ts) => {
                let ghost s = ts@;
                let mut size: u64 = 0;
                let mut align: u64 = 1;
                let mut i: usize = 0;
                while i < ts.len()
                    invariant
                        s == ts@,
                        *ty == CTy::Tuple(*ts),
                        0 <= i <= s.len(),
                        tuple_acc(*self, s, s.len() as int, fuel) is Some,
                        tuple_acc(*self, s, i as int, fuel) == Some((size as int, align as int)),
                    decreases ts.len() - i,
                {
                    proof {
                        lemma_tuple_prefix(*self, s, i + 1, s.len() as int, fuel);
                        assert((*ty)->Tuple_0 == *ts);
                        assert(decreases_to!(*ty => (*ty)->Tuple_0));
                        assert(decreases_to!(*ts => ts@[i as int]));
                    }
                    let (sz, a) = self.sa(&ts[i], Ghost(fuel));
                    size = align_up(size, a) + sz;
                    align = if align >= a { align } else { a };
                    i = i + 1;
                }
                (align_up(size, align), align)
            },
            CTy::Void => (0, 1),
            CTy::Unknown => (8, 8),
        }
    }

    fn layout_f(&self, fields: &Vec<(String, CTy)>, Ghost(fuel): Ghost<nat>) -> (r: (u64, u64))
        requires
            layout_spec(*self, fields@, fuel) is Some,
        ensures
            layout_spec(*self, fields@, fuel) == Some((r.0 as int, r.1 as int)),
        decreases fuel, fields@, 1int,
    {
        let ghost fs = fields@;
        let mut off: u64 = 0;
        let mut align: u64 = 1;
        let mut i: usize = 0;
        while i < fields.len()
            invariant
                fs == fields@,
                0 <= i <= fs.len(),
                layout_acc(*self, fs, fs.len() as int, fuel) is Some,
                layout_acc(*self, fs, i as int, fuel) == Some((off as int, align as int)),
            decreases fields.len() - i,
        {
            proof {
                lemma_layout_prefix(*self, fs, i + 1, fs.len() as int, fuel);
                assert(decreases_to!(fs => fs[i as int]));
                assert(decreases_to!(fs[i as int] => fs[i as int].1));
            }
            let (s, a) = self.sa(&fields[i].1, Ghost(fuel));
            off = align_up(off, a) + s;
            align = if align >= a { align } else { a };
            i = i + 1;
        }
        let al = if align >= 1 { align } else { 1 };
        (align_up(off, al), al)
    }

    fn enum_f(&self, d: &EnumDef, Ghost(fuel): Ghost<nat>) -> (r: (u64, u64))
        requires
            enum_sa_spec(*self, d.tag_bits, variant_fields(*d), fuel) is Some,
        ensures
            enum_sa_spec(*self, d.tag_bits, variant_fields(*d), fuel) == Some((r.0 as int, r.1 as int)),
        decreases fuel, variant_fields(*d), 2int,
    {
        let ghost fss = variant_fields(*d);
        let mut m: u64 = 0;
        let mut k: usize = 0;
        while k < d.variants.len()
            invariant
                fss == variant_fields(*d),
                0 <= k <= fss.len(),
                max_layout(*self, fss, fss.len() as int, fuel) is Some,
                max_layout(*self, fss, k as int, fuel) == Some(m as int),
            decreases d.variants.len() - k,
        {
            proof {
                lemma_max_prefix(*self, fss, k + 1, fss.len() as int, fuel);
                assert(fss[k as int] == d.variants@[k as int].fields@);
                assert(decreases_to!(fss => fss[k as int]));
            }
            let (s, _) = self.layout_f(&d.variants[k].fields, Ghost(fuel));
            m = if m >= s { m } else { s };
            k = k + 1;
        }
        proof {
            let tb = d.tag_bits as int / 8;
            lemma_align_up(tb, 8);
            lemma_fundamental_div_mod(m + 7, 8);
        }
        let lanes = (m + 7) / 8;
        let size = align_up(d.tag_bits as u64 / 8, 8) + lanes * 8;
        (if size >= 8 { size } else { 8 }, 8)
    }

    /// Size and alignment in bytes of a lowered type.
    pub fn size_align(&self, ty: &CTy) -> (r: (u64, u64))
        requires
            sized(*self, *ty),
        ensures
            forall|f: nat| #[trigger] sa_spec(*self, *ty, f) is Some ==> sa_spec(*self, *ty, f) == Some((r.0 as int, r.1 as int)),
    {
        let ghost f = choose|f: nat| #[trigger] sa_spec(*self, *ty, f) is Some;
        let r = self.sa(ty, Ghost(f));
        proof {
            assert forall|g: nat| #[trigger] sa_spec(*self, *ty, g) is Some implies sa_spec(*self, *ty, g) == Some((r.0 as int, r.1 as int)) by {
                lemma_sa_unique(*self, *ty, f, g);
            }
        }
        r
    }

    /// Sequential field layout: total size and alignment.
    pub fn layout(&self, fields: &Vec<(String, CTy)>) -> (r: (u64, u64))
        requires
            exists|f: nat| #[trigger] layout_spec(*self, fields@, f) is Some,
        ensures
            forall|f: nat| #[trigger] layout_spec(*self, fields@, f) is Some ==> layout_spec(*self, fields@, f) == Some((r.0 as int, r.1 as int)),
    {
        let ghost f = choose|f: nat| #[trigger] layout_spec(*self, fields@, f) is Some;
        let r = self.layout_f(fields, Ghost(f));
        proof {
            assert forall|g: nat| #[trigger] layout_spec(*self, fields@, g) is Some implies layout_spec(*self, fields@, g) == Some((r.0 as int, r.1 as int)) by {
                if f <= g {
                    lemma_layout_mono(*self, fields@, f, g);
                } else {
                    lemma_layout_mono(*self, fields@, g, f);
                }
            }
        }
        r
    }

    /// Size and alignment of the enum of the name; an undeclared name is
    /// sized as a plain 8 byte word.
    pub fn enum_size_align(&self, name: &String) -> (r: (u64, u64))
        requires
            sized(*self, CTy::Enum(*name)),
        ensures
            forall|f: nat| #[trigger] sa_spec(*self, CTy::Enum(*name), f) is Some ==> sa_spec(*self, CTy::Enum(*name), f) == Some((r.0 as int, r.1 as int)),
    {
        let ghost f = choose|f: nat| #[trigger] sa_spec(*self, CTy::Enum(*name), f) is Some;
        let r = match self.enum_def(name) {
            Some(d) => self.enum_f(d, Ghost((f - 1) as nat)),
            None => (8, 8),
        };
        proof {
            assert forall|g: nat| #[trigger] sa_spec(*self, CTy::Enum(*name), g) is Some implies sa_spec(*self, CTy::Enum(*name), g) == Some((r.0 as int, r.1 as int)) by {
                lemma_sa_unique(*self, CTy::Enum(*name), f, g);
            }
        }
        r
    }
}


/// The end offset and the byte offset of each of the first `i` payload
/// fields, each aligned after the previous one's end.
pub open spec fn offsets_acc(ctx: Ctx, fs: Seq<(String, CTy)>, i: int, fuel: nat) -> Option<(int, Seq<int>)>
    decreases i,
{
    if i <= 0 || i > fs.len() {
        Some((0, Seq::empty()))
    } else {
        match (offsets_acc(ctx, fs, i - 1, fuel), sa_spec(ctx, fs[i - 1].1, fuel)) {
            (Some((end, offs)), Some((s, a))) => {
                let o = spec_align_up(end, a);
                if o + s <= u64::MAX {
                    Some((o + s, offs.push(o)))
                } else {
                    None
                }
            },
            _ => None,
        }
    }
}

proof fn lemma_offsets_mono(ctx: Ctx, fs: Seq<(String, CTy)>, i: int, f: nat, g: nat)
    requires
        f <= g,
        offsets_acc(ctx, fs, i, f) is Some,
    ensures
        offsets_acc(ctx, fs, i, g) == offsets_acc(ctx, fs, i, f),
    decreases i,
{
    if 0 < i <= fs.len() {
        lemma_offsets_mono(ctx, fs, i - 1, f, g);
        lemma_sa_mono(ctx, fs[i - 1].1, f, g);
    }
}

proof fn lemma_offsets_prefix(ctx: Ctx, fs: Seq<(String, CTy)>, i: int, j: int, fuel: nat)
    requires
        0 <= i <= j <= fs.len(),
        offsets_acc(ctx, fs, j, fuel) is Some,
    ensures
        offsets_acc(ctx, fs, i, fuel) is Some,
    decreases j - i,
{
    if i < j {
        lemma_offsets_prefix(ctx, fs, i, j - 1, fuel);
    }
}

/// Rounding `n` up to a multiple of `a` (at least 1) lands on the smallest
/// multiple at or above `n`.
pub proof fn lemma_align_up_any(n: int, a: int)
    requires
        a >= 1,
    ensures
        n <= spec_align_up(n, a) < n + a,
        spec_align_up(n, a) % a == 0,
{
    if a > 1 {
        let x = n + a - 1;
        lemma_fundamental_div_mod(x, a);
        vstd::arithmetic::div_mod::lemma_mod_bound(x, a);
        vstd::arithmetic::div_mod::lemma_mod_multiples_basic(x / a, a);
        assert((x / a) * a == a * (x / a)) by (nonlinear_arith);
    }
}

proof fn lemma_layout_agrees(ctx: Ctx, fs: Seq<(String, CTy)>, i: int, fuel: nat)
    requires
        0 <= i <= fs.len(),
        layout_acc(ctx, fs, i, fuel) is Some,
    ensures
        offsets_acc(ctx, fs, i, fuel) is Some,
        (offsets_acc(ctx, fs, i, fuel)->0).0 == (layout_acc(ctx, fs, i, fuel)->0).0,
        (offsets_acc(ctx, fs, i, fuel)->0).1.len() == i,
    decreases i,
{
    if i > 0 {
        lemma_layout_agrees(ctx, fs, i - 1, fuel);
    }
}

/// Fields are laid out in order: the `i`th field starts at a multiple of its
/// alignment, no earlier than the end of the fields before it, and ends its
/// size later; the alignment so far covers the field's; and the payload
/// offsets of the same field list name the same start and the same end.
pub proof fn law_field_layout(ctx: Ctx, fs: Seq<(String, CTy)>, i: int, fuel: nat)
    requires
        0 < i <= fs.len(),
        layout_acc(ctx, fs, i, fuel) is Some,
    ensures
        layout_acc(ctx, fs, i - 1, fuel) is Some,
        sa_spec(ctx, fs[i - 1].1, fuel) is Some,
        offsets_acc(ctx, fs, i, fuel) is Some,
        ({
            let (end, al) = layout_acc(ctx, fs, i, fuel)->0;
            let (prev_end, prev_al) = layout_acc(ctx, fs, i - 1, fuel)->0;
            let (s, a) = sa_spec(ctx, fs[i - 1].1, fuel)->0;
            let start = end - s;
            let offs = offsets_acc(ctx, fs, i, fuel)->0;
            &&& prev_end <= start
            &&& (a >= 1 ==> start % a == 0 && start < prev_end + a)
            &&& al >= a
            &&& al >= prev_al
            &&& offs.0 == end
            &&& offs.1.len() == i
            &&& offs.1[i - 1] == start
        }),
{
    lemma_layout_agrees(ctx, fs, i, fuel);
    lemma_layout_agrees(ctx, fs, i - 1, fuel);
    let (prev_end, prev_al) = layout_acc(ctx, fs, i - 1, fuel)->0;
    let (s, a) = sa_spec(ctx, fs[i - 1].1, fuel)->0;
    if a >= 1 {
        lemma_align_up_any(prev_end, a);
    }
}

/// Tuple elements are laid out in order the same way: the `i`th starts at a
/// multiple of its alignment, no earlier than the end of the elements before
/// it, and the alignment so far covers its own.
pub proof fn law_tuple_layout(ctx: Ctx, ts: Seq<CTy>, i: int, fuel: nat)
    requires
        0 < i <= ts.len(),
        tuple_acc(ctx, ts, i, fuel) is Some,
    ensures
        tuple_acc(ctx, ts, i - 1, fuel) is Some,
        sa_spec(ctx, ts[i - 1], fuel) is Some,
        ({
            let (end, al) = tuple_acc(ctx, ts, i, fuel)->0;
            let (prev_end, prev_al) = tuple_acc(ctx, ts, i - 1, fuel)->0;
            let (s, a) = sa_spec(ctx, ts[i - 1], fuel)->0;
            let start = end - s;
            &&& prev_end <= start
            &&& (a >= 1 ==> start % a == 0 && start < prev_end + a)
            &&& al >= a
            &&& al >= prev_al
        }),
{
    let (prev_end, prev_al) = tuple_acc(ctx, ts, i - 1, fuel)->0;
    let (s, a) = sa_spec(ctx, ts[i - 1], fuel)->0;
    if a >= 1 {
        lemma_align_up_any(prev_end, a);
    }
}

/// A struct's size covers all its fields and is a whole number of its
/// alignment, which is at least 1 and at least that of every field.
pub proof fn law_struct_size(ctx: Ctx, fs: Seq<(String, CTy)>, fuel: nat)
    requires
        layout_spec(ctx, fs, fuel) is Some,
    ensures
        layout_acc(ctx, fs, fs.len() as int, fuel) is Some,
        ({
            let (size, al) = layout_spec(ctx, fs, fuel)->0;
            let (end, _) = layout_acc(ctx, fs, fs.len() as int, fuel)->0;
            &&& al >= 1
            &&& end <= size < end + al
            &&& size % al == 0
            &&& forall|k: int| 0 <= k < fs.len() ==> (#[trigger] sa_spec(ctx, fs[k].1, fuel) matches Some(p) && al >= p.1)
        }),
{
    let n = fs.len() as int;
    let (end, align) = layout_acc(ctx, fs, n, fuel)->0;
    lemma_align_up_any(end, max_int(align, 1));
    assert forall|k: int| 0 <= k < fs.len() implies (#[trigger] sa_spec(ctx, fs[k].1, fuel) matches Some(p) && max_int(align, 1) >= p.1) by {
        lemma_layout_align_covers(ctx, fs, k, n, fuel);
    }
}

proof fn lemma_layout_align_covers(ctx: Ctx, fs: Seq<(String, CTy)>, k: int, i: int, fuel: nat)
    requires
        0 <= k < i <= fs.len(),
        layout_acc(ctx, fs, i, fuel) is Some,
    ensures
        sa_spec(ctx, fs[k].1, fuel) matches Some(p) && (layout_acc(ctx, fs, i, fuel)->0).1 >= p.1,
    decreases i,
{
    lemma_layout_prefix(ctx, fs, i - 1, i, fuel);
    if k < i - 1 {
        lemma_layout_align_covers(ctx, fs, k, i - 1, fuel);
    }
}

impl Ctx {
    /// Byte offset of each payload field within a variant.
    pub fn offsets(&self, v: &VariantDef) -> (r: Vec<u64>)
        requires
            exists|f: nat| #[trigger] offsets_acc(*self, v.fields@, v.fields@.len() as int, f) is Some,
        ensures
            forall|f: nat| #[trigger] offsets_acc(*self, v.fields@, v.fields@.len() as int, f) matches Some(p) ==> p.1
                == Seq::new(r@.len(), |k: int| r@[k] as int),
    {
        let ghost fs = v.fields@;
        let ghost f = choose|f: nat| #[trigger] offsets_acc(*self, fs, fs.len() as int, f) is Some;
        let mut off: u64 = 0;
        let mut out: Vec<u64> = Vec::new();
        let mut i: usize = 0;
        while i < v.fields.len()
            invariant
                fs == v.fields@,
                0 <= i <= fs.len(),
                offsets_acc(*self, fs, fs.len() as int, f) is Some,
                offsets_acc(*self, fs, i as int, f) matches Some(p) && p.0 == off as int && p.1 == Seq::new(
                    out@.len(),
                    |k: int| out@[k] as int,
                ),
            decreases v.fields.len() - i,
        {
            proof {
                lemma_offsets_prefix(*self, fs, i + 1, fs.len() as int, f);
            }
            let (s, a) = self.sa(&v.fields[i].1, Ghost(f));
            off = align_up(off, a);
            let ghost before = out@;
            out.push(off);
            assert(Seq::new(out@.len(), |k: int| out@[k] as int) =~= Seq::new(before.len(), |k: int| before[k] as int).push(off as int));
            off = off + s;
            i = i + 1;
        }
        proof {
            assert forall|g: nat| #[trigger] offsets_acc(*self, fs, fs.len() as int, g) is Some implies (offsets_acc(*self, fs, fs.len() as int, g)->0).1 == Seq::new(out@.len(), |k: int| out@[k] as int) by {
                if f <= g {
                    lemma_offsets_mono(*self, fs, fs.len() as int, f, g);
                } else {
                    lemma_offsets_mono(*self, fs, fs.len() as int, g, f);
                }
            }
        }
        out
    }

    /// Number of i64 lanes the payload blob needs to cover the largest variant.
    pub fn blob_lanes(&self, def: &EnumDef) -> (r: u64)
        requires
            exists|f: nat| #[trigger] max_layout(*self, variant_fields(*def), def.variants@.len() as int, f) is Some,
        ensures
            forall|f: nat| #[trigger] max_layout(*self, variant_fields(*def), def.variants@.len() as int, f) matches Some(m) ==> r
                == (m + 7) / 8,
    {
        let ghost fss = variant_fields(*def);
        let ghost f = choose|f: nat| #[trigger] max_layout(*self, fss, def.variants@.len() as int, f) is Some;
        let mut m: u64 = 0;
        let mut k: usize = 0;
        while k < def.variants.len()
            invariant
                fss == variant_fields(*def),
                0 <= k <= fss.len(),
                max_layout(*self, fss, fss.len() as int, f) is Some,
                max_layout(*self, fss, k as int, f) == Some(m as int),
            decreases def.variants.len() - k,
        {
            proof {
                lemma_max_prefix(*self, fss, k + 1, fss.len() as int, f);
                assert(fss[k as int] == def.variants@[k as int].fields@);
            }
            let (s, _) = self.layout_f(&def.variants[k].fields, Ghost(f));
            m = if m >= s { m } else { s };
            k = k + 1;
        }
        proof {
            lemma_fundamental_div_mod(m as int, 8);
            lemma_fundamental_div_mod(m + 7, 8);
            assert forall|g: nat| #[trigger] max_layout(*self, fss, fss.len() as int, g) is Some implies max_layout(*self, fss, fss.len() as int, g) == Some(m as int) by {
                if f <= g {
                    lemma_max_layout_mono(*self, fss, fss.len() as int, f, g);
                } else {
                    lemma_max_layout_mono(*self, fss, fss.len() as int, g, f);
                }
            }
        }
        m / 8 + if m % 8 == 0 { 0 } else { 1 }
    }
}

/// The LLVM instruction for an arithmetic operator on integers or on floats;
/// `add` for any other operator.
pub open spec fn arith_spec(op: BinOp, is_float: bool) -> Seq<char> {
    match op {
        BinOp::Add => if is_float { "fadd"@ } else { "add"@ },
        BinOp::Sub => if is_float { "fsub"@ } else { "sub"@ },
        BinOp::Mul => if is_float { "fmul"@ } else { "mul"@ },
        BinOp::Div => if is_float { "fdiv"@ } else { "sdiv"@ },
        BinOp::Mod => if is_float { "frem"@ } else { "srem"@ },
        _ => "add"@,
    }
}

/// The LLVM instruction for an arithmetic operator.
pub fn arith_opcode(op: BinOp, is_float: bool) -> (s: &'static str)
    ensures
        s@ == arith_spec(op, is_float),
{
    match op {
        BinOp::Add => if is_float { "fadd" } else { "add" },
        BinOp::Sub => if is_float { "fsub" } else { "sub" },
        BinOp::Mul => if is_float { "fmul" } else { "mul" },
        BinOp::Div => if is_float { "fdiv" } else { "sdiv" },
        BinOp::Mod => if is_float { "frem" } else { "srem" },
        _ => "add",
    }
}

/// The comparison instruction and its predicate for a comparison operator:
/// ordered `fcmp` predicates on floats, signed `icmp` ones on integers; the
/// equality predicate for any other operator.
pub open spec fn cmp_spec(op: BinOp, is_float: bool) -> (Seq<char>, Seq<char>) {
    if is_float {
        (
            "fcmp"@,
            match op {
                BinOp::Ne => "one"@,
                BinOp::Lt => "olt"@,
                BinOp::Le => "ole"@,
                BinOp::Gt => "ogt"@,
                BinOp::Ge => "oge"@,
                _ => "oeq"@,
            },
        )
    } else {
        (
            "icmp"@,
            match op {
                BinOp::Ne => "ne"@,
                BinOp::Lt => "slt"@,
                BinOp::Le => "sle"@,
                BinOp::Gt => "sgt"@,
                BinOp::Ge => "sge"@,
                _ => "eq"@,
            },
        )
    }
}

/// The comparison instruction and predicate for a comparison operator.
pub fn cmp_opcode(op: BinOp, is_float: bool) -> (r: (&'static str, &'static str))
    ensures
        r.0@ == cmp_spec(op, is_float).0,
        r.1@ == cmp_spec(op, is_float).1,
{
    if is_float {
        let c = match op {
            BinOp::Eq => "oeq",
            BinOp::Ne => "one",
            BinOp::Lt => "olt",
            BinOp::Le => "ole",
            BinOp::Gt => "ogt",
            BinOp::Ge => "oge",
            _ => "oeq",
        };
        ("fcmp", c)
    } else {
        let c = match op {
            BinOp::Eq => "eq",
            BinOp::Ne => "ne",
            BinOp::Lt => "slt",
            BinOp::Le => "sle",
            BinOp::Gt => "sgt",
            BinOp::Ge => "sge",
            _ => "eq",
        };
        ("icmp", c)
    }
}

/// The width of the integer an integer literal with this suffix lowers to:
/// 8, 16 or 32 bits for the sized suffixes, signed or not, else 64.
pub open spec fn int_ty_bits(suffix: Option<Seq<char>>) -> u32 {
    match suffix {
        Some(s) => if s == "i8"@ || s == "u8"@ {
            8
        } else if s == "i16"@ || s == "u16"@ {
            16
        } else if s == "i32"@ || s == "u32"@ {
            32
        } else {
            64
        },
        None => 64,
    }
}

/// An integer literal's suffix fixes its width: `iN` and `uN` lower to an
/// N-bit integer for each N of 8, 16, 32 and 64, and a literal without a
/// suffix is 64 bits wide.
pub proof fn law_int_ty_bits(bits: nat)
    requires
        bits == 8 || bits == 16 || bits == 32 || bits == 64,
    ensures
        int_ty_bits(Some("i"@ + dec(bits))) == bits,
        int_ty_bits(Some("u"@ + dec(bits))) == bits,
        int_ty_bits(None) == 64,
{
    reveal_strlit("i8");
    reveal_strlit("u8");
    reveal_strlit("i16");
    reveal_strlit("u16");
    reveal_strlit("i32");
    reveal_strlit("u32");
    reveal_strlit("i64");
    reveal_strlit("u64");
    reveal_strlit("i");
    reveal_strlit("u");
    if bits == 8 {
        assert(dec(8) =~= seq!['8']) by { reveal_with_fuel(dec, 3); }
        assert("i"@ + dec(8) =~= "i8"@);
        assert("i8"@ != "u8"@) by { assert("i8"@[0] != "u8"@[0]); }
        assert("i8"@ != "i16"@) by { assert("i8"@.len() != "i16"@.len()); }
        assert("i8"@ != "u16"@) by { assert("i8"@.len() != "u16"@.len()); }
        assert("i8"@ != "i32"@) by { assert("i8"@.len() != "i32"@.len()); }
        assert("i8"@ != "u32"@) by { assert("i8"@.len() != "u32"@.len()); }
        assert("u"@ + dec(8) =~= "u8"@);
        assert("u8"@ != "i8"@) by { assert("u8"@[0] != "i8"@[0]); }
        assert("u8"@ != "i16"@) by { assert("u8"@.len() != "i16"@.len()); }
        assert("u8"@ != "u16"@) by { assert("u8"@.len() != "u16"@.len()); }
        assert("u8"@ != "i32"@) by { assert("u8"@.len() != "i32"@.len()); }
        assert("u8"@ != "u32"@) by { assert("u8"@.len() != "u32"@.len()); }
    }
    if bits == 16 {
        assert(dec(16) =~= seq!['1', '6']) by { reveal_with_fuel(dec, 3); }
        assert("i"@ + dec(16) =~= "i16"@);
        assert("i16"@ != "i8"@) by { assert("i16"@.len() != "i8"@.len()); }
        assert("i16"@ != "u8"@) by { assert("i16"@.len() != "u8"@.len()); }
        assert("i16"@ != "u16"@) by { assert("i16"@[0] != "u16"@[0]); }
        assert("i16"@ != "i32"@) by { assert("i16"@[1] != "i32"@[1]); }
        assert("i16"@ != "u32"@) by { assert("i16"@[0] != "u32"@[0]); }
        assert("u"@ + dec(16) =~= "u16"@);
        assert("u16"@ != "i8"@) by { assert("u16"@.len() != "i8"@.len()); }
        assert("u16"@ != "u8"@) by { assert("u16"@.len() != "u8"@.len()); }
        assert("u16"@ != "i16"@) by { assert("u16"@[0] != "i16"@[0]); }
        assert("u16"@ != "i32"@) by { assert("u16"@[0] != "i32"@[0]); }
        assert("u16"@ != "u32"@) by { assert("u16"@[1] != "u32"@[1]); }
    }
    if bits == 32 {
        assert(dec(32) =~= seq!['3', '2']) by { reveal_with_fuel(dec, 3); }
        assert("i"@ + dec(32) =~= "i32"@);
        assert("i32"@ != "i8"@) by { assert("i32"@.len() != "i8"@.len()); }
        assert("i32"@ != "u8"@) by { assert("i32"@.len() != "u8"@.len()); }
        assert("i32"@ != "i16"@) by { assert("i32"@[1] != "i16"@[1]); }
        assert("i32"@ != "u16"@) by { assert("i32"@[0] != "u16"@[0]); }
        assert("i32"@ != "u32"@) by { assert("i32"@[0] != "u32"@[0]); }
        assert("u"@ + dec(32) =~= "u32"@);
        assert("u32"@ != "i8"@) by { assert("u32"@.len() != "i8"@.len()); }
        assert("u32"@ != "u8"@) by { assert("u32"@.len() != "u8"@.len()); }
        assert("u32"@ != "i16"@) by { assert("u32"@[0] != "i16"@[0]); }
        assert("u32"@ != "u16"@) by { assert("u32"@[1] != "u16"@[1]); }
        assert("u32"@ != "i32"@) by { assert("u32"@[0] != "i32"@[0]); }
    }
    if bits == 64 {
        assert(dec(64) =~= seq!['6', '4']) by { reveal_with_fuel(dec, 3); }
        assert("i"@ + dec(64) =~= "i64"@);
        assert("i64"@ != "i8"@) by { assert("i64"@.len() != "i8"@.len()); }
        assert("i64"@ != "u8"@) by { assert("i64"@.len() != "u8"@.len()); }
        assert("i64"@ != "i16"@) by { assert("i64"@[1] != "i16"@[1]); }
        assert("i64"@ != "u16"@) by { assert("i64"@[0] != "u16"@[0]); }
        assert("i64"@ != "i32"@) by { assert("i64"@[1] != "i32"@[1]); }
        assert("i64"@ != "u32"@) by { assert("i64"@[0] != "u32"@[0]); }
        assert("u"@ + dec(64) =~= "u64"@);
        assert("u64"@ != "i8"@) by { assert("u64"@.len() != "i8"@.len()); }
        assert("u64"@ != "u8"@) by { assert("u64"@.len() != "u8"@.len()); }
        assert("u64"@ != "i16"@) by { assert("u64"@[0] != "i16"@[0]); }
        assert("u64"@ != "u16"@) by { assert("u64"@[1] != "u16"@[1]); }
        assert("u64"@ != "i32"@) by { assert("u64"@[0] != "i32"@[0]); }
        assert("u64"@ != "u32"@) by { assert("u64"@[1] != "u32"@[1]); }
    }
}

/// The lowered type of an integer literal with this suffix.
pub fn int_ty(suffix: &Option<String>) -> (t: CTy)
    ensures
        cv(t) == CTyV::Int(int_ty_bits(match suffix {
            Some(s) => Some(s@),
            None => None,
        })),
{
    match suffix {
        Some(s) => {
            let cs = chars_of(s.as_str());
            let c = cs.as_slice();
            if is_lit(c, "i8") || is_lit(c, "u8") {
                CTy::Int(8)
            } else if is_lit(c, "i16") || is_lit(c, "u16") {
                CTy::Int(16)
            } else if is_lit(c, "i32") || is_lit(c, "u32") {
                CTy::Int(32)
            } else {
                CTy::Int(64)
            }
        },
        None => CTy::Int(64),
    }
}

/// Whether a shift amount needs no run-time guard: it is an integer literal
/// in `0..width`, the width of the shifted type (64 when it has none).
pub open spec fn shift_safe_spec(b: Expr, ty: CTyV) -> bool {
    match b.kind {
        ExprKind::Int(v, _) => {
            let w: int = match int_bits_spec(ty) {
                Some(n) => n as int,
                None => 64,
            };
            0 <= v && v < w
        },
        _ => false,
    }
}

/// Whether a shift by `b` on a value of type `ty` is known in range.
pub fn shift_amount_safe(b: &Expr, ty: &CTy) -> (r: bool)
    ensures
        r == shift_safe_spec(*b, cv(*ty)),
{
    match &b.kind {
        ExprKind::Int(v, _) => {
            let w: i64 = match ty.int_bits() {
                Some(n) => n as i64,
                None => 64,
            };
            *v >= 0 && *v < w
        },
        _ => false,
    }
}

} // verus!
