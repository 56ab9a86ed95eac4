//! The type side of monomorphization: lowering a type so every applied
//! generic struct or enum names its mangled instance, queueing each distinct
//! instance once, and building the concrete struct or enum an instance
//! stands for.

use vstd::prelude::*;
use crate::diag::{byte_off, lemma_byte_off_mono, width_of, Diagnostic, Span};
use crate::mono::checks::dviews;
use crate::mono::cross::{
    check_future_spell, cross, crossable, future_msg, last_genum, last_gstruct, lemma_last_genum,
    lemma_last_gstruct, spell_count,
};
use crate::mono::{bind, clone_type, contains_name, mangle, mangle_spec, name_set, subst_apply, subst_spec, Subst};
use crate::parser::ast::{tv, tvs, Enum, Field, Func, Item, Param, Struct, Type, TypeV, Variant};
use crate::text::{chars_of, is_lit, push_str};

verus! {

/// The longest mangled name, in UTF-8 bytes, that is still queued: a
/// polymorphic recursion that requests ever larger instances stops here.
pub const MANGLED_LIMIT: u64 = 1024;

/// The message for an interface used as a generic type argument.
pub open spec fn iface_arg_msg() -> Seq<char> {
    "an interface cannot be a generic type argument; generics are monomorphized over concrete types"@
}

/// An interface named `n`.
pub open spec fn iface_item(it: Item, n: Seq<char>) -> bool {
    it matches Item::Interface(x) && x.name@ == n
}

/// Whether some item is an interface named `n`.
pub open spec fn is_iface(items: Seq<Item>, n: Seq<char>) -> bool {
    exists|k: int| 0 <= k < items.len() && iface_item(#[trigger] items[k], n)
}

/// Whether `n` names a generic struct or enum.
pub open spec fn is_generic_name(items: Seq<Item>, n: Seq<char>) -> bool {
    last_gstruct(items, n, items.len() as int) is Some || last_genum(items, n, items.len() as int) is Some
}

/// One diagnostic for each argument among the first `i` of `args` that names
/// an interface.
pub open spec fn iface_diags(items: Seq<Item>, args: Seq<TypeV>, span: Span, i: int) -> Seq<(Seq<char>, Span)>
    decreases i,
{
    if i <= 0 {
        Seq::empty()
    } else {
        let prev = iface_diags(items, args, span, i - 1);
        match args[i - 1] {
            TypeV::Named(n, _) => if is_iface(items, n) {
                prev.push((iface_arg_msg(), span))
            } else {
                prev
            },
            _ => prev,
        }
    }
}

/// The mathematical form of the expansion state.
pub struct ExpandV {
    pub requested: Set<Seq<char>>,
    pub worklist: Seq<(Seq<char>, Seq<TypeV>, Span)>,
    pub diags: Seq<(Seq<char>, Span)>,
    pub futures: Map<Seq<char>, TypeV>,
}

/// The state after asking for the instance of `name` over `args` from
/// `span`: an overlong mangled name is dropped; a future instance records
/// its element; a name not requested before is marked, queued, and each
/// interface among its arguments reported.
pub open spec fn enqueue_spec(items: Seq<Item>, st: ExpandV, name: Seq<char>, args: Seq<TypeV>, span: Span) -> ExpandV {
    let m = mangle_spec(name, args);
    if byte_off(m, m.len() as int) > MANGLED_LIMIT {
        st
    } else {
        let st1 = if name == "Future"@ && args.len() == 1 {
            ExpandV { futures: st.futures.insert(m, args[0]), ..st }
        } else {
            st
        };
        if st1.requested.contains(m) {
            st1
        } else {
            ExpandV {
                requested: st1.requested.insert(m),
                worklist: st1.worklist.push((name, args, span)),
                diags: st1.diags + iface_diags(items, args, span, args.len() as int),
                futures: st1.futures,
            }
        }
    }
}

/// Lowers `t` from `st`: an applied generic struct or enum becomes its
/// mangled instance name, requested along the way, arguments first; other
/// applied names keep their lowered arguments; everything else is lowered
/// part by part.
pub open spec fn emit_spec(items: Seq<Item>, st: ExpandV, t: TypeV, span: Span) -> (ExpandV, TypeV)
    decreases t, 0int,
{
    match t {
        TypeV::Named(n, args) => if args.len() > 0 {
            let (st1, cargs) = emit_list(items, st, args, span, args.len() as int);
            if is_generic_name(items, n) {
                (enqueue_spec(items, st1, n, cargs, span), TypeV::Named(mangle_spec(n, cargs), seq![]))
            } else {
                (st1, TypeV::Named(n, cargs))
            }
        } else {
            (st, TypeV::Named(n, seq![]))
        },
        TypeV::Ptr(b) => {
            let (s, x) = emit_spec(items, st, *b, span);
            (s, TypeV::Ptr(Box::new(x)))
        },
        TypeV::RawPtr(b) => {
            let (s, x) = emit_spec(items, st, *b, span);
            (s, TypeV::RawPtr(Box::new(x)))
        },
        TypeV::Slice(b) => {
            let (s, x) = emit_spec(items, st, *b, span);
            (s, TypeV::Slice(Box::new(x)))
        },
        TypeV::Array(b, n) => {
            let (s, x) = emit_spec(items, st, *b, span);
            (s, TypeV::Array(Box::new(x), n))
        },
        TypeV::Tuple(xs) => {
            let (s, ys) = emit_list(items, st, xs, span, xs.len() as int);
            (s, TypeV::Tuple(ys))
        },
        TypeV::Func(ps, r) => {
            let (s1, qs) = emit_list(items, st, ps, span, ps.len() as int);
            let (s2, x) = emit_spec(items, s1, *r, span);
            (s2, TypeV::Func(qs, Box::new(x)))
        },
        TypeV::Unit => (st, TypeV::Unit),
    }
}

/// Lowers the first `i` types of `ts` in order, threading the state.
pub open spec fn emit_list(items: Seq<Item>, st: ExpandV, ts: Seq<TypeV>, span: Span, i: int) -> (ExpandV, Seq<TypeV>)
    decreases ts, i,
{
    if i <= 0 || i > ts.len() {
        (st, Seq::empty())
    } else {
        let (s1, done) = emit_list(items, st, ts, span, i - 1);
        let (s2, x) = emit_spec(items, s1, ts[i - 1], span);
        (s2, done.push(x))
    }
}

/// `k` copies of the future element diagnostic at `span`.
pub open spec fn spell_diags(k: nat, span: Span) -> Seq<(Seq<char>, Span)> {
    Seq::new(k, |i: int| (future_msg(), span))
}

/// Lowers a field type of an instance: the substitution is applied, a
/// frame-viewing future element it spells is reported, and the result is
/// lowered.
pub open spec fn field_emit_spec(
    items: Seq<Item>,
    st: ExpandV,
    t: TypeV,
    m: Map<Seq<char>, TypeV>,
    span: Span,
) -> (ExpandV, TypeV) {
    let a = subst_spec(t, m);
    let st1 = ExpandV { diags: st.diags + spell_diags(spell_count(items, a), span), ..st };
    emit_spec(items, st1, a, span)
}

/// The first `i` fields of an instance, each with its lowered type.
pub open spec fn emit_fields(
    items: Seq<Item>,
    st: ExpandV,
    fs: Seq<Field>,
    m: Map<Seq<char>, TypeV>,
    span: Span,
    i: int,
) -> (ExpandV, Seq<(Seq<char>, TypeV)>)
    decreases i,
{
    if i <= 0 || i > fs.len() {
        (st, Seq::empty())
    } else {
        let (s1, done) = emit_fields(items, st, fs, m, span, i - 1);
        let (s2, t) = field_emit_spec(items, s1, tv(fs[i - 1].ty), m, span);
        (s2, done.push((fs[i - 1].name@, t)))
    }
}

/// The first `i` variants of an instance, each with its lowered fields.
pub open spec fn emit_variants(
    items: Seq<Item>,
    st: ExpandV,
    vs: Seq<Variant>,
    m: Map<Seq<char>, TypeV>,
    span: Span,
    i: int,
) -> (ExpandV, Seq<(Seq<char>, Seq<(Seq<char>, TypeV)>)>)
    decreases i,
{
    if i <= 0 || i > vs.len() {
        (st, Seq::empty())
    } else {
        let (s1, done) = emit_variants(items, st, vs, m, span, i - 1);
        let (s2, fs) = emit_fields(items, s1, vs[i - 1].fields@, m, span, vs[i - 1].fields@.len() as int);
        (s2, done.push((vs[i - 1].name@, fs)))
    }
}

/// The view of a field list: names and types.
pub open spec fn fields_view(fs: Seq<Field>) -> Seq<(Seq<char>, TypeV)> {
    fs.map_values(|f: Field| (f.name@, tv(f.ty)))
}

/// The view of a variant list.
pub open spec fn variants_view(vs: Seq<Variant>) -> Seq<(Seq<char>, Seq<(Seq<char>, TypeV)>)> {
    vs.map_values(|v: Variant| (v.name@, fields_view(v.fields@)))
}

/// A generic function named `n`.
pub open spec fn is_gfunc(it: Item, n: Seq<char>) -> bool {
    it matches Item::Func(f) && f.name@ == n && f.generics@.len() > 0
}

/// Whether some generic function is named `n`.
pub open spec fn has_gfunc(items: Seq<Item>, n: Seq<char>) -> bool {
    exists|k: int| 0 <= k < items.len() && is_gfunc(#[trigger] items[k], n)
}

/// The lowered instance arguments and the state after lowering them, then
/// the request of the instance itself.
pub open spec fn instantiate_spec(items: Seq<Item>, st: ExpandV, name: Seq<char>, args: Seq<TypeV>, span: Span) -> (ExpandV, Seq<char>) {
    let (s1, cargs) = emit_list(items, st, args, span, args.len() as int);
    (enqueue_spec(items, s1, name, cargs, span), mangle_spec(name, cargs))
}

/// Asking twice for the same instance queues it once: the second request,
/// from any site, changes nothing.
pub proof fn law_enqueue_once(
    items: Seq<Item>,
    st: ExpandV,
    name: Seq<char>,
    args: Seq<TypeV>,
    span1: Span,
    span2: Span,
)
    ensures
        enqueue_spec(items, enqueue_spec(items, st, name, args, span1), name, args, span2) == enqueue_spec(
            items,
            st,
            name,
            args,
            span1,
        ),
{
    let m = mangle_spec(name, args);
    let once = enqueue_spec(items, st, name, args, span1);
    if byte_off(m, m.len() as int) <= MANGLED_LIMIT {
        assert(once.requested.contains(m));
        if name == "Future"@ && args.len() == 1 {
            assert(once.futures.contains_key(m) && once.futures[m] == args[0]);
            assert(once.futures.insert(m, args[0]) =~= once.futures);
        }
    }
}

/// A lowered type: no generic struct or enum is applied anywhere in it.
pub open spec fn ground(items: Seq<Item>, t: TypeV) -> bool
    decreases t,
{
    match t {
        TypeV::Named(n, args) => (args.len() > 0 ==> !is_generic_name(items, n)) && (forall|i: int|
            0 <= i < args.len() ==> ground(items, #[trigger] args[i])),
        TypeV::Ptr(b) => ground(items, *b),
        TypeV::RawPtr(b) => ground(items, *b),
        TypeV::Slice(b) => ground(items, *b),
        TypeV::Array(b, _) => ground(items, *b),
        TypeV::Tuple(xs) => forall|i: int| 0 <= i < xs.len() ==> ground(items, #[trigger] xs[i]),
        TypeV::Func(ps, r) => (forall|i: int| 0 <= i < ps.len() ==> ground(items, #[trigger] ps[i])) && ground(
            items,
            *r,
        ),
        TypeV::Unit => true,
    }
}

/// Lowering leaves no generic struct or enum applied: each becomes the
/// plain name of its instance.
pub proof fn law_emit_ground(items: Seq<Item>, st: ExpandV, t: TypeV, span: Span)
    ensures
        ground(items, emit_spec(items, st, t, span).1),
    decreases t, 0int,
{
    match t {
        TypeV::Named(n, args) => {
            if args.len() > 0 {
                lemma_emit_list_ground(items, st, args, span, args.len() as int);
            }
        },
        TypeV::Ptr(b) => law_emit_ground(items, st, *b, span),
        TypeV::RawPtr(b) => law_emit_ground(items, st, *b, span),
        TypeV::Slice(b) => law_emit_ground(items, st, *b, span),
        TypeV::Array(b, _) => law_emit_ground(items, st, *b, span),
        TypeV::Tuple(xs) => lemma_emit_list_ground(items, st, xs, span, xs.len() as int),
        TypeV::Func(ps, r) => {
            lemma_emit_list_ground(items, st, ps, span, ps.len() as int);
            let s1 = emit_list(items, st, ps, span, ps.len() as int).0;
            law_emit_ground(items, s1, *r, span);
        },
        TypeV::Unit => {},
    }
}

proof fn lemma_emit_list_ground(items: Seq<Item>, st: ExpandV, ts: Seq<TypeV>, span: Span, i: int)
    requires
        0 <= i <= ts.len(),
    ensures
        emit_list(items, st, ts, span, i).1.len() == i,
        forall|j: int| 0 <= j < i ==> ground(items, #[trigger] emit_list(items, st, ts, span, i).1[j]),
    decreases ts, i,
{
    if i > 0 {
        lemma_emit_list_ground(items, st, ts, span, i - 1);
        let s1 = emit_list(items, st, ts, span, i - 1).0;
        law_emit_ground(items, s1, ts[i - 1], span);
    }
}

/// The message when a program with async funcs has no `Future` struct.
pub open spec fn no_future_msg() -> Seq<char> {
    "calling an async func needs Future from std.async.future; add @import std.async.future"@
}

/// The message for an async func parameter `p` that would view the caller's
/// frame.
pub open spec fn async_param_msg(p: Seq<char>) -> Seq<char> {
    "an async func cannot take '"@ + p
        + "': it holds a slice, closure, interface value, or future that would view the caller's frame, which the task outlives"@
}

/// The message for an async func return that would outlive its task frame.
pub open spec fn async_ret_msg() -> Seq<char> {
    "an async func cannot return a slice, closure, interface value, or future that would outlive the task frame it views"@
}

/// An async function.
pub open spec fn is_async_fn(it: Item) -> bool {
    it matches Item::Func(f) && f.is_async
}

/// The index of the first async function from `i` on.
pub open spec fn first_async(items: Seq<Item>, i: int) -> Option<int>
    decreases items.len() - i,
{
    if i < 0 || i >= items.len() {
        None
    } else if is_async_fn(items[i]) {
        Some(i)
    } else {
        first_async(items, i + 1)
    }
}

proof fn lemma_first_async(items: Seq<Item>, i: int)
    requires
        0 <= i,
    ensures
        first_async(items, i) matches Some(k) ==> i <= k < items.len() && is_async_fn(items[k]),
    decreases items.len() - i,
{
    if i < items.len() && !is_async_fn(items[i]) {
        lemma_first_async(items, i + 1);
    }
}

/// One diagnostic for each of the first `i` parameters whose type may not
/// cross into a task.
pub open spec fn param_diags(items: Seq<Item>, ps: Seq<Param>, span: Span, i: int) -> Seq<(Seq<char>, Span)>
    decreases i,
{
    if i <= 0 {
        Seq::empty()
    } else {
        let prev = param_diags(items, ps, span, i - 1);
        if cross(items, tv(ps[i - 1].ty), true, Set::empty()) {
            prev
        } else {
            prev.push((async_param_msg(ps[i - 1].name@), span))
        }
    }
}

/// The state after checking one async function and requesting the future
/// instance its calls mint.
pub open spec fn one_async(items: Seq<Item>, st: ExpandV, f: Func) -> ExpandV {
    let span = f.span;
    let pd = param_diags(items, f.params@, span, f.params@.len() as int);
    let rd: Seq<(Seq<char>, Span)> = if cross(items, tv(f.ret), true, Set::empty()) {
        Seq::empty()
    } else {
        seq![(async_ret_msg(), span)]
    };
    let st1 = ExpandV { diags: st.diags + pd + rd, ..st };
    let (st2, r) = emit_spec(items, st1, tv(f.ret), span);
    enqueue_spec(items, st2, "Future"@, seq![r], span)
}

/// `one_async` over the async functions among the first `i` items, in order.
pub open spec fn force_from(items: Seq<Item>, st: ExpandV, i: int) -> ExpandV
    decreases i,
{
    if i <= 0 || i > items.len() {
        st
    } else {
        let s1 = force_from(items, st, i - 1);
        match items[i - 1] {
            Item::Func(f) => if f.is_async { one_async(items, s1, f) } else { s1 },
            _ => s1,
        }
    }
}

/// Forcing one future instance per async function: nothing without async
/// functions; one diagnostic, at the first, without a generic `Future`
/// struct; else each async function in turn.
pub open spec fn force_spec(items: Seq<Item>, st: ExpandV) -> ExpandV {
    match first_async(items, 0) {
        None => st,
        Some(k) => if last_gstruct(items, "Future"@, items.len() as int) is None {
            ExpandV { diags: st.diags.push((no_future_msg(), items[k]->Func_0.span)), ..st }
        } else {
            force_from(items, st, items.len() as int)
        },
    }
}

/// The index of the first async function.
fn first_async_index(items: &Vec<Item>) -> (r: Option<usize>)
    ensures
        match r {
            Some(k) => first_async(items@, 0) == Some(k as int) && k < items@.len(),
            None => first_async(items@, 0) is None,
        },
{
    let mut k: usize = 0;
    while k < items.len()
        invariant
            0 <= k <= items@.len(),
            first_async(items@, 0) == first_async(items@, k as int),
        decreases items.len() - k,
    {
        if let Item::Func(f) = &items[k] {
            if f.is_async {
                return Some(k);
            }
        }
        k = k + 1;
    }
    None
}

/// The expansion state: the instances requested so far, the instances
/// still to expand, the diagnostics, and the element of every future
/// instance.
pub struct Expander {
    requested: Vec<String>,
    worklist: Vec<(String, Vec<Type>, Span)>,
    diags: Vec<Diagnostic>,
    futures: Subst,
}

pub open spec fn work_view(w: Seq<(String, Vec<Type>, Span)>) -> Seq<(Seq<char>, Seq<TypeV>, Span)> {
    w.map_values(|e: (String, Vec<Type>, Span)| (e.0@, tvs(e.1@), e.2))
}

impl View for Expander {
    type V = ExpandV;

    closed spec fn view(&self) -> ExpandV {
        ExpandV {
            requested: name_set(self.requested@),
            worklist: work_view(self.worklist@),
            diags: dviews(self.diags@),
            futures: self.futures@,
        }
    }
}

/// Whether the UTF-8 length of `s` passes `limit` bytes.
fn bytes_exceed(s: &str, limit: u64) -> (r: bool)
    ensures
        r == (byte_off(s@, s@.len() as int) > limit),
{
    let cs = chars_of(s);
    let mut acc: u64 = 0;
    let mut i: usize = 0;
    while i < cs.len()
        invariant
            0 <= i <= cs@.len(),
            cs@ == s@,
            acc == byte_off(s@, i as int),
            acc <= limit,
        decreases cs.len() - i,
    {
        let w = width_of(cs[i]);
        if w > limit - acc {
            proof {
                lemma_byte_off_mono(s@, i + 1, s@.len() as int);
            }
            return true;
        }
        acc = acc + w;
        i = i + 1;
    }
    false
}

/// Whether some item is an interface named `n`.
fn iface_named(items: &Vec<Item>, n: &String) -> (r: bool)
    ensures
        r == is_iface(items@, n@),
{
    let mut k: usize = 0;
    while k < items.len()
        invariant
            0 <= k <= items@.len(),
            forall|j: int| 0 <= j < k ==> !iface_item(#[trigger] items@[j], n@),
        decreases items.len() - k,
    {
        if let Item::Interface(x) = &items[k] {
            if x.name == *n {
                return true;
            }
        }
        k = k + 1;
    }
    false
}

/// Whether `n` names a generic struct or enum.
pub fn is_generic(items: &Vec<Item>, n: &String) -> (r: bool)
    ensures
        r == is_generic_name(items@, n@),
{
    let mut i = items.len();
    while i > 0
        invariant
            i <= items@.len(),
            last_gstruct(items@, n@, items@.len() as int) == last_gstruct(items@, n@, i as int),
            last_genum(items@, n@, items@.len() as int) == last_genum(items@, n@, i as int),
        decreases i,
    {
        match &items[i - 1] {
            Item::Struct(s) => {
                if s.name == *n && s.generics.len() > 0 {
                    return true;
                }
            },
            Item::Enum(e) => {
                if e.name == *n && e.generics.len() > 0 {
                    return true;
                }
            },
            _ => {},
        }
        i = i - 1;
    }
    false
}

impl Expander {
    /// An empty state.
    pub fn new() -> (e: Self)
        ensures
            e@ == (ExpandV {
                requested: Set::empty(),
                worklist: Seq::empty(),
                diags: Seq::empty(),
                futures: Map::empty(),
            }),
            e.wf(),
    {
        let e = Expander { requested: Vec::new(), worklist: Vec::new(), diags: Vec::new(), futures: Subst::new() };
        proof {
            assert(name_set(e.requested@) =~= Set::<Seq<char>>::empty());
            assert(work_view(e.worklist@) =~= Seq::<(Seq<char>, Seq<TypeV>, Span)>::empty());
            assert(dviews(e.diags@) =~= Seq::<(Seq<char>, Span)>::empty());
        }
        e
    }

    /// The internal tables are well formed.
    pub closed spec fn wf(&self) -> bool {
        self.futures.wf()
    }

    /// The diagnostics reported so far.
    pub fn diagnostics(&self) -> (r: &Vec<Diagnostic>)
        ensures
            dviews(r@) == self@.diags,
    {
        &self.diags
    }

    /// The instances still to expand, in the order they were requested.
    pub fn pending(&self) -> (r: &Vec<(String, Vec<Type>, Span)>)
        ensures
            work_view(r@) == self@.worklist,
    {
        &self.worklist
    }

    /// The element type of the future instance whose mangled name is `m`.
    pub fn future_element(&self, m: &String) -> (r: Option<Type>)
        requires
            self.wf(),
        ensures
            match r {
                Some(t) => self@.futures.contains_key(m@) && tv(t) == self@.futures[m@],
                None => !self@.futures.contains_key(m@),
            },
    {
        self.futures.get(m)
    }

    /// Asks for the instance of `name` over `args`, requested from `span`.
    pub fn enqueue(&mut self, items: &Vec<Item>, name: &str, args: &Vec<Type>, span: Span)
        requires
            old(self).wf(),
        ensures
            final(self).wf(),
            final(self)@ == enqueue_spec(items@, old(self)@, name@, tvs(args@), span),
    {
        let ghost st = self@;
        let ghost mm = mangle_spec(name@, tvs(args@));
        let m = mangle(name, args);
        if bytes_exceed(m.as_str(), MANGLED_LIMIT) {
            return;
        }
        let nc = chars_of(name);
        let fut = is_lit(nc.as_slice(), "Future") && args.len() == 1;
        if fut {
            self.futures.insert(m.clone(), clone_type(&args[0]));
        }
        let ghost st1 = if name@ == "Future"@ && tvs(args@).len() == 1 {
            ExpandV { futures: st.futures.insert(mm, tvs(args@)[0]), ..st }
        } else {
            st
        };
        assert(self@ == st1);
        if contains_name(self.requested.as_slice(), &m) {
            return;
        }
        let ghost req0 = self.requested@;
        self.requested.push(m);
        proof {
            assert(name_set(self.requested@) =~= name_set(req0).insert(mangle_spec(name@, tvs(args@)))) by {
                assert(self.requested@[req0.len() as int]@ == mangle_spec(name@, tvs(args@)));
                assert forall|x: Seq<char>| name_set(req0).contains(x) implies name_set(self.requested@).contains(x) by {
                    let j = choose|j: int| 0 <= j < req0.len() && (#[trigger] req0[j])@ == x;
                    assert(self.requested@[j] == req0[j]);
                }
                assert forall|x: Seq<char>| name_set(self.requested@).contains(x) implies name_set(req0).insert(
                    mangle_spec(name@, tvs(args@)),
                ).contains(x) by {
                    let j = choose|j: int| 0 <= j < self.requested@.len() && (#[trigger] self.requested@[j])@ == x;
                    if j < req0.len() {
                        assert(req0[j] == self.requested@[j]);
                    }
                }
            }
        }
        let ghost d0 = dviews(self.diags@);
        let ghost r1 = self.requested@;
        let ghost w1 = self.worklist@;
        let ghost f1 = self.futures;
        let mut i: usize = 0;
        while i < args.len()
            invariant
                0 <= i <= args@.len(),
                dviews(self.diags@) == d0 + iface_diags(items@, tvs(args@), span, i as int),
                self.requested@ == r1,
                self.worklist@ == w1,
                self.futures == f1,
            decreases args.len() - i,
        {
            if let Type::Named(n, _) = &args[i] {
                if iface_named(items, n) {
                    let mut msg = String::new();
                    push_str(
                        &mut msg,
                        "an interface cannot be a generic type argument; generics are monomorphized over concrete types",
                    );
                    let ghost before = self.diags@;
                    self.diags.push(Diagnostic { msg, span });
                    assert(dviews(self.diags@) =~= dviews(before).push((iface_arg_msg(), span)));
                }
            }
            i = i + 1;
        }
        let ghost w0 = self.worklist@;
        self.worklist.push((string_copy(name), clone_types_vec(args), span));
        assert(work_view(self.worklist@) =~= work_view(w0).push((name@, tvs(args@), span)));
        assert(self@ == ExpandV {
            requested: st1.requested.insert(mm),
            worklist: st1.worklist.push((name@, tvs(args@), span)),
            diags: st1.diags + iface_diags(items@, tvs(args@), span, tvs(args@).len() as int),
            futures: st1.futures,
        });
    }

    /// Lowers `ty`, requesting every generic struct and enum instance it
    /// applies, and returns the lowered type.
    pub fn emit_ty(&mut self, items: &Vec<Item>, ty: &Type, span: Span) -> (r: Type)
        requires
            old(self).wf(),
        ensures
            final(self).wf(),
            (final(self)@, tv(r)) == emit_spec(items@, old(self)@, tv(*ty), span),
        decreases *ty, 0int,
    {
        match ty {
            Type::Named(n, args) => {
                assert(tv(*ty) == TypeV::Named(n@, tvs(args@)));
                if args.len() > 0 {
                    let cargs = self.emit_all(items, args, span);
                    if is_generic(items, n) {
                        self.enqueue(items, n.as_str(), &cargs, span);
                        let empty: Vec<Type> = Vec::new();
                        assert(tvs(empty@) =~= seq![]);
                        Type::Named(mangle(n.as_str(), &cargs), empty)
                    } else {
                        Type::Named(string_copy(n.as_str()), cargs)
                    }
                } else {
                    let empty: Vec<Type> = Vec::new();
                    assert(tvs(empty@) =~= seq![]);
                    Type::Named(string_copy(n.as_str()), empty)
                }
            },
            Type::Ptr(b) => Type::Ptr(Box::new(self.emit_ty(items, b, span))),
            Type::RawPtr(b) => Type::RawPtr(Box::new(self.emit_ty(items, b, span))),
            Type::Slice(b) => Type::Slice(Box::new(self.emit_ty(items, b, span))),
            Type::Array(b, n) => Type::Array(Box::new(self.emit_ty(items, b, span)), *n),
            Type::Tuple(xs) => Type::Tuple(self.emit_all(items, xs, span)),
            Type::Func(ps, r) => {
                let qs = self.emit_all(items, ps, span);
                let x = self.emit_ty(items, r, span);
                Type::Func(qs, Box::new(x))
            },
            Type::Unit => Type::Unit,
        }
    }

    /// Requests the instance of `name` over `args` from an expression site,
    /// lowering the arguments first so the site and the emitted definition
    /// mangle alike, and returns the instance's name.
    pub fn instantiate(&mut self, items: &Vec<Item>, name: &str, args: &Vec<Type>, span: Span) -> (r: String)
        requires
            old(self).wf(),
        ensures
            final(self).wf(),
            (final(self)@, r@) == instantiate_spec(items@, old(self)@, name@, tvs(args@), span),
    {
        let cargs = self.emit_all(items, args, span);
        self.enqueue(items, name, &cargs, span);
        mangle(name, &cargs)
    }

    /// Lowers a field type of an instance under `subst`, reporting any
    /// frame-viewing future element it spells.
    pub fn emit_field_ty(&mut self, items: &Vec<Item>, ty: &Type, subst: &Subst, span: Span) -> (r: Type)
        requires
            old(self).wf(),
            subst.wf(),
        ensures
            final(self).wf(),
            (final(self)@, tv(r)) == field_emit_spec(items@, old(self)@, tv(*ty), subst@, span),
    {
        let applied = subst_apply(ty, subst);
        let ghost d0 = self.diags@;
        let ghost st = self@;
        check_future_spell(items, &applied, span, &mut self.diags);
        proof {
            let k = spell_count(items@, tv(applied));
            assert(dviews(self.diags@) =~= dviews(d0) + spell_diags(k, span)) by {
                assert forall|i: int| 0 <= i < dviews(self.diags@).len() implies dviews(self.diags@)[i] == (
                    dviews(d0) + spell_diags(k, span))[i] by {
                    if i >= d0.len() {
                        assert(self.diags@[i].msg@ == future_msg());
                    }
                }
            }
            assert(self@ == ExpandV { diags: st.diags + spell_diags(k, span), ..st });
        }
        self.emit_ty(items, &applied, span)
    }

    /// Lowers the fields of an instance under `subst`.
    fn emit_fields_of(&mut self, items: &Vec<Item>, fs: &Vec<Field>, subst: &Subst, span: Span) -> (r: Vec<Field>)
        requires
            old(self).wf(),
            subst.wf(),
        ensures
            final(self).wf(),
            (final(self)@, fields_view(r@)) == emit_fields(items@, old(self)@, fs@, subst@, span, fs@.len() as int),
    {
        let mut out: Vec<Field> = Vec::new();
        let mut i: usize = 0;
        while i < fs.len()
            invariant
                0 <= i <= fs@.len(),
                self.wf(),
                subst.wf(),
                (self@, fields_view(out@)) == emit_fields(items@, old(self)@, fs@, subst@, span, i as int),
            decreases fs.len() - i,
        {
            let ghost o0 = out@;
            let t = self.emit_field_ty(items, &fs[i].ty, subst, span);
            out.push(Field { name: string_copy(fs[i].name.as_str()), ty: t });
            assert(fields_view(out@) =~= fields_view(o0).push((fs@[i as int].name@, tv(t))));
            i = i + 1;
        }
        out
    }

    /// Lowers the variants of an instance under `subst`.
    fn emit_variants_of(&mut self, items: &Vec<Item>, vs: &Vec<Variant>, subst: &Subst, span: Span) -> (r: Vec<Variant>)
        requires
            old(self).wf(),
            subst.wf(),
        ensures
            final(self).wf(),
            (final(self)@, variants_view(r@)) == emit_variants(items@, old(self)@, vs@, subst@, span, vs@.len() as int),
    {
        let mut out: Vec<Variant> = Vec::new();
        let mut i: usize = 0;
        while i < vs.len()
            invariant
                0 <= i <= vs@.len(),
                self.wf(),
                subst.wf(),
                (self@, variants_view(out@)) == emit_variants(items@, old(self)@, vs@, subst@, span, i as int),
            decreases vs.len() - i,
        {
            let ghost o0 = out@;
            let fields = self.emit_fields_of(items, &vs[i].fields, subst, span);
            out.push(Variant { name: string_copy(vs[i].name.as_str()), fields });
            assert(variants_view(out@) =~= variants_view(o0).push((vs@[i as int].name@, fields_view(fields@))));
            i = i + 1;
        }
        out
    }

    /// Builds the concrete struct or enum that the instance of the generic
    /// struct or enum `name` over `args` stands for, named by its mangled
    /// name, with every field type substituted and lowered. None when `name`
    /// names a generic function, whose instance is rewritten with its body,
    /// or no generic struct or enum.
    pub fn expand_type_instance(&mut self, items: &Vec<Item>, name: &String, args: &Vec<Type>, span: Span) -> (r: Option<Item>)
        requires
            old(self).wf(),
        ensures
            final(self).wf(),
            has_gfunc(items@, name@) ==> r is None && final(self)@ == old(self)@,
            !has_gfunc(items@, name@) ==> match last_gstruct(items@, name@, items@.len() as int) {
                Some(k) => {
                    let s = items@[k]->Struct_0;
                    let m = crate::mono::cross::bind_tv(s.generics@, tvs(args@), crate::mono::cross::pairs(s.generics@, tvs(args@)));
                    let (st, fs) = emit_fields(items@, old(self)@, s.fields@, m, span, s.fields@.len() as int);
                    &&& r matches Some(Item::Struct(out))
                    &&& out.exported == s.exported
                    &&& out.name@ == mangle_spec(name@, tvs(args@))
                    &&& out.generics@.len() == 0
                    &&& fields_view(out.fields@) == fs
                    &&& final(self)@ == st
                },
                None => match last_genum(items@, name@, items@.len() as int) {
                    Some(k) => {
                        let e = items@[k]->Enum_0;
                        let m = crate::mono::cross::bind_tv(e.generics@, tvs(args@), crate::mono::cross::pairs(e.generics@, tvs(args@)));
                        let (st, vs) = emit_variants(items@, old(self)@, e.variants@, m, span, e.variants@.len() as int);
                        &&& r matches Some(Item::Enum(out))
                        &&& out.exported == e.exported
                        &&& out.name@ == mangle_spec(name@, tvs(args@))
                        &&& out.generics@.len() == 0
                        &&& variants_view(out.variants@) == vs
                        &&& final(self)@ == st
                    },
                    None => r is None && final(self)@ == old(self)@,
                },
            },
    {
        let mut k: usize = 0;
        while k < items.len()
            invariant
                0 <= k <= items@.len(),
                forall|j: int| 0 <= j < k ==> !is_gfunc(#[trigger] items@[j], name@),
                *self == *old(self),
                self.wf(),
            decreases items.len() - k,
        {
            if let Item::Func(f) = &items[k] {
                if f.name == *name && f.generics.len() > 0 {
                    assert(is_gfunc(items@[k as int], name@));
                    return None;
                }
            }
            k = k + 1;
        }
        proof {
            lemma_last_gstruct(items@, name@, items@.len() as int);
            lemma_last_genum(items@, name@, items@.len() as int);
        }
        if let Some(i) = crate::mono::cross::last_gstruct_index(items, name) {
            if let Item::Struct(s) = &items[i] {
                let subst = bind(s.generics.as_slice(), args.as_slice());
                proof {
                    crate::mono::cross::lemma_bind_tv(s.generics@, args@, crate::mono::cross::pairs(s.generics@, tvs(args@)));
                }
                let fields = self.emit_fields_of(items, &s.fields, &subst, span);
                let empty: Vec<String> = Vec::new();
                return Some(Item::Struct(Struct {
                    exported: s.exported,
                    name: mangle(name.as_str(), args),
                    generics: empty,
                    fields,
                }));
            }
            return None;
        }
        if let Some(i) = crate::mono::cross::last_genum_index(items, name) {
            if let Item::Enum(e) = &items[i] {
                let subst = bind(e.generics.as_slice(), args.as_slice());
                proof {
                    crate::mono::cross::lemma_bind_tv(e.generics@, args@, crate::mono::cross::pairs(e.generics@, tvs(args@)));
                }
                let variants = self.emit_variants_of(items, &e.variants, &subst, span);
                let empty: Vec<String> = Vec::new();
                return Some(Item::Enum(Enum {
                    exported: e.exported,
                    name: mangle(name.as_str(), args),
                    generics: empty,
                    variants,
                }));
            }
            return None;
        }
        None
    }

    /// Checks one async function's parameters and return, then requests the
    /// `Future` instance over its lowered return type.
    fn force_one(&mut self, items: &Vec<Item>, f: &Func)
        requires
            old(self).wf(),
        ensures
            final(self).wf(),
            final(self)@ == one_async(items@, old(self)@, *f),
    {
        let span = f.span;
        let empty: Vec<String> = Vec::new();
        let ghost st = self@;
        let ghost d0 = self@.diags;
        let mut i: usize = 0;
        while i < f.params.len()
            invariant
                0 <= i <= f.params@.len(),
                self.wf(),
                self@ == (ExpandV { diags: d0 + param_diags(items@, f.params@, span, i as int), ..st }),
                crate::mono::name_set(empty@) == Set::<Seq<char>>::empty(),
            decreases f.params.len() - i,
        {
            if !crossable(items, &f.params[i].ty, true, &empty) {
                let mut msg = String::new();
                push_str(&mut msg, "an async func cannot take '");
                push_str(&mut msg, f.params[i].name.as_str());
                push_str(
                    &mut msg,
                    "': it holds a slice, closure, interface value, or future that would view the caller's frame, which the task outlives",
                );
                assert(msg@ =~= async_param_msg(f.params@[i as int].name@));
                let ghost before = self.diags@;
                self.diags.push(Diagnostic { msg, span });
                assert(dviews(self.diags@) =~= dviews(before).push((async_param_msg(f.params@[i as int].name@), span)));
            }
            i = i + 1;
        }
        if !crossable(items, &f.ret, true, &empty) {
            let mut msg = String::new();
            push_str(
                &mut msg,
                "an async func cannot return a slice, closure, interface value, or future that would outlive the task frame it views",
            );
            let ghost before = self.diags@;
            self.diags.push(Diagnostic { msg, span });
            assert(dviews(self.diags@) =~= dviews(before).push((async_ret_msg(), span)));
            assert(self@.diags =~= d0 + param_diags(items@, f.params@, span, f.params@.len() as int) + seq![(async_ret_msg(), span)]);
        } else {
            assert(self@.diags =~= d0 + param_diags(items@, f.params@, span, f.params@.len() as int) + Seq::<(Seq<char>, Span)>::empty());
        }
        let r = self.emit_ty(items, &f.ret, span);
        let mut args: Vec<Type> = Vec::new();
        args.push(r);
        assert(tvs(args@) =~= seq![tv(args@[0])]);
        self.enqueue(items, "Future", &args, span);
    }

    /// Forces one `Future` instance per async function, since an async call
    /// mints a future the source never spells, after checking that no
    /// parameter or return of the function would view a frame the task
    /// outlives. Without a generic `Future` struct in scope one diagnostic,
    /// at the first async function, says so instead.
    pub fn force_future_instances(&mut self, items: &Vec<Item>)
        requires
            old(self).wf(),
        ensures
            final(self).wf(),
            final(self)@ == force_spec(items@, old(self)@),
    {
        let first = first_async_index(items);
        let k = match first {
            Some(k) => k,
            None => {
                return;
            },
        };
        proof {
            lemma_first_async(items@, 0);
        }
        let future = string_copy("Future");
        proof {
            reveal_strlit("Future");
        }
        if crate::mono::cross::last_gstruct_index(items, &future).is_none() {
            let mut msg = String::new();
            push_str(&mut msg, "calling an async func needs Future from std.async.future; add @import std.async.future");
            let span = match &items[k] {
                Item::Func(f) => f.span,
                _ => Span::new(0, 0),
            };
            let ghost before = self.diags@;
            self.diags.push(Diagnostic { msg, span });
            assert(dviews(self.diags@) =~= dviews(before).push((no_future_msg(), span)));
            return;
        }
        let ghost st0 = self@;
        let mut i: usize = 0;
        while i < items.len()
            invariant
                0 <= i <= items@.len(),
                self.wf(),
                self@ == force_from(items@, st0, i as int),
            decreases items.len() - i,
        {
            if let Item::Func(f) = &items[i] {
                if f.is_async {
                    self.force_one(items, f);
                }
            }
            i = i + 1;
        }
    }

    /// Lowers each type of `ts` in order.
    fn emit_all(&mut self, items: &Vec<Item>, ts: &Vec<Type>, span: Span) -> (r: Vec<Type>)
        requires
            old(self).wf(),
        ensures
            final(self).wf(),
            (final(self)@, tvs(r@)) == emit_list(items@, old(self)@, tvs(ts@), span, ts@.len() as int),
        decreases ts, 1int,
    {
        let mut out: Vec<Type> = Vec::new();
        let mut i: usize = 0;
        while i < ts.len()
            invariant
                0 <= i <= ts@.len(),
                self.wf(),
                (self@, tvs(out@)) == emit_list(items@, old(self)@, tvs(ts@), span, i as int),
            decreases ts.len() - i,
        {
            proof {
                assert(decreases_to!(ts => ts@[i as int]));
            }
            let ghost o0 = out@;
            let x = self.emit_ty(items, &ts[i], span);
            out.push(x);
            assert(tvs(out@) =~= tvs(o0).push(tv(x)));
            i = i + 1;
        }
        out
    }
}

/// A copy of a string.
fn string_copy(s: &str) -> (r: String)
    ensures
        r@ == s@,
{
    let mut r = String::new();
    push_str(&mut r, s);
    r
}

/// A copy of a list of types.
fn clone_types_vec(ts: &Vec<Type>) -> (r: Vec<Type>)
    ensures
        tvs(r@) == tvs(ts@),
{
    let mut out: Vec<Type> = Vec::new();
    let mut i: usize = 0;
    while i < ts.len()
        invariant
            0 <= i <= ts@.len(),
            out@.len() == i,
            forall|j: int| 0 <= j < i ==> tv(#[trigger] out@[j]) == tv(ts@[j]),
        decreases ts.len() - i,
    {
        out.push(clone_type(&ts[i]));
        i = i + 1;
    }
    assert(tvs(out@) =~= tvs(ts@));
    out
}

} // verus!
