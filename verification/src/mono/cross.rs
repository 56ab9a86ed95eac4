//! Which concrete types may cross a boundary that outlives the frame they
//! were built in: an async call, an await result, a spawn or submit capture,
//! or a channel send.
//!
//! A slice, a closure or an interface value can view the frame, so it may not
//! cross; under the future ban a future may not cross either, not even behind
//! a pointer, since it belongs to the event loop thread. The walk substitutes
//! concrete type arguments into the fields of generic structs and enums, so a
//! burial behind a type parameter is found. The names of the structs and
//! enums on the branch from the root are carried along; a name already on the
//! branch is a recursive reference and ends the walk there.

use vstd::prelude::*;
use crate::diag::{Diagnostic, Span};
use crate::mono::{bind, bind_spec, contains_name, name_set, subst_apply, subst_spec, Subst};
use crate::parser::ast::{tv, tvs, Field, Item, Type, TypeV, Variant};
use crate::text::{chars_of, is_lit, push_str};

verus! {

/// The name a struct or enum declaration introduces.
pub open spec fn decl_name(it: Item) -> Option<Seq<char>> {
    match it {
        Item::Struct(s) => Some(s.name@),
        Item::Enum(e) => Some(e.name@),
        _ => None,
    }
}

/// How many of the first `i` struct and enum declarations are named outside
/// `path`: the walk's measure, which shrinks each time it enters a
/// declaration's fields.
pub open spec fn unvisited(items: Seq<Item>, path: Set<Seq<char>>, i: int) -> nat
    decreases i,
{
    if i <= 0 {
        0
    } else {
        unvisited(items, path, i - 1) + match decl_name(items[i - 1]) {
            Some(n) => if path.contains(n) { 0nat } else { 1nat },
            None => 0nat,
        }
    }
}

pub proof fn lemma_unvisited_mono(items: Seq<Item>, p1: Set<Seq<char>>, p2: Set<Seq<char>>, i: int)
    requires
        p1.subset_of(p2),
    ensures
        unvisited(items, p2, i) <= unvisited(items, p1, i),
    decreases i,
{
    if i > 0 {
        lemma_unvisited_mono(items, p1, p2, i - 1);
    }
}

pub proof fn lemma_unvisited_drop(items: Seq<Item>, p: Set<Seq<char>>, n: Seq<char>, i: int, k: int)
    requires
        0 <= k < i <= items.len(),
        decl_name(items[k]) == Some(n),
        !p.contains(n),
    ensures
        unvisited(items, p.insert(n), i) < unvisited(items, p, i),
    decreases i,
{
    lemma_unvisited_mono(items, p, p.insert(n), i - 1);
    if k < i - 1 {
        lemma_unvisited_drop(items, p, n, i - 1, k);
    }
}

/// A generic struct named `n`.
pub open spec fn is_gstruct(it: Item, n: Seq<char>) -> bool {
    it matches Item::Struct(s) && s.name@ == n && s.generics@.len() > 0
}

/// A generic enum named `n`.
pub open spec fn is_genum(it: Item, n: Seq<char>) -> bool {
    it matches Item::Enum(e) && e.name@ == n && e.generics@.len() > 0
}

/// The last generic struct named `n` among the first `i` items: a later
/// declaration of the same name replaces an earlier one in the table.
pub open spec fn last_gstruct(items: Seq<Item>, n: Seq<char>, i: int) -> Option<int>
    decreases i,
{
    if i <= 0 {
        None
    } else if is_gstruct(items[i - 1], n) {
        Some(i - 1)
    } else {
        last_gstruct(items, n, i - 1)
    }
}

/// The last generic enum named `n` among the first `i` items.
pub open spec fn last_genum(items: Seq<Item>, n: Seq<char>, i: int) -> Option<int>
    decreases i,
{
    if i <= 0 {
        None
    } else if is_genum(items[i - 1], n) {
        Some(i - 1)
    } else {
        last_genum(items, n, i - 1)
    }
}

/// A struct or enum named `n`, or with `iface` an interface named `n`.
pub open spec fn is_decl(it: Item, n: Seq<char>, iface: bool) -> bool {
    match it {
        Item::Struct(s) => s.name@ == n,
        Item::Enum(e) => e.name@ == n,
        Item::Interface(x) => iface && x.name@ == n,
        _ => false,
    }
}

/// The first declaration `is_decl` accepts, from index `i` on.
pub open spec fn first_decl(items: Seq<Item>, n: Seq<char>, iface: bool, i: int) -> Option<int>
    decreases items.len() - i,
{
    if i < 0 || i >= items.len() {
        None
    } else if is_decl(items[i], n, iface) {
        Some(i)
    } else {
        first_decl(items, n, iface, i + 1)
    }
}

pub proof fn lemma_last_gstruct(items: Seq<Item>, n: Seq<char>, i: int)
    requires
        i <= items.len(),
    ensures
        last_gstruct(items, n, i) matches Some(k) ==> 0 <= k < i && is_gstruct(items[k], n),
    decreases i,
{
    if i > 0 && !is_gstruct(items[i - 1], n) {
        lemma_last_gstruct(items, n, i - 1);
    }
}

pub proof fn lemma_last_genum(items: Seq<Item>, n: Seq<char>, i: int)
    requires
        i <= items.len(),
    ensures
        last_genum(items, n, i) matches Some(k) ==> 0 <= k < i && is_genum(items[k], n),
    decreases i,
{
    if i > 0 && !is_genum(items[i - 1], n) {
        lemma_last_genum(items, n, i - 1);
    }
}

pub proof fn lemma_first_decl(items: Seq<Item>, n: Seq<char>, iface: bool, i: int)
    requires
        0 <= i,
    ensures
        first_decl(items, n, iface, i) matches Some(k) ==> i <= k < items.len() && is_decl(
            items[k],
            n,
            iface,
        ),
    decreases items.len() - i,
{
    if i < items.len() && !is_decl(items[i], n, iface) {
        lemma_first_decl(items, n, iface, i + 1);
    }
}

/// The bindings of type parameters to argument types, pairwise, a later
/// duplicate name overriding an earlier one.
pub open spec fn bind_tv(g: Seq<String>, a: Seq<TypeV>, i: int) -> Map<Seq<char>, TypeV>
    decreases i,
{
    if i <= 0 {
        Map::empty()
    } else {
        bind_tv(g, a, i - 1).insert(g[i - 1]@, a[i - 1])
    }
}

pub proof fn lemma_bind_tv(g: Seq<String>, a: Seq<Type>, i: int)
    requires
        0 <= i <= a.len(),
    ensures
        bind_spec(g, a, i) == bind_tv(g, tvs(a), i),
    decreases i,
{
    if i > 0 {
        lemma_bind_tv(g, a, i - 1);
    }
}

/// The number of pairs `bind` forms.
pub open spec fn pairs(g: Seq<String>, a: Seq<TypeV>) -> int {
    if g.len() <= a.len() { g.len() as int } else { a.len() as int }
}

/// A field's type, with the substitution applied when there is one.
pub open spec fn field_ty(f: Field, m: Option<Map<Seq<char>, TypeV>>) -> TypeV {
    match m {
        Some(m) => subst_spec(tv(f.ty), m),
        None => tv(f.ty),
    }
}

/// Whether a value of type `t` may cross a boundary that outlives its frame,
/// with `ban` also refusing futures, given the declarations `items` and the
/// struct and enum names `path` on the branch.
pub open spec fn cross(items: Seq<Item>, t: TypeV, ban: bool, path: Set<Seq<char>>) -> bool
    decreases unvisited(items, path, items.len() as int), 0int, t, 0int,
{
    match t {
        TypeV::Slice(_) => false,
        TypeV::Func(..) => false,
        TypeV::Ptr(b) => if ban { !reach(items, *b, path) } else { true },
        TypeV::RawPtr(b) => if ban { !reach(items, *b, path) } else { true },
        TypeV::Array(b, _) => cross(items, *b, ban, path),
        TypeV::Tuple(ts) => cross_all(items, ts, ban, path, 0),
        TypeV::Named(n, targs) => if ban && n == "Future"@ {
            false
        } else if path.contains(n) {
            true
        } else {
            let len = items.len() as int;
            let child = path.insert(n);
            proof {
                lemma_unvisited_mono(items, path, child, len);
                lemma_last_gstruct(items, n, len);
                lemma_last_genum(items, n, len);
                lemma_first_decl(items, n, true, 0);
            }
            if !cross_all(items, targs, ban, child, 0) {
                false
            } else {
                match last_gstruct(items, n, len) {
                    Some(k) => {
                        proof {
                            lemma_unvisited_drop(items, path, n, len, k);
                        }
                        let s = items[k]->Struct_0;
                        cross_fields(
                            items,
                            s.fields@,
                            Some(bind_tv(s.generics@, targs, pairs(s.generics@, targs))),
                            ban,
                            child,
                            0,
                        )
                    },
                    None => match last_genum(items, n, len) {
                        Some(k) => {
                            proof {
                                lemma_unvisited_drop(items, path, n, len, k);
                            }
                            let e = items[k]->Enum_0;
                            cross_variants(
                                items,
                                e.variants@,
                                Some(bind_tv(e.generics@, targs, pairs(e.generics@, targs))),
                                ban,
                                child,
                                0,
                            )
                        },
                        None => match first_decl(items, n, true, 0) {
                            Some(k) => match items[k] {
                                Item::Struct(s) => {
                                    proof {
                                        lemma_unvisited_drop(items, path, n, len, k);
                                    }
                                    cross_fields(items, s.fields@, None, ban, child, 0)
                                },
                                Item::Enum(e) => {
                                    proof {
                                        lemma_unvisited_drop(items, path, n, len, k);
                                    }
                                    cross_variants(items, e.variants@, None, ban, child, 0)
                                },
                                _ => false,
                            },
                            None => true,
                        },
                    },
                }
            }
        },
        TypeV::Unit => true,
    }
}

/// Whether every type of `ts` from index `i` on may cross.
pub open spec fn cross_all(items: Seq<Item>, ts: Seq<TypeV>, ban: bool, path: Set<Seq<char>>, i: int) -> bool
    decreases unvisited(items, path, items.len() as int), 0int, ts, ts.len() - i,
{
    if i < 0 || i >= ts.len() {
        true
    } else {
        cross(items, ts[i], ban, path) && cross_all(items, ts, ban, path, i + 1)
    }
}

/// Whether every field of `fs` from index `i` on may cross.
pub open spec fn cross_fields(
    items: Seq<Item>,
    fs: Seq<Field>,
    m: Option<Map<Seq<char>, TypeV>>,
    ban: bool,
    path: Set<Seq<char>>,
    i: int,
) -> bool
    decreases unvisited(items, path, items.len() as int), 1int, TypeV::Unit, fs.len() - i,
{
    if i < 0 || i >= fs.len() {
        true
    } else {
        cross(items, field_ty(fs[i], m), ban, path) && cross_fields(items, fs, m, ban, path, i + 1)
    }
}

/// Whether every field of every variant of `vs` from index `i` on may cross.
pub open spec fn cross_variants(
    items: Seq<Item>,
    vs: Seq<Variant>,
    m: Option<Map<Seq<char>, TypeV>>,
    ban: bool,
    path: Set<Seq<char>>,
    i: int,
) -> bool
    decreases unvisited(items, path, items.len() as int), 2int, TypeV::Unit, vs.len() - i,
{
    if i < 0 || i >= vs.len() {
        true
    } else {
        cross_fields(items, vs[i].fields@, m, ban, path, 0) && cross_variants(items, vs, m, ban, path, i + 1)
    }
}

/// The future ban only refuses more: a type that may cross under the ban may
/// cross without it.
pub proof fn law_ban_only_refuses(items: Seq<Item>, t: TypeV, path: Set<Seq<char>>)
    ensures
        cross(items, t, true, path) ==> cross(items, t, false, path),
    decreases unvisited(items, path, items.len() as int), 0int, t, 0int,
{
    match t {
        TypeV::Array(b, _) => law_ban_only_refuses(items, *b, path),
        TypeV::Tuple(ts) => lemma_ban_all(items, ts, path, 0),
        TypeV::Named(n, targs) => {
            if n != "Future"@ && !path.contains(n) {
                let len = items.len() as int;
                let child = path.insert(n);
                lemma_unvisited_mono(items, path, child, len);
                lemma_last_gstruct(items, n, len);
                lemma_last_genum(items, n, len);
                lemma_first_decl(items, n, true, 0);
                lemma_ban_all(items, targs, child, 0);
                match last_gstruct(items, n, len) {
                    Some(k) => {
                        lemma_unvisited_drop(items, path, n, len, k);
                        let s = items[k]->Struct_0;
                        lemma_ban_fields(
                            items,
                            s.fields@,
                            Some(bind_tv(s.generics@, targs, pairs(s.generics@, targs))),
                            child,
                            0,
                        );
                    },
                    None => match last_genum(items, n, len) {
                        Some(k) => {
                            lemma_unvisited_drop(items, path, n, len, k);
                            let e = items[k]->Enum_0;
                            lemma_ban_variants(
                                items,
                                e.variants@,
                                Some(bind_tv(e.generics@, targs, pairs(e.generics@, targs))),
                                child,
                                0,
                            );
                        },
                        None => match first_decl(items, n, true, 0) {
                            Some(k) => match items[k] {
                                Item::Struct(s) => {
                                    lemma_unvisited_drop(items, path, n, len, k);
                                    lemma_ban_fields(items, s.fields@, None, child, 0);
                                },
                                Item::Enum(e) => {
                                    lemma_unvisited_drop(items, path, n, len, k);
                                    lemma_ban_variants(items, e.variants@, None, child, 0);
                                },
                                _ => {},
                            },
                            None => {},
                        },
                    },
                }
            }
        },
        _ => {},
    }
}

proof fn lemma_ban_all(items: Seq<Item>, ts: Seq<TypeV>, path: Set<Seq<char>>, i: int)
    ensures
        cross_all(items, ts, true, path, i) ==> cross_all(items, ts, false, path, i),
    decreases unvisited(items, path, items.len() as int), 0int, ts, ts.len() - i,
{
    if 0 <= i < ts.len() {
        law_ban_only_refuses(items, ts[i], path);
        lemma_ban_all(items, ts, path, i + 1);
    }
}

proof fn lemma_ban_fields(
    items: Seq<Item>,
    fs: Seq<Field>,
    m: Option<Map<Seq<char>, TypeV>>,
    path: Set<Seq<char>>,
    i: int,
)
    ensures
        cross_fields(items, fs, m, true, path, i) ==> cross_fields(items, fs, m, false, path, i),
    decreases unvisited(items, path, items.len() as int), 1int, TypeV::Unit, fs.len() - i,
{
    if 0 <= i < fs.len() {
        law_ban_only_refuses(items, field_ty(fs[i], m), path);
        lemma_ban_fields(items, fs, m, path, i + 1);
    }
}

proof fn lemma_ban_variants(
    items: Seq<Item>,
    vs: Seq<Variant>,
    m: Option<Map<Seq<char>, TypeV>>,
    path: Set<Seq<char>>,
    i: int,
)
    ensures
        cross_variants(items, vs, m, true, path, i) ==> cross_variants(items, vs, m, false, path, i),
    decreases unvisited(items, path, items.len() as int), 2int, TypeV::Unit, vs.len() - i,
{
    if 0 <= i < vs.len() {
        lemma_ban_fields(items, vs[i].fields@, m, path, 0);
        lemma_ban_variants(items, vs, m, path, i + 1);
    }
}

/// A type holds a slice or a closure by value: it is one, or an array or a
/// tuple with such a component.
pub open spec fn views_by_value(t: TypeV) -> bool
    decreases t,
{
    match t {
        TypeV::Slice(_) => true,
        TypeV::Func(..) => true,
        TypeV::Array(b, _) => views_by_value(*b),
        TypeV::Tuple(ts) => exists|i: int| 0 <= i < ts.len() && views_by_value(#[trigger] ts[i]),
        _ => false,
    }
}

proof fn lemma_cross_all_each(items: Seq<Item>, ts: Seq<TypeV>, ban: bool, path: Set<Seq<char>>, i: int, k: int)
    requires
        0 <= i <= k < ts.len(),
        cross_all(items, ts, ban, path, i),
    ensures
        cross(items, ts[k], ban, path),
    decreases k - i,
{
    if i < k {
        lemma_cross_all_each(items, ts, ban, path, i + 1, k);
    }
}

/// A value crosses only if every component it holds by value crosses: an
/// array crosses exactly when its element type does, a tuple only when each
/// element does, and a type holding a slice or a closure by value never
/// crosses, whatever the declarations, the ban or the branch.
pub proof fn law_cross_by_value(items: Seq<Item>, t: TypeV, ban: bool, path: Set<Seq<char>>)
    ensures
        t matches TypeV::Array(b, _) ==> cross(items, t, ban, path) == cross(items, *b, ban, path),
        t matches TypeV::Tuple(ts) ==> (cross(items, t, ban, path) ==> forall|k: int|
            0 <= k < ts.len() ==> cross(items, #[trigger] ts[k], ban, path)),
        views_by_value(t) ==> !cross(items, t, ban, path),
    decreases t,
{
    match t {
        TypeV::Array(b, _) => {
            law_cross_by_value(items, *b, ban, path);
        },
        TypeV::Tuple(ts) => {
            assert forall|k: int| 0 <= k < ts.len() && cross(items, t, ban, path) implies cross(
                items,
                #[trigger] ts[k],
                ban,
                path,
            ) by {
                lemma_cross_all_each(items, ts, ban, path, 0, k);
            }
            if views_by_value(t) {
                let i = choose|i: int| 0 <= i < ts.len() && views_by_value(#[trigger] ts[i]);
                law_cross_by_value(items, ts[i], ban, path);
                if cross(items, t, ban, path) {
                    lemma_cross_all_each(items, ts, ban, path, 0, i);
                }
            }
        },
        _ => {},
    }
}

/// Whether a future is reachable through `t` once a pointer has been crossed:
/// through nested pointers, slices, arrays, tuples, and the type arguments and
/// fields of structs and enums.
pub open spec fn reach(items: Seq<Item>, t: TypeV, path: Set<Seq<char>>) -> bool
    decreases unvisited(items, path, items.len() as int), 0int, t, 0int,
{
    match t {
        TypeV::Ptr(b) => reach(items, *b, path),
        TypeV::RawPtr(b) => reach(items, *b, path),
        TypeV::Slice(b) => reach(items, *b, path),
        TypeV::Array(b, _) => reach(items, *b, path),
        TypeV::Tuple(ts) => reach_any(items, ts, path, 0),
        TypeV::Named(n, targs) => if n == "Future"@ {
            true
        } else if path.contains(n) {
            false
        } else {
            let len = items.len() as int;
            let child = path.insert(n);
            proof {
                lemma_unvisited_mono(items, path, child, len);
                lemma_last_gstruct(items, n, len);
                lemma_last_genum(items, n, len);
                lemma_first_decl(items, n, false, 0);
            }
            if reach_any(items, targs, child, 0) {
                true
            } else {
                match last_gstruct(items, n, len) {
                    Some(k) => {
                        proof {
                            lemma_unvisited_drop(items, path, n, len, k);
                        }
                        let s = items[k]->Struct_0;
                        reach_fields(
                            items,
                            s.fields@,
                            Some(bind_tv(s.generics@, targs, pairs(s.generics@, targs))),
                            child,
                            0,
                        )
                    },
                    None => match last_genum(items, n, len) {
                        Some(k) => {
                            proof {
                                lemma_unvisited_drop(items, path, n, len, k);
                            }
                            let e = items[k]->Enum_0;
                            reach_variants(
                                items,
                                e.variants@,
                                Some(bind_tv(e.generics@, targs, pairs(e.generics@, targs))),
                                child,
                                0,
                            )
                        },
                        None => match first_decl(items, n, false, 0) {
                            Some(k) => match items[k] {
                                Item::Struct(s) => {
                                    proof {
                                        lemma_unvisited_drop(items, path, n, len, k);
                                    }
                                    reach_fields(items, s.fields@, None, child, 0)
                                },
                                Item::Enum(e) => {
                                    proof {
                                        lemma_unvisited_drop(items, path, n, len, k);
                                    }
                                    reach_variants(items, e.variants@, None, child, 0)
                                },
                                _ => false,
                            },
                            None => false,
                        },
                    },
                }
            }
        },
        _ => false,
    }
}

/// Whether a future is reachable through some type of `ts` from index `i` on.
pub open spec fn reach_any(items: Seq<Item>, ts: Seq<TypeV>, path: Set<Seq<char>>, i: int) -> bool
    decreases unvisited(items, path, items.len() as int), 0int, ts, ts.len() - i,
{
    if i < 0 || i >= ts.len() {
        false
    } else {
        reach(items, ts[i], path) || reach_any(items, ts, path, i + 1)
    }
}

/// Whether a future is reachable through some field of `fs` from index `i` on.
pub open spec fn reach_fields(
    items: Seq<Item>,
    fs: Seq<Field>,
    m: Option<Map<Seq<char>, TypeV>>,
    path: Set<Seq<char>>,
    i: int,
) -> bool
    decreases unvisited(items, path, items.len() as int), 1int, TypeV::Unit, fs.len() - i,
{
    if i < 0 || i >= fs.len() {
        false
    } else {
        reach(items, field_ty(fs[i], m), path) || reach_fields(items, fs, m, path, i + 1)
    }
}

/// Whether a future is reachable through some field of some variant of `vs`
/// from index `i` on.
pub open spec fn reach_variants(
    items: Seq<Item>,
    vs: Seq<Variant>,
    m: Option<Map<Seq<char>, TypeV>>,
    path: Set<Seq<char>>,
    i: int,
) -> bool
    decreases unvisited(items, path, items.len() as int), 2int, TypeV::Unit, vs.len() - i,
{
    if i < 0 || i >= vs.len() {
        false
    } else {
        reach_fields(items, vs[i].fields@, m, path, 0) || reach_variants(items, vs, m, path, i + 1)
    }
}

/// The substitution's map, when there is one.
pub open spec fn opt_map(m: Option<&Subst>) -> Option<Map<Seq<char>, TypeV>> {
    match m {
        Some(s) => Some(s@),
        None => None,
    }
}

/// `path` with `n` added.
fn with_name(path: &Vec<String>, n: &String) -> (c: Vec<String>)
    ensures
        name_set(c@) == name_set(path@).insert(n@),
{
    let mut c: Vec<String> = Vec::new();
    let mut i: usize = 0;
    while i < path.len()
        invariant
            0 <= i <= path@.len(),
            c@.len() == i,
            forall|j: int| 0 <= j < i ==> (#[trigger] c@[j])@ == path@[j]@,
        decreases path.len() - i,
    {
        c.push(path[i].clone());
        i = i + 1;
    }
    c.push(n.clone());
    proof {
        assert forall|x: Seq<char>| name_set(c@).contains(x) <==> name_set(path@).insert(n@).contains(x) by {
            if name_set(c@).contains(x) {
                let j = choose|j: int| 0 <= j < c@.len() && (#[trigger] c@[j])@ == x;
                if j < path@.len() {
                    assert(path@[j]@ == x);
                }
            }
            if name_set(path@).contains(x) {
                let j = choose|j: int| 0 <= j < path@.len() && (#[trigger] path@[j])@ == x;
                assert(c@[j]@ == x);
            }
            if x == n@ {
                assert(c@[path@.len() as int]@ == x);
            }
        }
        assert(name_set(c@) =~= name_set(path@).insert(n@));
    }
    c
}

/// The index of the last generic struct named `n`.
pub(crate) fn last_gstruct_index(items: &Vec<Item>, n: &String) -> (r: Option<usize>)
    ensures
        match r {
            Some(k) => last_gstruct(items@, n@, items@.len() as int) == Some(k as int),
            None => last_gstruct(items@, n@, items@.len() as int) is None,
        },
{
    let mut i = items.len();
    while i > 0
        invariant
            i <= items@.len(),
            last_gstruct(items@, n@, items@.len() as int) == last_gstruct(items@, n@, i as int),
        decreases i,
    {
        if let Item::Struct(s) = &items[i - 1] {
            if s.name == *n && s.generics.len() > 0 {
                return Some(i - 1);
            }
        }
        i = i - 1;
    }
    None
}

/// The index of the last generic enum named `n`.
pub(crate) fn last_genum_index(items: &Vec<Item>, n: &String) -> (r: Option<usize>)
    ensures
        match r {
            Some(k) => last_genum(items@, n@, items@.len() as int) == Some(k as int),
            None => last_genum(items@, n@, items@.len() as int) is None,
        },
{
    let mut i = items.len();
    while i > 0
        invariant
            i <= items@.len(),
            last_genum(items@, n@, items@.len() as int) == last_genum(items@, n@, i as int),
        decreases i,
    {
        if let Item::Enum(e) = &items[i - 1] {
            if e.name == *n && e.generics.len() > 0 {
                return Some(i - 1);
            }
        }
        i = i - 1;
    }
    None
}

/// The index of the first struct or enum named `n`, or with `iface` also an
/// interface.
fn find_decl(items: &Vec<Item>, n: &String, iface: bool) -> (r: Option<usize>)
    ensures
        match r {
            Some(k) => first_decl(items@, n@, iface, 0) == Some(k as int),
            None => first_decl(items@, n@, iface, 0) is None,
        },
{
    let mut i: usize = 0;
    while i < items.len()
        invariant
            0 <= i <= items@.len(),
            first_decl(items@, n@, iface, 0) == first_decl(items@, n@, iface, i as int),
        decreases items.len() - i,
    {
        let hit = match &items[i] {
            Item::Struct(s) => s.name == *n,
            Item::Enum(e) => e.name == *n,
            Item::Interface(x) => iface && x.name == *n,
            _ => false,
        };
        if hit {
            return Some(i);
        }
        i = i + 1;
    }
    None
}

/// A field's type, with the substitution applied when there is one.
fn field_type(f: &Field, m: Option<&Subst>) -> (t: Type)
    requires
        m matches Some(s) ==> s.wf(),
    ensures
        tv(t) == field_ty(*f, opt_map(m)),
{
    match m {
        Some(s) => subst_apply(&f.ty, s),
        None => crate::mono::clone_type(&f.ty),
    }
}

/// Whether a value of type `t` may cross a boundary that outlives the frame
/// it was built in; with `ban` a future may not cross either. `path` holds
/// the struct and enum names on the branch (empty at the root).
#[verifier::loop_isolation(false)]
pub fn crossable(items: &Vec<Item>, t: &Type, ban: bool, path: &Vec<String>) -> (r: bool)
    ensures
        r == cross(items@, tv(*t), ban, name_set(path@)),
    decreases unvisited(items@, name_set(path@), items@.len() as int), 0int, *t,
{
    match t {
        Type::Slice(_) => false,
        Type::Func(..) => false,
        Type::Ptr(b) => if ban {
            !reaches_future(items, b, path)
        } else {
            true
        },
        Type::RawPtr(b) => if ban {
            !reaches_future(items, b, path)
        } else {
            true
        },
        Type::Array(b, _) => crossable(items, b, ban, path),
        Type::Tuple(ts) => {
            let mut i: usize = 0;
            while i < ts.len()
                invariant
                    0 <= i <= ts@.len(),
                    cross_all(items@, tvs(ts@), ban, name_set(path@), 0) == cross_all(
                        items@,
                        tvs(ts@),
                        ban,
                        name_set(path@),
                        i as int,
                    ),
                decreases ts.len() - i,
            {
                proof {
                    assert(decreases_to!(*t => ts@[i as int]));
                }
                if !crossable(items, &ts[i], ban, path) {
                    return false;
                }
                i = i + 1;
            }
            true
        },
        Type::Named(n, targs) => {
            let nc = chars_of(n.as_str());
            if ban && is_lit(nc.as_slice(), "Future") {
                return false;
            }
            if contains_name(path.as_slice(), n) {
                return true;
            }
            let child = with_name(path, n);
            let ghost len = items@.len() as int;
            proof {
                lemma_unvisited_mono(items@, name_set(path@), name_set(child@), len);
                lemma_last_gstruct(items@, n@, len);
                lemma_last_genum(items@, n@, len);
                lemma_first_decl(items@, n@, true, 0);
            }
            let mut i: usize = 0;
            while i < targs.len()
                invariant
                    0 <= i <= targs@.len(),
                    cross_all(items@, tvs(targs@), ban, name_set(child@), 0) == cross_all(
                        items@,
                        tvs(targs@),
                        ban,
                        name_set(child@),
                        i as int,
                    ),
                decreases targs.len() - i,
            {
                proof {
                    assert(decreases_to!(*t => targs@[i as int]));
                }
                if !crossable(items, &targs[i], ban, &child) {
                    return false;
                }
                i = i + 1;
            }
            if let Some(k) = last_gstruct_index(items, n) {
                proof {
                    lemma_unvisited_drop(items@, name_set(path@), n@, len, k as int);
                }
                if let Item::Struct(s) = &items[k] {
                    let subst = bind(s.generics.as_slice(), targs.as_slice());
                    proof {
                        lemma_bind_tv(s.generics@, targs@, pairs(s.generics@, tvs(targs@)));
                    }
                    return cross_fields_of(items, &s.fields, Some(&subst), ban, &child);
                }
                return true;
            }
            if let Some(k) = last_genum_index(items, n) {
                proof {
                    lemma_unvisited_drop(items@, name_set(path@), n@, len, k as int);
                }
                if let Item::Enum(e) = &items[k] {
                    let subst = bind(e.generics.as_slice(), targs.as_slice());
                    proof {
                        lemma_bind_tv(e.generics@, targs@, pairs(e.generics@, tvs(targs@)));
                    }
                    return cross_variants_of(items, &e.variants, Some(&subst), ban, &child);
                }
                return true;
            }
            match find_decl(items, n, true) {
                Some(k) => {
                    proof {
                        if decl_name(items@[k as int]) == Some(n@) {
                            lemma_unvisited_drop(items@, name_set(path@), n@, len, k as int);
                        }
                    }
                    match &items[k] {
                        Item::Struct(s) => cross_fields_of(items, &s.fields, None, ban, &child),
                        Item::Enum(e) => cross_variants_of(items, &e.variants, None, ban, &child),
                        _ => false,
                    }
                },
                None => true,
            }
        },
        Type::Unit => true,
    }
}

/// Whether every field of `fs`, under the substitution when there is one,
/// may cross.
fn cross_fields_of(items: &Vec<Item>, fs: &Vec<Field>, m: Option<&Subst>, ban: bool, path: &Vec<String>) -> (r: bool)
    requires
        m matches Some(s) ==> s.wf(),
    ensures
        r == cross_fields(items@, fs@, opt_map(m), ban, name_set(path@), 0),
    decreases unvisited(items@, name_set(path@), items@.len() as int), 1int, Type::Unit,
{
    let mut j: usize = 0;
    while j < fs.len()
        invariant
            0 <= j <= fs@.len(),
            m matches Some(s) ==> s.wf(),
            cross_fields(items@, fs@, opt_map(m), ban, name_set(path@), 0) == cross_fields(
                items@,
                fs@,
                opt_map(m),
                ban,
                name_set(path@),
                j as int,
            ),
        decreases fs.len() - j,
    {
        let ft = field_type(&fs[j], m);
        if !crossable(items, &ft, ban, path) {
            return false;
        }
        j = j + 1;
    }
    true
}

/// Whether every field of every variant of `vs` may cross.
fn cross_variants_of(items: &Vec<Item>, vs: &Vec<Variant>, m: Option<&Subst>, ban: bool, path: &Vec<String>) -> (r: bool)
    requires
        m matches Some(s) ==> s.wf(),
    ensures
        r == cross_variants(items@, vs@, opt_map(m), ban, name_set(path@), 0),
    decreases unvisited(items@, name_set(path@), items@.len() as int), 2int, Type::Unit,
{
    let mut j: usize = 0;
    while j < vs.len()
        invariant
            0 <= j <= vs@.len(),
            m matches Some(s) ==> s.wf(),
            cross_variants(items@, vs@, opt_map(m), ban, name_set(path@), 0) == cross_variants(
                items@,
                vs@,
                opt_map(m),
                ban,
                name_set(path@),
                j as int,
            ),
        decreases vs.len() - j,
    {
        if !cross_fields_of(items, &vs[j].fields, m, ban, path) {
            return false;
        }
        j = j + 1;
    }
    true
}

/// Whether a future is reachable through `t` once a pointer has been crossed.
#[verifier::loop_isolation(false)]
pub fn reaches_future(items: &Vec<Item>, t: &Type, path: &Vec<String>) -> (r: bool)
    ensures
        r == reach(items@, tv(*t), name_set(path@)),
    decreases unvisited(items@, name_set(path@), items@.len() as int), 0int, *t,
{
    match t {
        Type::Ptr(b) => reaches_future(items, b, path),
        Type::RawPtr(b) => reaches_future(items, b, path),
        Type::Slice(b) => reaches_future(items, b, path),
        Type::Array(b, _) => reaches_future(items, b, path),
        Type::Tuple(ts) => {
            let mut i: usize = 0;
            while i < ts.len()
                invariant
                    0 <= i <= ts@.len(),
                    reach_any(items@, tvs(ts@), name_set(path@), 0) == reach_any(
                        items@,
                        tvs(ts@),
                        name_set(path@),
                        i as int,
                    ),
                decreases ts.len() - i,
            {
                proof {
                    assert(decreases_to!(*t => ts@[i as int]));
                }
                if reaches_future(items, &ts[i], path) {
                    return true;
                }
                i = i + 1;
            }
            false
        },
        Type::Named(n, targs) => {
            let nc = chars_of(n.as_str());
            if is_lit(nc.as_slice(), "Future") {
                return true;
            }
            if contains_name(path.as_slice(), n) {
                return false;
            }
            let child = with_name(path, n);
            let ghost len = items@.len() as int;
            proof {
                lemma_unvisited_mono(items@, name_set(path@), name_set(child@), len);
                lemma_last_gstruct(items@, n@, len);
                lemma_last_genum(items@, n@, len);
                lemma_first_decl(items@, n@, false, 0);
            }
            let mut i: usize = 0;
            while i < targs.len()
                invariant
                    0 <= i <= targs@.len(),
                    reach_any(items@, tvs(targs@), name_set(child@), 0) == reach_any(
                        items@,
                        tvs(targs@),
                        name_set(child@),
                        i as int,
                    ),
                decreases targs.len() - i,
            {
                proof {
                    assert(decreases_to!(*t => targs@[i as int]));
                }
                if reaches_future(items, &targs[i], &child) {
                    return true;
                }
                i = i + 1;
            }
            if let Some(k) = last_gstruct_index(items, n) {
                proof {
                    lemma_unvisited_drop(items@, name_set(path@), n@, len, k as int);
                }
                if let Item::Struct(s) = &items[k] {
                    let subst = bind(s.generics.as_slice(), targs.as_slice());
                    proof {
                        lemma_bind_tv(s.generics@, targs@, pairs(s.generics@, tvs(targs@)));
                    }
                    return reach_fields_of(items, &s.fields, Some(&subst), &child);
                }
                return false;
            }
            if let Some(k) = last_genum_index(items, n) {
                proof {
                    lemma_unvisited_drop(items@, name_set(path@), n@, len, k as int);
                }
                if let Item::Enum(e) = &items[k] {
                    let subst = bind(e.generics.as_slice(), targs.as_slice());
                    proof {
                        lemma_bind_tv(e.generics@, targs@, pairs(e.generics@, tvs(targs@)));
                    }
                    return reach_variants_of(items, &e.variants, Some(&subst), &child);
                }
                return false;
            }
            match find_decl(items, n, false) {
                Some(k) => {
                    proof {
                        if decl_name(items@[k as int]) == Some(n@) {
                            lemma_unvisited_drop(items@, name_set(path@), n@, len, k as int);
                        }
                    }
                    match &items[k] {
                        Item::Struct(s) => reach_fields_of(items, &s.fields, None, &child),
                        Item::Enum(e) => reach_variants_of(items, &e.variants, None, &child),
                        _ => false,
                    }
                },
                None => false,
            }
        },
        _ => false,
    }
}

/// Whether a future is reachable through some field of `fs`.
fn reach_fields_of(items: &Vec<Item>, fs: &Vec<Field>, m: Option<&Subst>, path: &Vec<String>) -> (r: bool)
    requires
        m matches Some(s) ==> s.wf(),
    ensures
        r == reach_fields(items@, fs@, opt_map(m), name_set(path@), 0),
    decreases unvisited(items@, name_set(path@), items@.len() as int), 1int, Type::Unit,
{
    let mut j: usize = 0;
    while j < fs.len()
        invariant
            0 <= j <= fs@.len(),
            m matches Some(s) ==> s.wf(),
            reach_fields(items@, fs@, opt_map(m), name_set(path@), 0) == reach_fields(
                items@,
                fs@,
                opt_map(m),
                name_set(path@),
                j as int,
            ),
        decreases fs.len() - j,
    {
        let ft = field_type(&fs[j], m);
        if reaches_future(items, &ft, path) {
            return true;
        }
        j = j + 1;
    }
    false
}

/// Whether a future is reachable through some field of some variant of `vs`.
fn reach_variants_of(items: &Vec<Item>, vs: &Vec<Variant>, m: Option<&Subst>, path: &Vec<String>) -> (r: bool)
    requires
        m matches Some(s) ==> s.wf(),
    ensures
        r == reach_variants(items@, vs@, opt_map(m), name_set(path@), 0),
    decreases unvisited(items@, name_set(path@), items@.len() as int), 2int, Type::Unit,
{
    let mut j: usize = 0;
    while j < vs.len()
        invariant
            0 <= j <= vs@.len(),
            m matches Some(s) ==> s.wf(),
            reach_variants(items@, vs@, opt_map(m), name_set(path@), 0) == reach_variants(
                items@,
                vs@,
                opt_map(m),
                name_set(path@),
                j as int,
            ),
        decreases vs.len() - j,
    {
        if reach_fields_of(items, &vs[j].fields, m, path) {
            return true;
        }
        j = j + 1;
    }
    false
}

/// The calls whose type argument is carried across threads by a channel.
pub open spec fn is_chan_call(name: Seq<char>) -> bool {
    name == "chan_new"@ || name == "chan_send"@ || name == "chan_recv"@ || name == "chan_try_send"@
        || name == "chan_try_recv"@ || name == "chan_recv_timeout"@ || name == "chan_close"@
        || name == "chan_free"@
}

/// The calls whose type argument is carried by a future.
pub open spec fn is_future_call(name: Seq<char>) -> bool {
    name == "future_new"@ || name == "future_wrap"@
}

/// The diagnostic for a channel element that could view the sending frame.
pub open spec fn chan_msg() -> Seq<char> {
    "a channel element cannot contain a slice, closure, or interface value; a view of the sending thread's frame would dangle in the receiver; send heap owned data instead"@
}

/// The diagnostic for a future element that could view the completing frame.
pub open spec fn future_msg() -> Seq<char> {
    "a future element cannot contain a slice, closure, or interface value; a view of the completing thread's frame would dangle in the awaiter; send heap owned data instead"@
}

/// What the element check reports for a call of `name` with type arguments
/// `targs`: for a channel or future call whose first type argument may not
/// cross, the matching message.
pub open spec fn chan_check_spec(items: Seq<Item>, name: Seq<char>, targs: Seq<TypeV>) -> Option<Seq<char>> {
    if !is_chan_call(name) && !is_future_call(name) {
        None
    } else if targs.len() == 0 {
        None
    } else if cross(items, targs[0], false, Set::empty()) {
        None
    } else if is_chan_call(name) {
        Some(chan_msg())
    } else {
        Some(future_msg())
    }
}

/// Whether a channel element may cross a thread boundary by copy.
pub fn chan_element_ok(items: &Vec<Item>, t: &Type) -> (r: bool)
    ensures
        r == cross(items@, tv(*t), false, Set::empty()),
{
    let path: Vec<String> = Vec::new();
    proof {
        assert(name_set(path@) =~= Set::<Seq<char>>::empty());
    }
    crossable(items, t, false, &path)
}

fn name_is(name: &str, lit: &str) -> (r: bool)
    ensures
        r == (name@ == lit@),
{
    let nc = chars_of(name);
    is_lit(nc.as_slice(), lit)
}

/// Checks the element type of a channel or future call: a slice, closure or
/// interface value in it would view the frame of the thread that built it.
pub fn check_chan_element(items: &Vec<Item>, name: &str, targs: &Vec<Type>, span: Span) -> (r: Option<Diagnostic>)
    ensures
        match chan_check_spec(items@, name@, tvs(targs@)) {
            Some(m) => r matches Some(d) && d.msg@ == m && d.span == span,
            None => r is None,
        },
{
    proof {
        reveal_strlit("chan_new");
        reveal_strlit("chan_send");
        reveal_strlit("chan_recv");
        reveal_strlit("chan_try_send");
        reveal_strlit("chan_try_recv");
        reveal_strlit("chan_recv_timeout");
        reveal_strlit("chan_close");
        reveal_strlit("chan_free");
        reveal_strlit("future_new");
        reveal_strlit("future_wrap");
    }
    let chan = name_is(name, "chan_new") || name_is(name, "chan_send") || name_is(name, "chan_recv")
        || name_is(name, "chan_try_send") || name_is(name, "chan_try_recv") || name_is(
        name,
        "chan_recv_timeout",
    ) || name_is(name, "chan_close") || name_is(name, "chan_free");
    let future = name_is(name, "future_new") || name_is(name, "future_wrap");
    if !chan && !future {
        return None;
    }
    if targs.len() == 0 {
        return None;
    }
    if chan_element_ok(items, &targs[0]) {
        return None;
    }
    let mut msg = String::new();
    if chan {
        push_str(
            &mut msg,
            "a channel element cannot contain a slice, closure, or interface value; a view of the sending thread's frame would dangle in the receiver; send heap owned data instead",
        );
    } else {
        push_str(
            &mut msg,
            "a future element cannot contain a slice, closure, or interface value; a view of the completing thread's frame would dangle in the awaiter; send heap owned data instead",
        );
    }
    Some(Diagnostic { msg, span })
}

/// How many `Future<T>` spellings in `t`, nested ones included, have an
/// element that may not cross.
pub open spec fn spell_count(items: Seq<Item>, t: TypeV) -> nat
    decreases t, 0int,
{
    match t {
        TypeV::Named(n, targs) => if n == "Future"@ && targs.len() == 1 {
            (if cross(items, targs[0], false, Set::empty()) { 0nat } else { 1nat }) + spell_count(
                items,
                targs[0],
            )
        } else {
            spell_counts(items, targs, 0)
        },
        TypeV::Ptr(b) => spell_count(items, *b),
        TypeV::RawPtr(b) => spell_count(items, *b),
        TypeV::Slice(b) => spell_count(items, *b),
        TypeV::Array(b, _) => spell_count(items, *b),
        TypeV::Tuple(xs) => spell_counts(items, xs, 0),
        TypeV::Func(ps, r) => spell_counts(items, ps, 0) + spell_count(items, *r),
        TypeV::Unit => 0,
    }
}

/// The `spell_count` total of the types of `ts` from index `i` on.
pub open spec fn spell_counts(items: Seq<Item>, ts: Seq<TypeV>, i: int) -> nat
    decreases ts, ts.len() - i,
{
    if i < 0 || i >= ts.len() {
        0
    } else {
        spell_count(items, ts[i]) + spell_counts(items, ts, i + 1)
    }
}

/// `new` is `old` followed by `k` diagnostics, each the future element
/// message at `span`.
pub open spec fn appended_spell(old: Seq<Diagnostic>, new: Seq<Diagnostic>, k: nat, span: Span) -> bool {
    &&& new.len() == old.len() + k
    &&& forall|i: int| 0 <= i < old.len() ==> new[i] == old[i]
    &&& forall|i: int| old.len() <= i < new.len() ==> (#[trigger] new[i]).msg@ == future_msg() && new[i].span
        == span
}

proof fn lemma_appended_trans(
    a: Seq<Diagnostic>,
    b: Seq<Diagnostic>,
    c: Seq<Diagnostic>,
    k1: nat,
    k2: nat,
    span: Span,
)
    requires
        appended_spell(a, b, k1, span),
        appended_spell(b, c, k2, span),
    ensures
        appended_spell(a, c, k1 + k2, span),
{
    assert forall|i: int| a.len() <= i < c.len() implies (#[trigger] c[i]).msg@ == future_msg() && c[i].span
        == span by {
        if i < b.len() {
            assert(c[i] == b[i]);
        }
    }
}

/// Reports, at `span`, every `Future<T>` spelled in `t` whose element could
/// view the frame of the thread that completes it: in a binding annotation,
/// a parameter, a field or a return, not only at a mint site.
#[verifier::loop_isolation(false)]
pub fn check_future_spell(items: &Vec<Item>, t: &Type, span: Span, diags: &mut Vec<Diagnostic>)
    ensures
        appended_spell(old(diags)@, final(diags)@, spell_count(items@, tv(*t)), span),
    decreases *t,
{
    let ghost d0 = diags@;
    match t {
        Type::Named(n, targs) => {
            if name_is(n.as_str(), "Future") && targs.len() == 1 {
                if !chan_element_ok(items, &targs[0]) {
                    let mut msg = String::new();
                    push_str(
                        &mut msg,
                        "a future element cannot contain a slice, closure, or interface value; a view of the completing thread's frame would dangle in the awaiter; send heap owned data instead",
                    );
                    diags.push(Diagnostic { msg, span });
                }
                let ghost d1 = diags@;
                assert(appended_spell(d0, d1, if cross(items@, tv(targs@[0]), false, Set::empty()) { 0nat } else { 1nat }, span));
                proof {
                    assert(decreases_to!(*t => targs@[0]));
                }
                check_future_spell(items, &targs[0], span, diags);
                proof {
                    lemma_appended_trans(d0, d1, diags@, if cross(items@, tv(targs@[0]), false, Set::empty()) { 0nat } else { 1nat }, spell_count(items@, tv(targs@[0])), span);
                    assert(tv(*t) == TypeV::Named(n@, tvs(targs@)));
                    assert(tvs(targs@)[0] == tv(targs@[0]));
                    assert(spell_count(items@, tv(*t)) == (if cross(items@, tv(targs@[0]), false, Set::empty()) { 0nat } else { 1nat }) + spell_count(items@, tv(targs@[0])));
                }
            } else {
                walk_spells(items, targs, span, diags);
                assert(tv(*t) == TypeV::Named(n@, tvs(targs@)));
                assert(spell_count(items@, tv(*t)) == spell_counts(items@, tvs(targs@), 0));
            }
        },
        Type::Ptr(b) => check_future_spell(items, b, span, diags),
        Type::RawPtr(b) => check_future_spell(items, b, span, diags),
        Type::Slice(b) => check_future_spell(items, b, span, diags),
        Type::Array(b, _) => check_future_spell(items, b, span, diags),
        Type::Tuple(xs) => walk_spells(items, xs, span, diags),
        Type::Func(ps, r) => {
            walk_spells(items, ps, span, diags);
            let ghost d1 = diags@;
            check_future_spell(items, r, span, diags);
            proof {
                lemma_appended_trans(d0, d1, diags@, spell_counts(items@, tvs(ps@), 0), spell_count(items@, tv(**r)), span);
            }
        },
        Type::Unit => {
            assert(diags@ =~= d0);
        },
    }
}

/// `check_future_spell` on each type of `ts`, in order.
#[verifier::loop_isolation(false)]
fn walk_spells(items: &Vec<Item>, ts: &Vec<Type>, span: Span, diags: &mut Vec<Diagnostic>)
    ensures
        appended_spell(old(diags)@, final(diags)@, spell_counts(items@, tvs(ts@), 0), span),
    decreases ts,
{
    let ghost d0 = diags@;
    let mut i: usize = 0;
    while i < ts.len()
        invariant
            0 <= i <= ts@.len(),
            d0 == old(diags)@,
            appended_spell(
                d0,
                diags@,
                (spell_counts(items@, tvs(ts@), 0) - spell_counts(items@, tvs(ts@), i as int)) as nat,
                span,
            ),
            spell_counts(items@, tvs(ts@), i as int) <= spell_counts(items@, tvs(ts@), 0),
        decreases ts.len() - i,
    {
        let ghost d1 = diags@;
        proof {
            assert(decreases_to!(ts => ts@[i as int]));
        }
        check_future_spell(items, &ts[i], span, diags);
        proof {
            lemma_appended_trans(
                d0,
                d1,
                diags@,
                (spell_counts(items@, tvs(ts@), 0) - spell_counts(items@, tvs(ts@), i as int)) as nat,
                spell_count(items@, tv(ts@[i as int])),
                span,
            );
        }
        i = i + 1;
    }
}

} // verus!
