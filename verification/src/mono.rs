//! Type-level helpers of the monomorphizer: substitutions from type parameter
//! names to types, applying them, inferring them by unification, and mangling
//! an instantiation to a token-safe name.

pub mod checks;
pub mod cross;
pub mod emit;
pub mod infer;

use vstd::prelude::*;
use crate::parser::ast::{tv, tvs, Type, TypeV};
use crate::text::{chars_of, dec, is_digit, is_lit, lemma_dec_dollar, lemma_dec_digits, push_dec, push_str};

verus! {

/// A copy of a type.
pub fn clone_type(t: &Type) -> (r: Type)
    ensures
        tv(r) == tv(*t),
    decreases t,
{
    match t {
        Type::Named(n, args) => Type::Named(n.clone(), clone_types(args)),
        Type::Ptr(b) => Type::Ptr(Box::new(clone_type(b))),
        Type::RawPtr(b) => Type::RawPtr(Box::new(clone_type(b))),
        Type::Slice(b) => Type::Slice(Box::new(clone_type(b))),
        Type::Array(b, n) => Type::Array(Box::new(clone_type(b)), *n),
        Type::Tuple(xs) => Type::Tuple(clone_types(xs)),
        Type::Func(ps, r) => Type::Func(clone_types(ps), Box::new(clone_type(r))),
        Type::Unit => Type::Unit,
    }
}

/// A copy of a list of types.
pub fn clone_types(v: &Vec<Type>) -> (r: Vec<Type>)
    ensures
        tvs(r@) == tvs(v@),
    decreases v,
{
    let mut out: Vec<Type> = Vec::new();
    let mut i: usize = 0;
    while i < v.len()
        invariant
            0 <= i <= v@.len(),
            out@.len() == i,
            forall|j: int| 0 <= j < i ==> tv(#[trigger] out@[j]) == tv(v@[j]),
        decreases v.len() - i,
    {
        proof {
            assert(decreases_to!(v => v@[i as int]));
        }
        out.push(clone_type(&v[i]));
        i = i + 1;
    }
    assert(tvs(out@) =~= tvs(v@));
    out
}

/// A named type with no arguments.
pub fn named(n: &str) -> (t: Type)
    ensures
        tv(t) == TypeV::Named(n@, seq![]),
{
    let mut s = String::new();
    push_str(&mut s, n);
    let v: Vec<Type> = Vec::new();
    assert(tvs(v@) =~= Seq::<TypeV>::empty());
    Type::Named(s, v)
}

/// A substitution from type parameter names to types, as a list of entries
/// whose names are pairwise distinct.
pub struct Subst {
    entries: Vec<(String, Type)>,
}

/// The map the first `i` entries describe, a later entry overriding an
/// earlier one on the same name.
pub open spec fn entries_map(e: Seq<(String, Type)>, i: int) -> Map<Seq<char>, TypeV>
    decreases i,
{
    if i <= 0 {
        Map::empty()
    } else {
        entries_map(e, i - 1).insert(e[i - 1].0@, tv(e[i - 1].1))
    }
}

pub open spec fn distinct_keys(e: Seq<(String, Type)>) -> bool {
    forall|i: int, j: int| 0 <= i < j < e.len() ==> (#[trigger] e[i]).0@ != (#[trigger] e[j]).0@
}

proof fn lemma_entries_map(e: Seq<(String, Type)>, i: int, k: Seq<char>)
    requires
        0 <= i <= e.len(),
        distinct_keys(e),
    ensures
        entries_map(e, i).contains_key(k) <==> exists|j: int| 0 <= j < i && (#[trigger] e[j]).0@ == k,
        forall|j: int| 0 <= j < i && (#[trigger] e[j]).0@ == k ==> entries_map(e, i)[k] == tv(e[j].1),
    decreases i,
{
    if i > 0 {
        lemma_entries_map(e, i - 1, k);
    }
}

impl View for Subst {
    type V = Map<Seq<char>, TypeV>;

    closed spec fn view(&self) -> Map<Seq<char>, TypeV> {
        entries_map(self.entries@, self.entries@.len() as int)
    }
}

impl Subst {
    /// The entries' names are pairwise distinct.
    pub closed spec fn wf(&self) -> bool {
        distinct_keys(self.entries@)
    }

    pub fn new() -> (s: Subst)
        ensures
            s.wf(),
            s@ == Map::<Seq<char>, TypeV>::empty(),
    {
        Subst { entries: Vec::new() }
    }

    fn find(&self, k: &String) -> (r: Option<usize>)
        ensures
            r matches Some(i) ==> i < self.entries@.len() && self.entries@[i as int].0@ == k@,
            r is None ==> forall|j: int| 0 <= j < self.entries@.len() ==> (#[trigger] self.entries@[j]).0@ != k@,
    {
        let mut i: usize = 0;
        while i < self.entries.len()
            invariant
                0 <= i <= self.entries@.len(),
                forall|j: int| 0 <= j < i ==> (#[trigger] self.entries@[j]).0@ != k@,
            decreases self.entries.len() - i,
        {
            if self.entries[i].0 == *k {
                return Some(i);
            }
            i = i + 1;
        }
        None
    }

    /// The type bound to `k`, if any.
    pub fn get(&self, k: &String) -> (r: Option<Type>)
        requires
            self.wf(),
        ensures
            match r {
                Some(t) => self@.contains_key(k@) && tv(t) == self@[k@],
                None => !self@.contains_key(k@),
            },
    {
        proof {
            lemma_entries_map(self.entries@, self.entries@.len() as int, k@);
        }
        match self.find(k) {
            Some(i) => Some(clone_type(&self.entries[i].1)),
            None => None,
        }
    }

    /// Binds `k` to `t`, replacing any earlier binding.
    pub fn insert(&mut self, k: String, t: Type)
        requires
            old(self).wf(),
        ensures
            final(self).wf(),
            final(self)@ == old(self)@.insert(k@, tv(t)),
    {
        let ghost old_e = self.entries@;
        let ghost kv = k@;
        let ghost tt = tv(t);
        match self.find(&k) {
            Some(i) => {
                let _ = self.entries.remove(i);
                self.entries.insert(i, (k, t));
                proof {
                    let e = self.entries@;
                    assert(e == old_e.update(i as int, e[i as int]));
                    assert forall|x: Seq<char>| #![auto] true implies (entries_map(e, e.len() as int).contains_key(x) == old(self)@.insert(kv, tt).contains_key(x)) by {
                        lemma_entries_map(e, e.len() as int, x);
                        lemma_entries_map(old_e, old_e.len() as int, x);
                        if x != kv {
                            if exists|j: int| 0 <= j < old_e.len() && (#[trigger] old_e[j]).0@ == x {
                                let j = choose|j: int| 0 <= j < old_e.len() && (#[trigger] old_e[j]).0@ == x;
                                assert(e[j] == old_e[j]);
                            }
                            if exists|j: int| 0 <= j < e.len() && (#[trigger] e[j]).0@ == x {
                                let j = choose|j: int| 0 <= j < e.len() && (#[trigger] e[j]).0@ == x;
                                assert(e[j] == old_e[j]);
                            }
                        }
                    }
                    assert(entries_map(e, e.len() as int) =~= old(self)@.insert(kv, tt)) by {
                        assert forall|x: Seq<char>| #[trigger] entries_map(e, e.len() as int).contains_key(x) implies entries_map(e, e.len() as int)[x] == old(self)@.insert(kv, tt)[x] by {
                            lemma_entries_map(e, e.len() as int, x);
                            lemma_entries_map(old_e, old_e.len() as int, x);
                            let j = choose|j: int| 0 <= j < e.len() && (#[trigger] e[j]).0@ == x;
                            if x != kv {
                                assert(e[j] == old_e[j]);
                            } else {
                                assert(j == i);
                            }
                        }
                    }
                }
            },
            None => {
                self.entries.push((k, t));
                proof {
                    let e = self.entries@;
                    assert(e.drop_last() =~= old_e);
                    assert(entries_map(e, e.len() as int) == entries_map(old_e, old_e.len() as int).insert(kv, tt)) by {
                        assert forall|j: int| 0 <= j < old_e.len() implies entries_map(e, j) == entries_map(old_e, j) by {
                            lemma_prefix_map(e, old_e, j);
                        }
                        lemma_prefix_map(e, old_e, old_e.len() as int);
                    }
                }
            },
        }
    }

    /// Binds `k` to `t` unless `k` is already bound.
    pub fn insert_if_absent(&mut self, k: String, t: Type)
        requires
            old(self).wf(),
        ensures
            final(self).wf(),
            final(self)@ == if old(self)@.contains_key(k@) {
                old(self)@
            } else {
                old(self)@.insert(k@, tv(t))
            },
    {
        proof {
            lemma_entries_map(self.entries@, self.entries@.len() as int, k@);
        }
        match self.find(&k) {
            Some(_) => {},
            None => {
                self.insert(k, t);
            },
        }
    }

    /// A copy of this substitution.
    pub fn copy(&self) -> (r: Subst)
        requires
            self.wf(),
        ensures
            r.wf(),
            r@ == self@,
    {
        let mut out = Subst::new();
        let mut i: usize = 0;
        while i < self.entries.len()
            invariant
                0 <= i <= self.entries@.len(),
                distinct_keys(self.entries@),
                out.wf(),
                out@ == entries_map(self.entries@, i as int),
            decreases self.entries.len() - i,
        {
            out.insert(self.entries[i].0.clone(), clone_type(&self.entries[i].1));
            i = i + 1;
        }
        out
    }
}

proof fn lemma_prefix_map(e: Seq<(String, Type)>, f: Seq<(String, Type)>, j: int)
    requires
        0 <= j <= f.len() <= e.len(),
        forall|k: int| 0 <= k < f.len() ==> e[k] == f[k],
    ensures
        entries_map(e, j) == entries_map(f, j),
    decreases j,
{
    if j > 0 {
        lemma_prefix_map(e, f, j - 1);
    }
}

/// The bindings of `generics` to `args`, pairwise, a later duplicate name
/// overriding an earlier one.
pub open spec fn bind_spec(generics: Seq<String>, args: Seq<Type>, i: int) -> Map<Seq<char>, TypeV>
    decreases i,
{
    if i <= 0 {
        Map::empty()
    } else {
        bind_spec(generics, args, i - 1).insert(generics[i - 1]@, tv(args[i - 1]))
    }
}

/// Binds each type parameter to the argument in the same position.
pub fn bind(generics: &[String], args: &[Type]) -> (s: Subst)
    ensures
        s.wf(),
        s@ == bind_spec(generics@, args@, if generics@.len() <= args@.len() {
            generics@.len() as int
        } else {
            args@.len() as int
        }),
{
    let n = if generics.len() <= args.len() { generics.len() } else { args.len() };
    let mut s = Subst::new();
    let mut i: usize = 0;
    while i < n
        invariant
            0 <= i <= n,
            n <= generics@.len(),
            n <= args@.len(),
            s.wf(),
            s@ == bind_spec(generics@, args@, i as int),
        decreases n - i,
    {
        s.insert(generics[i].clone(), clone_type(&args[i]));
        i = i + 1;
    }
    s
}

/// Merges two substitutions, the second overriding the first on a shared name.
pub fn union(base: &Subst, over: &Subst) -> (s: Subst)
    requires
        base.wf(),
        over.wf(),
    ensures
        s.wf(),
        s@ == base@.union_prefer_right(over@),
{
    let mut out = base.copy();
    let mut i: usize = 0;
    while i < over.entries.len()
        invariant
            0 <= i <= over.entries@.len(),
            distinct_keys(over.entries@),
            out.wf(),
            out@ == base@.union_prefer_right(entries_map(over.entries@, i as int)),
        decreases over.entries.len() - i,
    {
        out.insert(over.entries[i].0.clone(), clone_type(&over.entries[i].1));
        proof {
            let e = over.entries@;
            assert(base@.union_prefer_right(entries_map(e, i + 1)) =~= base@.union_prefer_right(
                entries_map(e, i as int),
            ).insert(e[i as int].0@, tv(e[i as int].1)));
        }
        i = i + 1;
    }
    out
}

/// Whether a type mentions any of the given names as a bare type parameter.
pub open spec fn mentions_spec(t: TypeV, names: Set<Seq<char>>) -> bool
    decreases t,
{
    match t {
        TypeV::Named(n, args) => if args.len() == 0 {
            names.contains(n)
        } else {
            any_mentions_spec(args, names)
        },
        TypeV::Ptr(b) => mentions_spec(*b, names),
        TypeV::RawPtr(b) => mentions_spec(*b, names),
        TypeV::Slice(b) => mentions_spec(*b, names),
        TypeV::Array(b, _) => mentions_spec(*b, names),
        TypeV::Tuple(xs) => any_mentions_spec(xs, names),
        TypeV::Func(ps, r) => any_mentions_spec(ps, names) || mentions_spec(*r, names),
        TypeV::Unit => false,
    }
}

/// Whether any type of a list mentions one of the names.
pub open spec fn any_mentions_spec(xs: Seq<TypeV>, names: Set<Seq<char>>) -> bool
    decreases xs,
{
    exists|i: int| 0 <= i < xs.len() && mentions_spec(#[trigger] xs[i], names)
}

pub open spec fn name_set(names: Seq<String>) -> Set<Seq<char>> {
    Set::new(|s: Seq<char>| exists|j: int| 0 <= j < names.len() && (#[trigger] names[j])@ == s)
}

pub fn contains_name(names: &[String], n: &String) -> (r: bool)
    ensures
        r == name_set(names@).contains(n@),
{
    let mut i: usize = 0;
    while i < names.len()
        invariant
            0 <= i <= names@.len(),
            forall|j: int| 0 <= j < i ==> (#[trigger] names@[j])@ != n@,
        decreases names.len() - i,
    {
        if names[i] == *n {
            assert(name_set(names@).contains(n@)) by {
                assert(names@[i as int]@ == n@);
            }
            return true;
        }
        i = i + 1;
    }
    false
}

fn any_mentions(xs: &Vec<Type>, names: &[String]) -> (r: bool)
    ensures
        r == any_mentions_spec(tvs(xs@), name_set(names@)),
    decreases xs,
{
    let mut i: usize = 0;
    while i < xs.len()
        invariant
            0 <= i <= xs@.len(),
            forall|j: int| 0 <= j < i ==> !mentions_spec(#[trigger] tvs(xs@)[j], name_set(names@)),
        decreases xs.len() - i,
    {
        proof {
            assert(decreases_to!(xs => xs@[i as int]));
        }
        if mentions(&xs[i], names) {
            assert(mentions_spec(tvs(xs@)[i as int], name_set(names@)));
            return true;
        }
        i = i + 1;
    }
    false
}

/// Whether a type still mentions any of the given type parameter names. Used
/// to reject a not fully inferred type before it leaks into outer inference.
pub fn mentions(ty: &Type, names: &[String]) -> (r: bool)
    ensures
        r == mentions_spec(tv(*ty), name_set(names@)),
    decreases ty,
{
    match ty {
        Type::Named(n, args) => {
            assert(tv(*ty) == TypeV::Named(n@, tvs(args@)));
            assert(tvs(args@).len() == args@.len());
            if args.len() == 0 {
                let r = contains_name(names, n);
                assert(tvs(args@).len() == 0);
                assert(mentions_spec(TypeV::Named(n@, tvs(args@)), name_set(names@)) == name_set(names@).contains(n@));
                assert(r == mentions_spec(tv(*ty), name_set(names@)));
                r
            } else {
                let r = any_mentions(args, names);
                assert(r == mentions_spec(tv(*ty), name_set(names@)));
                r
            }
        },
        Type::Ptr(b) => {
            let r = mentions(b, names);
            assert(r == mentions_spec(tv(*ty), name_set(names@)));
            r
        },
        Type::RawPtr(b) => {
            let r = mentions(b, names);
            assert(r == mentions_spec(tv(*ty), name_set(names@)));
            r
        },
        Type::Slice(b) => {
            let r = mentions(b, names);
            assert(r == mentions_spec(tv(*ty), name_set(names@)));
            r
        },
        Type::Array(b, _) => {
            let r = mentions(b, names);
            assert(r == mentions_spec(tv(*ty), name_set(names@)));
            r
        },
        Type::Tuple(xs) => {
            assert(tv(*ty) == TypeV::Tuple(tvs(xs@)));
            let r = any_mentions(xs, names);
            assert(r == mentions_spec(tv(*ty), name_set(names@)));
            r
        },
        Type::Func(ps, r) => {
            assert(tv(*ty) == TypeV::Func(tvs(ps@), Box::new(tv(**r))));
            let a = any_mentions(ps, names);
            let b = mentions(r, names);
            assert((a || b) == mentions_spec(tv(*ty), name_set(names@)));
            a || b
        },
        Type::Unit => false,
    }
}

/// `t` with each bare type parameter the substitution binds replaced.
pub open spec fn subst_spec(t: TypeV, m: Map<Seq<char>, TypeV>) -> TypeV
    decreases t,
{
    match t {
        TypeV::Named(n, args) => if args.len() == 0 {
            if m.contains_key(n) {
                m[n]
            } else {
                TypeV::Named(n, seq![])
            }
        } else {
            TypeV::Named(n, subst_seq(args, m))
        },
        TypeV::Ptr(b) => TypeV::Ptr(Box::new(subst_spec(*b, m))),
        TypeV::RawPtr(b) => TypeV::RawPtr(Box::new(subst_spec(*b, m))),
        TypeV::Slice(b) => TypeV::Slice(Box::new(subst_spec(*b, m))),
        TypeV::Array(b, n) => TypeV::Array(Box::new(subst_spec(*b, m)), n),
        TypeV::Tuple(xs) => TypeV::Tuple(subst_seq(xs, m)),
        TypeV::Func(ps, r) => TypeV::Func(subst_seq(ps, m), Box::new(subst_spec(*r, m))),
        TypeV::Unit => TypeV::Unit,
    }
}

/// Each type of a list with the substitution applied.
pub open spec fn subst_seq(xs: Seq<TypeV>, m: Map<Seq<char>, TypeV>) -> Seq<TypeV>
    decreases xs,
{
    Seq::new(xs.len(), |i: int| if 0 <= i < xs.len() { subst_spec(xs[i], m) } else { TypeV::Unit })
}

fn subst_all(xs: &Vec<Type>, subst: &Subst) -> (r: Vec<Type>)
    requires
        subst.wf(),
    ensures
        tvs(r@) == subst_seq(tvs(xs@), subst@),
    decreases xs,
{
    let mut out: Vec<Type> = Vec::new();
    let mut i: usize = 0;
    while i < xs.len()
        invariant
            0 <= i <= xs@.len(),
            subst.wf(),
            out@.len() == i,
            forall|j: int| 0 <= j < i ==> tv(#[trigger] out@[j]) == subst_spec(tv(xs@[j]), subst@),
        decreases xs.len() - i,
    {
        proof {
            assert(decreases_to!(xs => xs@[i as int]));
        }
        out.push(subst_apply(&xs[i], subst));
        i = i + 1;
    }
    assert(tvs(out@) =~= subst_seq(tvs(xs@), subst@));
    out
}

/// Applies a substitution to a type.
pub fn subst_apply(ty: &Type, subst: &Subst) -> (r: Type)
    requires
        subst.wf(),
    ensures
        tv(r) == subst_spec(tv(*ty), subst@),
    decreases ty,
{
    match ty {
        Type::Named(n, args) => {
            assert(tv(*ty) == TypeV::Named(n@, tvs(args@)));
            if args.len() == 0 {
                match subst.get(n) {
                    Some(t) => t,
                    None => {
                        let v: Vec<Type> = Vec::new();
                        assert(tvs(v@) =~= Seq::<TypeV>::empty());
                        Type::Named(n.clone(), v)
                    },
                }
            } else {
                Type::Named(n.clone(), subst_all(args, subst))
            }
        },
        Type::Ptr(b) => Type::Ptr(Box::new(subst_apply(b, subst))),
        Type::RawPtr(b) => Type::RawPtr(Box::new(subst_apply(b, subst))),
        Type::Slice(b) => Type::Slice(Box::new(subst_apply(b, subst))),
        Type::Array(b, n) => Type::Array(Box::new(subst_apply(b, subst)), *n),
        Type::Tuple(xs) => {
            assert(tv(*ty) == TypeV::Tuple(tvs(xs@)));
            Type::Tuple(subst_all(xs, subst))
        },
        Type::Func(ps, r) => {
            assert(tv(*ty) == TypeV::Func(tvs(ps@), Box::new(tv(**r))));
            Type::Func(subst_all(ps, subst), Box::new(subst_apply(r, subst)))
        },
        Type::Unit => Type::Unit,
    }
}

/// Law: applying the empty substitution leaves a type unchanged.
pub proof fn law_subst_empty(t: TypeV)
    ensures
        subst_spec(t, Map::empty()) == t,
    decreases t,
{
    match t {
        TypeV::Named(n, args) => {
            if args.len() == 0 {
                assert(args =~= seq![]);
            } else {
                assert forall|i: int| 0 <= i < args.len() implies subst_spec(args[i], Map::empty()) == args[i] by {
                    law_subst_empty(args[i]);
                }
                assert(subst_seq(args, Map::empty()) =~= args);
            }
        },
        TypeV::Ptr(b) => law_subst_empty(*b),
        TypeV::RawPtr(b) => law_subst_empty(*b),
        TypeV::Slice(b) => law_subst_empty(*b),
        TypeV::Array(b, _) => law_subst_empty(*b),
        TypeV::Tuple(xs) => {
            assert forall|i: int| 0 <= i < xs.len() implies subst_spec(xs[i], Map::empty()) == xs[i] by {
                law_subst_empty(xs[i]);
            }
            assert(subst_seq(xs, Map::empty()) =~= xs);
        },
        TypeV::Func(ps, r) => {
            assert forall|i: int| 0 <= i < ps.len() implies subst_spec(ps[i], Map::empty()) == ps[i] by {
                law_subst_empty(ps[i]);
            }
            assert(subst_seq(ps, Map::empty()) =~= ps);
            law_subst_empty(*r);
        },
        TypeV::Unit => {},
    }
}

/// Law: a type that mentions none of the substitution's names is left as is.
pub proof fn law_subst_unmentioned(t: TypeV, m: Map<Seq<char>, TypeV>)
    requires
        !mentions_spec(t, m.dom()),
    ensures
        subst_spec(t, m) == t,
    decreases t,
{
    match t {
        TypeV::Named(n, args) => {
            if args.len() == 0 {
                assert(args =~= seq![]);
            } else {
                assert forall|i: int| 0 <= i < args.len() implies subst_spec(args[i], m) == args[i] by {
                    assert(!any_mentions_spec(args, m.dom()));
                    assert(!mentions_spec(args[i], m.dom()));
                    law_subst_unmentioned(args[i], m);
                }
                assert(subst_seq(args, m) =~= args);
            }
        },
        TypeV::Ptr(b) => law_subst_unmentioned(*b, m),
        TypeV::RawPtr(b) => law_subst_unmentioned(*b, m),
        TypeV::Slice(b) => law_subst_unmentioned(*b, m),
        TypeV::Array(b, _) => law_subst_unmentioned(*b, m),
        TypeV::Tuple(xs) => {
            assert forall|i: int| 0 <= i < xs.len() implies subst_spec(xs[i], m) == xs[i] by {
                assert(!any_mentions_spec(xs, m.dom()));
                assert(!mentions_spec(xs[i], m.dom()));
                law_subst_unmentioned(xs[i], m);
            }
            assert(subst_seq(xs, m) =~= xs);
        },
        TypeV::Func(ps, r) => {
            assert forall|i: int| 0 <= i < ps.len() implies subst_spec(ps[i], m) == ps[i] by {
                assert(!any_mentions_spec(ps, m.dom()));
                assert(!mentions_spec(ps[i], m.dom()));
                law_subst_unmentioned(ps[i], m);
            }
            assert(subst_seq(ps, m) =~= ps);
            law_subst_unmentioned(*r, m);
        },
        TypeV::Unit => {},
    }
}

/// The type each parameter resolves to: its inferred binding, or `int64`.
pub open spec fn solve_types(generics: Seq<String>, inf: Map<Seq<char>, TypeV>) -> Seq<TypeV> {
    Seq::new(
        generics.len(),
        |i: int| if inf.contains_key(generics[i]@) {
            inf[generics[i]@]
        } else {
            TypeV::Named("int64"@, seq![])
        },
    )
}

/// The parameters no binding pins, in order.
pub open spec fn unsolved(generics: Seq<String>, inf: Map<Seq<char>, TypeV>, i: int) -> Seq<Seq<char>>
    decreases i,
{
    if i <= 0 {
        seq![]
    } else if inf.contains_key(generics[i - 1]@) {
        unsolved(generics, inf, i - 1)
    } else {
        unsolved(generics, inf, i - 1).push(generics[i - 1]@)
    }
}

pub open spec fn strs(v: Seq<String>) -> Seq<Seq<char>> {
    v.map_values(|s: String| s@)
}

/// Resolves each type parameter from the inferred substitution. A parameter no
/// site pinned defaults to int64 so expansion can proceed, and its name is
/// returned so the caller can report it.
pub fn solve(generics: &[String], inf: &Subst) -> (r: (Vec<Type>, Vec<String>))
    requires
        inf.wf(),
    ensures
        tvs(r.0@) == solve_types(generics@, inf@),
        strs(r.1@) == unsolved(generics@, inf@, generics@.len() as int),
{
    let mut out: Vec<Type> = Vec::new();
    let mut missing: Vec<String> = Vec::new();
    let mut i: usize = 0;
    while i < generics.len()
        invariant
            0 <= i <= generics@.len(),
            inf.wf(),
            out@.len() == i,
            forall|j: int| 0 <= j < i ==> tv(#[trigger] out@[j]) == solve_types(generics@, inf@)[j],
            strs(missing@) == unsolved(generics@, inf@, i as int),
        decreases generics.len() - i,
    {
        match inf.get(&generics[i]) {
            Some(t) => {
                out.push(t);
            },
            None => {
                let ghost before = missing@;
                missing.push(generics[i].clone());
                out.push(named("int64"));
                assert(strs(missing@) =~= strs(before).push(generics@[i as int]@));
            },
        }
        i = i + 1;
    }
    assert(tvs(out@) =~= solve_types(generics@, inf@));
    (out, missing)
}

/// Unifies a declared type pattern against a concrete type, binding each type
/// parameter the first time it is met; later sites never override it.
pub open spec fn unify_spec(pat: TypeV, conc: TypeV, params: Set<Seq<char>>, out: Map<Seq<char>, TypeV>) -> Map<Seq<char>, TypeV>
    decreases pat, 0int,
{
    match pat {
        TypeV::Named(n, pargs) => if pargs.len() == 0 && params.contains(n) {
            if out.contains_key(n) {
                out
            } else {
                out.insert(n, conc)
            }
        } else {
            match conc {
                TypeV::Named(_, cargs) => unify_list(pargs, cargs, 0, params, out),
                _ => out,
            }
        },
        TypeV::Ptr(pb) => match conc {
            TypeV::Ptr(cb) => unify_spec(*pb, *cb, params, out),
            _ => out,
        },
        TypeV::Slice(pb) => match conc {
            TypeV::Slice(cb) => unify_spec(*pb, *cb, params, out),
            TypeV::Array(cb, _) => unify_spec(*pb, *cb, params, out),
            _ => out,
        },
        TypeV::Array(pb, _) => match conc {
            TypeV::Array(cb, _) => unify_spec(*pb, *cb, params, out),
            _ => out,
        },
        _ => out,
    }
}

/// Unifies argument lists pairwise from index `i`, up to the shorter length.
pub open spec fn unify_list(ps: Seq<TypeV>, cs: Seq<TypeV>, i: int, params: Set<Seq<char>>, out: Map<Seq<char>, TypeV>) -> Map<Seq<char>, TypeV>
    decreases ps, ps.len() - i,
{
    if i < 0 || i >= ps.len() || i >= cs.len() {
        out
    } else {
        unify_list(ps, cs, i + 1, params, unify_spec(ps[i], cs[i], params, out))
    }
}

/// Infers type parameter bindings by matching `pat` against `concrete`.
pub fn unify(pat: &Type, concrete: &Type, params: &[String], out: &mut Subst)
    requires
        old(out).wf(),
    ensures
        final(out).wf(),
        final(out)@ == unify_spec(tv(*pat), tv(*concrete), name_set(params@), old(out)@),
    decreases pat,
{
    match pat {
        Type::Named(n, pargs) => {
            assert(tv(*pat) == TypeV::Named(n@, tvs(pargs@)));
            if let Type::Named(cn, cargs) = concrete {
                assert(tv(*concrete) == TypeV::Named(cn@, tvs(cargs@)));
            }
            if pargs.len() == 0 && contains_name(params, n) {
                out.insert_if_absent(n.clone(), clone_type(concrete));
            } else {
                match concrete {
                    Type::Named(_, cargs) => unify_args(pargs, cargs, params, out),
                    _ => {},
                }
            }
        },
        Type::Ptr(pb) => {
            match concrete {
                Type::Ptr(cb) => unify(pb, cb, params, out),
                _ => {},
            }
        },
        Type::Slice(pb) => {
            match concrete {
                Type::Slice(cb) => unify(pb, cb, params, out),
                Type::Array(cb, _) => unify(pb, cb, params, out),
                _ => {},
            }
        },
        Type::Array(pb, _) => {
            match concrete {
                Type::Array(cb, _) => unify(pb, cb, params, out),
                _ => {},
            }
        },
        _ => {},
    }
}

/// Unifies argument lists pairwise up to the shorter length.
fn unify_args(pargs: &Vec<Type>, cargs: &Vec<Type>, params: &[String], out: &mut Subst)
    requires
        old(out).wf(),
    ensures
        final(out).wf(),
        final(out)@ == unify_list(tvs(pargs@), tvs(cargs@), 0, name_set(params@), old(out)@),
    decreases pargs,
{
    let mut i: usize = 0;
    let ghost ps = tvs(pargs@);
    let ghost cs = tvs(cargs@);
    let ghost target = unify_list(ps, cs, 0, name_set(params@), old(out)@);
    while i < pargs.len() && i < cargs.len()
        invariant
            0 <= i <= pargs@.len(),
            ps == tvs(pargs@),
            cs == tvs(cargs@),
            out.wf(),
            target == unify_list(ps, cs, i as int, name_set(params@), out@),
        decreases pargs.len() - i,
    {
        proof {
            assert(decreases_to!(pargs => pargs@[i as int]));
        }
        unify(&pargs[i], &cargs[i], params, out);
        i = i + 1;
    }
}

/// The injective token-safe spelling of a type. Nested generic references
/// carry an arity prefix so siblings and nesting never alias, and non nominal
/// constructors use a leading `$` marker that no source identifier can begin
/// with.
pub open spec fn flat_spec(t: TypeV) -> Seq<char>
    decreases t, 0int,
{
    match t {
        TypeV::Named(n, args) => if args.len() == 0 {
            n
        } else {
            n + "$"@ + dec(args.len()) + "$"@ + flat_join(args, args.len() as int)
        },
        TypeV::Ptr(b) => "$p$"@ + flat_spec(*b),
        TypeV::RawPtr(b) => "$rp$"@ + flat_spec(*b),
        TypeV::Slice(b) => "$s$"@ + flat_spec(*b),
        TypeV::Array(b, n) => "$a"@ + dec(n as nat) + "$"@ + flat_spec(*b),
        TypeV::Tuple(xs) => "$t"@ + dec(xs.len()) + "$"@ + flat_join(xs, xs.len() as int),
        TypeV::Func(ps, r) => "$f"@ + dec(ps.len()) + "$"@ + flat_join(ps, ps.len() as int) + "$"@
            + flat_spec(*r),
        TypeV::Unit => "$void"@,
    }
}

/// The spellings of the first `i` types joined by `$`.
pub open spec fn flat_join(xs: Seq<TypeV>, i: int) -> Seq<char>
    decreases xs, i,
{
    if i <= 0 || i > xs.len() {
        Seq::empty()
    } else if i == 1 {
        flat_spec(xs[0])
    } else {
        flat_join(xs, i - 1) + "$"@ + flat_spec(xs[i - 1])
    }
}

/// Appends the spellings of a list of types joined by `$`.
fn push_flat_join(out: &mut String, xs: &Vec<Type>)
    ensures
        final(out)@ == old(out)@ + flat_join(tvs(xs@), xs@.len() as int),
    decreases xs,
{
    let ghost start = out@;
    let mut i: usize = 0;
    while i < xs.len()
        invariant
            0 <= i <= xs@.len(),
            out@ == start + flat_join(tvs(xs@), i as int),
        decreases xs.len() - i,
    {
        if i > 0 {
            push_str(out, "$");
        }
        proof {
            assert(decreases_to!(xs => xs@[i as int]));
        }
        push_flat(out, &xs[i]);
        proof {
            assert(tvs(xs@)[i as int] == tv(xs@[i as int]));
        }
        i = i + 1;
    }
}

/// Appends the spelling of a type.
fn push_flat(out: &mut String, ty: &Type)
    ensures
        final(out)@ == old(out)@ + flat_spec(tv(*ty)),
    decreases ty,
{
    match ty {
        Type::Named(n, args) => {
            assert(tv(*ty) == TypeV::Named(n@, tvs(args@)));
            push_str(out, n.as_str());
            if args.len() > 0 {
                push_str(out, "$");
                push_dec(out, args.len() as u64);
                push_str(out, "$");
                push_flat_join(out, args);
            }
        },
        Type::Ptr(b) => {
            push_str(out, "$p$");
            push_flat(out, b);
        },
        Type::RawPtr(b) => {
            push_str(out, "$rp$");
            push_flat(out, b);
        },
        Type::Slice(b) => {
            push_str(out, "$s$");
            push_flat(out, b);
        },
        Type::Array(b, n) => {
            push_str(out, "$a");
            push_dec(out, *n);
            push_str(out, "$");
            push_flat(out, b);
        },
        Type::Tuple(xs) => {
            assert(tv(*ty) == TypeV::Tuple(tvs(xs@)));
            push_str(out, "$t");
            push_dec(out, xs.len() as u64);
            push_str(out, "$");
            push_flat_join(out, xs);
        },
        Type::Func(ps, r) => {
            assert(tv(*ty) == TypeV::Func(tvs(ps@), Box::new(tv(**r))));
            push_str(out, "$f");
            push_dec(out, ps.len() as u64);
            push_str(out, "$");
            push_flat_join(out, ps);
            push_str(out, "$");
            push_flat(out, r);
        },
        Type::Unit => {
            push_str(out, "$void");
        },
    }
}

/// Flattens a type to an injective token-safe string.
pub fn flat(ty: &Type) -> (s: String)
    ensures
        s@ == flat_spec(tv(*ty)),
{
    let mut s = String::new();
    push_flat(&mut s, ty);
    s
}

/// The mangled name of an instantiation, `name$arg$arg`.
pub open spec fn mangle_spec(name: Seq<char>, args: Seq<TypeV>) -> Seq<char> {
    if args.len() == 0 {
        name
    } else {
        name + "$"@ + flat_join(args, args.len() as int)
    }
}

/// The mangled name of an instantiation, `name$arg$arg`, shared by codegen so
/// an async call's result type packs into the identical name.
pub fn mangle(name: &str, args: &Vec<Type>) -> (s: String)
    ensures
        s@ == mangle_spec(name@, tvs(args@)),
{
    let mut s = String::new();
    push_str(&mut s, name);
    if args.len() > 0 {
        push_str(&mut s, "$");
        push_flat_join(&mut s, args);
    }
    s
}

/// The integer type a literal's suffix names; no suffix means `int64`.
pub open spec fn int_lit_spec(suffix: Option<Seq<char>>) -> Seq<char> {
    match suffix {
        Some(s) => if s == "i8"@ {
            "int8"@
        } else if s == "u8"@ {
            "uint8"@
        } else if s == "i16"@ {
            "int16"@
        } else if s == "u16"@ {
            "uint16"@
        } else if s == "i32"@ {
            "int32"@
        } else if s == "u32"@ {
            "uint32"@
        } else if s == "u64"@ {
            "uint64"@
        } else {
            "int64"@
        },
        None => "int64"@,
    }
}

/// An integer literal's suffix names its type: `iN` is `intN` and `uN` is
/// `uintN` for each width N of 8, 16, 32 and 64, and a literal without a
/// suffix is an `int64`.
pub proof fn law_int_lit_suffix(bits: nat)
    requires
        bits == 8 || bits == 16 || bits == 32 || bits == 64,
    ensures
        int_lit_spec(Some("i"@ + dec(bits))) == "int"@ + dec(bits),
        int_lit_spec(Some("u"@ + dec(bits))) == "uint"@ + dec(bits),
        int_lit_spec(None) == "int64"@,
{
    reveal_strlit("i");
    reveal_strlit("u");
    reveal_strlit("int");
    reveal_strlit("uint");
    reveal_strlit("i8");
    reveal_strlit("u8");
    reveal_strlit("i16");
    reveal_strlit("u16");
    reveal_strlit("i32");
    reveal_strlit("u32");
    reveal_strlit("u64");
    reveal_strlit("i64");
    reveal_strlit("int8");
    reveal_strlit("uint8");
    reveal_strlit("int16");
    reveal_strlit("uint16");
    reveal_strlit("int32");
    reveal_strlit("uint32");
    reveal_strlit("int64");
    reveal_strlit("uint64");
    if bits == 8 {
        assert(dec(8) =~= seq!['8']) by { reveal_with_fuel(dec, 3); }
        assert("i"@ + dec(8) =~= "i8"@);
        assert("int"@ + dec(8) =~= "int8"@);
        assert("i8"@ != "u8"@) by { assert("i8"@[0] != "u8"@[0]); }
        assert("i8"@ != "i16"@) by { assert("i8"@.len() != "i16"@.len()); }
        assert("i8"@ != "u16"@) by { assert("i8"@.len() != "u16"@.len()); }
        assert("i8"@ != "i32"@) by { assert("i8"@.len() != "i32"@.len()); }
        assert("i8"@ != "u32"@) by { assert("i8"@.len() != "u32"@.len()); }
        assert("i8"@ != "u64"@) by { assert("i8"@.len() != "u64"@.len()); }
        assert("u"@ + dec(8) =~= "u8"@);
        assert("uint"@ + dec(8) =~= "uint8"@);
        assert("u8"@ != "i8"@) by { assert("u8"@[0] != "i8"@[0]); }
        assert("u8"@ != "i16"@) by { assert("u8"@.len() != "i16"@.len()); }
        assert("u8"@ != "u16"@) by { assert("u8"@.len() != "u16"@.len()); }
        assert("u8"@ != "i32"@) by { assert("u8"@.len() != "i32"@.len()); }
        assert("u8"@ != "u32"@) by { assert("u8"@.len() != "u32"@.len()); }
        assert("u8"@ != "u64"@) by { assert("u8"@.len() != "u64"@.len()); }
    }
    if bits == 16 {
        assert(dec(16) =~= seq!['1', '6']) by { reveal_with_fuel(dec, 3); }
        assert("i"@ + dec(16) =~= "i16"@);
        assert("int"@ + dec(16) =~= "int16"@);
        assert("i16"@ != "i8"@) by { assert("i16"@.len() != "i8"@.len()); }
        assert("i16"@ != "u8"@) by { assert("i16"@.len() != "u8"@.len()); }
        assert("i16"@ != "u16"@) by { assert("i16"@[0] != "u16"@[0]); }
        assert("i16"@ != "i32"@) by { assert("i16"@[1] != "i32"@[1]); }
        assert("i16"@ != "u32"@) by { assert("i16"@[0] != "u32"@[0]); }
        assert("i16"@ != "u64"@) by { assert("i16"@[0] != "u64"@[0]); }
        assert("u"@ + dec(16) =~= "u16"@);
        assert("uint"@ + dec(16) =~= "uint16"@);
        assert("u16"@ != "i8"@) by { assert("u16"@.len() != "i8"@.len()); }
        assert("u16"@ != "u8"@) by { assert("u16"@.len() != "u8"@.len()); }
        assert("u16"@ != "i16"@) by { assert("u16"@[0] != "i16"@[0]); }
        assert("u16"@ != "i32"@) by { assert("u16"@[0] != "i32"@[0]); }
        assert("u16"@ != "u32"@) by { assert("u16"@[1] != "u32"@[1]); }
        assert("u16"@ != "u64"@) by { assert("u16"@[1] != "u64"@[1]); }
    }
    if bits == 32 {
        assert(dec(32) =~= seq!['3', '2']) by { reveal_with_fuel(dec, 3); }
        assert("i"@ + dec(32) =~= "i32"@);
        assert("int"@ + dec(32) =~= "int32"@);
        assert("i32"@ != "i8"@) by { assert("i32"@.len() != "i8"@.len()); }
        assert("i32"@ != "u8"@) by { assert("i32"@.len() != "u8"@.len()); }
        assert("i32"@ != "i16"@) by { assert("i32"@[1] != "i16"@[1]); }
        assert("i32"@ != "u16"@) by { assert("i32"@[0] != "u16"@[0]); }
        assert("i32"@ != "u32"@) by { assert("i32"@[0] != "u32"@[0]); }
        assert("i32"@ != "u64"@) by { assert("i32"@[0] != "u64"@[0]); }
        assert("u"@ + dec(32) =~= "u32"@);
        assert("uint"@ + dec(32) =~= "uint32"@);
        assert("u32"@ != "i8"@) by { assert("u32"@.len() != "i8"@.len()); }
        assert("u32"@ != "u8"@) by { assert("u32"@.len() != "u8"@.len()); }
        assert("u32"@ != "i16"@) by { assert("u32"@[0] != "i16"@[0]); }
        assert("u32"@ != "u16"@) by { assert("u32"@[1] != "u16"@[1]); }
        assert("u32"@ != "i32"@) by { assert("u32"@[0] != "i32"@[0]); }
        assert("u32"@ != "u64"@) by { assert("u32"@[1] != "u64"@[1]); }
    }
    if bits == 64 {
        assert(dec(64) =~= seq!['6', '4']) by { reveal_with_fuel(dec, 3); }
        assert("i"@ + dec(64) =~= "i64"@);
        assert("int"@ + dec(64) =~= "int64"@);
        assert("i64"@ != "i8"@) by { assert("i64"@.len() != "i8"@.len()); }
        assert("i64"@ != "u8"@) by { assert("i64"@.len() != "u8"@.len()); }
        assert("i64"@ != "i16"@) by { assert("i64"@[1] != "i16"@[1]); }
        assert("i64"@ != "u16"@) by { assert("i64"@[0] != "u16"@[0]); }
        assert("i64"@ != "i32"@) by { assert("i64"@[1] != "i32"@[1]); }
        assert("i64"@ != "u32"@) by { assert("i64"@[0] != "u32"@[0]); }
        assert("i64"@ != "u64"@) by { assert("i64"@[0] != "u64"@[0]); }
        assert("u"@ + dec(64) =~= "u64"@);
        assert("uint"@ + dec(64) =~= "uint64"@);
        assert("u64"@ != "i8"@) by { assert("u64"@.len() != "i8"@.len()); }
        assert("u64"@ != "u8"@) by { assert("u64"@.len() != "u8"@.len()); }
        assert("u64"@ != "i16"@) by { assert("u64"@[0] != "i16"@[0]); }
        assert("u64"@ != "u16"@) by { assert("u64"@[1] != "u16"@[1]); }
        assert("u64"@ != "i32"@) by { assert("u64"@[0] != "i32"@[0]); }
        assert("u64"@ != "u32"@) by { assert("u64"@[1] != "u32"@[1]); }
    }
}

/// The integer type name a literal suffix selects.
pub fn int_lit_ty(suffix: &Option<String>) -> (t: &'static str)
    ensures
        t@ == int_lit_spec(match suffix {
            Some(s) => Some(s@),
            None => None,
        }),
{
    match suffix {
        Some(s) => {
            let cs = chars_of(s.as_str());
            let c = cs.as_slice();
            if is_lit(c, "i8") {
                "int8"
            } else if is_lit(c, "u8") {
                "uint8"
            } else if is_lit(c, "i16") {
                "int16"
            } else if is_lit(c, "u16") {
                "uint16"
            } else if is_lit(c, "i32") {
                "int32"
            } else if is_lit(c, "u32") {
                "uint32"
            } else if is_lit(c, "u64") {
                "uint64"
            } else {
                "int64"
            }
        },
        None => "int64",
    }
}

/// A type paired with `error`, the shape of a fallible builtin's result.
pub open spec fn pair_spec(t: TypeV) -> TypeV {
    TypeV::Tuple(seq![t, TypeV::Named("error"@, seq![])])
}

/// The result type of a builtin that carries one.
pub open spec fn builtin_ret_spec(name: Seq<char>) -> Option<TypeV> {
    if name == "read_file"@ || name == "read_line"@ || name == "read_all"@ {
        Some(pair_spec(TypeV::Named("string"@, seq![])))
    } else if name == "parse_float"@ {
        Some(pair_spec(TypeV::Named("float64"@, seq![])))
    } else if name == "write_file"@ {
        Some(TypeV::Named("error"@, seq![]))
    } else if name == "cstr"@ {
        Some(TypeV::Named("string"@, seq![]))
    } else if name == "sizeof"@ {
        Some(TypeV::Named("int64"@, seq![]))
    } else if name == "spawn"@ {
        Some(pair_spec(TypeV::Named("thread"@, seq![])))
    } else if name == "join"@ {
        Some(TypeV::Named("error"@, seq![]))
    } else if name == "submit"@ {
        Some(TypeV::Named("error"@, seq![]))
    } else {
        None
    }
}

fn pair(t: Type) -> (r: Type)
    ensures
        tv(r) == pair_spec(tv(t)),
{
    let mut v: Vec<Type> = Vec::new();
    v.push(t);
    v.push(named("error"));
    let r = Type::Tuple(v);
    assert(tvs(v@) =~= seq![tv(v@[0]), tv(v@[1])]);
    r
}

/// Return types of the builtins that carry one, so a binding of a builtin
/// result types its names for later generic inference.
pub fn builtin_ret(name: &str) -> (r: Option<Type>)
    ensures
        match r {
            Some(t) => builtin_ret_spec(name@) == Some(tv(t)),
            None => builtin_ret_spec(name@) is None,
        },
{
    let cs = chars_of(name);
    let c = cs.as_slice();
    if is_lit(c, "read_file") || is_lit(c, "read_line") || is_lit(c, "read_all") {
        Some(pair(named("string")))
    } else if is_lit(c, "parse_float") {
        Some(pair(named("float64")))
    } else if is_lit(c, "write_file") {
        Some(named("error"))
    } else if is_lit(c, "cstr") {
        Some(named("string"))
    } else if is_lit(c, "sizeof") {
        Some(named("int64"))
    } else if is_lit(c, "spawn") {
        Some(pair(named("thread")))
    } else if is_lit(c, "join") {
        Some(named("error"))
    } else if is_lit(c, "submit") {
        Some(named("error"))
    } else {
        None
    }
}

/// A name a source program can give a type: not empty, without `$`, and not
/// starting with a digit.
pub open spec fn type_name_ok(n: Seq<char>) -> bool {
    &&& n.len() > 0
    &&& !is_digit(n[0])
    &&& forall|i: int| 0 <= i < n.len() ==> n[i] != '$'
}

/// Every named type inside `t` has a name a source program can give.
pub open spec fn names_ok(t: TypeV) -> bool
    decreases t,
{
    match t {
        TypeV::Named(n, args) => type_name_ok(n) && forall|i: int| 0 <= i < args.len() ==> names_ok(#[trigger] args[i]),
        TypeV::Ptr(b) => names_ok(*b),
        TypeV::RawPtr(b) => names_ok(*b),
        TypeV::Slice(b) => names_ok(*b),
        TypeV::Array(b, _) => names_ok(*b),
        TypeV::Tuple(xs) => forall|i: int| 0 <= i < xs.len() ==> names_ok(#[trigger] xs[i]),
        TypeV::Func(ps, r) => (forall|i: int| 0 <= i < ps.len() ==> names_ok(#[trigger] ps[i])) && names_ok(*r),
        TypeV::Unit => true,
    }
}

/// What may follow a spelling inside a larger one: nothing, or a `$` that is
/// not followed by a digit.
spec fn follows_ok(r: Seq<char>) -> bool {
    r.len() == 0 || (r[0] == '$' && (r.len() == 1 || !is_digit(r[1])))
}

/// The scalar after the leading `$` of a non nominal spelling.
spec fn tag(t: TypeV) -> char {
    match t {
        TypeV::Ptr(_) => 'p',
        TypeV::RawPtr(_) => 'r',
        TypeV::Slice(_) => 's',
        TypeV::Array(_, _) => 'a',
        TypeV::Tuple(_) => 't',
        TypeV::Func(_, _) => 'f',
        _ => 'v',
    }
}

proof fn lemma_literals()
    ensures
        "$"@ == seq!['$'],
        "$p$"@ == seq!['$', 'p', '$'],
        "$rp$"@ == seq!['$', 'r', 'p', '$'],
        "$s$"@ == seq!['$', 's', '$'],
        "$a"@ == seq!['$', 'a'],
        "$t"@ == seq!['$', 't'],
        "$f"@ == seq!['$', 'f'],
        "$void"@ == seq!['$', 'v', 'o', 'i', 'd'],
{
    reveal_strlit("$");
    reveal_strlit("$p$");
    reveal_strlit("$rp$");
    reveal_strlit("$s$");
    reveal_strlit("$a");
    reveal_strlit("$t");
    reveal_strlit("$f");
    reveal_strlit("$void");
}

/// A spelling is never empty and never starts with a digit; a named type's
/// starts with its name, any other with `$` and its tag.
proof fn lemma_flat_head(t: TypeV)
    requires
        names_ok(t),
    ensures
        flat_spec(t).len() >= 1,
        !is_digit(flat_spec(t)[0]),
        t is Named ==> flat_spec(t)[0] == t->Named_0[0] && flat_spec(t)[0] != '$',
        !(t is Named) ==> flat_spec(t).len() >= 2 && flat_spec(t)[0] == '$' && flat_spec(t)[1] == tag(t),
{
    lemma_literals();
    match t {
        TypeV::Named(n, args) => {
            if args.len() > 0 {
                assert(flat_spec(t) == n + ("$"@ + dec(args.len()) + "$"@ + flat_join(args, args.len() as int)));
            }
        },
        TypeV::Array(b, n) => {
            assert(flat_spec(t) == "$a"@ + (dec(n as nat) + "$"@ + flat_spec(*b)));
        },
        TypeV::Tuple(xs) => {
            assert(flat_spec(t) == "$t"@ + (dec(xs.len()) + "$"@ + flat_join(xs, xs.len() as int)));
        },
        TypeV::Func(ps, r) => {
            assert(flat_spec(t) == "$f"@ + (dec(ps.len()) + "$"@ + flat_join(ps, ps.len() as int) + "$"@ + flat_spec(*r)));
        },
        _ => {},
    }
}

/// A joined list of spellings starts with the first one, then `$` and the
/// rest joined.
proof fn lemma_join_cons(xs: Seq<TypeV>, n: int)
    requires
        2 <= n <= xs.len(),
    ensures
        flat_join(xs, n) == flat_spec(xs[0]) + "$"@ + flat_join(xs.subrange(1, xs.len() as int), n - 1),
    decreases n,
{
    let sub = xs.subrange(1, xs.len() as int);
    if n > 2 {
        lemma_join_cons(xs, n - 1);
        assert(sub[n - 2] == xs[n - 1]);
        assert(flat_join(sub, n - 1) == flat_join(sub, n - 2) + "$"@ + flat_spec(sub[n - 2]));
        assert(flat_join(xs, n) =~= flat_spec(xs[0]) + "$"@ + flat_join(sub, n - 1));
    } else {
        assert(sub[0] == xs[1]);
        assert(flat_join(xs, 1) == flat_spec(xs[0]));
        assert(flat_join(sub, 1) == flat_spec(sub[0]));
        assert(flat_join(xs, 2) == flat_join(xs, 1) + "$"@ + flat_spec(xs[1]));
        assert(flat_join(xs, n) =~= flat_spec(xs[0]) + "$"@ + flat_join(sub, n - 1));
    }
}

/// The head of a non empty joined list: its first spelling's first scalar.
proof fn lemma_join_head(xs: Seq<TypeV>, n: int)
    requires
        1 <= n <= xs.len(),
        forall|i: int| 0 <= i < xs.len() ==> names_ok(#[trigger] xs[i]),
    ensures
        flat_join(xs, n).len() >= 1,
        !is_digit(flat_join(xs, n)[0]),
{
    lemma_flat_head(xs[0]);
    if n >= 2 {
        lemma_join_cons(xs, n);
        assert(flat_join(xs, n)[0] == flat_spec(xs[0])[0]);
    }
}

/// Two names, each followed by nothing or by a `$`, split the same way.
proof fn lemma_name_split(n1: Seq<char>, x: Seq<char>, n2: Seq<char>, y: Seq<char>)
    requires
        type_name_ok(n1),
        type_name_ok(n2),
        x.len() == 0 || x[0] == '$',
        y.len() == 0 || y[0] == '$',
        n1 + x == n2 + y,
    ensures
        n1 == n2,
        x == y,
{
    let l = n1 + x;
    if n1.len() < n2.len() {
        if x.len() == 0 {
            assert(l.len() < (n2 + y).len());
        } else {
            assert(l[n1.len() as int] == '$');
            assert((n2 + y)[n1.len() as int] == n2[n1.len() as int]);
        }
        assert(false);
    } else if n2.len() < n1.len() {
        if y.len() == 0 {
            assert(l.len() > (n2 + y).len());
        } else {
            assert((n2 + y)[n2.len() as int] == '$');
            assert(l[n2.len() as int] == n1[n2.len() as int]);
        }
        assert(false);
    }
    assert(n1 =~= l.subrange(0, n1.len() as int));
    assert(n2 =~= (n2 + y).subrange(0, n2.len() as int));
    assert(x =~= l.subrange(n1.len() as int, l.len() as int));
    assert(y =~= (n2 + y).subrange(n2.len() as int, l.len() as int));
}

/// Equal sequences with an equal prefix agree after it.
proof fn lemma_drop_prefix(p: Seq<char>, x: Seq<char>, y: Seq<char>)
    requires
        p + x == p + y,
    ensures
        x == y,
{
    assert(x =~= (p + x).subrange(p.len() as int, (p + x).len() as int));
    assert(y =~= (p + y).subrange(p.len() as int, (p + y).len() as int));
}

/// A spelling followed by what may follow one can be read back: the type and
/// what follows are determined.
proof fn lemma_flat_inj(a: TypeV, b: TypeV, ra: Seq<char>, rb: Seq<char>)
    requires
        names_ok(a),
        names_ok(b),
        follows_ok(ra),
        follows_ok(rb),
        flat_spec(a) + ra == flat_spec(b) + rb,
    ensures
        a == b,
        ra == rb,
    decreases a, 1int,
{
    lemma_flat_head(a);
    lemma_flat_head(b);
    let l = flat_spec(a) + ra;
    assert(l[0] == flat_spec(a)[0]);
    assert((flat_spec(b) + rb)[0] == flat_spec(b)[0]);
    if !(a is Named) && !(b is Named) {
        assert(l[1] == flat_spec(a)[1]);
        assert((flat_spec(b) + rb)[1] == flat_spec(b)[1]);
    }
    match a {
        TypeV::Named(_, _) => lemma_inj_named(a, b, ra, rb),
        TypeV::Ptr(_) => lemma_inj_wrap(a, b, ra, rb),
        TypeV::RawPtr(_) => lemma_inj_wrap(a, b, ra, rb),
        TypeV::Slice(_) => lemma_inj_wrap(a, b, ra, rb),
        TypeV::Array(_, _) => lemma_inj_array(a, b, ra, rb),
        TypeV::Tuple(_) => lemma_inj_tuple(a, b, ra, rb),
        TypeV::Func(_, _) => lemma_inj_func(a, b, ra, rb),
        TypeV::Unit => {
            lemma_literals();
            assert(l == "$void"@ + ra);
            assert(flat_spec(b) + rb == "$void"@ + rb);
            lemma_drop_prefix("$void"@, ra, rb);
        },
    }
}

proof fn lemma_inj_named(a: TypeV, b: TypeV, ra: Seq<char>, rb: Seq<char>)
    requires
        a is Named,
        b is Named,
        names_ok(a),
        names_ok(b),
        follows_ok(ra),
        follows_ok(rb),
        flat_spec(a) + ra == flat_spec(b) + rb,
    ensures
        a == b,
        ra == rb,
    decreases a, 0int,
{
    lemma_literals();
    let n1 = a->Named_0;
    let args1 = a->Named_1;
    let n2 = b->Named_0;
    let args2 = b->Named_1;
    let k1 = args1.len();
    let k2 = args2.len();
    let x = if k1 == 0 { ra } else { "$"@ + dec(k1) + "$"@ + flat_join(args1, k1 as int) + ra };
    let y = if k2 == 0 { rb } else { "$"@ + dec(k2) + "$"@ + flat_join(args2, k2 as int) + rb };
    assert(flat_spec(a) + ra == n1 + x);
    assert(flat_spec(b) + rb == n2 + y);
    lemma_name_split(n1, x, n2, y);
    if k1 == 0 && k2 == 0 {
        assert(args1 =~= args2);
    } else if k1 == 0 {
        lemma_dec_digits(k2);
        assert(y[1] == dec(k2)[0]);
        assert(false);
    } else if k2 == 0 {
        lemma_dec_digits(k1);
        assert(x[1] == dec(k1)[0]);
        assert(false);
    } else {
        let j1 = flat_join(args1, k1 as int) + ra;
        let j2 = flat_join(args2, k2 as int) + rb;
        assert(x == seq!['$'] + (dec(k1) + seq!['$'] + j1));
        assert(y == seq!['$'] + (dec(k2) + seq!['$'] + j2));
        lemma_drop_prefix(seq!['$'], dec(k1) + seq!['$'] + j1, dec(k2) + seq!['$'] + j2);
        lemma_dec_dollar(k1, k2, j1, j2);
        assert(decreases_to!(a => args1));
        lemma_join_inj(args1, args2, ra, rb);
    }
}

proof fn lemma_inj_wrap(a: TypeV, b: TypeV, ra: Seq<char>, rb: Seq<char>)
    requires
        a is Ptr || a is RawPtr || a is Slice,
        tag(a) == tag(b),
        !(b is Named),
        names_ok(a),
        names_ok(b),
        follows_ok(ra),
        follows_ok(rb),
        flat_spec(a) + ra == flat_spec(b) + rb,
    ensures
        a == b,
        ra == rb,
    decreases a, 0int,
{
    lemma_literals();
    let (p, x1, x2) = match a {
        TypeV::Ptr(x1) => ("$p$"@, *x1, *b->Ptr_0),
        TypeV::RawPtr(x1) => ("$rp$"@, *x1, *b->RawPtr_0),
        _ => ("$s$"@, *a->Slice_0, *b->Slice_0),
    };
    assert(flat_spec(a) + ra == p + (flat_spec(x1) + ra));
    assert(flat_spec(b) + rb == p + (flat_spec(x2) + rb));
    lemma_drop_prefix(p, flat_spec(x1) + ra, flat_spec(x2) + rb);
    lemma_flat_inj(x1, x2, ra, rb);
}

proof fn lemma_inj_array(a: TypeV, b: TypeV, ra: Seq<char>, rb: Seq<char>)
    requires
        a is Array,
        b is Array,
        names_ok(a),
        names_ok(b),
        follows_ok(ra),
        follows_ok(rb),
        flat_spec(a) + ra == flat_spec(b) + rb,
    ensures
        a == b,
        ra == rb,
    decreases a, 0int,
{
    lemma_literals();
    let x1 = *a->Array_0;
    let m1 = a->Array_1;
    let x2 = *b->Array_0;
    let m2 = b->Array_1;
    assert(flat_spec(a) + ra == "$a"@ + (dec(m1 as nat) + seq!['$'] + (flat_spec(x1) + ra)));
    assert(flat_spec(b) + rb == "$a"@ + (dec(m2 as nat) + seq!['$'] + (flat_spec(x2) + rb)));
    lemma_drop_prefix("$a"@, dec(m1 as nat) + seq!['$'] + (flat_spec(x1) + ra), dec(m2 as nat) + seq!['$'] + (flat_spec(x2) + rb));
    lemma_dec_dollar(m1 as nat, m2 as nat, flat_spec(x1) + ra, flat_spec(x2) + rb);
    lemma_flat_inj(x1, x2, ra, rb);
}

proof fn lemma_inj_tuple(a: TypeV, b: TypeV, ra: Seq<char>, rb: Seq<char>)
    requires
        a is Tuple,
        b is Tuple,
        names_ok(a),
        names_ok(b),
        follows_ok(ra),
        follows_ok(rb),
        flat_spec(a) + ra == flat_spec(b) + rb,
    ensures
        a == b,
        ra == rb,
    decreases a, 0int,
{
    lemma_literals();
    let xs = a->Tuple_0;
    let ys = b->Tuple_0;
    let j1 = flat_join(xs, xs.len() as int) + ra;
    let j2 = flat_join(ys, ys.len() as int) + rb;
    assert(flat_spec(a) + ra == "$t"@ + (dec(xs.len()) + seq!['$'] + j1));
    assert(flat_spec(b) + rb == "$t"@ + (dec(ys.len()) + seq!['$'] + j2));
    lemma_drop_prefix("$t"@, dec(xs.len()) + seq!['$'] + j1, dec(ys.len()) + seq!['$'] + j2);
    lemma_dec_dollar(xs.len(), ys.len(), j1, j2);
    if xs.len() == 0 {
        assert(xs =~= ys);
    } else {
        assert(decreases_to!(a => xs));
        lemma_join_inj(xs, ys, ra, rb);
    }
}

proof fn lemma_inj_func(a: TypeV, b: TypeV, ra: Seq<char>, rb: Seq<char>)
    requires
        a is Func,
        b is Func,
        names_ok(a),
        names_ok(b),
        follows_ok(ra),
        follows_ok(rb),
        flat_spec(a) + ra == flat_spec(b) + rb,
    ensures
        a == b,
        ra == rb,
    decreases a, 0int,
{
    lemma_literals();
    let ps = a->Func_0;
    let r1 = *a->Func_1;
    let qs = b->Func_0;
    let r2 = *b->Func_1;
    let t1 = seq!['$'] + flat_spec(r1) + ra;
    let t2 = seq!['$'] + flat_spec(r2) + rb;
    let j1 = flat_join(ps, ps.len() as int) + t1;
    let j2 = flat_join(qs, qs.len() as int) + t2;
    assert(flat_spec(a) + ra == "$f"@ + (dec(ps.len()) + seq!['$'] + j1));
    assert(flat_spec(b) + rb == "$f"@ + (dec(qs.len()) + seq!['$'] + j2));
    lemma_drop_prefix("$f"@, dec(ps.len()) + seq!['$'] + j1, dec(qs.len()) + seq!['$'] + j2);
    lemma_dec_dollar(ps.len(), qs.len(), j1, j2);
    if ps.len() == 0 {
        assert(ps =~= qs);
        assert(t1 =~= j1);
        assert(t2 =~= j2);
    } else {
        lemma_flat_head(r1);
        lemma_flat_head(r2);
        assert(t1[1] == flat_spec(r1)[0]);
        assert(t2[1] == flat_spec(r2)[0]);
        assert(decreases_to!(a => ps));
        lemma_join_inj(ps, qs, t1, t2);
    }
    assert(t1 =~= seq!['$'] + (flat_spec(r1) + ra));
    assert(t2 =~= seq!['$'] + (flat_spec(r2) + rb));
    lemma_drop_prefix(seq!['$'], flat_spec(r1) + ra, flat_spec(r2) + rb);
    lemma_flat_inj(r1, r2, ra, rb);
    assert(a == TypeV::Func(ps, Box::new(r1)));
}

/// Two joined lists of the same length, each followed by what may follow a
/// spelling, can be read back element by element.
proof fn lemma_join_inj(xs: Seq<TypeV>, ys: Seq<TypeV>, ra: Seq<char>, rb: Seq<char>)
    requires
        xs.len() >= 1,
        xs.len() == ys.len(),
        forall|i: int| 0 <= i < xs.len() ==> names_ok(#[trigger] xs[i]),
        forall|i: int| 0 <= i < ys.len() ==> names_ok(#[trigger] ys[i]),
        follows_ok(ra),
        follows_ok(rb),
        flat_join(xs, xs.len() as int) + ra == flat_join(ys, ys.len() as int) + rb,
    ensures
        xs == ys,
        ra == rb,
    decreases xs, 1int,
{
    lemma_literals();
    let n = xs.len() as int;
    assert(decreases_to!(xs => xs[0]));
    if n == 1 {
        lemma_flat_inj(xs[0], ys[0], ra, rb);
        assert(xs =~= ys);
    } else {
        let xt = xs.subrange(1, n);
        let yt = ys.subrange(1, n);
        lemma_join_cons(xs, n);
        lemma_join_cons(ys, n);
        lemma_join_head(xt, n - 1);
        lemma_join_head(yt, n - 1);
        let sa = seq!['$'] + flat_join(xt, n - 1) + ra;
        let sb = seq!['$'] + flat_join(yt, n - 1) + rb;
        assert(sa[1] == flat_join(xt, n - 1)[0]);
        assert(sb[1] == flat_join(yt, n - 1)[0]);
        assert(flat_join(xs, n) + ra == flat_spec(xs[0]) + sa);
        assert(flat_join(ys, n) + rb == flat_spec(ys[0]) + sb);
        lemma_flat_inj(xs[0], ys[0], sa, sb);
        assert(sa == seq!['$'] + (flat_join(xt, n - 1) + ra));
        assert(sb == seq!['$'] + (flat_join(yt, n - 1) + rb));
        lemma_drop_prefix(seq!['$'], flat_join(xt, n - 1) + ra, flat_join(yt, n - 1) + rb);
        assert(decreases_to!(xs => xt));
        lemma_join_inj(xt, yt, ra, rb);
        assert forall|i: int| 0 <= i < n implies xs[i] == ys[i] by {
            if i > 0 {
                assert(xt[i - 1] == xs[i]);
                assert(yt[i - 1] == ys[i]);
            }
        }
        assert(xs =~= ys);
    }
}

/// Flattening spells distinct types differently: two types whose names are
/// ones a source program can give, with the same spelling, are the same
/// type.
pub proof fn law_flat_injective(a: TypeV, b: TypeV)
    requires
        names_ok(a),
        names_ok(b),
        flat_spec(a) == flat_spec(b),
    ensures
        a == b,
{
    let e = Seq::<char>::empty();
    assert(flat_spec(a) + e =~= flat_spec(a));
    assert(flat_spec(b) + e =~= flat_spec(b));
    lemma_flat_inj(a, b, e, e);
}

/// Two joined lists that nothing follows can be read back whatever their
/// lengths.
proof fn lemma_join_inj_any(xs: Seq<TypeV>, ys: Seq<TypeV>)
    requires
        xs.len() >= 1,
        ys.len() >= 1,
        forall|i: int| 0 <= i < xs.len() ==> names_ok(#[trigger] xs[i]),
        forall|i: int| 0 <= i < ys.len() ==> names_ok(#[trigger] ys[i]),
        flat_join(xs, xs.len() as int) == flat_join(ys, ys.len() as int),
    ensures
        xs == ys,
    decreases xs.len(),
{
    lemma_literals();
    let e = Seq::<char>::empty();
    let n = xs.len() as int;
    let m = ys.len() as int;
    let xt = xs.subrange(1, n);
    let yt = ys.subrange(1, m);
    let sa = if n == 1 { e } else { seq!['$'] + flat_join(xt, n - 1) };
    let sb = if m == 1 { e } else { seq!['$'] + flat_join(yt, m - 1) };
    if n == 1 {
        assert(flat_join(xs, n) == flat_spec(xs[0]));
        assert(flat_join(xs, n) =~= flat_spec(xs[0]) + sa);
    } else {
        lemma_join_cons(xs, n);
        lemma_join_head(xt, n - 1);
        assert(sa[1] == flat_join(xt, n - 1)[0]);
        assert(flat_join(xs, n) =~= flat_spec(xs[0]) + sa);
    }
    if m == 1 {
        assert(flat_join(ys, m) == flat_spec(ys[0]));
        assert(flat_join(ys, m) =~= flat_spec(ys[0]) + sb);
    } else {
        lemma_join_cons(ys, m);
        lemma_join_head(yt, m - 1);
        assert(sb[1] == flat_join(yt, m - 1)[0]);
        assert(flat_join(ys, m) =~= flat_spec(ys[0]) + sb);
    }
    lemma_flat_inj(xs[0], ys[0], sa, sb);
    if n == 1 && m == 1 {
        assert(xs =~= ys);
    } else if n == 1 {
        assert(sb.len() > 0);
        assert(false);
    } else if m == 1 {
        assert(sa.len() > 0);
        assert(false);
    } else {
        lemma_drop_prefix(seq!['$'], flat_join(xt, n - 1), flat_join(yt, m - 1));
        lemma_join_inj_any(xt, yt);
        assert forall|i: int| 0 <= i < n implies xs[i] == ys[i] by {
            if i > 0 {
                assert(xt[i - 1] == xs[i]);
                assert(yt[i - 1] == ys[i]);
            }
        }
        assert(xs =~= ys);
    }
}

/// Mangling names distinct instantiations differently: a generic's name and
/// type arguments are determined by the mangled name, when every name is one a
/// source program can give.
pub proof fn law_mangle_injective(n1: Seq<char>, a1: Seq<TypeV>, n2: Seq<char>, a2: Seq<TypeV>)
    requires
        type_name_ok(n1),
        type_name_ok(n2),
        forall|i: int| 0 <= i < a1.len() ==> names_ok(#[trigger] a1[i]),
        forall|i: int| 0 <= i < a2.len() ==> names_ok(#[trigger] a2[i]),
        mangle_spec(n1, a1) == mangle_spec(n2, a2),
    ensures
        n1 == n2,
        a1 == a2,
{
    lemma_literals();
    let e = Seq::<char>::empty();
    let x = if a1.len() == 0 { e } else { seq!['$'] + flat_join(a1, a1.len() as int) };
    let y = if a2.len() == 0 { e } else { seq!['$'] + flat_join(a2, a2.len() as int) };
    assert(mangle_spec(n1, a1) =~= n1 + x);
    assert(mangle_spec(n2, a2) =~= n2 + y);
    lemma_name_split(n1, x, n2, y);
    if a1.len() == 0 && a2.len() == 0 {
        assert(a1 =~= a2);
    } else if a1.len() == 0 {
        assert(y.len() > 0);
        assert(false);
    } else if a2.len() == 0 {
        assert(x.len() > 0);
        assert(false);
    } else {
        lemma_drop_prefix(seq!['$'], flat_join(a1, a1.len() as int), flat_join(a2, a2.len() as int));
        lemma_join_inj_any(a1, a2);
    }
}

} // verus!
