//! Diagnostics the monomorphizer reports while it expands instantiations:
//! type parameters a site could not pin down, and task lambdas that capture a
//! value which would view the spawning frame.

use vstd::prelude::*;
use crate::diag::{Diagnostic, Span};
use crate::loader::{insert_name, no_dups, set_of, strings_view};
use crate::mono::cross::{cross, crossable};
use crate::mono::{contains_name, name_set, Subst};
use crate::parser::ast::{binds_stmts, collect_block, param_names, uses_stmts, Item, Lambda, TypeV};
use crate::text::{chars_of, push_str};

verus! {

/// A diagnostic as its message and span.
pub open spec fn dview(d: Diagnostic) -> (Seq<char>, Span) {
    (d.msg@, d.span)
}

pub open spec fn dviews(v: Seq<Diagnostic>) -> Seq<(Seq<char>, Span)> {
    v.map_values(|d: Diagnostic| dview(d))
}

/// The message for a type parameter `g` of `what` that no site pinned.
pub open spec fn missing_msg(g: Seq<char>, what: Seq<char>) -> Seq<char> {
    "cannot infer the type parameter '"@ + g + "' for '"@ + what + "'; add an annotation that pins it"@
}

/// One diagnostic per name of `missing`, in order, at `span`.
pub open spec fn missing_diags(missing: Seq<String>, what: Seq<char>, span: Span) -> Seq<(Seq<char>, Span)> {
    Seq::new(missing.len(), |i: int| (missing_msg(missing[i]@, what), span))
}

/// Reports each type parameter in `missing` that the instantiation of `what`
/// at `span` could not infer.
pub fn report_missing(missing: &Vec<String>, what: &str, span: Span, diags: &mut Vec<Diagnostic>)
    ensures
        dviews(final(diags)@) == dviews(old(diags)@) + missing_diags(missing@, what@, span),
{
    let mut i: usize = 0;
    while i < missing.len()
        invariant
            0 <= i <= missing@.len(),
            dviews(diags@) == dviews(old(diags)@) + missing_diags(missing@, what@, span).take(i as int),
        decreases missing.len() - i,
    {
        let mut msg = String::new();
        push_str(&mut msg, "cannot infer the type parameter '");
        push_str(&mut msg, missing[i].as_str());
        push_str(&mut msg, "' for '");
        push_str(&mut msg, what);
        push_str(&mut msg, "'; add an annotation that pins it");
        assert(msg@ =~= missing_msg(missing@[i as int]@, what@));
        let ghost before = diags@;
        diags.push(Diagnostic { msg, span });
        assert(dviews(diags@) =~= dviews(before).push((missing_msg(missing@[i as int]@, what@), span)));
        assert(missing_diags(missing@, what@, span).take(i + 1) =~= missing_diags(missing@, what@, span).take(
            i as int,
        ).push((missing_msg(missing@[i as int]@, what@), span)));
        assert(dviews(diags@) =~= dviews(old(diags)@) + missing_diags(missing@, what@, span).take(i + 1));
        i = i + 1;
    }
    assert(missing_diags(missing@, what@, span).take(missing@.len() as int) =~= missing_diags(missing@, what@, span));
}

/// The names the first `i` reads of `used` take from outside `bound`, each
/// once, in the order of their first read.
pub open spec fn captured(used: Seq<Seq<char>>, bound: Set<Seq<char>>, i: int) -> Seq<Seq<char>>
    decreases i,
{
    if i <= 0 {
        Seq::empty()
    } else {
        let prev = captured(used, bound, i - 1);
        let c = used[i - 1];
        if bound.contains(c) || prev.contains(c) {
            prev
        } else {
            prev.push(c)
        }
    }
}

/// The names among the first `i` of `cs` whose type in `env` may not cross
/// under the future ban, in order.
pub open spec fn offenders(items: Seq<Item>, cs: Seq<Seq<char>>, env: Map<Seq<char>, TypeV>, i: int) -> Seq<Seq<char>>
    decreases i,
{
    if i <= 0 {
        Seq::empty()
    } else {
        let prev = offenders(items, cs, env, i - 1);
        let c = cs[i - 1];
        if env.contains_key(c) && !cross(items, env[c], true, Set::empty()) {
            prev.push(c)
        } else {
            prev
        }
    }
}

/// The message for a task lambda passed to `name` that captures `c`.
pub open spec fn capture_msg(name: Seq<char>, c: Seq<char>) -> Seq<char> {
    name + " cannot capture '"@ + c
        + "': it holds a slice, closure, interface value, or future that would view the spawning frame"@
}

/// The names a lambda reads from its enclosing scope, each once, in the order
/// of their first read.
pub open spec fn lambda_captures(l: Lambda) -> Seq<Seq<char>> {
    let n = l.body.stmts@.len() as int;
    let used = uses_stmts(l.body.stmts@, n);
    captured(used, param_names(l.params@).union(binds_stmts(l.body.stmts@, n)), used.len() as int)
}

/// The diagnostics for a task lambda passed to `name`: one per captured
/// name whose type in `env` may not cross, in order.
pub open spec fn capture_diags(
    items: Seq<Item>,
    name: Seq<char>,
    l: Lambda,
    env: Map<Seq<char>, TypeV>,
    span: Span,
) -> Seq<(Seq<char>, Span)> {
    let cs = lambda_captures(l);
    let off = offenders(items, cs, env, cs.len() as int);
    Seq::new(off.len(), |i: int| (capture_msg(name, off[i]), span))
}

proof fn lemma_offenders_push(items: Seq<Item>, cs: Seq<Seq<char>>, c: Seq<char>, env: Map<Seq<char>, TypeV>, i: int)
    requires
        0 <= i <= cs.len(),
    ensures
        offenders(items, cs.push(c), env, i) == offenders(items, cs, env, i),
    decreases i,
{
    if i > 0 {
        lemma_offenders_push(items, cs, c, env, i - 1);
        assert(cs.push(c)[i - 1] == cs[i - 1]);
    }
}

pub proof fn lemma_contains_view(v: Seq<String>, x: Seq<char>)
    ensures
        name_set(v).contains(x) <==> strings_view(v).contains(x),
{
    if name_set(v).contains(x) {
        let j = choose|j: int| 0 <= j < v.len() && (#[trigger] v[j])@ == x;
        assert(strings_view(v)[j] == x);
    }
    if strings_view(v).contains(x) {
        let j = choose|j: int| 0 <= j < strings_view(v).len() && strings_view(v)[j] == x;
        assert(v[j]@ == x);
    }
}

/// Rejects a lambda handed to the task launcher `name` (a spawn or a submit)
/// when it captures a variable whose type in `env` holds a slice, closure,
/// interface value or future: each such name is reported once, at `span`.
pub fn check_task_captures(
    items: &Vec<Item>,
    name: &str,
    l: &Lambda,
    env: &Subst,
    span: Span,
    diags: &mut Vec<Diagnostic>,
)
    requires
        env.wf(),
    ensures
        dviews(final(diags)@) == dviews(old(diags)@) + capture_diags(items@, name@, *l, env@, span),
{
    let mut bound: Vec<String> = Vec::new();
    let mut k: usize = 0;
    assert(set_of(bound@) =~= Set::<Seq<char>>::empty());
    while k < l.params.len()
        invariant
            0 <= k <= l.params@.len(),
            no_dups(bound@),
            set_of(bound@) == Set::new(
                |s: Seq<char>| exists|j: int| 0 <= j < k && (#[trigger] l.params@[j]).name@ == s,
            ),
        decreases l.params.len() - k,
    {
        let ghost before = set_of(bound@);
        let cs = chars_of(l.params[k].name.as_str());
        insert_name(&mut bound, &cs);
        assert(set_of(bound@) =~= Set::new(
            |s: Seq<char>| exists|j: int| 0 <= j < k + 1 && (#[trigger] l.params@[j]).name@ == s,
        )) by {
            assert forall|s: Seq<char>| set_of(bound@).contains(s) implies exists|j: int|
                0 <= j < k + 1 && (#[trigger] l.params@[j]).name@ == s by {
                if s != cs@ {
                    assert(before.contains(s));
                    let j = choose|j: int| 0 <= j < k && (#[trigger] l.params@[j]).name@ == s;
                    assert(l.params@[j].name@ == s);
                } else {
                    assert(l.params@[k as int].name@ == s);
                }
            }
            assert forall|s: Seq<char>| (exists|j: int| 0 <= j < k + 1 && (#[trigger] l.params@[j]).name@ == s)
                implies set_of(bound@).contains(s) by {
                let j = choose|j: int| 0 <= j < k + 1 && (#[trigger] l.params@[j]).name@ == s;
                if j < k {
                    assert(before.contains(s));
                }
            }
        }
        k = k + 1;
    }
    assert(set_of(bound@) =~= param_names(l.params@));
    let mut used: Vec<String> = Vec::new();
    collect_block(&l.body, &mut used, &mut bound);
    let ghost n = l.body.stmts@.len() as int;
    let ghost uv = uses_stmts(l.body.stmts@, n);
    let ghost bset = param_names(l.params@).union(binds_stmts(l.body.stmts@, n));
    assert(strings_view(used@) =~= uv);
    assert(name_set(bound@) =~= bset);
    let empty: Vec<String> = Vec::new();
    assert(name_set(empty@) =~= Set::<Seq<char>>::empty());
    let mut done: Vec<String> = Vec::new();
    let mut i: usize = 0;
    let ghost d0 = dviews(diags@);
    while i < used.len()
        invariant
            0 <= i <= used@.len(),
            env.wf(),
            strings_view(used@) == uv,
            uv.len() == used@.len(),
            name_set(bound@) == bset,
            name_set(empty@) == Set::<Seq<char>>::empty(),
            strings_view(done@) == captured(uv, bset, i as int),
            d0 == dviews(old(diags)@),
            dviews(diags@) == d0 + Seq::new(
                offenders(items@, captured(uv, bset, i as int), env@, captured(uv, bset, i as int).len() as int).len(),
                |j: int| (
                    capture_msg(
                        name@,
                        offenders(items@, captured(uv, bset, i as int), env@, captured(uv, bset, i as int).len() as int)[j],
                    ),
                    span,
                ),
            ),
        decreases used.len() - i,
    {
        let ghost prev = captured(uv, bset, i as int);
        let ghost off0 = offenders(items@, prev, env@, prev.len() as int);
        let c = &used[i];
        assert(uv[i as int] == c@);
        proof {
            lemma_contains_view(done@, c@);
        }
        if contains_name(bound.as_slice(), c) || contains_name(done.as_slice(), c) {
            i = i + 1;
            continue;
        }
        done.push(c.clone());
        assert(strings_view(done@) =~= prev.push(c@));
        let ghost next = prev.push(c@);
        proof {
            lemma_offenders_push(items@, prev, c@, env@, prev.len() as int);
        }
        match env.get(c) {
            Some(t) => {
                if !crossable(items, &t, true, &empty) {
                    let mut msg = String::new();
                    push_str(&mut msg, name);
                    push_str(&mut msg, " cannot capture '");
                    push_str(&mut msg, c.as_str());
                    push_str(
                        &mut msg,
                        "': it holds a slice, closure, interface value, or future that would view the spawning frame",
                    );
                    assert(msg@ =~= capture_msg(name@, c@));
                    let ghost before = diags@;
                    diags.push(Diagnostic { msg, span });
                    assert(dviews(diags@) =~= dviews(before).push((capture_msg(name@, c@), span)));
                    assert(offenders(items@, next, env@, next.len() as int) == off0.push(c@));
                    assert(dviews(diags@) =~= d0 + Seq::new(
                        off0.push(c@).len(),
                        |j: int| (capture_msg(name@, off0.push(c@)[j]), span),
                    ));
                } else {
                    assert(offenders(items@, next, env@, next.len() as int) == off0);
                }
            },
            None => {
                assert(offenders(items@, next, env@, next.len() as int) == off0);
            },
        }
        i = i + 1;
    }
    assert(uv.len() == used@.len());
}

} // verus!
