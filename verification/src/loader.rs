//! Module loader support: rendering a merged diagnostic against the file it
//! came from, registering import namespaces, and resolving an import path to
//! a `.dusk` file.
//!
//! Import paths are dotted, like `std.memory.arena`. A path resolves against
//! the importing file's directory first, then the stdlib root. A path with a
//! slash, like `github.com/user/repo/mod`, is a dawn package and resolves
//! against the dawn cache.

use vstd::prelude::*;
use crate::diag::{render_spec, Diagnostic, Span};
use crate::parser::ast::{Arm, Block, DoBind, Expr, ExprKind, Func, Item, Match, Module, Stmt};
use crate::text::{chars_eq, chars_of, push_all, push_str, string_of};

verus! {

/// One source file in a loaded program, kept so a merged stage diagnostic can be
/// rendered against the file it actually came from. `base` is the offset added to
/// that file's spans when merging, so spans across the whole program are unique.
pub struct FileSrc {
    pub path: String,
    pub base: u32,
    pub src: String,
}

/// The index of the last file whose base is not past `lo`, if any.
pub open spec fn owner_file(files: Seq<FileSrc>, lo: u32, i: int) -> Option<int>
    decreases i,
{
    if i <= 0 {
        None
    } else if lo >= files[i - 1].base {
        Some(i - 1)
    } else {
        owner_file(files, lo, i - 1)
    }
}

/// The rendering of a merged diagnostic.
pub open spec fn render_diag_spec(files: Seq<FileSrc>, d: Diagnostic) -> Seq<char> {
    match owner_file(files, d.span.lo, files.len() as int) {
        Some(j) => files[j].path@ + ": "@ + render_spec(
            files[j].src@,
            d.msg@,
            d.span,
            (d.span.lo - files[j].base) as u32,
        ),
        None => "error: "@ + d.msg@,
    }
}

proof fn lemma_owner_file(files: Seq<FileSrc>, lo: u32, i: int)
    requires
        0 <= i <= files.len(),
    ensures
        owner_file(files, lo, i) matches Some(j) ==> 0 <= j < i && lo >= files[j].base,
    decreases i,
{
    if i > 0 && lo < files[i - 1].base {
        lemma_owner_file(files, lo, i - 1);
    }
}

/// Renders a merged stage diagnostic against the file its span falls in. Spans
/// are shifted by each file's `base` at load time, so the file is the one with
/// the greatest base not past the span, scanning from the last file.
pub fn render_diag(files: &[FileSrc], d: &Diagnostic) -> (r: String)
    requires
        forall|j: int| 0 <= j < files@.len() ==> (#[trigger] files@[j]).src@.len() < u64::MAX,
    ensures
        r@ == render_diag_spec(files@, *d),
{
    let mut i = files.len();
    while i > 0
        invariant
            0 <= i <= files@.len(),
            forall|j: int| 0 <= j < files@.len() ==> (#[trigger] files@[j]).src@.len() < u64::MAX,
            owner_file(files@, d.span.lo, files@.len() as int) == owner_file(files@, d.span.lo, i as int),
        decreases i,
    {
        if d.span.lo >= files[i - 1].base {
            let f = &files[i - 1];
            let mut out = String::new();
            push_str(&mut out, f.path.as_str());
            push_str(&mut out, ": ");
            let body = d.render_local(f.src.as_str(), d.span.lo - f.base);
            push_str(&mut out, body.as_str());
            return out;
        }
        i = i - 1;
    }
    let mut out = String::new();
    push_str(&mut out, "error: ");
    push_str(&mut out, d.msg.as_str());
    out
}

/// `s` with its leading dots removed.
pub open spec fn strip_dots(s: Seq<char>) -> Seq<char>
    decreases s.len(),
{
    if s.len() > 0 && s[0] == '.' {
        strip_dots(s.drop_first())
    } else {
        s
    }
}

/// A namespace `add_namespace` registers for `modpath`: its prefix ending at a
/// dot or at the end, with the leading dots dropped.
pub open spec fn is_namespace_of(modpath: Seq<char>, ns: Seq<char>) -> bool {
    exists|j: int|
        0 <= j <= modpath.len() && (j == modpath.len() || modpath[j] == '.') && ns == strip_dots(
            #[trigger] modpath.take(j),
        )
}

pub open spec fn set_of(v: Seq<String>) -> Set<Seq<char>> {
    Set::new(|s: Seq<char>| exists|j: int| 0 <= j < v.len() && (#[trigger] v[j])@ == s)
}

/// No name appears twice.
pub open spec fn no_dups(v: Seq<String>) -> bool {
    forall|i: int, j: int| 0 <= i < j < v.len() ==> (#[trigger] v[i])@ != (#[trigger] v[j])@
}

/// Inserts `s` unless already present.
pub(crate) fn insert_name(ns: &mut Vec<String>, s: &Vec<char>)
    requires
        no_dups(old(ns)@),
    ensures
        no_dups(final(ns)@),
        set_of(final(ns)@) == set_of(old(ns)@).insert(s@),
{
    let mut i: usize = 0;
    while i < ns.len()
        invariant
            0 <= i <= ns@.len(),
            *ns == *old(ns),
            no_dups(ns@),
            forall|j: int| 0 <= j < i ==> ns@[j]@ != s@,
        decreases ns.len() - i,
    {
        let cur = chars_of(ns[i].as_str());
        if chars_eq(cur.as_slice(), s.as_slice()) {
            assert(set_of(ns@) =~= set_of(ns@).insert(s@)) by {
                assert(ns@[i as int]@ == s@);
            }
            return;
        }
        i = i + 1;
    }
    let ghost old_v = ns@;
    ns.push(string_of(s.as_slice()));
    assert(set_of(ns@) =~= set_of(old_v).insert(s@)) by {
        assert(ns@[old_v.len() as int]@ == s@);
        assert forall|x: Seq<char>| set_of(old_v).contains(x) implies set_of(ns@).contains(x) by {
            let j = choose|j: int| 0 <= j < old_v.len() && (#[trigger] old_v[j])@ == x;
            assert(ns@[j] == old_v[j]);
        }
        assert forall|x: Seq<char>| set_of(ns@).contains(x) implies set_of(old_v).insert(s@).contains(x) by {
            let j = choose|j: int| 0 <= j < ns@.len() && (#[trigger] ns@[j])@ == x;
            if j < old_v.len() {
                assert(ns@[j] == old_v[j]);
            }
        }
    }
}

/// Inserts a dotted module path and every dotted prefix of it into the
/// namespace set, so `std.memory.arena` registers `std`, `std.memory`, and
/// `std.memory.arena` as callable prefixes. The set is a list without repeats.
pub fn add_namespace(ns: &mut Vec<String>, modpath: &str)
    requires
        no_dups(old(ns)@),
    ensures
        no_dups(final(ns)@),
        set_of(final(ns)@) == set_of(old(ns)@).union(
            Set::new(|s: Seq<char>| is_namespace_of(modpath@, s)),
        ),
{
    let m = chars_of(modpath);
    let mut acc: Vec<char> = Vec::new();
    let mut i: usize = 0;
    let ghost target = Set::new(|s: Seq<char>| is_namespace_of(m@, s));
    while i < m.len()
        invariant
            0 <= i <= m.len(),
            m@ == modpath@,
            no_dups(ns@),
            acc@ == strip_dots(m@.take(i as int)),
            set_of(ns@) == set_of(old(ns)@).union(
                Set::new(|s: Seq<char>| exists|j: int| 0 <= j < i && j <= m@.len() && (j == m@.len() || m@[j] == '.') && s == strip_dots(#[trigger] m@.take(j))),
            ),
        decreases m.len() - i,
    {
        if m[i] == '.' {
            insert_name(ns, &acc);
        }
        proof {
            let lo = Set::new(|s: Seq<char>| exists|j: int| 0 <= j < i && j <= m@.len() && (j == m@.len() || m@[j] == '.') && s == strip_dots(#[trigger] m@.take(j)));
            let hi = Set::new(|s: Seq<char>| exists|j: int| 0 <= j < i + 1 && j <= m@.len() && (j == m@.len() || m@[j] == '.') && s == strip_dots(#[trigger] m@.take(j)));
            if m@[i as int] == '.' {
                assert(hi =~= lo.insert(acc@)) by {
                    assert forall|x: Seq<char>| hi.contains(x) implies lo.insert(acc@).contains(x) by {
                        let j = choose|j: int| 0 <= j < i + 1 && j <= m@.len() && (j == m@.len() || m@[j] == '.') && x == strip_dots(#[trigger] m@.take(j));
                        if j < i {
                            assert(lo.contains(x));
                        }
                    }
                    assert forall|x: Seq<char>| lo.insert(acc@).contains(x) implies hi.contains(x) by {
                        if x == acc@ {
                            assert(x == strip_dots(m@.take(i as int)));
                        } else {
                            let j = choose|j: int| 0 <= j < i && j <= m@.len() && (j == m@.len() || m@[j] == '.') && x == strip_dots(#[trigger] m@.take(j));
                            assert(hi.contains(x));
                        }
                    }
                }
                assert(set_of(ns@) =~= set_of(old(ns)@).union(hi));
            } else {
                assert(hi =~= lo) by {
                    assert forall|x: Seq<char>| hi.contains(x) implies lo.contains(x) by {
                        let j = choose|j: int| 0 <= j < i + 1 && j <= m@.len() && (j == m@.len() || m@[j] == '.') && x == strip_dots(#[trigger] m@.take(j));
                        if j == i {
                            assert(false);
                        }
                    }
                }
            }
        }
        let c = m[i];
        if !(acc.len() == 0 && c == '.') {
            acc.push(c);
        }
        proof {
            lemma_strip_dots_push(m@.take(i as int), c);
            assert(m@.take(i + 1) =~= m@.take(i as int).push(c));
        }
        i = i + 1;
    }
    let ghost mid = set_of(ns@);
    insert_name(ns, &acc);
    proof {
        let lo = Set::new(|s: Seq<char>| exists|j: int| 0 <= j < i && j <= m@.len() && (j == m@.len() || m@[j] == '.') && s == strip_dots(#[trigger] m@.take(j)));
        let fin = lo.insert(acc@);
        assert(acc@ == strip_dots(m@.take(m@.len() as int)));
        assert(fin =~= target) by {
            assert forall|x: Seq<char>| target.contains(x) implies fin.contains(x) by {
                let j = choose|j: int| 0 <= j <= m@.len() && (j == m@.len() || m@[j] == '.') && x == strip_dots(#[trigger] m@.take(j));
                if j < m@.len() {
                    assert(lo.contains(x));
                }
            }
            assert forall|x: Seq<char>| fin.contains(x) implies target.contains(x) by {
                if x == acc@ {
                    assert(is_namespace_of(m@, x));
                } else {
                    let j = choose|j: int| 0 <= j < i && j <= m@.len() && (j == m@.len() || m@[j] == '.') && x == strip_dots(#[trigger] m@.take(j));
                    assert(is_namespace_of(m@, x));
                }
            }
        }
        assert(set_of(ns@) =~= set_of(old(ns)@).union(target));
    }
}

proof fn lemma_strip_dots_push(s: Seq<char>, c: char)
    ensures
        strip_dots(s.push(c)) == if strip_dots(s).len() == 0 && c == '.' {
            Seq::<char>::empty()
        } else {
            strip_dots(s).push(c)
        },
    decreases s.len(),
{
    if s.len() == 0 {
        if c == '.' {
            assert(s.push(c).drop_first() =~= Seq::<char>::empty());
            assert(strip_dots(Seq::<char>::empty()) =~= Seq::<char>::empty());
        } else {
            assert(strip_dots(s) =~= s);
        }
    } else if s[0] == '.' {
        lemma_strip_dots_push(s.drop_first(), c);
        assert(s.push(c).drop_first() =~= s.drop_first().push(c));
    } else {
        assert(strip_dots(s) == s);
        assert(strip_dots(s.push(c)) == s.push(c));
    }
}

/// Whether a file exists at `path` (`Path::is_file`). What it answers depends
/// on the disk, so nothing is promised of the result.
#[verifier::external_body]
fn path_is_file(path: &str) -> bool {
    std::path::Path::new(path).is_file()
}

/// `b` is an answer the disk gave when asked whether a file exists at `path`:
/// a call of `path_is_file` on that path returned it.
pub closed spec fn disk_says(path: Seq<char>, b: bool) -> bool {
    exists|x: &str| x@ == path && #[trigger] call_ensures(path_is_file, (x,), b)
}

/// Asks `probe` about `path`; the answer is one `probe` can give for it.
fn ask<F: Fn(&str) -> bool>(probe: F, path: &str) -> (b: bool)
    requires
        call_requires(probe, (path,)),
    ensures
        call_ensures(probe, (path,), b),
{
    probe(path)
}

/// The lookup's outcome over the candidates `cs`: the first candidate the
/// disk reported as a file, every earlier one reported absent; or none, when
/// the disk reported every candidate absent.
pub open spec fn first_on_disk(cs: Seq<(Seq<char>, Option<Seq<char>>)>, r: Option<(Seq<char>, Option<Seq<char>>)>) -> bool {
    match r {
        Some(found) => exists|k: int|
            0 <= k < cs.len() && cs[k] == found && disk_says(cs[k].0, true) && forall|j: int|
                0 <= j < k ==> disk_says(#[trigger] cs[j].0, false),
        None => forall|j: int| 0 <= j < cs.len() ==> disk_says(#[trigger] cs[j].0, false),
    }
}

pub open spec fn found_view(r: Option<(String, Option<String>)>) -> Option<(Seq<char>, Option<Seq<char>>)> {
    match r {
        Some(f) => Some((f.0@, match f.1 { Some(l) => Some(l@), None => None })),
        None => None,
    }
}

/// `rel` joined under `root` with a separator, as `Path::join` does for a
/// relative path; an absolute `rel` stands alone and an empty root adds nothing.
pub open spec fn join_spec(root: Seq<char>, rel: Seq<char>) -> Seq<char> {
    if rel.len() > 0 && rel[0] == '/' {
        rel
    } else if root.len() == 0 {
        rel
    } else if root.last() == '/' {
        root + rel
    } else {
        root + seq!['/'] + rel
    }
}

fn join_path(root: &[char], rel: &[char]) -> (p: Vec<char>)
    ensures
        p@ == join_spec(root@, rel@),
{
    let mut p: Vec<char> = Vec::new();
    if rel.len() > 0 && rel[0] == '/' {
        extend(&mut p, rel);
        assert(p@ =~= rel@);
        return p;
    }
    extend(&mut p, root);
    if root.len() > 0 && root[root.len() - 1] != '/' {
        p.push('/');
    }
    extend(&mut p, rel);
    assert(p@ =~= join_spec(root@, rel@));
    p
}

fn extend(v: &mut Vec<char>, s: &[char])
    ensures
        final(v)@ == old(v)@ + s@,
{
    let ghost start = v@;
    let mut i: usize = 0;
    while i < s.len()
        invariant
            0 <= i <= s.len(),
            v@ == start + s@.take(i as int),
        decreases s.len() - i,
    {
        v.push(s[i]);
        i = i + 1;
        assert(v@ =~= start + s@.take(i as int));
    }
    assert(s@.take(i as int) =~= s@);
}

/// The index of the last `/` in `s`, if any.
pub open spec fn last_slash(s: Seq<char>, i: int) -> Option<int>
    decreases i,
{
    if i <= 0 {
        None
    } else if s[i - 1] == '/' {
        Some(i - 1)
    } else {
        last_slash(s, i - 1)
    }
}

/// The files an import tries under one root, in order: `rel.dusk`, then the
/// parent path's file with the last segment as a leaf symbol.
pub open spec fn root_candidates(root: Seq<char>, rel: Seq<char>) -> Seq<(Seq<char>, Option<Seq<char>>)> {
    let whole = (join_spec(root, rel + ".dusk"@), None::<Seq<char>>);
    match last_slash(rel, rel.len() as int) {
        Some(idx) => seq![
            whole,
            (join_spec(root, rel.take(idx) + ".dusk"@), Some(rel.subrange(idx + 1, rel.len() as int))),
        ],
        None => seq![whole],
    }
}

/// The candidates under each root in order.
pub open spec fn candidates(roots: Seq<Seq<char>>, rel: Seq<char>, i: int) -> Seq<(Seq<char>, Option<Seq<char>>)>
    decreases i,
{
    if i <= 0 {
        Seq::empty()
    } else {
        candidates(roots, rel, i - 1) + root_candidates(roots[i - 1], rel)
    }
}

pub open spec fn cand_view(v: Seq<(String, Option<String>)>) -> Seq<(Seq<char>, Option<Seq<char>>)> {
    v.map_values(|c: (String, Option<String>)| (c.0@, match c.1 { Some(l) => Some(l@), None => None }))
}

pub open spec fn strings_view(v: Seq<String>) -> Seq<Seq<char>> {
    v.map_values(|s: String| s@)
}

proof fn lemma_last_slash(s: Seq<char>, i: int)
    requires
        0 <= i <= s.len(),
    ensures
        last_slash(s, i) matches Some(j) ==> 0 <= j < i && s[j] == '/',
    decreases i,
{
    if i > 0 && s[i - 1] != '/' {
        lemma_last_slash(s, i - 1);
    }
}

/// Lists the files an import path relative to each root may resolve to, in
/// the order they are tried.
pub fn resolve_candidates(rel: &str, roots: &[String]) -> (c: Vec<(String, Option<String>)>)
    ensures
        cand_view(c@) == candidates(strings_view(roots@), rel@, roots@.len() as int),
{
    let r = chars_of(rel);
    let mut with_ext = r.clone();
    let ext = chars_of(".dusk");
    extend(&mut with_ext, ext.as_slice());
    let mut j = r.len();
    while j > 0 && r[j - 1] != '/'
        invariant
            0 <= j <= r@.len(),
            last_slash(r@, r@.len() as int) == last_slash(r@, j as int),
        decreases j,
    {
        j = j - 1;
    }
    proof {
        lemma_last_slash(r@, r@.len() as int);
    }
    let mut out: Vec<(String, Option<String>)> = Vec::new();
    let mut i: usize = 0;
    while i < roots.len()
        invariant
            0 <= i <= roots@.len(),
            r@ == rel@,
            with_ext@ == rel@ + ".dusk"@,
            ext@ == ".dusk"@,
            j <= r@.len(),
            j > 0 ==> last_slash(r@, r@.len() as int) == Some(j - 1),
            j == 0 ==> last_slash(r@, r@.len() as int) is None,
            cand_view(out@) == candidates(strings_view(roots@), rel@, i as int),
        decreases roots.len() - i,
    {
        let root = chars_of(roots[i].as_str());
        let ghost before = cand_view(out@);
        let whole = join_path(root.as_slice(), with_ext.as_slice());
        out.push((string_of(whole.as_slice()), None));
        if j > 0 {
            let mut parent: Vec<char> = Vec::new();
            extend(&mut parent, &r.as_slice()[0..j - 1]);
            extend(&mut parent, ext.as_slice());
            let pfile = join_path(root.as_slice(), parent.as_slice());
            let leaf = string_of(&r.as_slice()[j..r.len()]);
            out.push((string_of(pfile.as_slice()), Some(leaf)));
            proof {
                assert(r@.take(j - 1) =~= r@.subrange(0, j - 1));
            }
        }
        proof {
            assert(strings_view(roots@)[i as int] == root@);
            assert(cand_view(out@) =~= before + root_candidates(root@, rel@));
        }
        i = i + 1;
    }
    out
}

/// Looks up `rel.dusk`, then `<parent of rel>.dusk`, under each root in
/// order, and returns the first candidate file that exists with, when the
/// parent matched, the trailing leaf segment that names a symbol the parent
/// module must export. What exists depends on the disk, so the contract says
/// only that any answer is one of the candidates; which one is settled by
/// `first_present` from the answers the disk gave: every candidate is asked
/// in order, a parent file with a leaf as much as a whole file, until one is
/// reported present.
pub fn resolve_in(rel: &str, roots: &[String]) -> (r: Option<(String, Option<String>)>)
    ensures
        r matches Some(found) ==> candidates(strings_view(roots@), rel@, roots@.len() as int).contains(
            (found.0@, match found.1 { Some(l) => Some(l@), None => None }),
        ),
        first_on_disk(candidates(strings_view(roots@), rel@, roots@.len() as int), found_view(r)),
{
    let c = resolve_candidates(rel, roots);
    let ghost cs = cand_view(c@);
    let mut present: Vec<bool> = Vec::new();
    let mut done = false;
    while present.len() < c.len() && !done
        invariant
            cs == cand_view(c@),
            present@.len() <= c@.len(),
            done == (present@.len() > 0 && present@.last()),
            forall|j: int| 0 <= j < present@.len() - 1 ==> !present@[j],
            forall|j: int| 0 <= j < present@.len() ==> disk_says(#[trigger] cs[j].0, present@[j]),
        decreases c.len() - present.len(),
    {
        let i = present.len();
        let x = c[i].0.as_str();
        let p = ask(path_is_file, x);
        proof {
            assert(cs[i as int].0 == x@);
            assert(disk_says(cs[i as int].0, p));
        }
        let ghost before = present@;
        present.push(p);
        assert(forall|j: int| 0 <= j < before.len() ==> present@[j] == before[j]);
        done = p;
    }
    let r = first_present(&c, present.as_slice());
    proof {
        lemma_first_true_bounds(present@, 0);
        let k = first_true_from(present@, 0);
        if let Some(found) = &r {
            assert(cand_view(c@)[k] == (found.0@, match found.1 { Some(l) => Some(l@), None => None }));
            assert(cand_view(c@).contains((found.0@, match found.1 { Some(l) => Some(l@), None => None })));
            assert(present@[k]);
            assert(disk_says(cs[k].0, true));
            assert forall|j: int| 0 <= j < k implies disk_says(#[trigger] cs[j].0, false) by {
                assert(!present@[j]);
            }
        } else {
            assert(!done);
            assert(present@.len() == c@.len());
            assert forall|j: int| 0 <= j < cs.len() implies disk_says(#[trigger] cs[j].0, false) by {
                assert(!present@[j]);
            }
        }
    }
    r
}

/// The index of the first `true` from `i` on, or the length when there is none.
pub open spec fn first_true_from(p: Seq<bool>, i: int) -> int
    decreases p.len() - i,
{
    if i < 0 || i >= p.len() {
        p.len() as int
    } else if p[i] {
        i
    } else {
        first_true_from(p, i + 1)
    }
}

proof fn lemma_first_true_bounds(p: Seq<bool>, i: int)
    requires
        0 <= i <= p.len(),
    ensures
        i <= first_true_from(p, i) <= p.len(),
        first_true_from(p, i) < p.len() ==> p[first_true_from(p, i)],
        first_true_from(p, i) == p.len() ==> forall|j: int| i <= j < p.len() ==> !p[j],
    decreases p.len() - i,
{
    if i < p.len() && !p[i] {
        lemma_first_true_bounds(p, i + 1);
    }
}

/// The candidate a lookup settles on, given for the candidates in order,
/// up to the first found, whether a file exists there: the first that does.
pub fn first_present(cands: &Vec<(String, Option<String>)>, present: &[bool]) -> (r: Option<(String, Option<String>)>)
    requires
        present@.len() <= cands@.len(),
    ensures
        ({
            let k = first_true_from(present@, 0);
            if k < present@.len() {
                r matches Some(found) && cand_view(cands@)[k] == (found.0@, match found.1 { Some(l) => Some(l@), None => None })
            } else {
                r is None
            }
        }),
{
    proof {
        lemma_first_true_bounds(present@, 0);
    }
    let mut i: usize = 0;
    while i < present.len()
        invariant
            0 <= i <= present@.len(),
            present@.len() <= cands@.len(),
            first_true_from(present@, 0) == first_true_from(present@, i as int),
        decreases present.len() - i,
    {
        if present[i] {
            let found = (cands[i].0.clone(), cands[i].1.clone());
            return Some(found);
        }
        i = i + 1;
    }
    None
}

/// An import path with its dots replaced by slashes.
pub open spec fn dots_to_slashes(s: Seq<char>) -> Seq<char> {
    Seq::new(s.len(), |i: int| if s[i] == '.' { '/' } else { s[i] })
}

/// The roots an import is searched under and the path it is searched as: a
/// slashed path is a dawn package under the cache; a dotted one is looked up
/// beside the importer, then in the stdlib.
pub open spec fn resolve_plan(import: Seq<char>, base: Seq<char>, stdlib: Seq<char>, cache: Seq<char>) -> (Seq<Seq<char>>, Seq<char>) {
    if import.contains('/') {
        (seq![cache], import)
    } else {
        (seq![base, stdlib], dots_to_slashes(import))
    }
}

/// Whether an import names a dawn package, a git repository path such as
/// `github.com/user/repo/mod`, rather than a dotted module path: it holds a
/// `/`.
pub fn is_package_import(import: &str) -> (r: bool)
    ensures
        r == import@.contains('/'),
{
    let imp = chars_of(import);
    let mut has_slash = false;
    let mut i: usize = 0;
    while i < imp.len()
        invariant
            imp@ == import@,
            0 <= i <= imp@.len(),
            has_slash == exists|j: int| 0 <= j < i && imp@[j] == '/',
        decreases imp.len() - i,
    {
        if imp[i] == '/' {
            has_slash = true;
        }
        i = i + 1;
    }
    has_slash
}

/// Resolves an import to a `.dusk` file. `cache` is the dawn package cache
/// directory, read from the environment by the caller.
pub fn resolve(import: &str, base: &str, stdlib: &str, cache: &str) -> (r: Option<(String, Option<String>)>)
    ensures
        r matches Some(found) ==> {
            let plan = resolve_plan(import@, base@, stdlib@, cache@);
            candidates(plan.0, plan.1, plan.0.len() as int).contains(
                (found.0@, match found.1 { Some(l) => Some(l@), None => None }),
            )
        },
        ({
            let plan = resolve_plan(import@, base@, stdlib@, cache@);
            first_on_disk(candidates(plan.0, plan.1, plan.0.len() as int), found_view(r))
        }),
{
    let imp = chars_of(import);
    let has_slash = is_package_import(import);
    let mut roots: Vec<String> = Vec::new();
    if has_slash {
        roots.push(string_of(chars_of(cache).as_slice()));
        proof {
            assert(strings_view(roots@) =~= seq![cache@]);
        }
        resolve_in(import, roots.as_slice())
    } else {
        let mut rel: Vec<char> = Vec::new();
        let mut k: usize = 0;
        while k < imp.len()
            invariant
                0 <= k <= imp@.len(),
                rel@ == dots_to_slashes(imp@).take(k as int),
            decreases imp.len() - k,
        {
            rel.push(if imp[k] == '.' { '/' } else { imp[k] });
            k = k + 1;
            assert(rel@ =~= dots_to_slashes(imp@).take(k as int));
        }
        assert(rel@ =~= dots_to_slashes(imp@));
        roots.push(string_of(chars_of(base).as_slice()));
        roots.push(string_of(chars_of(stdlib).as_slice()));
        proof {
            assert(strings_view(roots@) =~= seq![base@, stdlib@]);
        }
        let rel_s = string_of(rel.as_slice());
        resolve_in(rel_s.as_str(), roots.as_slice())
    }
}



// Merging files into one program shifts every span of a file by the file's
// base offset, so spans across the whole program stay unique.

pub open spec fn span_shifted(o: Span, n: Span, base: u32) -> bool {
    n.lo == o.lo + base && n.hi == o.hi + base
}

pub open spec fn span_fits(s: Span, base: u32) -> bool {
    s.lo + base <= u32::MAX && s.hi + base <= u32::MAX
}

/// `n` is `o` with every span moved `base` bytes later.
pub open spec fn expr_shifted(o: Expr, n: Expr, base: u32) -> bool
    decreases o, 0int,
{
    span_shifted(o.span, n.span, base) && match o.kind {
        ExprKind::Unary(op, x) => n.kind matches ExprKind::Unary(op2, y) && op2 == op && expr_shifted(*x, *y, base),
        ExprKind::Binary(op, a, b) => n.kind matches ExprKind::Binary(op2, c, d) && op2 == op
            && expr_shifted(*a, *c, base) && expr_shifted(*b, *d, base),
        ExprKind::Index(a, b) => n.kind matches ExprKind::Index(c, d) && expr_shifted(*a, *c, base)
            && expr_shifted(*b, *d, base),
        ExprKind::Range(a, b, incl) => n.kind matches ExprKind::Range(c, d, incl2) && incl2 == incl && expr_shifted(*a, *c, base)
            && expr_shifted(*b, *d, base),
        ExprKind::Call(f, args) => n.kind matches ExprKind::Call(g, args2) && expr_shifted(*f, *g, base)
            && exprs_shifted(args@, args2@, base),
        ExprKind::Field(x, name) => n.kind matches ExprKind::Field(y, name2) && name2 == name
            && expr_shifted(*x, *y, base),
        ExprKind::Tuple(xs) => n.kind matches ExprKind::Tuple(ys) && exprs_shifted(xs@, ys@, base),
        ExprKind::Array(xs) => n.kind matches ExprKind::Array(ys) && exprs_shifted(xs@, ys@, base),
        ExprKind::StructLit(name, fs) => n.kind matches ExprKind::StructLit(name2, gs) && name2 == name
            && fields_shifted(fs@, gs@, base),
        ExprKind::Lambda(l) => n.kind matches ExprKind::Lambda(l2) && l2.params == l.params && l2.ret == l.ret
            && stmts_shifted(l.body.stmts@, l2.body.stmts@, base),
        ExprKind::Match(m) => n.kind matches ExprKind::Match(m2) && match_shifted(*m, *m2, base),
        ExprKind::Do(name, binds) => n.kind matches ExprKind::Do(name2, binds2) && name2 == name
            && dobinds_shifted(binds@, binds2@, base),
        _ => n.kind == o.kind,
    }
}

pub open spec fn exprs_shifted(o: Seq<Expr>, n: Seq<Expr>, base: u32) -> bool
    decreases o, 0int,
{
    o.len() == n.len() && forall|i: int| 0 <= i < o.len() ==> expr_shifted(o[i], #[trigger] n[i], base)
}

pub open spec fn fields_shifted(o: Seq<(String, Expr)>, n: Seq<(String, Expr)>, base: u32) -> bool
    decreases o, 0int,
{
    o.len() == n.len() && forall|i: int|
        0 <= i < o.len() ==> (#[trigger] n[i]).0 == o[i].0 && expr_shifted(o[i].1, n[i].1, base)
}

pub open spec fn dobinds_shifted(o: Seq<DoBind>, n: Seq<DoBind>, base: u32) -> bool
    decreases o, 0int,
{
    o.len() == n.len() && forall|i: int|
        0 <= i < o.len() ==> (#[trigger] n[i]).name == o[i].name && expr_shifted(o[i].expr, n[i].expr, base)
}

pub open spec fn stmt_shifted(o: Stmt, n: Stmt, base: u32) -> bool
    decreases o, 0int,
{
    match o {
        Stmt::Let(l) => n matches Stmt::Let(l2) && l2.mutable == l.mutable && l2.is_ref == l.is_ref && l2.infer
            == l.infer && l2.binds == l.binds && expr_shifted(l.value, l2.value, base),
        Stmt::Assign(a, b) => n matches Stmt::Assign(c, d) && expr_shifted(a, c, base) && expr_shifted(b, d, base),
        Stmt::AssignOp(op, a, b) => n matches Stmt::AssignOp(op2, c, d) && op2 == op && expr_shifted(a, c, base)
            && expr_shifted(b, d, base),
        Stmt::Break(_) => n == o,
        Stmt::Continue(_) => n == o,
        Stmt::Return(Some(e)) => n matches Stmt::Return(Some(e2)) && expr_shifted(e, e2, base),
        Stmt::Return(None) => n == o,
        Stmt::Defer(e) => n matches Stmt::Defer(e2) && expr_shifted(e, e2, base),
        Stmt::Expr(e) => n matches Stmt::Expr(e2) && expr_shifted(e, e2, base),
        Stmt::If(i) => n matches Stmt::If(i2) && expr_shifted(i.cond, i2.cond, base) && stmts_shifted(
            i.then_block.stmts@,
            i2.then_block.stmts@,
            base,
        ) && match i.els {
            Some(b) => i2.els matches Some(b2) && stmts_shifted(b.stmts@, b2.stmts@, base),
            None => i2.els is None,
        },
        Stmt::While(w) => n matches Stmt::While(w2) && w2.post_test == w.post_test && expr_shifted(w.cond, w2.cond, base)
            && stmts_shifted(w.body.stmts@, w2.body.stmts@, base),
        Stmt::For(f) => n matches Stmt::For(f2) && f2.var == f.var && expr_shifted(f.iter, f2.iter, base)
            && stmts_shifted(f.body.stmts@, f2.body.stmts@, base),
        Stmt::Match(m) => n matches Stmt::Match(m2) && match_shifted(m, m2, base),
    }
}

pub open spec fn stmts_shifted(o: Seq<Stmt>, n: Seq<Stmt>, base: u32) -> bool
    decreases o, 0int,
{
    o.len() == n.len() && forall|i: int| 0 <= i < o.len() ==> stmt_shifted(o[i], #[trigger] n[i], base)
}

pub open spec fn match_shifted(o: Match, n: Match, base: u32) -> bool
    decreases o, 0int,
{
    expr_shifted(*o.scrut, *n.scrut, base) && o.arms@.len() == n.arms@.len() && forall|i: int|
        0 <= i < o.arms@.len() ==> (#[trigger] n.arms@[i]).pat == o.arms@[i].pat && stmts_shifted(
            o.arms@[i].body.stmts@,
            n.arms@[i].body.stmts@,
            base,
        )
}

/// Every span of the expression stays in range when moved `base` bytes.
pub open spec fn expr_fits(e: Expr, base: u32) -> bool
    decreases e, 0int,
{
    span_fits(e.span, base) && match e.kind {
        ExprKind::Unary(_, x) => expr_fits(*x, base),
        ExprKind::Binary(_, a, b) => expr_fits(*a, base) && expr_fits(*b, base),
        ExprKind::Index(a, b) => expr_fits(*a, base) && expr_fits(*b, base),
        ExprKind::Range(a, b, _) => expr_fits(*a, base) && expr_fits(*b, base),
        ExprKind::Call(f, args) => expr_fits(*f, base) && exprs_fit(args@, base),
        ExprKind::Field(x, _) => expr_fits(*x, base),
        ExprKind::Tuple(xs) => exprs_fit(xs@, base),
        ExprKind::Array(xs) => exprs_fit(xs@, base),
        ExprKind::StructLit(_, fs) => forall|i: int| 0 <= i < fs@.len() ==> expr_fits(#[trigger] fs@[i].1, base),
        ExprKind::Lambda(l) => stmts_fit(l.body.stmts@, base),
        ExprKind::Match(m) => match_fits(*m, base),
        ExprKind::Do(_, binds) => forall|i: int| 0 <= i < binds@.len() ==> expr_fits(#[trigger] binds@[i].expr, base),
        _ => true,
    }
}

pub open spec fn exprs_fit(o: Seq<Expr>, base: u32) -> bool
    decreases o, 0int,
{
    forall|i: int| 0 <= i < o.len() ==> expr_fits(#[trigger] o[i], base)
}

pub open spec fn stmt_fits(s: Stmt, base: u32) -> bool
    decreases s, 0int,
{
    match s {
        Stmt::Let(l) => expr_fits(l.value, base),
        Stmt::Assign(a, b) => expr_fits(a, base) && expr_fits(b, base),
        Stmt::AssignOp(_, a, b) => expr_fits(a, base) && expr_fits(b, base),
        Stmt::Break(_) => true,
        Stmt::Continue(_) => true,
        Stmt::Return(Some(e)) => expr_fits(e, base),
        Stmt::Return(None) => true,
        Stmt::Defer(e) => expr_fits(e, base),
        Stmt::Expr(e) => expr_fits(e, base),
        Stmt::If(i) => expr_fits(i.cond, base) && stmts_fit(i.then_block.stmts@, base) && match i.els {
            Some(b) => stmts_fit(b.stmts@, base),
            None => true,
        },
        Stmt::While(w) => expr_fits(w.cond, base) && stmts_fit(w.body.stmts@, base),
        Stmt::For(f) => expr_fits(f.iter, base) && stmts_fit(f.body.stmts@, base),
        Stmt::Match(m) => match_fits(m, base),
    }
}

pub open spec fn stmts_fit(o: Seq<Stmt>, base: u32) -> bool
    decreases o, 0int,
{
    forall|i: int| 0 <= i < o.len() ==> stmt_fits(#[trigger] o[i], base)
}

pub open spec fn match_fits(m: Match, base: u32) -> bool
    decreases m, 0int,
{
    expr_fits(*m.scrut, base) && forall|i: int| 0 <= i < m.arms@.len() ==> stmts_fit(#[trigger] m.arms@[i].body.stmts@, base)
}

fn shift_expr(e: &mut Expr, base: u32)
    requires
        expr_fits(*old(e), base),
    ensures
        expr_shifted(*old(e), *final(e), base),
    decreases *old(e),
{
    e.span = Span::new(e.span.lo + base, e.span.hi + base);
    match &mut e.kind {
        ExprKind::Unary(_, x) => shift_expr(x, base),
        ExprKind::Binary(_, a, b) => {
            shift_expr(a, base);
            shift_expr(b, base);
        },
        ExprKind::Index(a, b) => {
            shift_expr(a, base);
            shift_expr(b, base);
        },
        ExprKind::Range(a, b, _) => {
            shift_expr(a, base);
            shift_expr(b, base);
        },
        ExprKind::Call(f, args) => {
            shift_expr(f, base);
            shift_exprs(args, base);
        },
        ExprKind::Field(x, _) => shift_expr(x, base),
        ExprKind::Tuple(xs) => shift_exprs(xs, base),
        ExprKind::Array(xs) => shift_exprs(xs, base),
        ExprKind::StructLit(_, fs) => shift_fields(fs, base),
        ExprKind::Lambda(l) => shift_block(&mut l.body, base),
        ExprKind::Match(m) => shift_match(m, base),
        ExprKind::Do(_, binds) => shift_dobinds(binds, base),
        _ => {},
    }
}

fn shift_exprs(v: &mut Vec<Expr>, base: u32)
    requires
        exprs_fit(old(v)@, base),
    ensures
        exprs_shifted(old(v)@, final(v)@, base),
    decreases old(v)@,
{
    let ghost o = v@;
    let mut i: usize = 0;
    while i < v.len()
        invariant
            0 <= i <= v@.len(),
            o == old(v)@,
            v@.len() == o.len(),
            exprs_fit(o, base),
            forall|j: int| 0 <= j < i ==> expr_shifted(o[j], #[trigger] v@[j], base),
            forall|j: int| i <= j < v@.len() ==> #[trigger] v@[j] == o[j],
        decreases v.len() - i,
    {
        proof {
            assert(decreases_to!(o => o[i as int]));
        }
        shift_expr(&mut v[i], base);
        i = i + 1;
    }
}

fn shift_fields(v: &mut Vec<(String, Expr)>, base: u32)
    requires
        forall|i: int| 0 <= i < old(v)@.len() ==> expr_fits(#[trigger] old(v)@[i].1, base),
    ensures
        fields_shifted(old(v)@, final(v)@, base),
    decreases old(v)@,
{
    let ghost o = v@;
    let mut i: usize = 0;
    while i < v.len()
        invariant
            0 <= i <= v@.len(),
            o == old(v)@,
            v@.len() == o.len(),
            forall|j: int| 0 <= j < o.len() ==> expr_fits(#[trigger] o[j].1, base),
            forall|j: int| 0 <= j < i ==> (#[trigger] v@[j]).0 == o[j].0 && expr_shifted(o[j].1, v@[j].1, base),
            forall|j: int| i <= j < v@.len() ==> #[trigger] v@[j] == o[j],
        decreases v.len() - i,
    {
        proof {
            assert(decreases_to!(o => o[i as int]));
            assert(decreases_to!(o[i as int] => o[i as int].1));
        }
        shift_expr(&mut v[i].1, base);
        i = i + 1;
    }
}

fn shift_dobinds(v: &mut Vec<DoBind>, base: u32)
    requires
        forall|i: int| 0 <= i < old(v)@.len() ==> expr_fits(#[trigger] old(v)@[i].expr, base),
    ensures
        dobinds_shifted(old(v)@, final(v)@, base),
    decreases old(v)@,
{
    let ghost o = v@;
    let mut i: usize = 0;
    while i < v.len()
        invariant
            0 <= i <= v@.len(),
            o == old(v)@,
            v@.len() == o.len(),
            forall|j: int| 0 <= j < o.len() ==> expr_fits(#[trigger] o[j].expr, base),
            forall|j: int| 0 <= j < i ==> (#[trigger] v@[j]).name == o[j].name && expr_shifted(o[j].expr, v@[j].expr, base),
            forall|j: int| i <= j < v@.len() ==> #[trigger] v@[j] == o[j],
        decreases v.len() - i,
    {
        proof {
            assert(decreases_to!(o => o[i as int]));
            assert(decreases_to!(o[i as int] => o[i as int].expr));
        }
        shift_expr(&mut v[i].expr, base);
        i = i + 1;
    }
}

fn shift_block(b: &mut Block, base: u32)
    requires
        stmts_fit(old(b).stmts@, base),
    ensures
        stmts_shifted(old(b).stmts@, final(b).stmts@, base),
    decreases *old(b),
{
    let ghost o = b.stmts@;
    let mut i: usize = 0;
    while i < b.stmts.len()
        invariant
            0 <= i <= b.stmts@.len(),
            o == old(b).stmts@,
            b.stmts@.len() == o.len(),
            stmts_fit(o, base),
            forall|j: int| 0 <= j < i ==> stmt_shifted(o[j], #[trigger] b.stmts@[j], base),
            forall|j: int| i <= j < b.stmts@.len() ==> #[trigger] b.stmts@[j] == o[j],
        decreases b.stmts.len() - i,
    {
        proof {
            assert(decreases_to!(*old(b) => old(b).stmts));
            assert(decreases_to!(old(b).stmts => o[i as int]));
        }
        shift_stmt(&mut b.stmts[i], base);
        i = i + 1;
    }
}

fn shift_stmt(s: &mut Stmt, base: u32)
    requires
        stmt_fits(*old(s), base),
    ensures
        stmt_shifted(*old(s), *final(s), base),
    decreases *old(s),
{
    match s {
        Stmt::Let(l) => shift_expr(&mut l.value, base),
        Stmt::Assign(a, b) => {
            shift_expr(a, base);
            shift_expr(b, base);
        },
        Stmt::AssignOp(_, a, b) => {
            shift_expr(a, base);
            shift_expr(b, base);
        },
        Stmt::Break(_) => {},
        Stmt::Continue(_) => {},
        Stmt::Return(Some(e)) => shift_expr(e, base),
        Stmt::Defer(e) => shift_expr(e, base),
        Stmt::Expr(e) => shift_expr(e, base),
        Stmt::Return(None) => {},
        Stmt::If(i) => {
            shift_expr(&mut i.cond, base);
            shift_block(&mut i.then_block, base);
            match &mut i.els {
                Some(e) => shift_block(e, base),
                None => {},
            }
        },
        Stmt::While(w) => {
            shift_expr(&mut w.cond, base);
            shift_block(&mut w.body, base);
        },
        Stmt::For(f) => {
            shift_expr(&mut f.iter, base);
            shift_block(&mut f.body, base);
        },
        Stmt::Match(m) => shift_match(m, base),
    }
}

fn shift_match(m: &mut Match, base: u32)
    requires
        match_fits(*old(m), base),
    ensures
        match_shifted(*old(m), *final(m), base),
    decreases *old(m),
{
    shift_expr(&mut m.scrut, base);
    let ghost o = m.arms@;
    let mut i: usize = 0;
    while i < m.arms.len()
        invariant
            0 <= i <= m.arms@.len(),
            o == old(m).arms@,
            m.arms@.len() == o.len(),
            expr_shifted(*old(m).scrut, *m.scrut, base),
            forall|j: int| 0 <= j < o.len() ==> stmts_fit(#[trigger] o[j].body.stmts@, base),
            forall|j: int|
                0 <= j < i ==> (#[trigger] m.arms@[j]).pat == o[j].pat && stmts_shifted(
                    o[j].body.stmts@,
                    m.arms@[j].body.stmts@,
                    base,
                ),
            forall|j: int| i <= j < m.arms@.len() ==> #[trigger] m.arms@[j] == o[j],
        decreases m.arms.len() - i,
    {
        proof {
            assert(decreases_to!(*old(m) => old(m).arms));
            assert(decreases_to!(old(m).arms => o[i as int]));
            assert(decreases_to!(o[i as int] => o[i as int].body));
        }
        shift_block(&mut m.arms[i].body, base);
        i = i + 1;
    }
}


/// `n` is the item `o` with every span moved `base` bytes later.
pub open spec fn item_shifted(o: Item, n: Item, base: u32) -> bool {
    match o {
        Item::Func(f) => n matches Item::Func(f2) && func_shifted(f, f2, base),
        Item::Impl(im) => n matches Item::Impl(im2) && im2.iface == im.iface && im2.ty == im.ty
            && im2.methods@.len() == im.methods@.len() && forall|k: int|
            0 <= k < im.methods@.len() ==> func_shifted(im.methods@[k], #[trigger] im2.methods@[k], base),
        _ => n == o,
    }
}

pub open spec fn func_shifted(f: Func, g: Func, base: u32) -> bool {
    &&& g.exported == f.exported
    &&& g.is_async == f.is_async
    &&& g.span == f.span
    &&& g.name == f.name
    &&& g.generics == f.generics
    &&& g.params == f.params
    &&& g.ret == f.ret
    &&& stmts_shifted(f.body.stmts@, g.body.stmts@, base)
}

pub open spec fn item_fits(it: Item, base: u32) -> bool {
    match it {
        Item::Func(f) => stmts_fit(f.body.stmts@, base),
        Item::Impl(im) => forall|k: int| 0 <= k < im.methods@.len() ==> stmts_fit(#[trigger] im.methods@[k].body.stmts@, base),
        _ => true,
    }
}

/// Every span of the module stays in range when moved `base` bytes.
pub open spec fn module_fits(m: Module, base: u32) -> bool {
    forall|i: int| 0 <= i < m.items@.len() ==> item_fits(#[trigger] m.items@[i], base)
}

/// `n` is the module `o` with every span moved `base` bytes later.
pub open spec fn module_shifted(o: Module, n: Module, base: u32) -> bool {
    &&& n.paradigms == o.paradigms
    &&& n.imports == o.imports
    &&& n.items@.len() == o.items@.len()
    &&& forall|i: int| 0 <= i < o.items@.len() ==> item_shifted(o.items@[i], #[trigger] n.items@[i], base)
}

fn shift_func(f: &mut Func, base: u32)
    requires
        stmts_fit(old(f).body.stmts@, base),
    ensures
        func_shifted(*old(f), *final(f), base),
{
    shift_block(&mut f.body, base);
}

fn shift_item(it: &mut Item, base: u32)
    requires
        item_fits(*old(it), base),
    ensures
        item_shifted(*old(it), *final(it), base),
{
    match it {
        Item::Func(f) => shift_func(f, base),
        Item::Impl(im) => {
            let ghost o = im.methods@;
            let ghost oi = *im;
            let mut k: usize = 0;
            while k < im.methods.len()
                invariant
                    0 <= k <= im.methods@.len(),
                    im.iface == oi.iface,
                    im.ty == oi.ty,
                    o == oi.methods@,
                    im.methods@.len() == o.len(),
                    forall|j: int| 0 <= j < o.len() ==> stmts_fit(#[trigger] o[j].body.stmts@, base),
                    forall|j: int| 0 <= j < k ==> func_shifted(o[j], #[trigger] im.methods@[j], base),
                    forall|j: int| k <= j < im.methods@.len() ==> #[trigger] im.methods@[j] == o[j],
                decreases im.methods.len() - k,
            {
                shift_func(&mut im.methods[k], base);
                k = k + 1;
            }
        },
        _ => {},
    }
}

/// Adds `base` to every span in a module, so that after several files merge
/// into one program each span still points back into its own file's source.
pub fn shift_module(m: &mut Module, base: u32)
    requires
        module_fits(*old(m), base),
    ensures
        base == 0 ==> *final(m) == *old(m),
        base != 0 ==> module_shifted(*old(m), *final(m), base),
{
    if base == 0 {
        return;
    }
    let ghost o = m.items@;
    let mut i: usize = 0;
    while i < m.items.len()
        invariant
            0 <= i <= m.items@.len(),
            m.items@.len() == o.len(),
            m.paradigms == old(m).paradigms,
            m.imports == old(m).imports,
            o == old(m).items@,
            forall|j: int| 0 <= j < o.len() ==> item_fits(#[trigger] o[j], base),
            forall|j: int| 0 <= j < i ==> item_shifted(o[j], #[trigger] m.items@[j], base),
            forall|j: int| i <= j < m.items@.len() ==> #[trigger] m.items@[j] == o[j],
        decreases m.items.len() - i,
    {
        shift_item(&mut m.items[i], base);
        i = i + 1;
    }
}

/// Shifts a parsed module's spans into the program wide coordinate space and
/// records its source, so a later semantic diagnostic renders against the right
/// file rather than the root. A one byte gap between files keeps spans from
/// neighboring files distinct.
pub fn register(files: &mut Vec<FileSrc>, base: &mut u32, path: &str, src: String, module: &mut Module)
    requires
        module_fits(*old(module), *old(base)),
        *old(base) + (vstd::utf8::encode_utf8(src@).len() as usize as u32) + 1 <= u32::MAX,
    ensures
        *old(base) == 0 ==> *final(module) == *old(module),
        *old(base) != 0 ==> module_shifted(*old(module), *final(module), *old(base)),
        final(files)@.len() == old(files)@.len() + 1,
        final(files)@.drop_last() == old(files)@,
        final(files)@.last().path@ == path@,
        final(files)@.last().base == *old(base),
        final(files)@.last().src == src,
        *final(base) == *old(base) + (vstd::utf8::encode_utf8(src@).len() as usize as u32) + 1,
{
    shift_module(module, *base);
    let len = src.as_str().len() as u32;
    files.push(FileSrc { path: path.to_owned(), base: *base, src });
    *base = *base + len + 1;
}


// Namespace folding: a call whose callee is `<prefix>.<leaf>`, where `prefix`
// names an imported module, like `std.io.println(x)`, becomes `println(x)`,
// the flat global the loader merged. A field access on a value, like
// `v.push(x)`, has a prefix that is not a namespace and stays a method call.

/// The dotted path a callee built only from identifiers and field accesses
/// spells, like `std.io.println`; `None` when anything else is in the chain.
pub open spec fn path_spec(e: Expr) -> Option<Seq<char>>
    decreases e,
{
    match e.kind {
        ExprKind::Ident(n) => Some(n@),
        ExprKind::Field(b, name) => match path_spec(*b) {
            Some(p) => Some(p + "."@ + name@),
            None => None,
        },
        _ => None,
    }
}

/// `n` is `o` with every qualified module call whose prefix is in `ns` made a
/// bare call to its leaf, innermost calls first.
pub open spec fn expr_folded(o: Expr, n: Expr, ns: Set<Seq<char>>) -> bool
    decreases o, 0int,
{
    n.span == o.span && match o.kind {
        ExprKind::Call(f, args) => n.kind matches ExprKind::Call(g, args2) && exprs_folded(args@, args2@, ns)
            && callee_folded(*f, *g, ns),
        ExprKind::Unary(op, x) => n.kind matches ExprKind::Unary(op2, y) && op2 == op && expr_folded(*x, *y, ns),
        ExprKind::Binary(op, a, b) => n.kind matches ExprKind::Binary(op2, c, d) && op2 == op && expr_folded(*a, *c, ns)
            && expr_folded(*b, *d, ns),
        ExprKind::Index(a, b) => n.kind matches ExprKind::Index(c, d) && expr_folded(*a, *c, ns) && expr_folded(*b, *d, ns),
        ExprKind::Range(a, b, incl) => n.kind matches ExprKind::Range(c, d, incl2) && incl2 == incl && expr_folded(*a, *c, ns) && expr_folded(*b, *d, ns),
        ExprKind::Field(x, name) => n.kind matches ExprKind::Field(y, name2) && name2 == name && expr_folded(*x, *y, ns),
        ExprKind::Tuple(xs) => n.kind matches ExprKind::Tuple(ys) && exprs_folded(xs@, ys@, ns),
        ExprKind::Array(xs) => n.kind matches ExprKind::Array(ys) && exprs_folded(xs@, ys@, ns),
        ExprKind::StructLit(name, fs) => n.kind matches ExprKind::StructLit(name2, gs) && name2 == name && fs@.len()
            == gs@.len() && forall|i: int|
            0 <= i < fs@.len() ==> (#[trigger] gs@[i]).0 == fs@[i].0 && expr_folded(fs@[i].1, gs@[i].1, ns),
        ExprKind::Lambda(l) => n.kind matches ExprKind::Lambda(l2) && l2.params == l.params && l2.ret == l.ret
            && stmts_folded(l.body.stmts@, l2.body.stmts@, ns),
        ExprKind::Match(m) => n.kind matches ExprKind::Match(m2) && match_folded(*m, *m2, ns),
        ExprKind::Do(name, binds) => n.kind matches ExprKind::Do(name2, binds2) && name2 == name && binds@.len()
            == binds2@.len() && forall|i: int|
            0 <= i < binds@.len() ==> (#[trigger] binds2@[i]).name == binds@[i].name && expr_folded(
                binds@[i].expr,
                binds2@[i].expr,
                ns,
            ),
        _ => n.kind == o.kind,
    }
}

/// A callee `prefix.leaf` whose prefix is a namespace becomes the bare `leaf`;
/// any other callee is folded like an expression.
pub open spec fn callee_folded(f: Expr, g: Expr, ns: Set<Seq<char>>) -> bool
    decreases f, 1int,
{
    match f.kind {
        ExprKind::Field(b, leaf) => if path_spec(*b) matches Some(p) && ns.contains(p) {
            g.span == f.span && g.kind == ExprKind::Ident(leaf)
        } else {
            expr_folded(f, g, ns)
        },
        _ => expr_folded(f, g, ns),
    }
}

pub open spec fn exprs_folded(o: Seq<Expr>, n: Seq<Expr>, ns: Set<Seq<char>>) -> bool
    decreases o, 0int,
{
    o.len() == n.len() && forall|i: int| 0 <= i < o.len() ==> expr_folded(o[i], #[trigger] n[i], ns)
}

pub open spec fn stmt_folded(o: Stmt, n: Stmt, ns: Set<Seq<char>>) -> bool
    decreases o, 0int,
{
    match o {
        Stmt::Let(l) => n matches Stmt::Let(l2) && l2.mutable == l.mutable && l2.is_ref == l.is_ref && l2.infer
            == l.infer && l2.binds == l.binds && expr_folded(l.value, l2.value, ns),
        Stmt::Assign(a, b) => n matches Stmt::Assign(c, d) && expr_folded(a, c, ns) && expr_folded(b, d, ns),
        Stmt::AssignOp(op, a, b) => n matches Stmt::AssignOp(op2, c, d) && op2 == op && expr_folded(a, c, ns)
            && expr_folded(b, d, ns),
        Stmt::Break(_) => n == o,
        Stmt::Continue(_) => n == o,
        Stmt::Return(Some(e)) => n matches Stmt::Return(Some(e2)) && expr_folded(e, e2, ns),
        Stmt::Return(None) => n == o,
        Stmt::Defer(e) => n matches Stmt::Defer(e2) && expr_folded(e, e2, ns),
        Stmt::Expr(e) => n matches Stmt::Expr(e2) && expr_folded(e, e2, ns),
        Stmt::If(i) => n matches Stmt::If(i2) && expr_folded(i.cond, i2.cond, ns) && stmts_folded(
            i.then_block.stmts@,
            i2.then_block.stmts@,
            ns,
        ) && match i.els {
            Some(b) => i2.els matches Some(b2) && stmts_folded(b.stmts@, b2.stmts@, ns),
            None => i2.els is None,
        },
        Stmt::While(w) => n matches Stmt::While(w2) && w2.post_test == w.post_test && expr_folded(w.cond, w2.cond, ns)
            && stmts_folded(w.body.stmts@, w2.body.stmts@, ns),
        Stmt::For(f) => n matches Stmt::For(f2) && f2.var == f.var && expr_folded(f.iter, f2.iter, ns)
            && stmts_folded(f.body.stmts@, f2.body.stmts@, ns),
        Stmt::Match(m) => n matches Stmt::Match(m2) && match_folded(m, m2, ns),
    }
}

pub open spec fn stmts_folded(o: Seq<Stmt>, n: Seq<Stmt>, ns: Set<Seq<char>>) -> bool
    decreases o, 0int,
{
    o.len() == n.len() && forall|i: int| 0 <= i < o.len() ==> stmt_folded(o[i], #[trigger] n[i], ns)
}

pub open spec fn match_folded(o: Match, n: Match, ns: Set<Seq<char>>) -> bool
    decreases o, 0int,
{
    expr_folded(*o.scrut, *n.scrut, ns) && o.arms@.len() == n.arms@.len() && forall|i: int|
        0 <= i < o.arms@.len() ==> (#[trigger] n.arms@[i]).pat == o.arms@[i].pat && stmts_folded(
            o.arms@[i].body.stmts@,
            n.arms@[i].body.stmts@,
            ns,
        )
}

pub open spec fn func_folded(f: Func, g: Func, ns: Set<Seq<char>>) -> bool {
    &&& g.exported == f.exported
    &&& g.is_async == f.is_async
    &&& g.span == f.span
    &&& g.name == f.name
    &&& g.generics == f.generics
    &&& g.params == f.params
    &&& g.ret == f.ret
    &&& stmts_folded(f.body.stmts@, g.body.stmts@, ns)
}

/// `n` is the item `o` with its function bodies folded.
pub open spec fn item_folded(o: Item, n: Item, ns: Set<Seq<char>>) -> bool {
    match o {
        Item::Func(f) => n matches Item::Func(f2) && func_folded(f, f2, ns),
        Item::Impl(im) => n matches Item::Impl(im2) && im2.iface == im.iface && im2.ty == im.ty
            && im2.methods@.len() == im.methods@.len() && forall|k: int|
            0 <= k < im.methods@.len() ==> func_folded(im.methods@[k], #[trigger] im2.methods@[k], ns),
        _ => n == o,
    }
}

proof fn lemma_path_folded(o: Expr, n: Expr, ns: Set<Seq<char>>)
    requires
        expr_folded(o, n, ns),
    ensures
        path_spec(o) == path_spec(n),
    decreases o,
{
    match o.kind {
        ExprKind::Field(x, _) => {
            let y = n.kind->Field_0;
            lemma_path_folded(*x, *y, ns);
        },
        _ => {},
    }
}

/// Whether `n` is one of the names.
fn has_name(ns: &Vec<String>, n: &String) -> (r: bool)
    ensures
        r == set_of(ns@).contains(n@),
{
    let mut i: usize = 0;
    while i < ns.len()
        invariant
            0 <= i <= ns@.len(),
            forall|j: int| 0 <= j < i ==> (#[trigger] ns@[j])@ != n@,
        decreases ns.len() - i,
    {
        if ns[i] == *n {
            return true;
        }
        i = i + 1;
    }
    false
}

/// The dotted path of a callee built only from identifiers and field accesses,
/// like `std.io.println`. `None` for any callee with a non identifier in the
/// chain, which is a field access on a real value, not a module path.
pub fn flatten_path(e: &Expr) -> (r: Option<String>)
    ensures
        match r {
            Some(s) => path_spec(*e) == Some(s@),
            None => path_spec(*e) is None,
        },
    decreases e,
{
    match &e.kind {
        ExprKind::Ident(n) => Some(n.clone()),
        ExprKind::Field(b, name) => match flatten_path(b) {
            Some(p) => {
                let mut s = p;
                push_str(&mut s, ".");
                push_str(&mut s, name.as_str());
                Some(s)
            },
            None => None,
        },
        _ => None,
    }
}

fn fold_expr(e: &mut Expr, ns: &Vec<String>)
    ensures
        expr_folded(*old(e), *final(e), set_of(ns@)),
    decreases *old(e),
{
    match &mut e.kind {
        ExprKind::Call(f, args) => {
            let ghost f0 = **f;
            let ghost a0 = args@;
            fold_expr(f, ns);
            let ghost f1 = **f;
            fold_exprs(args, ns);
            let rewrite: Option<String> = match &f.kind {
                ExprKind::Field(base, leaf) => match flatten_path(base) {
                    Some(prefix) => if has_name(ns, &prefix) {
                        Some(leaf.clone())
                    } else {
                        None
                    },
                    None => None,
                },
                _ => None,
            };
            proof {
                if let ExprKind::Field(b0, _) = f0.kind {
                    lemma_path_folded(*b0, *(f.kind->Field_0), set_of(ns@));
                }
            }
            match rewrite {
                Some(leaf) => {
                    f.kind = ExprKind::Ident(leaf);
                },
                None => {},
            }
            proof {
                assert(exprs_folded(a0, args@, set_of(ns@)));
                assert(f.span == f0.span);
                assert(callee_folded(f0, **f, set_of(ns@)));
            }
        },
        ExprKind::Unary(_, x) => fold_expr(x, ns),
        ExprKind::Binary(_, a, b) => {
            fold_expr(a, ns);
            fold_expr(b, ns);
        },
        ExprKind::Index(a, b) => {
            fold_expr(a, ns);
            fold_expr(b, ns);
        },
        ExprKind::Range(a, b, _) => {
            fold_expr(a, ns);
            fold_expr(b, ns);
        },
        ExprKind::Field(x, _) => fold_expr(x, ns),
        ExprKind::Tuple(xs) => fold_exprs(xs, ns),
        ExprKind::Array(xs) => fold_exprs(xs, ns),
        ExprKind::StructLit(_, fs) => fold_fields(fs, ns),
        ExprKind::Lambda(l) => fold_block(&mut l.body, ns),
        ExprKind::Match(m) => fold_match(m, ns),
        ExprKind::Do(_, binds) => fold_dobinds(binds, ns),
        _ => {},
    }
}

fn fold_fields(v: &mut Vec<(String, Expr)>, ns: &Vec<String>)
    ensures
        old(v)@.len() == final(v)@.len(),
        forall|j: int| 0 <= j < old(v)@.len() ==> (#[trigger] final(v)@[j]).0 == old(v)@[j].0 && expr_folded(old(v)@[j].1, final(v)@[j].1, set_of(ns@)),
    decreases old(v)@,
{
    let ghost o = v@;
    let mut i: usize = 0;
    while i < v.len()
        invariant
            0 <= i <= v@.len(),
            o == old(v)@,
            v@.len() == o.len(),
            forall|j: int| 0 <= j < i ==> (#[trigger] v@[j]).0 == o[j].0 && expr_folded(o[j].1, v@[j].1, set_of(ns@)),
            forall|j: int| i <= j < v@.len() ==> #[trigger] v@[j] == o[j],
        decreases v.len() - i,
    {
        proof {
            assert(decreases_to!(o => o[i as int]));
            assert(decreases_to!(o[i as int] => o[i as int].1));
        }
        fold_expr(&mut v[i].1, ns);
        i = i + 1;
    }
}

fn fold_dobinds(v: &mut Vec<DoBind>, ns: &Vec<String>)
    ensures
        old(v)@.len() == final(v)@.len(),
        forall|j: int| 0 <= j < old(v)@.len() ==> (#[trigger] final(v)@[j]).name == old(v)@[j].name && expr_folded(old(v)@[j].expr, final(v)@[j].expr, set_of(ns@)),
    decreases old(v)@,
{
    let ghost o = v@;
    let mut i: usize = 0;
    while i < v.len()
        invariant
            0 <= i <= v@.len(),
            o == old(v)@,
            v@.len() == o.len(),
            forall|j: int| 0 <= j < i ==> (#[trigger] v@[j]).name == o[j].name && expr_folded(o[j].expr, v@[j].expr, set_of(ns@)),
            forall|j: int| i <= j < v@.len() ==> #[trigger] v@[j] == o[j],
        decreases v.len() - i,
    {
        proof {
            assert(decreases_to!(o => o[i as int]));
            assert(decreases_to!(o[i as int] => o[i as int].expr));
        }
        fold_expr(&mut v[i].expr, ns);
        i = i + 1;
    }
}

fn fold_exprs(v: &mut Vec<Expr>, ns: &Vec<String>)
    ensures
        exprs_folded(old(v)@, final(v)@, set_of(ns@)),
    decreases old(v)@,
{
    let ghost o = v@;
    let mut i: usize = 0;
    while i < v.len()
        invariant
            0 <= i <= v@.len(),
            o == old(v)@,
            v@.len() == o.len(),
            forall|j: int| 0 <= j < i ==> expr_folded(o[j], #[trigger] v@[j], set_of(ns@)),
            forall|j: int| i <= j < v@.len() ==> #[trigger] v@[j] == o[j],
        decreases v.len() - i,
    {
        proof {
            assert(decreases_to!(o => o[i as int]));
        }
        fold_expr(&mut v[i], ns);
        i = i + 1;
    }
}

fn fold_block(b: &mut Block, ns: &Vec<String>)
    ensures
        stmts_folded(old(b).stmts@, final(b).stmts@, set_of(ns@)),
    decreases *old(b),
{
    let ghost o = b.stmts@;
    let mut i: usize = 0;
    while i < b.stmts.len()
        invariant
            0 <= i <= b.stmts@.len(),
            o == old(b).stmts@,
            b.stmts@.len() == o.len(),
            forall|j: int| 0 <= j < i ==> stmt_folded(o[j], #[trigger] b.stmts@[j], set_of(ns@)),
            forall|j: int| i <= j < b.stmts@.len() ==> #[trigger] b.stmts@[j] == o[j],
        decreases b.stmts.len() - i,
    {
        proof {
            assert(decreases_to!(*old(b) => old(b).stmts));
            assert(decreases_to!(old(b).stmts => o[i as int]));
        }
        fold_stmt(&mut b.stmts[i], ns);
        i = i + 1;
    }
}

fn fold_stmt(s: &mut Stmt, ns: &Vec<String>)
    ensures
        stmt_folded(*old(s), *final(s), set_of(ns@)),
    decreases *old(s),
{
    match s {
        Stmt::Let(l) => fold_expr(&mut l.value, ns),
        Stmt::Assign(a, b) => {
            fold_expr(a, ns);
            fold_expr(b, ns);
        },
        Stmt::AssignOp(_, a, b) => {
            fold_expr(a, ns);
            fold_expr(b, ns);
        },
        Stmt::Break(_) => {},
        Stmt::Continue(_) => {},
        Stmt::Return(Some(e)) => fold_expr(e, ns),
        Stmt::Defer(e) => fold_expr(e, ns),
        Stmt::Expr(e) => fold_expr(e, ns),
        Stmt::Return(None) => {},
        Stmt::If(i) => {
            fold_expr(&mut i.cond, ns);
            fold_block(&mut i.then_block, ns);
            match &mut i.els {
                Some(e) => fold_block(e, ns),
                None => {},
            }
        },
        Stmt::While(w) => {
            fold_expr(&mut w.cond, ns);
            fold_block(&mut w.body, ns);
        },
        Stmt::For(f) => {
            fold_expr(&mut f.iter, ns);
            fold_block(&mut f.body, ns);
        },
        Stmt::Match(m) => fold_match(m, ns),
    }
}

fn fold_match(m: &mut Match, ns: &Vec<String>)
    ensures
        match_folded(*old(m), *final(m), set_of(ns@)),
    decreases *old(m),
{
    fold_expr(&mut m.scrut, ns);
    let ghost o = m.arms@;
    let mut i: usize = 0;
    while i < m.arms.len()
        invariant
            0 <= i <= m.arms@.len(),
            o == old(m).arms@,
            m.arms@.len() == o.len(),
            expr_folded(*old(m).scrut, *m.scrut, set_of(ns@)),
            forall|j: int|
                0 <= j < i ==> (#[trigger] m.arms@[j]).pat == o[j].pat && stmts_folded(
                    o[j].body.stmts@,
                    m.arms@[j].body.stmts@,
                    set_of(ns@),
                ),
            forall|j: int| i <= j < m.arms@.len() ==> #[trigger] m.arms@[j] == o[j],
        decreases m.arms.len() - i,
    {
        proof {
            assert(decreases_to!(*old(m) => old(m).arms));
            assert(decreases_to!(old(m).arms => o[i as int]));
            assert(decreases_to!(o[i as int] => o[i as int].body));
        }
        fold_block(&mut m.arms[i].body, ns);
        i = i + 1;
    }
}

/// Rewrites every qualified module call in an item's function bodies to a
/// bare call to its leaf, for the namespaces in `ns`.
pub fn fold_item(it: &mut Item, ns: &Vec<String>)
    ensures
        item_folded(*old(it), *final(it), set_of(ns@)),
{
    match it {
        Item::Func(f) => fold_block(&mut f.body, ns),
        Item::Impl(im) => {
            let ghost o = im.methods@;
            let ghost oi = *im;
            let mut k: usize = 0;
            while k < im.methods.len()
                invariant
                    0 <= k <= im.methods@.len(),
                    im.iface == oi.iface,
                    im.ty == oi.ty,
                    o == oi.methods@,
                    im.methods@.len() == o.len(),
                    forall|j: int| 0 <= j < k ==> func_folded(o[j], #[trigger] im.methods@[j], set_of(ns@)),
                    forall|j: int| k <= j < im.methods@.len() ==> #[trigger] im.methods@[j] == o[j],
                decreases im.methods.len() - k,
            {
                fold_block(&mut im.methods[k].body, ns);
                k = k + 1;
            }
        },
        _ => {},
    }
}

/// The names a module exports: its `export` marked functions, structs, enums
/// and interfaces. A foreign block's functions are module local.
pub open spec fn exported_spec(items: Seq<Item>) -> Set<Seq<char>> {
    Set::new(
        |n: Seq<char>|
            exists|i: int|
                0 <= i < items.len() && match #[trigger] items[i] {
                    Item::Func(f) => f.exported && f.name@ == n,
                    Item::Struct(s) => s.exported && s.name@ == n,
                    Item::Enum(e) => e.exported && e.name@ == n,
                    Item::Interface(d) => d.exported && d.name@ == n,
                    _ => false,
                },
    )
}

pub fn exported_names(m: &Module) -> (names: Vec<String>)
    ensures
        no_dups(names@),
        set_of(names@) == exported_spec(m.items@),
{
    let mut names: Vec<String> = Vec::new();
    let ghost items = m.items@;
    let mut i: usize = 0;
    assert(set_of(names@) =~= exported_spec(items.take(0)));
    while i < m.items.len()
        invariant
            items == m.items@,
            0 <= i <= items.len(),
            no_dups(names@),
            set_of(names@) == exported_spec(items.take(i as int)),
        decreases m.items.len() - i,
    {
        let ghost before = set_of(names@);
        let found: Option<&String> = match &m.items[i] {
            Item::Func(f) => if f.exported { Some(&f.name) } else { None },
            Item::Struct(s) => if s.exported { Some(&s.name) } else { None },
            Item::Enum(e) => if e.exported { Some(&e.name) } else { None },
            Item::Interface(d) => if d.exported { Some(&d.name) } else { None },
            _ => None,
        };
        match found {
            Some(n) => {
                let cs = chars_of(n.as_str());
                insert_name(&mut names, &cs);
            },
            None => {},
        }
        proof {
            let next = items.take(i + 1);
            assert(next[i as int] == items[i as int]);
            assert forall|x: Seq<char>| exported_spec(items.take(i as int)).contains(x) implies #[trigger] exported_spec(next).contains(x) by {
                let j = choose|j: int| 0 <= j < i && match #[trigger] items.take(i as int)[j] {
                    Item::Func(f) => f.exported && f.name@ == x,
                    Item::Struct(s) => s.exported && s.name@ == x,
                    Item::Enum(e) => e.exported && e.name@ == x,
                    Item::Interface(d) => d.exported && d.name@ == x,
                    _ => false,
                };
                assert(next[j] == items.take(i as int)[j]);
            }
            assert forall|x: Seq<char>| #[trigger] exported_spec(next).contains(x) implies set_of(names@).contains(x) by {
                let j = choose|j: int| 0 <= j < i + 1 && match #[trigger] next[j] {
                    Item::Func(f) => f.exported && f.name@ == x,
                    Item::Struct(s) => s.exported && s.name@ == x,
                    Item::Enum(e) => e.exported && e.name@ == x,
                    Item::Interface(d) => d.exported && d.name@ == x,
                    _ => false,
                };
                if j < i {
                    assert(items.take(i as int)[j] == next[j]);
                    assert(exported_spec(items.take(i as int)).contains(x));
                }
            }
            assert(set_of(names@) =~= exported_spec(next));
        }
        i = i + 1;
    }
    assert(items.take(i as int) =~= items);
    names
}

/// Where the repository root of a package import ends, scanning from `i` with
/// `seen` slashes already passed: at the third `/`, or at the end.
pub open spec fn root_end(s: Seq<char>, i: int, seen: nat) -> int
    decreases s.len() - i,
{
    if i < 0 || i >= s.len() {
        s.len() as int
    } else if s[i] == '/' {
        if seen >= 2 {
            i
        } else {
            root_end(s, i + 1, seen + 1)
        }
    } else {
        root_end(s, i + 1, seen)
    }
}

/// The repository root of a package import, `host/user/repo`: its first three
/// `/` separated segments.
pub fn repo_root(import: &str) -> (r: String)
    ensures
        r@ == import@.take(root_end(import@, 0, 0)),
{
    let mut cs = chars_of(import);
    let mut i: usize = 0;
    let mut seen: u64 = 0;
    while i < cs.len() && !(cs[i] == '/' && seen == 2)
        invariant
            cs@ == import@,
            0 <= i <= cs@.len(),
            seen <= 2,
            root_end(import@, 0, 0) == root_end(import@, i as int, seen as nat),
        decreases cs.len() - i,
    {
        if cs[i] == '/' {
            seen = seen + 1;
        }
        i = i + 1;
    }
    cs.truncate(i);
    assert(cs@ =~= import@.take(i as int));
    string_of(cs.as_slice())
}

} // verus!
