//! Compile time format string parsing for the `print` and `println` builtins.
//!
//! A format string is a literal with `{}` holes that the arguments fill in order,
//! and `{{` or `}}` for a literal brace. Checking a call's hole count and
//! emitting its pieces both read this one parse, so they cannot disagree.

use vstd::prelude::*;
use crate::text::{chars_of, push_str, string_of};

verus! {

/// One piece of a parsed format string, literal text or a hole to fill.
#[derive(Debug, PartialEq)]
pub enum Seg {
    Lit(String),
    Hole,
}

/// The mathematical form of a segment.
pub enum SegV {
    Lit(Seq<char>),
    Hole,
}

impl View for Seg {
    type V = SegV;

    open spec fn view(&self) -> SegV {
        match self {
            Seg::Lit(s) => SegV::Lit(s@),
            Seg::Hole => SegV::Hole,
        }
    }
}

pub open spec fn segs_view(v: Seq<Seg>) -> Seq<SegV> {
    v.map_values(|s: Seg| s@)
}

/// Why a format string is rejected.
pub enum FmtErr {
    /// A `{` that is neither `{{` nor the start of `{}`.
    UnmatchedOpen,
    /// A `}` that is not part of `}}`.
    UnmatchedClose,
}

/// The literal pending before a hole or the end, as zero or one segment.
pub open spec fn flush(lit: Seq<char>) -> Seq<SegV> {
    if lit.len() > 0 {
        seq![SegV::Lit(lit)]
    } else {
        seq![]
    }
}

/// Prepends segments to a parse outcome.
pub open spec fn prepend(pre: Seq<SegV>, r: Result<Seq<SegV>, FmtErr>) -> Result<Seq<SegV>, FmtErr> {
    match r {
        Ok(rest) => Ok(pre + rest),
        Err(e) => Err(e),
    }
}

/// Parses `s[i..]` with `lit` as the literal text accumulated so far.
pub open spec fn parse_from(s: Seq<char>, i: int, lit: Seq<char>) -> Result<Seq<SegV>, FmtErr>
    decreases s.len() - i,
{
    if i < 0 || i >= s.len() {
        Ok(flush(lit))
    } else {
        let c = s[i];
        let has_next = i + 1 < s.len();
        if c == '{' && has_next && s[i + 1] == '{' {
            parse_from(s, i + 2, lit.push('{'))
        } else if c == '}' && has_next && s[i + 1] == '}' {
            parse_from(s, i + 2, lit.push('}'))
        } else if c == '{' && has_next && s[i + 1] == '}' {
            prepend(flush(lit) + seq![SegV::Hole], parse_from(s, i + 2, Seq::empty()))
        } else if c == '{' {
            Err(FmtErr::UnmatchedOpen)
        } else if c == '}' {
            Err(FmtErr::UnmatchedClose)
        } else {
            parse_from(s, i + 1, lit.push(c))
        }
    }
}

/// The parse of a whole format string.
pub open spec fn spec_parse(s: Seq<char>) -> Result<Seq<SegV>, FmtErr> {
    parse_from(s, 0, Seq::empty())
}

pub open spec fn open_msg() -> Seq<char> {
    "unmatched '{' in format string, write '{{' for a literal brace"@
}

pub open spec fn close_msg() -> Seq<char> {
    "unmatched '}' in format string, write '}}' for a literal brace"@
}

/// Literal text written back with its braces doubled.
pub open spec fn escape_lit(t: Seq<char>) -> Seq<char>
    decreases t.len(),
{
    if t.len() == 0 {
        Seq::empty()
    } else {
        let c = t[0];
        (if c == '{' { seq!['{', '{'] } else if c == '}' { seq!['}', '}'] } else { seq![c] })
            + escape_lit(t.drop_first())
    }
}

/// Segments written back as a format string.
pub open spec fn unparse(segs: Seq<SegV>) -> Seq<char>
    decreases segs.len(),
{
    if segs.len() == 0 {
        Seq::empty()
    } else {
        (match segs[0] {
            SegV::Lit(t) => escape_lit(t),
            SegV::Hole => seq!['{', '}'],
        }) + unparse(segs.drop_first())
    }
}

/// No literal segment is empty and no two literal segments are adjacent.
pub open spec fn canonical(segs: Seq<SegV>) -> bool {
    &&& forall|j: int| 0 <= j < segs.len() ==> (#[trigger] segs[j] matches SegV::Lit(t) ==> t.len() > 0)
    &&& forall|j: int| 0 <= j < segs.len() - 1 ==> (#[trigger] segs[j] is Lit ==> segs[j + 1] is Hole)
}

/// The number of holes in a segment sequence.
pub open spec fn hole_count(segs: Seq<SegV>) -> nat
    decreases segs.len(),
{
    if segs.len() == 0 {
        0
    } else {
        hole_count(segs.drop_last()) + if segs.last() is Hole { 1nat } else { 0nat }
    }
}

proof fn lemma_escape_push(t: Seq<char>, c: char)
    ensures
        escape_lit(t.push(c)) == escape_lit(t) + (if c == '{' { seq!['{', '{'] } else if c == '}' {
            seq!['}', '}']
        } else {
            seq![c]
        }),
    decreases t.len(),
{
    let e = if c == '{' { seq!['{', '{'] } else if c == '}' { seq!['}', '}'] } else { seq![c] };
    if t.len() == 0 {
        assert(t.push(c).drop_first() =~= Seq::<char>::empty());
        assert(escape_lit(t.push(c)) =~= e + escape_lit(Seq::<char>::empty()));
        assert(escape_lit(t.push(c)) =~= escape_lit(t) + e);
    } else {
        lemma_escape_push(t.drop_first(), c);
        assert(t.push(c).drop_first() =~= t.drop_first().push(c));
        let h = if t[0] == '{' { seq!['{', '{'] } else if t[0] == '}' { seq!['}', '}'] } else { seq![t[0]] };
        assert(escape_lit(t.push(c)) =~= h + escape_lit(t.drop_first().push(c)));
        assert(escape_lit(t.push(c)) =~= escape_lit(t) + e);
    }
}

proof fn lemma_unparse_append(a: Seq<SegV>, b: Seq<SegV>)
    ensures
        unparse(a + b) == unparse(a) + unparse(b),
    decreases a.len(),
{
    if a.len() == 0 {
        assert(a + b =~= b);
        assert(unparse(a + b) =~= unparse(a) + unparse(b));
    } else {
        lemma_unparse_append(a.drop_first(), b);
        assert((a + b).drop_first() =~= a.drop_first() + b);
        assert(unparse(a + b) =~= unparse(a) + unparse(b));
    }
}

proof fn lemma_unparse_flush(lit: Seq<char>)
    ensures
        unparse(flush(lit)) == escape_lit(lit),
{
    if lit.len() > 0 {
        let f = flush(lit);
        assert(f.drop_first() =~= Seq::<SegV>::empty());
        assert(unparse(f) =~= escape_lit(lit) + unparse(f.drop_first()));
        assert(unparse(f) =~= escape_lit(lit));
    } else {
        assert(lit =~= Seq::<char>::empty());
    }
}

/// The parse of `s[i..]` after `lit` writes back to `lit` escaped then `s[i..]`.
proof fn lemma_parse_from_roundtrip(s: Seq<char>, i: int, lit: Seq<char>)
    requires
        0 <= i <= s.len(),
    ensures
        parse_from(s, i, lit) matches Ok(segs) ==> unparse(segs) == escape_lit(lit) + s.subrange(i, s.len() as int),
    decreases s.len() - i,
{
    if i >= s.len() {
        lemma_unparse_flush(lit);
        assert(s.subrange(i, s.len() as int) =~= Seq::<char>::empty());
        assert(escape_lit(lit) + s.subrange(i, s.len() as int) =~= escape_lit(lit));
    } else {
        let c = s[i];
        let has_next = i + 1 < s.len();
        if c == '{' && has_next && s[i + 1] == '{' {
            lemma_parse_from_roundtrip(s, i + 2, lit.push('{'));
            lemma_escape_push(lit, '{');
            assert(s.subrange(i, s.len() as int) =~= seq!['{', '{'] + s.subrange(i + 2, s.len() as int));
        } else if c == '}' && has_next && s[i + 1] == '}' {
            lemma_parse_from_roundtrip(s, i + 2, lit.push('}'));
            lemma_escape_push(lit, '}');
            assert(s.subrange(i, s.len() as int) =~= seq!['}', '}'] + s.subrange(i + 2, s.len() as int));
        } else if c == '{' && has_next && s[i + 1] == '}' {
            lemma_parse_from_roundtrip(s, i + 2, Seq::empty());
            if let Ok(rest) = parse_from(s, i + 2, Seq::empty()) {
                lemma_unparse_append(flush(lit) + seq![SegV::Hole], rest);
                lemma_unparse_append(flush(lit), seq![SegV::Hole]);
                lemma_unparse_flush(lit);
                let h = seq![SegV::Hole];
                assert(h.drop_first() =~= Seq::<SegV>::empty());
                assert(unparse(h) =~= seq!['{', '}'] + unparse(h.drop_first()));
                assert(escape_lit(Seq::<char>::empty()) =~= Seq::<char>::empty());
                assert(s.subrange(i, s.len() as int) =~= seq!['{', '}'] + s.subrange(i + 2, s.len() as int));
            }
        } else if c == '{' || c == '}' {
        } else {
            lemma_parse_from_roundtrip(s, i + 1, lit.push(c));
            lemma_escape_push(lit, c);
            assert(s.subrange(i, s.len() as int) =~= seq![c] + s.subrange(i + 1, s.len() as int));
        }
    }
}

/// Law: a successful parse writes back, with literal braces doubled and each
/// hole as `{}`, to exactly the format string it came from.
pub proof fn law_parse_unparse(s: Seq<char>)
    ensures
        spec_parse(s) matches Ok(segs) ==> unparse(segs) == s,
{
    lemma_parse_from_roundtrip(s, 0, Seq::empty());
    assert(escape_lit(Seq::<char>::empty()) =~= Seq::<char>::empty());
    assert(s.subrange(0, s.len() as int) =~= s);
}

proof fn lemma_parse_from_canonical(s: Seq<char>, i: int, lit: Seq<char>)
    requires
        0 <= i <= s.len(),
    ensures
        parse_from(s, i, lit) matches Ok(segs) ==> canonical(segs),
    decreases s.len() - i,
{
    if i >= s.len() {
        let f = flush(lit);
        assert(canonical(f));
    } else {
        let c = s[i];
        let has_next = i + 1 < s.len();
        if c == '{' && has_next && s[i + 1] == '{' {
            lemma_parse_from_canonical(s, i + 2, lit.push('{'));
        } else if c == '}' && has_next && s[i + 1] == '}' {
            lemma_parse_from_canonical(s, i + 2, lit.push('}'));
        } else if c == '{' && has_next && s[i + 1] == '}' {
            lemma_parse_from_canonical(s, i + 2, Seq::empty());
            if let Ok(rest) = parse_from(s, i + 2, Seq::empty()) {
                let pre = flush(lit) + seq![SegV::Hole];
                let all = pre + rest;
                let k = pre.len() as int;
                assert forall|j: int| 0 <= j < all.len() implies (#[trigger] all[j] matches SegV::Lit(t) ==> t.len() > 0) by {
                    if j >= k {
                        assert(all[j] == rest[j - k]);
                    }
                }
                assert forall|j: int| 0 <= j < all.len() - 1 implies (#[trigger] all[j] is Lit ==> all[j + 1] is Hole) by {
                    if j >= k {
                        assert(all[j] == rest[j - k]);
                        assert(all[j + 1] == rest[j + 1 - k]);
                    } else if j == k - 1 {
                        assert(all[j] is Hole);
                    } else {
                        assert(all[j + 1] == pre[j + 1]);
                    }
                }
            }
        } else if c == '{' || c == '}' {
        } else {
            lemma_parse_from_canonical(s, i + 1, lit.push(c));
        }
    }
}

/// Law: a parse is in its shortest form. No literal segment is empty, and
/// literal text between two holes, or before the first or after the last,
/// comes as one segment.
pub proof fn law_parse_canonical(s: Seq<char>)
    ensures
        spec_parse(s) matches Ok(segs) ==> canonical(segs),
{
    lemma_parse_from_canonical(s, 0, Seq::empty());
}

/// The segments are built in order while scanning: `segs` holds the finished
/// segments and `lit` the literal text since the last one.
fn flush_exec(segs: &mut Vec<Seg>, lit: &Vec<char>)
    ensures
        segs_view(final(segs)@) == segs_view(old(segs)@) + flush(lit@),
{
    if lit.len() > 0 {
        let ghost before = segs@;
        segs.push(Seg::Lit(string_of(lit.as_slice())));
        assert(segs_view(segs@) =~= segs_view(before) + flush(lit@));
    } else {
        assert(segs_view(segs@) =~= segs_view(segs@) + flush(lit@));
    }
}

/// Splits a format string into literal and hole segments, or returns an error
/// message for an unmatched brace.
pub fn parse(s: &str) -> (r: Result<Vec<Seg>, String>)
    ensures
        match (r, spec_parse(s@)) {
            (Ok(v), Ok(segs)) => segs_view(v@) == segs,
            (Err(m), Err(FmtErr::UnmatchedOpen)) => m@ == open_msg(),
            (Err(m), Err(FmtErr::UnmatchedClose)) => m@ == close_msg(),
            _ => false,
        },
{
    let cs = chars_of(s);
    let mut segs: Vec<Seg> = Vec::new();
    let mut lit: Vec<char> = Vec::new();
    let mut i: usize = 0;
    while i < cs.len()
        invariant
            0 <= i <= cs.len(),
            cs@ == s@,
            spec_parse(s@) == prepend(segs_view(segs@), parse_from(cs@, i as int, lit@)),
        decreases cs.len() - i,
    {
        let c = cs[i];
        let has_next = i + 1 < cs.len();
        let n = if has_next { cs[i + 1] } else { ' ' };
        if c == '{' && has_next && n == '{' {
            lit.push('{');
            i = i + 2;
        } else if c == '}' && has_next && n == '}' {
            lit.push('}');
            i = i + 2;
        } else if c == '{' && has_next && n == '}' {
            let ghost old_segs = segs_view(segs@);
            let ghost old_lit = lit@;
            flush_exec(&mut segs, &lit);
            segs.push(Seg::Hole);
            lit = Vec::new();
            i = i + 2;
            proof {
                assert(segs_view(segs@) =~= old_segs + flush(old_lit) + seq![SegV::Hole]);
                match parse_from(cs@, i as int, lit@) {
                    Ok(rest) => {
                        assert(old_segs + (flush(old_lit) + seq![SegV::Hole] + rest) =~= segs_view(
                            segs@,
                        ) + rest);
                    },
                    Err(_) => {},
                }
            }
        } else if c == '{' {
            let mut m = String::new();
            push_str(&mut m, "unmatched '{' in format string, write '{{' for a literal brace");
            return Err(m);
        } else if c == '}' {
            let mut m = String::new();
            push_str(&mut m, "unmatched '}' in format string, write '}}' for a literal brace");
            return Err(m);
        } else {
            lit.push(c);
            i = i + 1;
        }
    }
    let ghost before = segs_view(segs@);
    flush_exec(&mut segs, &lit);
    proof {
        assert(before + flush(lit@) =~= segs_view(segs@));
    }
    Ok(segs)
}

/// The number of holes in a parsed format string.
pub fn holes(segs: &[Seg]) -> (n: usize)
    ensures
        n == hole_count(segs_view(segs@)),
{
    let mut n: usize = 0;
    let mut i: usize = 0;
    while i < segs.len()
        invariant
            0 <= i <= segs.len(),
            n == hole_count(segs_view(segs@.take(i as int))),
            n <= i,
        decreases segs.len() - i,
    {
        proof {
            let t = segs_view(segs@.take(i + 1));
            assert(t.drop_last() =~= segs_view(segs@.take(i as int)));
        }
        match &segs[i] {
            Seg::Hole => {
                n = n + 1;
            },
            Seg::Lit(_) => {},
        }
        i = i + 1;
    }
    assert(segs@.take(i as int) =~= segs@);
    n
}

} // verus!
