//! The async task frame layout, the single source of truth both the poll
//! emission and the call site read so their byte offsets can never diverge.
//!
//! The fixed prefix is state i64 @0, pending data ptr @8, pending gen i64 @16,
//! result @24 (max(sizeof(ret),1) rounded to 8), then parameters in
//! declaration order (each aligned), then emission-order slots (each aligned).
//! `finalize` rounds the end up to 16. Every alignment is at most 8.

use vstd::prelude::*;
use vstd::arithmetic::div_mod::{lemma_fundamental_div_mod, lemma_fundamental_div_mod_converse};
use crate::text::{dec, push_all, push_dec, push_str, chars_of};

verus! {

/// The state word, always at frame offset 0.
pub const STATE_OFF: u64 = 0;

/// The pending future's data pointer, written before a suspension.
pub const PEND_D_OFF: u64 = 8;

/// The pending future's generation, written before a suspension.
pub const PEND_G_OFF: u64 = 16;

/// The result bytes the async return path stores.
pub const RESULT_OFF: u64 = 24;

/// `n` rounded up to a multiple of `align`; an alignment of 0 or 1 leaves it.
pub open spec fn spec_align_up(n: int, align: int) -> int {
    if align <= 1 {
        n
    } else {
        ((n + align - 1) / align) * align
    }
}

/// Rounding up lands on the smallest multiple of `align` at or above `n`.
pub proof fn lemma_align_up(n: int, align: int)
    requires
        n >= 0,
        align >= 1,
    ensures
        n <= spec_align_up(n, align) < n + align,
        spec_align_up(n, align) % align == 0,
{
    if align > 1 {
        let x = n + align - 1;
        lemma_fundamental_div_mod(x, align);
        let q = x / align;
        let r = x % align;
        assert(0 <= r < align);
        assert(q * align == x - r) by (nonlinear_arith)
            requires
                x == align * q + r,
        ;
        lemma_fundamental_div_mod_converse(q * align, align, q, 0);
    } else {
        assert(n % 1 == 0);
    }
}

/// Rounds `n` up to a multiple of `align`.
pub fn align_up(n: u64, align: u64) -> (r: u64)
    requires
        spec_align_up(n as int, align as int) <= u64::MAX,
    ensures
        r == spec_align_up(n as int, align as int),
{
    if align <= 1 {
        n
    } else {
        let q = n / align;
        let rem = n % align;
        proof {
            lemma_fundamental_div_mod(n as int, align as int);
            if rem == 0 {
                assert(n + align - 1 == q * align + (align - 1)) by (nonlinear_arith)
                    requires
                        n == align * q + rem,
                        rem == 0,
                ;
                lemma_fundamental_div_mod_converse((n + align - 1) as int, align as int, q as int, align - 1);
                assert(q * align == n) by (nonlinear_arith)
                    requires
                        n == align * q + rem,
                        rem == 0,
                ;
            } else {
                assert(n + align - 1 == (q + 1) * align + (rem - 1)) by (nonlinear_arith)
                    requires
                        n == align * q + rem,
                ;
                lemma_fundamental_div_mod_converse(
                    (n + align - 1) as int,
                    align as int,
                    q + 1,
                    rem - 1,
                );
            }
        }
        if rem == 0 {
            n
        } else {
            (q + 1) * align
        }
    }
}

/// One frame slot minted while a poll body is lowered: the SSA name its entry
/// block GEP defines, the LLVM type it stores, the size and align that place it,
/// and the byte offset assigned in [`FrameCtx::finalize`].
pub struct Slot {
    pub name: String,
    pub llty: String,
    pub size: u64,
    pub align: u64,
    pub off: u64,
}

/// The fixed prefix offsets. Both the poll and the call site read `param_offs`,
/// so an argument the caller stores lands exactly where the poll reads it.
pub struct Prefix {
    pub result_off: u64,
    pub param_offs: Vec<u64>,
    pub first_free: u64,
}

/// The first offset past the result region.
pub open spec fn params_start(ret_size: int) -> int {
    RESULT_OFF + spec_align_up(if ret_size >= 1 { ret_size } else { 1 }, 8)
}

/// The running offset after placing the first `i` parameters.
pub open spec fn param_end(ret_size: int, params: Seq<(u64, u64)>, i: int) -> int
    decreases i,
{
    if i <= 0 {
        params_start(ret_size)
    } else {
        spec_align_up(param_end(ret_size, params, i - 1), params[i - 1].1 as int) + params[i - 1].0
    }
}

/// The offset of parameter `i`: the running offset aligned to its alignment.
pub open spec fn param_off(ret_size: int, params: Seq<(u64, u64)>, i: int) -> int {
    spec_align_up(param_end(ret_size, params, i), params[i].1 as int)
}

proof fn lemma_param_end_mono(ret_size: int, params: Seq<(u64, u64)>, i: int, j: int)
    requires
        0 <= i <= j <= params.len(),
        ret_size >= 0,
    ensures
        param_end(ret_size, params, i) <= param_end(ret_size, params, j),
        param_end(ret_size, params, i) >= 32,
    decreases j,
{
    lemma_align_up(if ret_size >= 1 { ret_size } else { 1 }, 8);
    if j > i {
        lemma_param_end_mono(ret_size, params, i, j - 1);
        lemma_param_end_mono(ret_size, params, j - 1, j - 1);
        lemma_align_up(param_end(ret_size, params, j - 1), if params[j - 1].1 >= 1 {
            params[j - 1].1 as int
        } else {
            1
        });
    } else if i > 0 {
        lemma_param_end_mono(ret_size, params, i - 1, i - 1);
        lemma_align_up(param_end(ret_size, params, i - 1), if params[i - 1].1 >= 1 {
            params[i - 1].1 as int
        } else {
            1
        });
    }
}

/// Law: each parameter sits at a multiple of its alignment, after the result
/// region, and ends no later than the next parameter starts, so no two
/// parameters overlap and none overlaps the fixed prefix.
pub proof fn law_prefix_layout(ret_size: int, params: Seq<(u64, u64)>, i: int)
    requires
        ret_size >= 0,
        0 <= i < params.len(),
    ensures
        params[i].1 >= 1 ==> param_off(ret_size, params, i) % (params[i].1 as int) == 0,
        param_off(ret_size, params, i) >= RESULT_OFF + 8,
        param_off(ret_size, params, i) + params[i].0 == param_end(ret_size, params, i + 1),
        i + 1 < params.len() ==> param_off(ret_size, params, i) + params[i].0 <= param_off(
            ret_size,
            params,
            i + 1,
        ),
{
    lemma_param_end_mono(ret_size, params, i, i);
    let a = params[i].1 as int;
    lemma_align_up(param_end(ret_size, params, i), if a >= 1 { a } else { 1 });
    if i + 1 < params.len() {
        let b = params[i + 1].1 as int;
        lemma_param_end_mono(ret_size, params, i + 1, i + 1);
        lemma_align_up(param_end(ret_size, params, i + 1), if b >= 1 { b } else { 1 });
    }
}

/// Computes the shared prefix from the return type's `(size, align)` and each
/// parameter's `(size, align)` in declaration order. This one function, called
/// with the same signature inputs from both sides, keeps the poll's parameter
/// GEPs and the call site's argument stores at identical offsets. An alignment
/// above 8 is rejected by the frame design, so callers never pass one.
pub fn frame_prefix(ret: (u64, u64), params: &[(u64, u64)]) -> (p: Prefix)
    requires
        ret.1 <= 8,
        forall|i: int| 0 <= i < params@.len() ==> (#[trigger] params@[i]).1 <= 8,
        param_end(ret.0 as int, params@, params@.len() as int) <= u64::MAX,
    ensures
        p.result_off == RESULT_OFF,
        p.param_offs@.len() == params@.len(),
        forall|i: int| 0 <= i < params@.len() ==> p.param_offs@[i] == param_off(ret.0 as int, params@, i),
        p.first_free == param_end(ret.0 as int, params@, params@.len() as int),
{
    let sz = if ret.0 >= 1 { ret.0 } else { 1 };
    proof {
        lemma_param_end_mono(ret.0 as int, params@, 0, params@.len() as int);
        lemma_align_up(sz as int, 8);
    }
    let result_region = align_up(sz, 8);
    let mut off: u64 = RESULT_OFF + result_region;
    let mut param_offs: Vec<u64> = Vec::new();
    let mut i: usize = 0;
    while i < params.len()
        invariant
            0 <= i <= params.len(),
            off == param_end(ret.0 as int, params@, i as int),
            param_end(ret.0 as int, params@, params@.len() as int) <= u64::MAX,
            param_offs@.len() == i,
            forall|j: int| 0 <= j < i ==> param_offs@[j] == param_off(ret.0 as int, params@, j),
        decreases params.len() - i,
    {
        let (size, align) = params[i];
        proof {
            lemma_param_end_mono(ret.0 as int, params@, (i + 1) as int, params@.len() as int);
            lemma_param_end_mono(ret.0 as int, params@, i as int, i as int);
            lemma_align_up(off as int, if align >= 1 { align as int } else { 1 });
        }
        off = align_up(off, align);
        param_offs.push(off);
        off = off + size;
        i = i + 1;
    }
    Prefix { result_off: RESULT_OFF, param_offs, first_free: off }
}

/// The running offset after placing the first `i` emission slots from `start`.
pub open spec fn slot_end(start: int, slots: Seq<(u64, u64)>, i: int) -> int
    decreases i,
{
    if i <= 0 {
        start
    } else {
        spec_align_up(slot_end(start, slots, i - 1), slots[i - 1].1 as int) + slots[i - 1].0
    }
}

/// The (size, align) of each slot.
pub open spec fn slot_shapes(slots: Seq<Slot>) -> Seq<(u64, u64)> {
    slots.map_values(|s: Slot| (s.size, s.align))
}

/// The total frame size: the slot end rounded up to 16, and at least 16.
pub open spec fn frame_size(start: int, slots: Seq<(u64, u64)>) -> int {
    let e = spec_align_up(slot_end(start, slots, slots.len() as int), 16);
    if e >= 16 { e } else { 16 }
}

proof fn lemma_slot_end_mono(start: int, slots: Seq<(u64, u64)>, i: int, j: int)
    requires
        0 <= i <= j <= slots.len(),
        start >= 0,
    ensures
        start <= slot_end(start, slots, i) <= slot_end(start, slots, j),
    decreases j,
{
    if j > i {
        lemma_slot_end_mono(start, slots, i, j - 1);
        lemma_slot_end_mono(start, slots, j - 1, j - 1);
        lemma_align_up(slot_end(start, slots, j - 1), if slots[j - 1].1 >= 1 {
            slots[j - 1].1 as int
        } else {
            1
        });
    } else if i > 0 {
        lemma_slot_end_mono(start, slots, i - 1, i - 1);
        lemma_align_up(slot_end(start, slots, i - 1), if slots[i - 1].1 >= 1 {
            slots[i - 1].1 as int
        } else {
            1
        });
    }
}

/// Writes `  name = getelementptr i8, ptr %frame, i64 off` and a newline.
pub open spec fn gep_line(name: Seq<char>, off: nat) -> Seq<char> {
    "  "@ + name + " = getelementptr i8, ptr %frame, i64 "@ + dec(off) + "\n"@
}

/// One switch arm, `i64 v, label %l`.
pub open spec fn arm_text(v: nat, l: Seq<char>) -> Seq<char> {
    "i64 "@ + dec(v) + ", label %"@ + l
}

/// The arms joined by single spaces.
pub open spec fn arms_text(cases: Seq<(u64, String)>) -> Seq<char>
    decreases cases.len(),
{
    if cases.len() == 0 {
        Seq::empty()
    } else if cases.len() == 1 {
        arm_text(cases[0].0 as nat, cases[0].1@)
    } else {
        arms_text(cases.drop_last()) + " "@ + arm_text(cases.last().0 as nat, cases.last().1@)
    }
}

/// The GEP lines of the prefix pointers, then parameters, then slots.
pub open spec fn geps_text(fc: FrameCtx) -> Seq<char> {
    gep_line(fc.pend_d@, PEND_D_OFF as nat) + gep_line(fc.pend_g@, PEND_G_OFF as nat) + gep_line(
        fc.res@,
        fc.result_off as nat,
    ) + param_geps(fc.params@, fc.params@.len() as int) + slot_geps(fc.slots@, fc.slots@.len() as int)
}

pub open spec fn param_geps(ps: Seq<(String, u64)>, i: int) -> Seq<char>
    decreases i,
{
    if i <= 0 {
        Seq::empty()
    } else {
        param_geps(ps, i - 1) + gep_line(ps[i - 1].0@, ps[i - 1].1 as nat)
    }
}

pub open spec fn slot_geps(ss: Seq<Slot>, i: int) -> Seq<char>
    decreases i,
{
    if i <= 0 {
        Seq::empty()
    } else {
        slot_geps(ss, i - 1) + gep_line(ss[i - 1].name@, ss[i - 1].off as nat)
    }
}

/// The whole entry block text.
pub open spec fn entry_spec(fc: FrameCtx, state_tmp: Seq<char>, cases: Seq<(u64, String)>) -> Seq<
    char,
> {
    "entry:\n"@ + geps_text(fc) + "  "@ + state_tmp + " = load i64, ptr %frame\n"@ + "  switch i64 "@
        + state_tmp + ", label %badstate [ "@ + arms_text(cases) + " ]\n"@
        + "badstate:\n  call void @cool_task_state_fault()\n  unreachable\n"@
}

/// The per-poll frame context: the prefix GEP names, the parameter GEPs with
/// their offsets, and the emission-order slots. `ret_size` is `sizeof(ret)`
/// (0 for void).
pub struct FrameCtx {
    pub slots: Vec<Slot>,
    pub pend_d: String,
    pub pend_g: String,
    pub res: String,
    pub params: Vec<(String, u64)>,
    pub result_off: u64,
    pub ret_size: u64,
    pub first_free: u64,
    /// The number of await sites lowered so far; the next await is this plus one.
    pub await_count: u32,
    /// The (state index, resume label) pairs, one per await.
    pub resume_cases: Vec<(u64, String)>,
}

fn push_gep(s: &mut String, name: &str, off: u64)
    ensures
        final(s)@ == old(s)@ + gep_line(name@, off as nat),
{
    push_str(s, "  ");
    push_str(s, name);
    push_str(s, " = getelementptr i8, ptr %frame, i64 ");
    push_dec(s, off);
    push_str(s, "\n");
}

impl FrameCtx {
    /// Assigns emission-order slot offsets (each aligned) and returns the total
    /// frame size rounded up to 16. The prefix and parameters already carry
    /// their offsets from [`frame_prefix`].
    pub fn finalize(&mut self) -> (size: u64)
        requires
            frame_size(old(self).first_free as int, slot_shapes(old(self).slots@)) <= u64::MAX,
        ensures
            size == frame_size(old(self).first_free as int, slot_shapes(old(self).slots@)),
            final(self).slots@.len() == old(self).slots@.len(),
            slot_shapes(final(self).slots@) == slot_shapes(old(self).slots@),
            forall|i: int|
                0 <= i < old(self).slots@.len() ==> {
                    &&& (#[trigger] final(self).slots@[i]).off == spec_align_up(
                        slot_end(old(self).first_free as int, slot_shapes(old(self).slots@), i),
                        old(self).slots@[i].align as int,
                    )
                    &&& final(self).slots@[i].name == old(self).slots@[i].name
                    &&& final(self).slots@[i].llty == old(self).slots@[i].llty
                },
            final(self).pend_d == old(self).pend_d,
            final(self).pend_g == old(self).pend_g,
            final(self).res == old(self).res,
            final(self).params == old(self).params,
            final(self).result_off == old(self).result_off,
            final(self).ret_size == old(self).ret_size,
            final(self).first_free == old(self).first_free,
            final(self).await_count == old(self).await_count,
            final(self).resume_cases == old(self).resume_cases,
    {
        let ghost shapes = slot_shapes(self.slots@);
        let ghost start = self.first_free as int;
        let ghost old_slots = self.slots@;
        let n = self.slots.len();
        let mut off: u64 = self.first_free;
        let mut i: usize = 0;
        proof {
            lemma_slot_end_mono(start, shapes, 0, n as int);
            lemma_align_up(slot_end(start, shapes, n as int), 16);
        }
        while i < n
            invariant
                0 <= i <= n == self.slots@.len() == old_slots.len(),
                shapes == slot_shapes(old_slots),
                start == self.first_free,
                off == slot_end(start, shapes, i as int),
                slot_end(start, shapes, n as int) <= u64::MAX,
                forall|j: int|
                    i <= j < n ==> #[trigger] self.slots@[j] == old_slots[j],
                forall|j: int|
                    0 <= j < i ==> {
                        &&& (#[trigger] self.slots@[j]).off == spec_align_up(
                            slot_end(start, shapes, j),
                            old_slots[j].align as int,
                        )
                        &&& self.slots@[j].name == old_slots[j].name
                        &&& self.slots@[j].llty == old_slots[j].llty
                        &&& self.slots@[j].size == old_slots[j].size
                        &&& self.slots@[j].align == old_slots[j].align
                    },
                self.pend_d == old(self).pend_d,
                self.pend_g == old(self).pend_g,
                self.res == old(self).res,
                self.params == old(self).params,
                self.result_off == old(self).result_off,
                self.ret_size == old(self).ret_size,
                self.first_free == old(self).first_free,
                self.await_count == old(self).await_count,
                self.resume_cases == old(self).resume_cases,
            decreases n - i,
        {
            let align = self.slots[i].align;
            let size = self.slots[i].size;
            proof {
                assert(shapes[i as int] == (size, align));
                lemma_slot_end_mono(start, shapes, (i + 1) as int, n as int);
                lemma_align_up(off as int, if align >= 1 { align as int } else { 1 });
            }
            off = align_up(off, align);
            let mut slot = self.slots.remove(i);
            slot.off = off;
            self.slots.insert(i, slot);
            off = off + size;
            i = i + 1;
        }
        proof {
            assert(slot_shapes(self.slots@) =~= shapes);
        }
        let e = align_up(off, 16);
        if e >= 16 {
            e
        } else {
            16
        }
    }

    /// Synthesizes the prepended entry block: one `getelementptr` per prefix
    /// pointer and slot, then the state load and the resume switch, then the
    /// bad-state trap. `cases` maps each live state index to its label.
    pub fn entry_text(&self, state_tmp: &str, cases: &[(u64, String)]) -> (t: String)
        ensures
            t@ == entry_spec(*self, state_tmp@, cases@),
    {
        let mut s = String::new();
        push_str(&mut s, "entry:\n");
        push_gep(&mut s, self.pend_d.as_str(), PEND_D_OFF);
        push_gep(&mut s, self.pend_g.as_str(), PEND_G_OFF);
        push_gep(&mut s, self.res.as_str(), self.result_off);
        let ghost after_prefix = s@;
        let mut i: usize = 0;
        while i < self.params.len()
            invariant
                0 <= i <= self.params@.len(),
                s@ == after_prefix + param_geps(self.params@, i as int),
            decreases self.params.len() - i,
        {
            push_gep(&mut s, self.params[i].0.as_str(), self.params[i].1);
            i = i + 1;
        }
        let ghost after_params = s@;
        let mut j: usize = 0;
        while j < self.slots.len()
            invariant
                0 <= j <= self.slots@.len(),
                s@ == after_params + slot_geps(self.slots@, j as int),
            decreases self.slots.len() - j,
        {
            push_gep(&mut s, self.slots[j].name.as_str(), self.slots[j].off);
            j = j + 1;
        }
        let ghost after_geps = s@;
        push_str(&mut s, "  ");
        push_str(&mut s, state_tmp);
        push_str(&mut s, " = load i64, ptr %frame\n");
        push_str(&mut s, "  switch i64 ");
        push_str(&mut s, state_tmp);
        push_str(&mut s, ", label %badstate [ ");
        let ghost before_arms = s@;
        let mut k: usize = 0;
        while k < cases.len()
            invariant
                0 <= k <= cases@.len(),
                s@ == before_arms + arms_text(cases@.take(k as int)),
            decreases cases.len() - k,
        {
            if k > 0 {
                push_str(&mut s, " ");
            }
            push_str(&mut s, "i64 ");
            push_dec(&mut s, cases[k].0);
            push_str(&mut s, ", label %");
            push_str(&mut s, cases[k].1.as_str());
            proof {
                let t = cases@.take(k + 1);
                assert(t.drop_last() =~= cases@.take(k as int));
                assert(t.last() == cases@[k as int]);
                if k == 0 {
                    assert(cases@.take(0) =~= Seq::<(u64, String)>::empty());
                }
            }
            k = k + 1;
        }
        proof {
            assert(cases@.take(k as int) =~= cases@);
        }
        push_str(&mut s, " ]\n");
        push_str(&mut s, "badstate:\n  call void @cool_task_state_fault()\n  unreachable\n");
        proof {
            assert(after_geps =~= "entry:\n"@ + geps_text(*self));
        }
        s
    }
}

} // verus!
