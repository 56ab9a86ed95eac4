//! The function body builder of the lowering: fresh temporaries and labels,
//! instruction lines, the entry-block slot funnel, and the small instruction
//! sequences every lowering shares (fat pointers with their generation check,
//! bounds checks, branches, the default return).

use vstd::prelude::*;
use crate::text::{dec, lemma_dec_injective, push_char, push_dec, push_str};
use super::lower::{
    clone_cty, cv, first_of, iface_names, lemma_first_of, int_bits_spec, is_aggregate_spec, ll_spec, method_names, CTy, CTyV, Ctx,
};
use crate::parser::ast::{BinOp, Expr, ExprKind};

verus! {

/// The mathematical form of the builder: the body text, the next temporary
/// and label numbers, whether the current block ended, the entry-block slot
/// lines, and the function's lowered return type.
pub struct FbV {
    pub body: Seq<char>,
    pub tmp: nat,
    pub label: nat,
    pub terminated: bool,
    pub entry: Seq<char>,
    pub ret: CTyV,
}

/// A function body under construction.
pub struct Fb {
    ret: CTy,
    body: String,
    tmp: u32,
    label: u32,
    terminated: bool,
    entry_allocas: String,
}

impl View for Fb {
    type V = FbV;

    closed spec fn view(&self) -> FbV {
        FbV {
            body: self.body@,
            tmp: self.tmp as nat,
            label: self.label as nat,
            terminated: self.terminated,
            entry: self.entry_allocas@,
            ret: cv(self.ret),
        }
    }
}

/// The name of temporary `n`.
pub open spec fn tname(n: nat) -> Seq<char> {
    "%t"@ + dec(n)
}

/// The name of label `n`.
pub open spec fn lname(n: nat) -> Seq<char> {
    "L"@ + dec(n)
}

/// Every temporary the builder hands out has its own name, and so does every
/// label: names of different numbers differ, so the SSA names of a body
/// never clash.
pub proof fn law_fresh_names_distinct(a: nat, b: nat)
    ensures
        a != b ==> tname(a) != tname(b),
        a != b ==> lname(a) != lname(b),
{
    reveal_strlit("%t");
    reveal_strlit("L");
    if a != b && tname(a) == tname(b) {
        assert(tname(a).subrange(2, tname(a).len() as int) =~= dec(a));
        assert(tname(b).subrange(2, tname(b).len() as int) =~= dec(b));
        lemma_dec_injective(a, b);
    }
    if a != b && lname(a) == lname(b) {
        assert(lname(a).subrange(1, lname(a).len() as int) =~= dec(a));
        assert(lname(b).subrange(1, lname(b).len() as int) =~= dec(b));
        lemma_dec_injective(a, b);
    }
}

/// One indented instruction line.
pub open spec fn line_text(s: Seq<char>) -> Seq<char> {
    "  "@ + s + "\n"@
}

/// A label line.
pub open spec fn label_text(l: Seq<char>) -> Seq<char> {
    l + ":\n"@
}

/// The first block of the generation check: the two fields of the fat
/// pointer and the branch on an untracked generation.
pub open spec fn fat_check_head(fat: Seq<char>, t: nat, l: nat) -> Seq<char> {
    line_text(tname(t) + " = extractvalue { ptr, i64 } "@ + fat + ", 0"@)
        + line_text(tname(t + 1) + " = extractvalue { ptr, i64 } "@ + fat + ", 1"@)
        + line_text(tname(t + 2) + " = icmp eq i64 "@ + tname(t + 1) + ", 0"@)
        + line_text("br i1 "@ + tname(t + 2) + ", label %"@ + lname(l + 2) + ", label %"@ + lname(l))
        + label_text(lname(l + 2))
}

/// The untracked path: a null data pointer faults.
pub open spec fn fat_check_null(t: nat, l: nat) -> Seq<char> {
    line_text(tname(t + 3) + " = icmp eq ptr "@ + tname(t) + ", null"@)
        + line_text("br i1 "@ + tname(t + 3) + ", label %"@ + lname(l + 3) + ", label %"@ + lname(l + 1))
        + label_text(lname(l + 3))
        + line_text("call void @cool_null_fault()"@)
        + line_text("br label %"@ + lname(l + 1))
        + label_text(lname(l))
}

/// The tracked path: the header generation must match.
pub open spec fn fat_check_gen(t: nat, l: nat) -> Seq<char> {
    line_text(tname(t + 4) + " = getelementptr i8, ptr "@ + tname(t) + ", i64 -8"@)
        + line_text(tname(t + 5) + " = load atomic i64, ptr "@ + tname(t + 4) + " seq_cst, align 8"@)
        + line_text(tname(t + 6) + " = icmp ne i64 "@ + tname(t + 5) + ", "@ + tname(t + 1))
        + line_text("br i1 "@ + tname(t + 6) + ", label %"@ + lname(l + 4) + ", label %"@ + lname(l + 1))
        + label_text(lname(l + 4))
        + line_text("call void @cool_gen_fault()"@)
        + line_text("br label %"@ + lname(l + 1))
        + label_text(lname(l + 1))
}

/// The text the generation check of a fat pointer emits, its temporaries
/// numbered from `t` and its labels from `l`.
pub open spec fn fat_checked_text(fat: Seq<char>, t: nat, l: nat) -> Seq<char> {
    fat_check_head(fat, t, l) + fat_check_null(t, l) + fat_check_gen(t, l)
}

/// The text of a bounds check of index `i` against `len`, with temporary `t`
/// and labels from `l`.
pub open spec fn bounds_text(i: Seq<char>, len: Seq<char>, t: nat, l: nat) -> Seq<char> {
    let bad = tname(t);
    let fault = lname(l);
    let ok = lname(l + 1);
    line_text(bad + " = icmp uge i64 "@ + i + ", "@ + len)
        + line_text("br i1 "@ + bad + ", label %"@ + fault + ", label %"@ + ok)
        + label_text(fault)
        + line_text("call void @cool_bounds_fault()"@)
        + line_text("br label %"@ + ok)
        + label_text(ok)
}

/// A space and the floating point zero literal.
pub open spec fn float_zero() -> Seq<char> {
    " 0"@ + seq!['.', '0']
}

/// The return instruction that ends a function whose body fell off its end:
/// the zero value of the return type.
pub open spec fn default_ret_text(r: CTyV) -> Seq<char> {
    match r {
        CTyV::Void => "ret void"@,
        CTyV::F64 => "ret "@ + ll_spec(r) + float_zero(),
        CTyV::F32 => "ret "@ + ll_spec(r) + float_zero(),
        CTyV::RawPtr(_) => "ret ptr null"@,
        _ => if is_aggregate_spec(r) {
            "ret "@ + ll_spec(r) + " zeroinitializer"@
        } else {
            "ret "@ + ll_spec(r) + " 0"@
        },
    }
}

/// The LLVM opcode of an arithmetic operator, integer or float.
pub open spec fn arith_spec(op: BinOp, is_float: bool) -> Seq<char> {
    if !is_float {
        match op {
            BinOp::Add => "add"@,
            BinOp::Sub => "sub"@,
            BinOp::Mul => "mul"@,
            BinOp::Div => "sdiv"@,
            BinOp::Mod => "srem"@,
            _ => "add"@,
        }
    } else {
        match op {
            BinOp::Add => "fadd"@,
            BinOp::Sub => "fsub"@,
            BinOp::Mul => "fmul"@,
            BinOp::Div => "fdiv"@,
            BinOp::Mod => "frem"@,
            _ => "add"@,
        }
    }
}

/// The LLVM compare instruction and condition of a comparison operator.
pub open spec fn cmp_spec(op: BinOp, is_float: bool) -> (Seq<char>, Seq<char>) {
    if is_float {
        (
            "fcmp"@,
            match op {
                BinOp::Eq => "oeq"@,
                BinOp::Ne => "one"@,
                BinOp::Lt => "olt"@,
                BinOp::Le => "ole"@,
                BinOp::Gt => "ogt"@,
                BinOp::Ge => "oge"@,
                _ => "oeq"@,
            },
        )
    } else {
        (
            "icmp"@,
            match op {
                BinOp::Eq => "eq"@,
                BinOp::Ne => "ne"@,
                BinOp::Lt => "slt"@,
                BinOp::Le => "sle"@,
                BinOp::Gt => "sgt"@,
                BinOp::Ge => "sge"@,
                _ => "eq"@,
            },
        )
    }
}

/// The width a shift of a value of type `t` is checked against: its integer
/// width, else 64.
pub open spec fn shift_width(t: CTyV) -> u32 {
    match int_bits_spec(t) {
        Some(w) => w,
        None => 64,
    }
}

/// Whether a shift amount is an integer literal already in range, so the
/// dynamic guard can be left out.
pub open spec fn shift_safe_spec(b: Expr, t: CTyV) -> bool {
    match b.kind {
        ExprKind::Int(v, _) => v >= 0 && v < shift_width(t),
        _ => false,
    }
}

/// The dynamic shift guard's text, with temporary `t` and labels from `l`.
pub open spec fn shift_check_text(amount: Seq<char>, ty: CTyV, t: nat, l: nat) -> Seq<char> {
    line_text(tname(t) + " = icmp uge "@ + ll_spec(ty) + " "@ + amount + ", "@ + dec(shift_width(ty) as nat))
        + line_text("br i1 "@ + tname(t) + ", label %"@ + lname(l) + ", label %"@ + lname(l + 1))
        + label_text(lname(l))
        + line_text("call void @cool_shift_fault()"@)
        + line_text("br label %"@ + lname(l + 1))
        + label_text(lname(l + 1))
}

/// The LLVM opcode of an arithmetic operator.
pub fn arith_opcode(op: BinOp, is_float: bool) -> (r: &'static str)
    ensures
        r@ == arith_spec(op, is_float),
{
    match (op, is_float) {
        (BinOp::Add, false) => "add",
        (BinOp::Sub, false) => "sub",
        (BinOp::Mul, false) => "mul",
        (BinOp::Div, false) => "sdiv",
        (BinOp::Mod, false) => "srem",
        (BinOp::Add, true) => "fadd",
        (BinOp::Sub, true) => "fsub",
        (BinOp::Mul, true) => "fmul",
        (BinOp::Div, true) => "fdiv",
        (BinOp::Mod, true) => "frem",
        _ => "add",
    }
}

/// The LLVM compare instruction and condition of a comparison operator.
pub fn cmp_opcode(op: BinOp, is_float: bool) -> (r: (&'static str, &'static str))
    ensures
        (r.0@, r.1@) == cmp_spec(op, is_float),
{
    if is_float {
        let c = match op {
            BinOp::Eq => "oeq",
            BinOp::Ne => "one",
            BinOp::Lt => "olt",
            BinOp::Le => "ole",
            BinOp::Gt => "ogt",
            BinOp::Ge => "oge",
            _ => "oeq",
        };
        ("fcmp", c)
    } else {
        let c = match op {
            BinOp::Eq => "eq",
            BinOp::Ne => "ne",
            BinOp::Lt => "slt",
            BinOp::Le => "sle",
            BinOp::Gt => "sgt",
            BinOp::Ge => "sge",
            _ => "eq",
        };
        ("icmp", c)
    }
}

/// Whether the shift amount `b` of a value of type `ty` is a literal known to
/// be in range.
pub fn shift_amount_safe(b: &Expr, ty: &CTy) -> (r: bool)
    ensures
        r == shift_safe_spec(*b, cv(*ty)),
{
    if let ExprKind::Int(v, _) = &b.kind {
        let w: i64 = match ty.int_bits() {
            Some(w) => w as i64,
            None => 64,
        };
        return *v >= 0 && *v < w;
    }
    false
}

/// A lowered value: its type and its operand text.
pub struct Val {
    pub ty: CTy,
    pub op: String,
}

impl Fb {
    /// An empty body for a function returning `ret`.
    pub fn new(ret: CTy) -> (f: Self)
        ensures
            f@ == (FbV {
                body: Seq::empty(),
                tmp: 0,
                label: 0,
                terminated: false,
                entry: Seq::empty(),
                ret: cv(ret),
            }),
    {
        let f = Fb {
            ret,
            body: String::new(),
            tmp: 0,
            label: 0,
            terminated: false,
            entry_allocas: String::new(),
        };
        proof {
            assert(f.body@ =~= Seq::<char>::empty());
            assert(f.entry_allocas@ =~= Seq::<char>::empty());
        }
        f
    }

    /// The body text so far.
    pub fn body(&self) -> (r: &String)
        ensures
            r@ == self@.body,
    {
        &self.body
    }

    /// Whether the current block has ended.
    pub fn is_terminated(&self) -> (r: bool)
        ensures
            r == self@.terminated,
    {
        self.terminated
    }

    /// A fresh temporary name.
    pub fn fresh(&mut self) -> (t: String)
        requires
            old(self)@.tmp < u32::MAX,
        ensures
            t@ == tname(old(self)@.tmp),
            final(self)@ == (FbV { tmp: old(self)@.tmp + 1, ..old(self)@ }),
    {
        let mut t = String::new();
        push_str(&mut t, "%t");
        push_dec(&mut t, self.tmp as u64);
        self.tmp = self.tmp + 1;
        t
    }

    /// A fresh label name.
    pub fn new_label(&mut self) -> (l: String)
        requires
            old(self)@.label < u32::MAX,
        ensures
            l@ == lname(old(self)@.label),
            final(self)@ == (FbV { label: old(self)@.label + 1, ..old(self)@ }),
    {
        let mut l = String::new();
        push_str(&mut l, "L");
        push_dec(&mut l, self.label as u64);
        self.label = self.label + 1;
        l
    }

    /// Appends one instruction line.
    pub fn line(&mut self, s: &str)
        ensures
            final(self)@ == (FbV { body: old(self)@.body + line_text(s@), ..old(self)@ }),
    {
        push_str(&mut self.body, "  ");
        push_str(&mut self.body, s);
        push_char(&mut self.body, '\n');
        proof {
            reveal_strlit("\n");
            assert(self.body@ =~= old(self)@.body + line_text(s@));
        }
    }

    /// Opens the block `l`.
    pub fn place_label(&mut self, l: &str)
        ensures
            final(self)@ == (FbV { body: old(self)@.body + label_text(l@), terminated: false, ..old(self)@ }),
    {
        push_str(&mut self.body, l);
        push_str(&mut self.body, ":\n");
        assert(self.body@ =~= old(self)@.body + label_text(l@));
        self.terminated = false;
    }

    /// Buffers a stack slot line for the entry block.
    pub fn push_entry_alloca(&mut self, s: &str)
        ensures
            final(self)@ == (FbV { entry: old(self)@.entry + line_text(s@), ..old(self)@ }),
    {
        push_str(&mut self.entry_allocas, "  ");
        push_str(&mut self.entry_allocas, s);
        push_char(&mut self.entry_allocas, '\n');
        proof {
            reveal_strlit("\n");
            assert(self.entry_allocas@ =~= old(self)@.entry + line_text(s@));
        }
    }

    /// The finished body: the entry label, the buffered slot lines, then the
    /// rest of the body after its own entry label.
    pub fn body_out(&self) -> (r: String)
        requires
            self@.body.len() >= 7,
            self@.body.subrange(0, 7) == "entry:\n"@,
        ensures
            r@ == "entry:\n"@ + self@.entry + self@.body.subrange(7, self@.body.len() as int),
    {
        let mut out = String::new();
        push_str(&mut out, "entry:\n");
        push_str(&mut out, self.entry_allocas.as_str());
        let cs = crate::text::chars_of(self.body.as_str());
        let mut i: usize = 7;
        while i < cs.len()
            invariant
                7 <= i <= cs@.len(),
                cs@ == self@.body,
                out@ == "entry:\n"@ + self@.entry + cs@.subrange(7, i as int),
            decreases cs.len() - i,
        {
            push_char(&mut out, cs[i]);
            assert(cs@.subrange(7, i + 1) =~= cs@.subrange(7, i as int).push(cs@[i as int]));
            i = i + 1;
        }
        out
    }

    /// Emits `d = opcode ty a, b` and returns `d`.
    pub fn op2(&mut self, opcode: &str, ty: &str, a: &str, b: &str) -> (d: String)
        requires
            old(self)@.tmp < u32::MAX,
        ensures
            d@ == tname(old(self)@.tmp),
            final(self)@ == (FbV {
                body: old(self)@.body + line_text(d@ + " = "@ + opcode@ + " "@ + ty@ + " "@ + a@ + ", "@ + b@),
                tmp: old(self)@.tmp + 1,
                ..old(self)@
            }),
    {
        let d = self.fresh();
        let mut s = String::new();
        push_str(&mut s, d.as_str());
        push_str(&mut s, " = ");
        push_str(&mut s, opcode);
        push_str(&mut s, " ");
        push_str(&mut s, ty);
        push_str(&mut s, " ");
        push_str(&mut s, a);
        push_str(&mut s, ", ");
        push_str(&mut s, b);
        self.line(s.as_str());
        proof {
            assert(s@ =~= d@ + " = "@ + opcode@ + " "@ + ty@ + " "@ + a@ + ", "@ + b@);
        }
        d
    }

    /// Emits a load of a `ty` from `ptr` and returns the loaded value's name.
    pub fn load(&mut self, ty: &CTy, ptr: &str) -> (d: String)
        requires
            old(self)@.tmp < u32::MAX,
        ensures
            d@ == tname(old(self)@.tmp),
            final(self)@ == (FbV {
                body: old(self)@.body + line_text(d@ + " = load "@ + ll_spec(cv(*ty)) + ", ptr "@ + ptr@),
                tmp: old(self)@.tmp + 1,
                ..old(self)@
            }),
    {
        let d = self.fresh();
        let mut s = String::new();
        push_str(&mut s, d.as_str());
        push_str(&mut s, " = load ");
        push_str(&mut s, ty.ll().as_str());
        push_str(&mut s, ", ptr ");
        push_str(&mut s, ptr);
        self.line(s.as_str());
        proof {
            assert(s@ =~= d@ + " = load "@ + ll_spec(cv(*ty)) + ", ptr "@ + ptr@);
        }
        d
    }

    /// Ends the block with a jump to `l`.
    pub fn br(&mut self, l: &str)
        ensures
            final(self)@ == (FbV {
                body: old(self)@.body + line_text("br label %"@ + l@),
                terminated: true,
                ..old(self)@
            }),
    {
        let mut s = String::new();
        push_str(&mut s, "br label %");
        push_str(&mut s, l);
        self.line(s.as_str());
        self.terminated = true;
    }

    /// Ends the block with a branch on `c` to `t` or `e`.
    pub fn cond_br(&mut self, c: &str, t: &str, e: &str)
        ensures
            final(self)@ == (FbV {
                body: old(self)@.body + line_text("br i1 "@ + c@ + ", label %"@ + t@ + ", label %"@ + e@),
                terminated: true,
                ..old(self)@
            }),
    {
        let mut s = String::new();
        push_str(&mut s, "br i1 ");
        push_str(&mut s, c);
        push_str(&mut s, ", label %");
        push_str(&mut s, t);
        push_str(&mut s, ", label %");
        push_str(&mut s, e);
        self.line(s.as_str());
        proof {
            assert(s@ =~= "br i1 "@ + c@ + ", label %"@ + t@ + ", label %"@ + e@);
        }
        self.terminated = true;
    }

    /// Builds a managed fat pointer `{ data, gen }` and returns its name.
    pub fn fat(&mut self, data: &str, gen: &str) -> (r: String)
        requires
            old(self)@.tmp + 2 <= u32::MAX,
        ensures
            r@ == tname(old(self)@.tmp + 1),
            final(self)@ == (FbV {
                body: old(self)@.body
                    + line_text(tname(old(self)@.tmp) + " = insertvalue { ptr, i64 } undef, ptr "@ + data@ + ", 0"@)
                    + line_text(r@ + " = insertvalue { ptr, i64 } "@ + tname(old(self)@.tmp) + ", i64 "@ + gen@ + ", 1"@),
                tmp: old(self)@.tmp + 2,
                ..old(self)@
            }),
    {
        let a = self.fresh();
        let mut s = String::new();
        push_str(&mut s, a.as_str());
        push_str(&mut s, " = insertvalue { ptr, i64 } undef, ptr ");
        push_str(&mut s, data);
        push_str(&mut s, ", 0");
        self.line(s.as_str());
        let b = self.fresh();
        let mut s2 = String::new();
        push_str(&mut s2, b.as_str());
        push_str(&mut s2, " = insertvalue { ptr, i64 } ");
        push_str(&mut s2, a.as_str());
        push_str(&mut s2, ", i64 ");
        push_str(&mut s2, gen);
        push_str(&mut s2, ", 1");
        self.line(s2.as_str());
        proof {
            assert(s@ =~= tname(old(self)@.tmp) + " = insertvalue { ptr, i64 } undef, ptr "@ + data@ + ", 0"@);
            assert(s2@ =~= b@ + " = insertvalue { ptr, i64 } "@ + tname(old(self)@.tmp) + ", i64 "@ + gen@ + ", 1"@);
        }
        b
    }

    /// Extracts the raw data pointer of a fat pointer, unchecked.
    pub fn fat_data(&mut self, fat: &str) -> (d: String)
        requires
            old(self)@.tmp < u32::MAX,
        ensures
            d@ == tname(old(self)@.tmp),
            final(self)@ == (FbV {
                body: old(self)@.body + line_text(d@ + " = extractvalue { ptr, i64 } "@ + fat@ + ", 0"@),
                tmp: old(self)@.tmp + 1,
                ..old(self)@
            }),
    {
        let d = self.fresh();
        let mut s = String::new();
        push_str(&mut s, d.as_str());
        push_str(&mut s, " = extractvalue { ptr, i64 } ");
        push_str(&mut s, fat);
        push_str(&mut s, ", 0");
        self.line(s.as_str());
        proof {
            assert(s@ =~= d@ + " = extractvalue { ptr, i64 } "@ + fat@ + ", 0"@);
        }
        d
    }

    /// Extracts the raw data pointer of a fat pointer and checks its
    /// generation: a generation of zero is untracked and only a null data
    /// pointer faults; otherwise the live generation in the header word just
    /// before the data must equal it, or the program faults on a freed or
    /// stale pointer. Returns the data pointer's name.
    #[verifier::rlimit(100)]
    #[verifier::spinoff_prover]
    pub fn fat_checked(&mut self, fat: &str) -> (data: String)
        requires
            old(self)@.tmp + 7 <= u32::MAX,
            old(self)@.label + 5 <= u32::MAX,
        ensures
            data@ == tname(old(self)@.tmp),
            final(self)@ == (FbV {
                body: old(self)@.body + fat_checked_text(fat@, old(self)@.tmp, old(self)@.label),
                tmp: old(self)@.tmp + 7,
                label: old(self)@.label + 5,
                terminated: false,
                ..old(self)@
            }),
    {
        let ghost b0 = self@.body;
        let ghost t = self@.tmp;
        let ghost l = self@.label;
        let data = self.fat_data(fat);
        let gen = self.fresh();
        let mut s = String::new();
        push_str(&mut s, gen.as_str());
        push_str(&mut s, " = extractvalue { ptr, i64 } ");
        push_str(&mut s, fat);
        push_str(&mut s, ", 1");
        self.line(s.as_str());
        let chk = self.new_label();
        let skip = self.new_label();
        let z = self.fresh();
        let mut s = String::new();
        push_str(&mut s, z.as_str());
        push_str(&mut s, " = icmp eq i64 ");
        push_str(&mut s, gen.as_str());
        push_str(&mut s, ", 0");
        self.line(s.as_str());
        let nullchk = self.new_label();
        self.cond_br(z.as_str(), nullchk.as_str(), chk.as_str());
        self.place_label(nullchk.as_str());
        assert(self@.body =~= b0 + fat_check_head(fat@, t, l));
        let ghost b1 = self@.body;
        let isnull = self.fresh();
        let mut s = String::new();
        push_str(&mut s, isnull.as_str());
        push_str(&mut s, " = icmp eq ptr ");
        push_str(&mut s, data.as_str());
        push_str(&mut s, ", null");
        self.line(s.as_str());
        let nfault = self.new_label();
        self.cond_br(isnull.as_str(), nfault.as_str(), skip.as_str());
        self.place_label(nfault.as_str());
        self.line("call void @cool_null_fault()");
        self.br(skip.as_str());
        self.place_label(chk.as_str());
        assert(self@.body =~= b1 + fat_check_null(t, l));
        let ghost b2 = self@.body;
        let hp = self.fresh();
        let mut s = String::new();
        push_str(&mut s, hp.as_str());
        push_str(&mut s, " = getelementptr i8, ptr ");
        push_str(&mut s, data.as_str());
        push_str(&mut s, ", i64 -8");
        self.line(s.as_str());
        let cur = self.fresh();
        let mut s = String::new();
        push_str(&mut s, cur.as_str());
        push_str(&mut s, " = load atomic i64, ptr ");
        push_str(&mut s, hp.as_str());
        push_str(&mut s, " seq_cst, align 8");
        self.line(s.as_str());
        let bad = self.fresh();
        let mut s = String::new();
        push_str(&mut s, bad.as_str());
        push_str(&mut s, " = icmp ne i64 ");
        push_str(&mut s, cur.as_str());
        push_str(&mut s, ", ");
        push_str(&mut s, gen.as_str());
        self.line(s.as_str());
        let fault = self.new_label();
        self.cond_br(bad.as_str(), fault.as_str(), skip.as_str());
        self.place_label(fault.as_str());
        self.line("call void @cool_gen_fault()");
        self.br(skip.as_str());
        self.place_label(skip.as_str());
        assert(self@.body =~= b2 + fat_check_gen(t, l));
        assert(self@.body =~= b0 + fat_checked_text(fat@, t, l));
        data
    }

    /// Emits a bounds check of index `i` against `len`: an unsigned compare
    /// catches a negative index too, and a miss traps through the runtime.
    pub fn bounds_check(&mut self, i: &str, len: &str)
        requires
            old(self)@.tmp < u32::MAX,
            old(self)@.label + 2 <= u32::MAX,
        ensures
            final(self)@ == (FbV {
                body: old(self)@.body + bounds_text(i@, len@, old(self)@.tmp, old(self)@.label),
                tmp: old(self)@.tmp + 1,
                label: old(self)@.label + 2,
                terminated: false,
                ..old(self)@
            }),
    {
        let ghost b0 = self@.body;
        let ghost t = self@.tmp;
        let ghost l = self@.label;
        let bad = self.fresh();
        let mut s = String::new();
        push_str(&mut s, bad.as_str());
        push_str(&mut s, " = icmp uge i64 ");
        push_str(&mut s, i);
        push_str(&mut s, ", ");
        push_str(&mut s, len);
        self.line(s.as_str());
        let fault = self.new_label();
        let ok = self.new_label();
        self.cond_br(bad.as_str(), fault.as_str(), ok.as_str());
        self.place_label(fault.as_str());
        self.line("call void @cool_bounds_fault()");
        self.br(ok.as_str());
        self.place_label(ok.as_str());
        proof {
            assert(self@.body =~= b0 + bounds_text(i@, len@, t, l));
        }
    }

    /// Ends a body that fell off its end with a return of the return type's
    /// zero value.
    pub fn default_ret(&mut self)
        ensures
            final(self)@ == (FbV {
                body: old(self)@.body + line_text(default_ret_text(old(self)@.ret)),
                terminated: true,
                ..old(self)@
            }),
    {
        let mut s = String::new();
        match &self.ret {
            CTy::Void => push_str(&mut s, "ret void"),
            CTy::F64 | CTy::F32 => {
                push_str(&mut s, "ret ");
                push_str(&mut s, self.ret.ll().as_str());
                push_str(&mut s, " 0");
                push_char(&mut s, '.');
                push_char(&mut s, '0');
                proof {
                    assert(s@ =~= "ret "@ + ll_spec(cv(self.ret)) + float_zero());
                }
            },
            CTy::RawPtr(_) => push_str(&mut s, "ret ptr null"),
            _ => {
                push_str(&mut s, "ret ");
                push_str(&mut s, self.ret.ll().as_str());
                if self.ret.is_aggregate() {
                    push_str(&mut s, " zeroinitializer");
                } else {
                    push_str(&mut s, " 0");
                }
            },
        }
        assert(s@ =~= default_ret_text(cv(self.ret)));
        self.line(s.as_str());
        self.terminated = true;
    }

    /// Emits the dynamic shift guard: a fault when the amount is at or above
    /// the operand's width, compared in the operand's own width.
    pub fn shift_check(&mut self, amount: &str, ty: &CTy)
        requires
            old(self)@.tmp < u32::MAX,
            old(self)@.label + 2 <= u32::MAX,
        ensures
            final(self)@ == (FbV {
                body: old(self)@.body + shift_check_text(amount@, cv(*ty), old(self)@.tmp, old(self)@.label),
                tmp: old(self)@.tmp + 1,
                label: old(self)@.label + 2,
                terminated: false,
                ..old(self)@
            }),
    {
        let ghost b0 = self@.body;
        let ghost t = self@.tmp;
        let ghost l = self@.label;
        let w: u32 = match ty.int_bits() {
            Some(w) => w,
            None => 64,
        };
        let tyll = ty.ll();
        let bad = self.fresh();
        let mut s = String::new();
        push_str(&mut s, bad.as_str());
        push_str(&mut s, " = icmp uge ");
        push_str(&mut s, tyll.as_str());
        push_str(&mut s, " ");
        push_str(&mut s, amount);
        push_str(&mut s, ", ");
        push_dec(&mut s, w as u64);
        self.line(s.as_str());
        let fault = self.new_label();
        let ok = self.new_label();
        self.cond_br(bad.as_str(), fault.as_str(), ok.as_str());
        self.place_label(fault.as_str());
        self.line("call void @cool_shift_fault()");
        self.br(ok.as_str());
        self.place_label(ok.as_str());
        assert(self@.body =~= b0 + shift_check_text(amount@, cv(*ty), t, l));
    }

    /// Lowers a shift of `a` by `bo` with `opcode` (`shl`, or `ashr` for
    /// `>>`): the dynamic guard comes first unless the amount expression `b`
    /// is a literal in range.
    pub fn gen_shift(&mut self, opcode: &str, a: &str, b: &Expr, bo: &str, ty: CTy) -> (r: Val)
        requires
            old(self)@.tmp + 2 <= u32::MAX,
            old(self)@.label + 2 <= u32::MAX,
        ensures
            cv(r.ty) == cv(ty),
            ({
                let guarded = !shift_safe_spec(*b, cv(ty));
                let t0 = old(self)@.tmp;
                let l0 = old(self)@.label;
                let t1 = if guarded { t0 + 1 } else { t0 };
                let guard = if guarded { shift_check_text(bo@, cv(ty), t0, l0) } else { Seq::empty() };
                &&& r.op@ == tname(t1)
                &&& final(self)@ == (FbV {
                    body: old(self)@.body + guard + line_text(
                        tname(t1) + " = "@ + opcode@ + " "@ + ll_spec(cv(ty)) + " "@ + a@ + ", "@ + bo@,
                    ),
                    tmp: t1 + 1,
                    label: if guarded { l0 + 2 } else { l0 },
                    terminated: if guarded { false } else { old(self)@.terminated },
                    ..old(self)@
                })
            }),
    {
        let ghost b0 = self@.body;
        if !shift_amount_safe(b, &ty) {
            self.shift_check(bo, &ty);
        } else {
            assert(self@.body =~= b0 + Seq::<char>::empty());
        }
        let tyll = ty.ll();
        let r = self.op2(opcode, tyll.as_str(), a, bo);
        Val { ty, op: r }
    }

    /// Extracts the data pointer and the length of a slice value; the element
    /// type is the slice's, or a 64-bit integer for any other type.
    pub fn slice_parts(&mut self, sv: &Val) -> (r: (String, String, CTy))
        requires
            old(self)@.tmp + 2 <= u32::MAX,
        ensures
            r.0@ == tname(old(self)@.tmp),
            r.1@ == tname(old(self)@.tmp + 1),
            cv(r.2) == (match cv(sv.ty) {
                CTyV::Slice(e) => *e,
                _ => CTyV::Int(64),
            }),
            final(self)@ == (FbV {
                body: old(self)@.body
                    + line_text(r.0@ + " = extractvalue { ptr, i64 } "@ + sv.op@ + ", 0"@)
                    + line_text(r.1@ + " = extractvalue { ptr, i64 } "@ + sv.op@ + ", 1"@),
                tmp: old(self)@.tmp + 2,
                ..old(self)@
            }),
    {
        let elem = match &sv.ty {
            CTy::Slice(e) => clone_cty(e),
            _ => CTy::Int(64),
        };
        let data = self.fat_data(sv.op.as_str());
        let len = self.fresh();
        let mut s = String::new();
        push_str(&mut s, len.as_str());
        push_str(&mut s, " = extractvalue { ptr, i64 } ");
        push_str(&mut s, sv.op.as_str());
        push_str(&mut s, ", 1");
        self.line(s.as_str());
        (data, len, elem)
    }

    /// The size in bytes of one `ty`, computed by a null pointer GEP and a
    /// `ptrtoint`; returns the size's name.
    pub fn elem_size(&mut self, ty: &CTy) -> (r: String)
        requires
            old(self)@.tmp + 2 <= u32::MAX,
        ensures
            r@ == tname(old(self)@.tmp + 1),
            final(self)@ == (FbV {
                body: old(self)@.body
                    + line_text(tname(old(self)@.tmp) + " = getelementptr "@ + ll_spec(cv(*ty)) + ", ptr null, i64 1"@)
                    + line_text(r@ + " = ptrtoint ptr "@ + tname(old(self)@.tmp) + " to i64"@),
                tmp: old(self)@.tmp + 2,
                ..old(self)@
            }),
    {
        let p = self.fresh();
        let mut s = String::new();
        push_str(&mut s, p.as_str());
        push_str(&mut s, " = getelementptr ");
        push_str(&mut s, ty.ll().as_str());
        push_str(&mut s, ", ptr null, i64 1");
        self.line(s.as_str());
        let r = self.fresh();
        let mut s2 = String::new();
        push_str(&mut s2, r.as_str());
        push_str(&mut s2, " = ptrtoint ptr ");
        push_str(&mut s2, p.as_str());
        push_str(&mut s2, " to i64");
        self.line(s2.as_str());
        proof {
            assert(s@ =~= tname(old(self)@.tmp) + " = getelementptr "@ + ll_spec(cv(*ty)) + ", ptr null, i64 1"@);
            assert(s2@ =~= r@ + " = ptrtoint ptr "@ + tname(old(self)@.tmp) + " to i64"@);
        }
        r
    }

    /// Loads the slot of `method` from the vtable of the interface value `iv`
    /// of `iface`, returning the data pointer and the function pointer for
    /// the indirect call; None, emitting nothing, when the interface has no
    /// such method.
    pub fn iface_slot(&mut self, ctx: &Ctx, iv: &str, iface: &String, method: &String) -> (r: Option<(String, String)>)
        requires
            old(self)@.tmp + 4 <= u32::MAX,
        ensures
            match first_of(iface_names(ctx.ifaces@), iface@, 0) {
                Some(j) => match first_of(method_names(ctx.ifaces@[j].methods@), method@, 0) {
                    Some(k) => {
                        let t = old(self)@.tmp;
                        let n = ctx.ifaces@[j].methods@.len();
                        &&& r matches Some(p) && p.0@ == tname(t) && p.1@ == tname(t + 3)
                        &&& final(self)@ == (FbV {
                            body: old(self)@.body
                                + line_text(tname(t) + " = extractvalue { ptr, ptr } "@ + iv@ + ", 0"@)
                                + line_text(tname(t + 1) + " = extractvalue { ptr, ptr } "@ + iv@ + ", 1"@)
                                + line_text(tname(t + 2) + " = getelementptr ["@ + dec(n) + " x ptr], ptr "@ + tname(t + 1)
                                    + ", i64 0, i64 "@ + dec(k as nat))
                                + line_text(tname(t + 3) + " = load ptr, ptr "@ + tname(t + 2)),
                            tmp: t + 4,
                            ..old(self)@
                        })
                    },
                    None => r is None && final(self)@ == old(self)@,
                },
                None => r is None && final(self)@ == old(self)@,
            },
    {
        proof {
            lemma_first_of(iface_names(ctx.ifaces@), iface@, 0);
            if let Some(j) = first_of(iface_names(ctx.ifaces@), iface@, 0) {
                lemma_first_of(method_names(ctx.ifaces@[j].methods@), method@, 0);
            }
        }
        let idx = match ctx.iface_method(iface, method) {
            Some(p) => p.0,
            None => {
                return None;
            },
        };
        let n = match ctx.iface(iface) {
            Some(d) => d.methods.len(),
            None => {
                return None;
            },
        };
        let ghost b0 = self@.body;
        let ghost t = self@.tmp;
        let data = self.fresh();
        let mut s = String::new();
        push_str(&mut s, data.as_str());
        push_str(&mut s, " = extractvalue { ptr, ptr } ");
        push_str(&mut s, iv);
        push_str(&mut s, ", 0");
        self.line(s.as_str());
        let vt = self.fresh();
        let mut s = String::new();
        push_str(&mut s, vt.as_str());
        push_str(&mut s, " = extractvalue { ptr, ptr } ");
        push_str(&mut s, iv);
        push_str(&mut s, ", 1");
        self.line(s.as_str());
        let slot = self.fresh();
        let mut s = String::new();
        push_str(&mut s, slot.as_str());
        push_str(&mut s, " = getelementptr [");
        push_dec(&mut s, n as u64);
        push_str(&mut s, " x ptr], ptr ");
        push_str(&mut s, vt.as_str());
        push_str(&mut s, ", i64 0, i64 ");
        push_dec(&mut s, idx as u64);
        self.line(s.as_str());
        let fp = self.fresh();
        let mut s = String::new();
        push_str(&mut s, fp.as_str());
        push_str(&mut s, " = load ptr, ptr ");
        push_str(&mut s, slot.as_str());
        self.line(s.as_str());
        proof {
            let j = first_of(iface_names(ctx.ifaces@), iface@, 0)->0;
            let k = first_of(method_names(ctx.ifaces@[j].methods@), method@, 0)->0;
            assert(n == ctx.ifaces@[j].methods@.len());
            assert(idx == k);
            assert(self@.body =~= b0
                + line_text(tname(t) + " = extractvalue { ptr, ptr } "@ + iv@ + ", 0"@)
                + line_text(tname(t + 1) + " = extractvalue { ptr, ptr } "@ + iv@ + ", 1"@)
                + line_text(tname(t + 2) + " = getelementptr ["@ + dec(n as nat) + " x ptr], ptr "@ + tname(t + 1)
                    + ", i64 0, i64 "@ + dec(k as nat))
                + line_text(tname(t + 3) + " = load ptr, ptr "@ + tname(t + 2)));
        }
        Some((data, fp))
    }

    /// Reserves a stack slot for a `ty` in the entry block (every slot of a
    /// synchronous body is hoisted there, so a binding inside a loop reuses
    /// one slot) and returns the slot's name.
    pub fn alloca(&mut self, ty: &CTy) -> (d: String)
        requires
            old(self)@.tmp < u32::MAX,
        ensures
            d@ == tname(old(self)@.tmp),
            final(self)@ == (FbV {
                entry: old(self)@.entry + line_text(d@ + " = alloca "@ + ll_spec(cv(*ty))),
                tmp: old(self)@.tmp + 1,
                ..old(self)@
            }),
    {
        let d = self.fresh();
        let mut s = String::new();
        push_str(&mut s, d.as_str());
        push_str(&mut s, " = alloca ");
        push_str(&mut s, ty.ll().as_str());
        self.push_entry_alloca(s.as_str());
        d
    }
}

} // verus!
