//! Minimal textual LLVM IR builder. Targets LLVM 22 opaque pointer IR.

use vstd::prelude::*;
use vstd::string::StringSliceAdditionalSpecFns;
use crate::text::{dec, push_char, push_dec, push_str, chars_of};

verus! {

/// The mathematical form of a module under construction.
pub struct ModuleV {
    pub name: Seq<char>,
    pub triple: Seq<char>,
    pub types: Seq<Seq<char>>,
    pub externs: Seq<Seq<char>>,
    pub globals: Seq<Seq<char>>,
    pub funcs: Seq<Seq<char>>,
    pub str_count: nat,
    /// Interned C strings, text to global label, in interning order.
    pub strings: Seq<(Seq<char>, Seq<char>)>,
    pub lambda_count: nat,
}

/// An accumulating LLVM IR module, rendered to text on demand.
pub struct Module {
    name: String,
    triple: String,
    types: Vec<String>,
    externs: Vec<String>,
    globals: Vec<String>,
    funcs: Vec<String>,
    strings: Vec<(String, String)>,
    lambda_count: u32,
}

pub open spec fn strs_view(v: Seq<String>) -> Seq<Seq<char>> {
    v.map_values(|s: String| s@)
}

pub open spec fn pairs_view(v: Seq<(String, String)>) -> Seq<(Seq<char>, Seq<char>)> {
    v.map_values(|p: (String, String)| (p.0@, p.1@))
}

impl View for Module {
    type V = ModuleV;

    closed spec fn view(&self) -> ModuleV {
        ModuleV {
            name: self.name@,
            triple: self.triple@,
            types: strs_view(self.types@),
            externs: strs_view(self.externs@),
            globals: strs_view(self.globals@),
            funcs: strs_view(self.funcs@),
            str_count: self.strings@.len(),
            strings: pairs_view(self.strings@),
            lambda_count: self.lambda_count as nat,
        }
    }
}

/// The index of the first interned entry for `text`, if any.
pub open spec fn find_interned(strings: Seq<(Seq<char>, Seq<char>)>, text: Seq<char>) -> Option<int> {
    if exists|j: int| 0 <= j < strings.len() && (#[trigger] strings[j]).0 == text {
        Some(choose|j: int| 0 <= j < strings.len() && (#[trigger] strings[j]).0 == text && forall|k: int| 0 <= k < j ==> strings[k].0 != text)
    } else {
        None
    }
}

/// The uppercase hex digit for `d` in `0..16`.
pub open spec fn hex_char(d: nat) -> char {
    if d < 10 {
        ((d + 48) as u32) as char
    } else {
        ((d + 55) as u32) as char
    }
}

/// How one byte of a C string literal is written inside `c"..."`.
pub open spec fn encode_byte(b: u8) -> Seq<char> {
    if b == 0x5C {
        "\\5C"@
    } else if b == 0x22 {
        "\\22"@
    } else if 0x20 <= b && b <= 0x7e {
        seq![(b as u32) as char]
    } else {
        seq!['\\', hex_char((b / 16) as nat), hex_char((b % 16) as nat)]
    }
}

/// The encoded bytes, in order.
pub open spec fn encode_bytes(bs: Seq<u8>) -> Seq<char>
    decreases bs.len(),
{
    if bs.len() == 0 {
        Seq::empty()
    } else {
        encode_bytes(bs.drop_last()) + encode_byte(bs.last())
    }
}

/// The body of an LLVM `c"..."` array for `text`, with its trailing NUL.
pub open spec fn encode_spec(text: &str) -> Seq<char> {
    encode_bytes(text.spec_bytes()) + "\\00"@
}

/// The global line that defines an interned C string.
pub open spec fn cstring_global(label: Seq<char>, text: &str) -> Seq<char> {
    label + " = private unnamed_addr constant ["@ + dec((text.spec_bytes().len() + 1) as nat)
        + " x i8] c\""@ + encode_spec(text) + "\""@
}

/// The label of the `n`th interned C string.
pub open spec fn str_label(n: nat) -> Seq<char> {
    "@.str."@ + dec(n)
}

/// Each line followed by a newline.
pub open spec fn lines_text(lines: Seq<Seq<char>>) -> Seq<char>
    decreases lines.len(),
{
    if lines.len() == 0 {
        Seq::empty()
    } else {
        lines_text(lines.drop_last()) + lines.last() + "\n"@
    }
}

/// A section: its lines and a blank line, or nothing when empty.
pub open spec fn section(lines: Seq<Seq<char>>) -> Seq<char> {
    if lines.len() == 0 {
        Seq::empty()
    } else {
        lines_text(lines) + "\n"@
    }
}

/// Each function followed by a blank line.
pub open spec fn funcs_text(fs: Seq<Seq<char>>) -> Seq<char>
    decreases fs.len(),
{
    if fs.len() == 0 {
        Seq::empty()
    } else {
        funcs_text(fs.drop_last()) + fs.last() + "\n\n"@
    }
}

/// The rendered module text.
pub open spec fn render_spec(m: ModuleV) -> Seq<char> {
    "; ModuleID = '"@ + m.name + "'\n"@ + "target triple = \""@ + m.triple + "\"\n"@ + "\n"@
        + section(m.types) + section(m.globals) + section(m.externs) + funcs_text(m.funcs)
}

fn own(s: &str) -> (r: String)
    ensures
        r@ == s@,
{
    let mut r = String::new();
    push_str(&mut r, s);
    r
}

fn hex_digit(d: u8) -> (c: char)
    requires
        d < 16,
    ensures
        c == hex_char(d as nat),
{
    if d < 10 {
        (48u8 + d) as char
    } else {
        (55u8 + d) as char
    }
}

/// Encode a string as the body of an LLVM `c"..."` array plus its total length
/// (including the trailing NUL). Bytes outside printable ASCII, plus `"` and
/// `\`, are emitted as `\XX` hex escapes, per the LLVM textual format.
pub fn encode_cstring(text: &str) -> (r: (String, usize))
    requires
        text.spec_bytes().len() < usize::MAX,
    ensures
        r.0@ == encode_spec(text),
        r.1 == text.spec_bytes().len() + 1,
{
    let bytes = text.as_bytes();
    let mut s = String::new();
    let mut i: usize = 0;
    while i < bytes.len()
        invariant
            0 <= i <= bytes@.len(),
            bytes@ == text.spec_bytes(),
            s@ == encode_bytes(bytes@.take(i as int)),
        decreases bytes.len() - i,
    {
        let b = bytes[i];
        let ghost before = s@;
        if b == 0x5C {
            push_str(&mut s, "\\5C");
        } else if b == 0x22 {
            push_str(&mut s, "\\22");
        } else if 0x20 <= b && b <= 0x7e {
            push_char(&mut s, b as char);
            assert(s@ =~= before + seq![(b as u32) as char]);
        } else {
            push_char(&mut s, '\\');
            push_char(&mut s, hex_digit(b / 16));
            push_char(&mut s, hex_digit(b % 16));
            assert(s@ =~= before + seq!['\\', hex_char((b / 16) as nat), hex_char((b % 16) as nat)]);
        }
        proof {
            let t = bytes@.take(i + 1);
            assert(t.drop_last() =~= bytes@.take(i as int));
            assert(t.last() == b);
        }
        i = i + 1;
    }
    assert(bytes@.take(i as int) =~= bytes@);
    push_str(&mut s, "\\00");
    (s, bytes.len() + 1)
}

fn push_lines(out: &mut String, lines: &Vec<String>)
    ensures
        final(out)@ == old(out)@ + lines_text(strs_view(lines@)),
{
    let ghost start = out@;
    let mut i: usize = 0;
    while i < lines.len()
        invariant
            0 <= i <= lines@.len(),
            out@ == start + lines_text(strs_view(lines@.take(i as int))),
        decreases lines.len() - i,
    {
        push_str(out, lines[i].as_str());
        push_str(out, "\n");
        proof {
            let t = strs_view(lines@.take(i + 1));
            assert(t.drop_last() =~= strs_view(lines@.take(i as int)));
            assert(t.last() == lines@[i as int]@);
        }
        i = i + 1;
    }
    assert(lines@.take(i as int) =~= lines@);
}

/// Writes a section: every line, then a blank line, unless it has none.
pub fn emit_section(out: &mut String, lines: &Vec<String>)
    ensures
        final(out)@ == old(out)@ + section(strs_view(lines@)),
{
    if lines.len() == 0 {
        assert(old(out)@ + section(strs_view(lines@)) =~= old(out)@);
        return;
    }
    push_lines(out, lines);
    push_str(out, "\n");
}

impl Module {
    /// The interning table is always in step with its labels.
    #[verifier::type_invariant]
    spec fn in_step(self) -> bool {
        interning_ok(self@)
    }

    pub fn new(name: &str, triple: &str) -> (m: Self)
        ensures
            m@ == (ModuleV {
                name: name@,
                triple: triple@,
                types: seq![],
                externs: seq![],
                globals: seq![],
                funcs: seq![],
                str_count: 0,
                strings: seq![],
                lambda_count: 0,
            }),
            interning_ok(m@),
    {
        let m = Module {
            name: own(name),
            triple: own(triple),
            types: Vec::new(),
            externs: Vec::new(),
            globals: Vec::new(),
            funcs: Vec::new(),
            strings: Vec::new(),
            lambda_count: 0,
        };
        assert(strs_view(m.types@) =~= Seq::<Seq<char>>::empty());
        assert(pairs_view(m.strings@) =~= Seq::<(Seq<char>, Seq<char>)>::empty());
        m
    }

    /// Returns a fresh unique index for naming a lifted lambda function.
    pub fn fresh_lambda(&mut self) -> (n: u32)
        requires
            old(self)@.lambda_count < u32::MAX,
        ensures
            n == old(self)@.lambda_count,
            final(self)@ == (ModuleV { lambda_count: old(self)@.lambda_count + 1, ..old(self)@ }),
            table_extends(old(self)@, final(self)@),
    {
        proof {
            use_type_invariant(&*self);
        }
        let n = self.lambda_count;
        self.lambda_count = self.lambda_count + 1;
        n
    }

    /// Declares a named struct type, e.g. `%Point = type { double, double }`.
    pub fn define_type(&mut self, name: &str, body: &str)
        ensures
            final(self)@ == (ModuleV {
                types: old(self)@.types.push("%"@ + name@ + " = type "@ + body@),
                ..old(self)@
            }),
            table_extends(old(self)@, final(self)@),
    {
        proof {
            use_type_invariant(&*self);
        }
        let mut line = String::new();
        push_str(&mut line, "%");
        push_str(&mut line, name);
        push_str(&mut line, " = type ");
        push_str(&mut line, body);
        let ghost old_types = self.types@;
        let mut tmp_types = Vec::new();
        std::mem::swap(&mut tmp_types, &mut self.types);
        tmp_types.push(line);
        std::mem::swap(&mut tmp_types, &mut self.types);
        assert(strs_view(self.types@) =~= strs_view(old_types).push(line@));
    }

    /// Declares an external function; pass the part after `declare`. A repeated
    /// declaration is dropped, since LLVM rejects a redefinition.
    pub fn declare(&mut self, sig: &str)
        ensures
            final(self)@ == (ModuleV {
                externs: if old(self)@.externs.contains("declare "@ + sig@) {
                    old(self)@.externs
                } else {
                    old(self)@.externs.push("declare "@ + sig@)
                },
                ..old(self)@
            }),
            table_extends(old(self)@, final(self)@),
    {
        proof {
            use_type_invariant(&*self);
        }
        let mut line = String::new();
        push_str(&mut line, "declare ");
        push_str(&mut line, sig);
        assert(line@ =~= "declare "@ + sig@);
        let mut i: usize = 0;
        while i < self.externs.len()
            invariant
                0 <= i <= self.externs@.len(),
                *self == *old(self),
                line@ == "declare "@ + sig@,
                forall|j: int| 0 <= j < i ==> self.externs@[j]@ != line@,
            decreases self.externs.len() - i,
        {
            if self.externs[i] == line {
                proof {
                    assert(strs_view(self.externs@)[i as int] == line@);
                    assert(strs_view(self.externs@).contains(line@));
                }
                return;
            }
            i = i + 1;
        }
        let ghost old_ex = self.externs@;
        proof {
            assert(!strs_view(old_ex).contains(line@)) by {
                if strs_view(old_ex).contains(line@) {
                    let j = choose|j: int| 0 <= j < strs_view(old_ex).len() && strs_view(old_ex)[j] == line@;
                    assert(old_ex[j]@ == line@);
                }
            }
        }
        let mut tmp_externs = Vec::new();
        std::mem::swap(&mut tmp_externs, &mut self.externs);
        tmp_externs.push(line);
        std::mem::swap(&mut tmp_externs, &mut self.externs);
        assert(strs_view(self.externs@) =~= strs_view(old_ex).push(line@));
    }

    /// Interns a NUL-terminated C string constant and returns its global symbol
    /// (e.g. `@.str.0`). Identical literals share one global.
    pub fn cstring(&mut self, text: &str) -> (label: String)
        requires
            text.spec_bytes().len() < usize::MAX,
            old(self)@.str_count < u32::MAX,
        ensures
            match find_interned(old(self)@.strings, text@) {
                Some(j) => label@ == old(self)@.strings[j].1 && final(self)@ == old(self)@,
                None => {
                    &&& label@ == str_label(old(self)@.str_count)
                    &&& final(self)@ == (ModuleV {
                        str_count: old(self)@.str_count + 1,
                        globals: old(self)@.globals.push(cstring_global(label@, text)),
                        strings: old(self)@.strings.push((text@, label@)),
                        ..old(self)@
                    })
                },
            },
            (label@, final(self)@) == cstring_outcome(old(self)@, text),
            table_extends(old(self)@, final(self)@),
            interning_ok(old(self)@),
            interning_ok(final(self)@),
    {
        proof {
            use_type_invariant(&*self);
        }
        let key = own(text);
        let mut i: usize = 0;
        while i < self.strings.len()
            invariant
                0 <= i <= self.strings@.len(),
                *self == *old(self),
                interning_ok(old(self)@),
                key@ == text@,
                forall|j: int| 0 <= j < i ==> self.strings@[j].0@ != text@,
            decreases self.strings.len() - i,
        {
            if self.strings[i].0 == key {
                proof {
                    let sv = pairs_view(self.strings@);
                    assert(sv[i as int].0 == text@);
                    let w = choose|j: int| 0 <= j < sv.len() && (#[trigger] sv[j]).0 == text@ && forall|k: int| 0 <= k < j ==> sv[k].0 != text@;
                    if w < i {
                        assert(sv[w].0 == self.strings@[w].0@);
                    } else if w > i {
                        assert(sv[i as int].0 != text@);
                    }
                }
                return self.strings[i].1.clone();
            }
            i = i + 1;
        }
        proof {
            let sv = pairs_view(self.strings@);
            assert(!(exists|j: int| 0 <= j < sv.len() && (#[trigger] sv[j]).0 == text@)) by {
                if exists|j: int| 0 <= j < sv.len() && (#[trigger] sv[j]).0 == text@ {
                    let j = choose|j: int| 0 <= j < sv.len() && (#[trigger] sv[j]).0 == text@;
                    assert(self.strings@[j].0@ == text@);
                }
            }
        }
        let mut label = String::new();
        push_str(&mut label, "@.str.");
        push_dec(&mut label, self.strings.len() as u64);
        let (encoded, len) = encode_cstring(text);
        let mut g = label.clone();
        push_str(&mut g, " = private unnamed_addr constant [");
        push_dec(&mut g, len as u64);
        push_str(&mut g, " x i8] c\"");
        push_str(&mut g, encoded.as_str());
        push_str(&mut g, "\"");
        let ghost old_globals = self.globals@;
        let ghost old_strings = self.strings@;
        let mut tmp_globals = Vec::new();
        std::mem::swap(&mut tmp_globals, &mut self.globals);
        tmp_globals.push(g);
        std::mem::swap(&mut tmp_globals, &mut self.globals);
        let ghost m0 = self@;
        proof {
            law_interning_in_step(m0, text@);
            assert(find_interned(m0.strings, text@) is None);
        }
        let mut tmp_strings = Vec::new();
        std::mem::swap(&mut tmp_strings, &mut self.strings);
        tmp_strings.push((key, label.clone()));
        proof {
            assert(pairs_view(tmp_strings@) =~= m0.strings.push((text@, str_label(m0.str_count))));
        }
        std::mem::swap(&mut tmp_strings, &mut self.strings);
        assert(strs_view(self.globals@) =~= strs_view(old_globals).push(g@));
        assert(pairs_view(self.strings@) =~= pairs_view(old_strings).push((text@, label@)));
        label
    }

    /// Appends a finished function body (see [`Func::finish`]).
    pub fn push_function(&mut self, f: String)
        ensures
            final(self)@ == (ModuleV { funcs: old(self)@.funcs.push(f@), ..old(self)@ }),
            table_extends(old(self)@, final(self)@),
    {
        proof {
            use_type_invariant(&*self);
        }
        let ghost old_funcs = self.funcs@;
        let mut tmp_funcs = Vec::new();
        std::mem::swap(&mut tmp_funcs, &mut self.funcs);
        tmp_funcs.push(f);
        std::mem::swap(&mut tmp_funcs, &mut self.funcs);
        assert(strs_view(self.funcs@) =~= strs_view(old_funcs).push(f@));
    }

    /// Appends a raw global definition line, e.g. a vtable constant.
    pub fn global(&mut self, g: String)
        ensures
            final(self)@ == (ModuleV { globals: old(self)@.globals.push(g@), ..old(self)@ }),
            table_extends(old(self)@, final(self)@),
    {
        proof {
            use_type_invariant(&*self);
        }
        let ghost old_globals = self.globals@;
        let mut tmp_globals = Vec::new();
        std::mem::swap(&mut tmp_globals, &mut self.globals);
        tmp_globals.push(g);
        std::mem::swap(&mut tmp_globals, &mut self.globals);
        assert(strs_view(self.globals@) =~= strs_view(old_globals).push(g@));
    }

    /// Renders the whole module to LLVM IR text.
    pub fn render(&self) -> (out: String)
        ensures
            out@ == render_spec(self@),
    {
        let mut out = String::new();
        push_str(&mut out, "; ModuleID = '");
        push_str(&mut out, self.name.as_str());
        push_str(&mut out, "'\n");
        push_str(&mut out, "target triple = \"");
        push_str(&mut out, self.triple.as_str());
        push_str(&mut out, "\"\n");
        push_str(&mut out, "\n");
        emit_section(&mut out, &self.types);
        emit_section(&mut out, &self.globals);
        emit_section(&mut out, &self.externs);
        let ghost before = out@;
        let mut i: usize = 0;
        while i < self.funcs.len()
            invariant
                0 <= i <= self.funcs@.len(),
                out@ == before + funcs_text(strs_view(self.funcs@.take(i as int))),
            decreases self.funcs.len() - i,
        {
            push_str(&mut out, self.funcs[i].as_str());
            push_str(&mut out, "\n\n");
            proof {
                let t = strs_view(self.funcs@.take(i + 1));
                assert(t.drop_last() =~= strs_view(self.funcs@.take(i as int)));
                assert(t.last() == self.funcs@[i as int]@);
            }
            i = i + 1;
        }
        assert(self.funcs@.take(i as int) =~= self.funcs@);
        out
    }
}

/// Law: interning is idempotent. Asking for the same text again returns the
/// label it got the first time and leaves the module unchanged.
pub proof fn law_cstring_interns(m: ModuleV, text: Seq<char>, label: Seq<char>)
    requires
        find_interned(m.strings, text) is None,
    ensures
        ({
            let m2 = ModuleV { strings: m.strings.push((text, label)), ..m };
            find_interned(m2.strings, text) matches Some(j) && m2.strings[j].1 == label
        }),
{
    let s2 = m.strings.push((text, label));
    let n = m.strings.len() as int;
    assert(s2[n].0 == text);
    let j = choose|j: int| 0 <= j < s2.len() && (#[trigger] s2[j]).0 == text && forall|k: int| 0 <= k < j ==> s2[k].0 != text;
    assert forall|k: int| 0 <= k < n implies s2[k].0 != text by {
        assert(s2[k] == m.strings[k]);
        if s2[k].0 == text {
            assert(exists|j: int| 0 <= j < m.strings.len() && (#[trigger] m.strings[j]).0 == text);
        }
    }
    if j < n {
        assert(s2[j] == m.strings[j]);
        assert(exists|j: int| 0 <= j < m.strings.len() && (#[trigger] m.strings[j]).0 == text);
    }
}

/// The interning table is in step with the string counter: the `k`th interned
/// text has label `@.str.k`, no text is interned twice, and the counter is the
/// number of texts interned.
pub open spec fn interning_ok(m: ModuleV) -> bool {
    &&& m.str_count == m.strings.len()
    &&& forall|j: int| 0 <= j < m.strings.len() ==> (#[trigger] m.strings[j]).1 == str_label(j as nat)
    &&& forall|j: int, k: int| 0 <= j < k < m.strings.len() ==> (#[trigger] m.strings[j]).0 != (#[trigger] m.strings[k]).0
}

/// Law: interning keeps the table in step with the counter. A new module is in
/// step, and interning a text not seen before labels it `@.str.k` with `k` the
/// number of texts interned before it, keeping the table in step.
pub proof fn law_interning_in_step(m: ModuleV, text: Seq<char>)
    requires
        interning_ok(m),
        find_interned(m.strings, text) is None,
    ensures
        interning_ok(ModuleV {
            str_count: m.str_count + 1,
            strings: m.strings.push((text, str_label(m.str_count))),
            ..m
        }),
        str_label(m.str_count) == str_label(m.strings.len()),
{
    let s2 = m.strings.push((text, str_label(m.str_count)));
    let n = m.strings.len() as int;
    assert forall|j: int| 0 <= j < n implies m.strings[j].0 != text by {
        if m.strings[j].0 == text {
            assert(exists|i: int| 0 <= i < m.strings.len() && (#[trigger] m.strings[i]).0 == text);
        }
    }
    assert forall|j: int| 0 <= j < s2.len() implies (#[trigger] s2[j]).1 == str_label(j as nat) by {
        if j < n {
            assert(s2[j] == m.strings[j]);
        }
    }
    assert forall|j: int, k: int| 0 <= j < k < s2.len() implies (#[trigger] s2[j]).0 != (#[trigger] s2[k]).0 by {
        assert(s2[j] == m.strings[j]);
        if k < n {
            assert(s2[k] == m.strings[k]);
        }
    }
}

/// A text that occurs in the table has a first occurrence.
proof fn lemma_first_occurrence(s: Seq<(Seq<char>, Seq<char>)>, text: Seq<char>, i: int)
    requires
        0 <= i < s.len(),
        s[i].0 == text,
    ensures
        exists|j: int| 0 <= j < s.len() && (#[trigger] s[j]).0 == text && forall|k: int| 0 <= k < j ==> s[k].0 != text,
    decreases i,
{
    if exists|k: int| 0 <= k < i && (#[trigger] s[k]).0 == text {
        let k = choose|k: int| 0 <= k < i && (#[trigger] s[k]).0 == text;
        lemma_first_occurrence(s, text, k);
    } else {
        assert(forall|k: int| 0 <= k < i ==> s[k].0 != text);
    }
}

/// What `find_interned` finds: the first entry for the text, or nothing when
/// no entry has it.
proof fn lemma_find_interned(s: Seq<(Seq<char>, Seq<char>)>, text: Seq<char>)
    ensures
        find_interned(s, text) matches Some(j) ==> 0 <= j < s.len() && s[j].0 == text && forall|k: int| 0 <= k < j ==> s[k].0 != text,
        find_interned(s, text) is None ==> forall|k: int| 0 <= k < s.len() ==> s[k].0 != text,
{
    if exists|j: int| 0 <= j < s.len() && (#[trigger] s[j]).0 == text {
        let i = choose|j: int| 0 <= j < s.len() && (#[trigger] s[j]).0 == text;
        lemma_first_occurrence(s, text, i);
    }
}

/// Law: an interned text keeps its entry while the table grows. Whatever is
/// interned later, asking for a text interned before finds the same entry,
/// so a later `cstring` of it returns the same label and adds nothing.
pub proof fn law_interned_stays(s1: Seq<(Seq<char>, Seq<char>)>, s2: Seq<(Seq<char>, Seq<char>)>, text: Seq<char>)
    requires
        s1.len() <= s2.len(),
        s2.subrange(0, s1.len() as int) == s1,
        find_interned(s1, text) is Some,
    ensures
        find_interned(s2, text) == find_interned(s1, text),
{
    lemma_find_interned(s1, text);
    lemma_find_interned(s2, text);
    let j = find_interned(s1, text)->0;
    assert(s2[j] == s2.subrange(0, s1.len() as int)[j]);
    if find_interned(s2, text) is None {
        assert(s2[j].0 != text);
    } else {
        let w = find_interned(s2, text)->0;
        if w < j {
            assert(s2[w] == s2.subrange(0, s1.len() as int)[w]);
        }
        if w > j {
            assert(s2[j].0 != text);
        }
        assert(w == j);
    }
}

/// The interning table of `b` extends that of `a`: every entry of `a` is still
/// there, at the same place.
pub open spec fn table_extends(a: ModuleV, b: ModuleV) -> bool {
    &&& a.strings.len() <= b.strings.len()
    &&& forall|i: int| 0 <= i < a.strings.len() ==> #[trigger] b.strings[i] == a.strings[i]
}

/// Growth of the table is transitive, so it holds across any run of calls.
pub proof fn lemma_table_extends_trans(a: ModuleV, b: ModuleV, c: ModuleV)
    requires
        table_extends(a, b),
        table_extends(b, c),
    ensures
        table_extends(a, c),
{
    assert forall|i: int| 0 <= i < a.strings.len() implies #[trigger] c.strings[i] == a.strings[i] by {
        assert(c.strings[i] == b.strings[i]);
    }
}

/// What `cstring` returns and leaves: the stored label and the module as it
/// was for a text interned before; else the next `@.str.k` label, with one
/// new global holding the encoded text and one new table entry.
pub open spec fn cstring_outcome(m: ModuleV, text: &str) -> (Seq<char>, ModuleV) {
    match find_interned(m.strings, text@) {
        Some(j) => (m.strings[j].1, m),
        None => {
            let l = str_label(m.str_count);
            (
                l,
                ModuleV {
                    str_count: m.str_count + 1,
                    globals: m.globals.push(cstring_global(l, text)),
                    strings: m.strings.push((text@, l)),
                    ..m
                },
            )
        },
    }
}

/// Law: interning a text again, after any calls that only grow the table
/// (every method of `Module` does), returns the label the first call gave and
/// leaves the module unchanged: no second global is added.
pub proof fn law_cstring_idempotent(m0: ModuleV, m2: ModuleV, text: &str)
    requires
        table_extends(cstring_outcome(m0, text).1, m2),
    ensures
        cstring_outcome(m2, text) == (cstring_outcome(m0, text).0, m2),
{
    let m1 = cstring_outcome(m0, text).1;
    let l1 = cstring_outcome(m0, text).0;
    lemma_find_interned(m0.strings, text@);
    if find_interned(m0.strings, text@) is None {
        law_cstring_interns(m0, text@, str_label(m0.str_count));
        assert(m1.strings == m0.strings.push((text@, str_label(m0.str_count))));
    }
    lemma_find_interned(m1.strings, text@);
    assert(find_interned(m1.strings, text@) is Some);
    let j = find_interned(m1.strings, text@)->0;
    assert(m1.strings[j].1 == l1);
    assert(m2.strings.subrange(0, m1.strings.len() as int) =~= m1.strings);
    law_interned_stays(m1.strings, m2.strings, text@);
    assert(m2.strings[j] == m1.strings[j]);
}

/// The mathematical form of a function under construction.
pub struct FuncV {
    pub header: Seq<char>,
    pub body: Seq<char>,
    pub tmp: nat,
}

/// Builds a single function body, owning the local SSA value counter.
pub struct Func {
    header: String,
    body: String,
    tmp: u32,
}

impl View for Func {
    type V = FuncV;

    closed spec fn view(&self) -> FuncV {
        FuncV { header: self.header@, body: self.body@, tmp: self.tmp as nat }
    }
}

impl Func {
    /// `Func::new("i32", "main", "")` gives `define i32 @main() { ... }`.
    pub fn new(ret: &str, name: &str, params: &str) -> (f: Self)
        ensures
            f@ == (FuncV {
                header: "define "@ + ret@ + " @"@ + name@ + "("@ + params@ + ") {"@,
                body: "entry:\n"@,
                tmp: 0,
            }),
    {
        let mut header = String::new();
        push_str(&mut header, "define ");
        push_str(&mut header, ret);
        push_str(&mut header, " @");
        push_str(&mut header, name);
        push_str(&mut header, "(");
        push_str(&mut header, params);
        push_str(&mut header, ") {");
        Func { header, body: own("entry:\n"), tmp: 0 }
    }

    /// Allocates a fresh SSA temporary name (`%0`, `%1`, ...).
    pub fn next_tmp(&mut self) -> (t: String)
        requires
            old(self)@.tmp < u32::MAX,
        ensures
            t@ == "%"@ + dec(old(self)@.tmp),
            final(self)@ == (FuncV { tmp: old(self)@.tmp + 1, ..old(self)@ }),
    {
        let mut t = String::new();
        push_str(&mut t, "%");
        push_dec(&mut t, self.tmp as u64);
        self.tmp = self.tmp + 1;
        t
    }

    /// Emits a `void`-returning call of the callee and arguments given.
    pub fn call_void(&mut self, callee_and_args: &str)
        ensures
            final(self)@ == (FuncV {
                body: old(self)@.body + "  call void "@ + callee_and_args@ + "\n"@,
                ..old(self)@
            }),
    {
        push_str(&mut self.body, "  call void ");
        push_str(&mut self.body, callee_and_args);
        push_str(&mut self.body, "\n");
    }

    /// Emits a terminating `ret <ty> <val>`.
    pub fn ret(&mut self, ty: &str, val: &str)
        ensures
            final(self)@ == (FuncV {
                body: old(self)@.body + "  ret "@ + ty@ + " "@ + val@ + "\n"@,
                ..old(self)@
            }),
    {
        push_str(&mut self.body, "  ret ");
        push_str(&mut self.body, ty);
        push_str(&mut self.body, " ");
        push_str(&mut self.body, val);
        push_str(&mut self.body, "\n");
    }

    /// Closes the function and returns its full text.
    pub fn finish(self) -> (t: String)
        ensures
            t@ == self@.header + "\n"@ + self@.body + "}"@,
    {
        let mut t = self.header;
        push_str(&mut t, "\n");
        push_str(&mut t, self.body.as_str());
        push_str(&mut t, "}");
        t
    }
}

} // verus!
