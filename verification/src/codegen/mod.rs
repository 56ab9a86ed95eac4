//! Code generation helpers: the async frame layout and the textual LLVM IR
//! builder.

pub mod frame;
pub mod llvm;
pub mod lower;
pub mod typing;
pub mod builder;

use vstd::prelude::*;
use crate::text::{dec, push_str};
use llvm::{Func, FuncV, Module, ModuleV, cstring_global, str_label};

verus! {

/// Host target.
pub const DEFAULT_TRIPLE: &'static str = "x86_64-pc-linux-gnu";

/// The text of the demo program's `main`.
pub open spec fn demo_main(msg: Seq<char>) -> Seq<char> {
    "define "@ + "i32"@ + " @"@ + "main"@ + "("@ + ""@ + ") {"@ + "\n"@ + "entry:\n"@ + "  call void "@ + "@cool_println_cstr(ptr "@ + msg
        + ")"@ + "\n"@ + "  call void "@ + "@cool_print_i64(i64 42)"@ + "\n"@ + "  ret "@ + "i32"@
        + " "@ + "0"@ + "\n"@ + "}"@
}

/// A hardcoded program that prints a line and an integer, then exits 0.
/// Proves source to IR to clang to run without any front end.
pub fn demo_module() -> (m: Module)
    ensures
        m@.name == "dusk_demo"@,
        m@.externs == seq!["declare "@ + "void @cool_println_cstr(ptr)"@, "declare "@ + "void @cool_print_i64(i64)"@],
        m@.globals == seq![cstring_global(str_label(0), "hello from the dusk spine")],
        m@.funcs == seq![demo_main(str_label(0))],
        m@.types == Seq::<Seq<char>>::empty(),
{
    let mut m = Module::new("dusk_demo", DEFAULT_TRIPLE);
    m.declare("void @cool_println_cstr(ptr)");
    proof {
        reveal_strlit("void @cool_println_cstr(ptr)");
        reveal_strlit("void @cool_print_i64(i64)");
        let a = "declare "@ + "void @cool_println_cstr(ptr)"@;
        let b = "declare "@ + "void @cool_print_i64(i64)"@;
        assert(a.len() != b.len() || a[22] != b[22]);
        assert(a != b);
        assert(m@.externs == seq![a]);
        assert(!m@.externs.contains(b)) by {
            if m@.externs.contains(b) {
                let j = choose|j: int| 0 <= j < m@.externs.len() && m@.externs[j] == b;
                assert(j == 0);
            }
        }
        assert(!seq![a].contains(a) ==> false) by {
            assert(seq![a][0] == a);
        }
    }
    m.declare("void @cool_print_i64(i64)");
    proof {
        reveal_strlit("hello from the dusk spine");
        assert(vstd::string::StringSliceAdditionalSpecFns::spec_bytes("hello from the dusk spine").len() < usize::MAX) by {
            vstd::string::is_ascii_spec_bytes("hello from the dusk spine");
        }
    }
    let msg = m.cstring("hello from the dusk spine");
    let mut main = Func::new("i32", "main", "");
    let mut call = String::new();
    push_str(&mut call, "@cool_println_cstr(ptr ");
    push_str(&mut call, msg.as_str());
    push_str(&mut call, ")");
    main.call_void(call.as_str());
    main.call_void("@cool_print_i64(i64 42)");
    main.ret("i32", "0");
    let text = main.finish();
    proof {
        assert(text@ =~= demo_main(msg@));
    }
    m.push_function(text);
    m
}

} // verus!
