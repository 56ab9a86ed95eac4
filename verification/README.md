# dusk

Verified building blocks of the compiler for dusk, a small systems language
that compiles to native code through textual LLVM IR.

The library (`src/`) is written in Verus; every function carries a contract
over mathematical models of its data, and Verus proves the code meets it.

- `text`, `diag`: scalar-level string helpers; spans and diagnostics rendered
  with line, column and a caret block.
- `lexer`: the token grammar as a specification (`lexer::spec`) and a lexer
  proved to produce exactly its token stream and errors.
- `prescan`: the directive scan (paradigms and imports) at the head of a file.
- `fmt`: format string holes and escaped braces.
- `parser::ast`: the syntax tree and the free-variable collection;
  `parser::dump`: the canonical dump of a syntax tree (`render_module`);
  `parser`: the parser's token cursor, its nesting guard, the binding powers
  of the binary operators and the `collector<T>(value)` lookahead.
- `loader`: import resolution, span shifting, namespace folding, exports.
- `privatize`: renaming a module's private names apart.
- `desugar`: expanding `do` blocks into `bind` and `unit` calls.
- `mono`: substitutions, unification and injective mangling of types;
  `mono::infer`: the static type of an expression with call-site inference
  of generic type arguments; `mono::emit`: lowering types to their instance
  names, queueing each instance once, building struct and enum instances,
  and forcing the future instance of every async function; `mono::cross`:
  which types may cross a thread or task boundary; `mono::checks`: the
  diagnostics for unpinned type parameters and frame-viewing task captures.
- `codegen`: LLVM module text, coroutine frame layout, and the lowering of
  types with their sizes, alignments and vtables; `codegen::typing`: the
  lowered type of an expression, of a `match`, and a lambda's captures;
  `codegen::builder`: the function body builder with its temporaries,
  labels, branches, fat pointer and bounds checks and shift guards.

`tests/` runs the library on concrete inputs. `app/` is the command line
front end (`dusk demo|lex|scan|version`, and `dawn get` when started as
`dawn`): file and process I/O around the library.

Not yet in the library: the recursive-descent parser itself (items,
statements, expressions and types), whole-program loading, the rewriting of
function bodies during monomorphization, and the lowering of statements and
expressions to LLVM IR. Each of them is large and tied to the others
(loading parses every file, the later passes consume the parsed program), and
each still needs its specification written before it can be brought in with a
proof; the pieces listed above are the parts of them that stand on their own.
Until then the command line offers no `parse`, `check`, `build` or `run`.
