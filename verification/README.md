# nexus

The VORTEX language toolchain: a lexer and parsers for VORTEX source, a
compiler from VORTEX programs to interaction nets (the Nexus IR), the VICE
reducer that evaluates those nets, and a small interaction-net engine.
The library's behaviour is stated in `requires`/`ensures` contracts and
proved with Verus.

## Layout

- `src/` — the verified library.
  - `ir.rs`, `vice.rs`: the IR net and its reducer, with `net_value`, the
    value a net denotes, and the law that reduction computes it.
  - `text.rs`, `token.rs`, `lexer.rs`: characters to tokens, with `lex_next`
    stating what one step of the lexer reads; `lexer_law.rs`: nothing after a
    character that starts no token is ever read.
  - `ast.rs`: expressions and statements, with their views.
  - `parser_spec.rs`, `parser.rs`, `parser_total.rs`: the VORTEX parser, the
    functions it is proved to compute, and when it returns.
  - `legacy_parser_spec.rs`, `legacy_parser.rs`, `legacy_parser_total.rs`:
    the precedence-climbing parser with error recovery, which returns on
    every input.
  - `simple_parser_spec.rs`, `simple_parser.rs`: the small recursive-descent
    parser.
  - `codegen_spec.rs`, `codegen.rs`, `codegen_law.rs`,
    `codegen_call_law.rs`: compilation to IR nets, and the laws that a
    compiled program reduces to its value: for call-free programs, and for
    programs that call the functions they define, wherever no call's value
    is wired twice.
  - `engine/`: the interaction-net engine (nets, interaction rules, runtime).
  - `repl_input.rs`: how the interactive prompt reads its lines: commands,
    blocks over several lines, and when a block is complete.
  - `environment.rs`: the interpreter's chain of variable scopes.
  - `interpreter_spec.rs`, `interpreter.rs`: the tree-walking interpreter
    behind `nexus run`: scopes, blocks, conditionals, loops, calls and
    returns, proved against the functions of `interpreter_spec`.  Numbers
    with a decimal point are held as text; the host computes on them as
    floats and supplies the text shown for values.  What a program prints
    and what the simulated GPU does are recorded as events, in order.
  - `gpu_plan.rs`: the decisions of the simulated GPU runtime: registered
    functions, accepted calls, and how a parallel loop is split.
- `tests/` — tests of the library, run against the compiled crate.
- `app/` — the `nexus` program: command line, file reading, the REPL loop,
  the interpreter's float arithmetic and value text, the printing and
  threads of the GPU simulation, and the WebAssembly entry point.

Maps keyed by names (scopes, definitions, compiled and GPU functions) are
held as vectors of name and value pairs in which no name occurs twice, so
that what a lookup or an update gives can be stated and proved.
