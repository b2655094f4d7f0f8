# brainpluck

A compiler from a small assembly language (SAM) down to Brainfuck, with a
Brainfuck interpreter, optimizer, formatter and a translation of Brainfuck to
WebAssembly text, written in Verus with its contracts proved. It also
parses the small high-level language that sits above SAM and translates its
functions (expressions, variable declarations and assignments, calls) into
SAM code.

The SAM interpreter on the tape keeps program memory on the even cells and
its registers and temporary data on the odd cells. A comparison sets `X` to
1, 0 or 255 as the register (`A`, or `X` itself) is greater than, equal to or
less than the value at `B`.

Layout of `src/`:

- `semantics.rs`: the mathematical model of Brainfuck operations and of the
  machine that runs them, and the optimizer as a spec function.
- `bf.rs`: parsing and printing Brainfuck, the optimizer, and the interpreter
  (`BfState`), each proved against the model.
- `opt_equiv.rs`: the proof that optimized programs run as the originals do.
- `bf2wasm.rs`: splitting programs at input for asynchronous runs, and their
  WebAssembly text; the text is handed to the `wat` crate for encoding.
- `lir.rs`, `lir2bf.rs`: the low-level code of the code generator, and its
  Brainfuck.
- `cpu.rs`, `cpu_flow.rs`, `cpu_decimal.rs`: the code generator, which keeps
  track of the Brainfuck pointer on a tape of interleaved tracks. Each
  function's contract states the code it appends, as a spec function.
- `hir.rs`: the parser of the high-level language, written as a grammar of
  spec functions and a parser proved to follow it.
- `sam.rs`: the SAM instruction set, its encoding, and its reference interpreter.
- `hir2sam.rs`: blocks of SAM code, the instruction writer that fills them,
  and the translation of the high-level language into SAM, each function's
  code stated as a spec function.
- `linker.rs`: the linker that lays the blocks out.
- `sam_ops.rs`, `sam2lir.rs`: the SAM interpreter written for the tape, and
  the compiler of a linked program into it.

`app/main.rs` is the command line front end (file and terminal I/O).
