# rustcode

RustCode is a stack-based bytecode language: an assembler that turns
assembly text into bytecode, and a virtual machine that runs it. This crate
is written in Verus; the functions of the library under `src/` are verified
against their contracts, but for three small trusted wrappers of std
functions whose contracts are assumed: `str::to_uppercase`, `String::push`
and `String::from_utf8`.

## Layout

- `src/opcode.rs`: the instructions and their one-byte encoding.
- `src/value.rs`: runtime values, their conversions and arithmetic, and the
  errors of the machine.
- `src/vm.rs`: the virtual machine. `step_spec` states what one instruction
  does; `VM::step` and `VM::run` are proved to follow it.
- `src/assembler.rs`: the two-pass assembler. `assemble_spec` states the
  whole assembly; `Assembler::assemble` is proved to follow it.
- `src/text.rs`, `src/bytes.rs`: the text and byte handling that both use
  (white space, lines, big-endian numbers).
- `src/laws.rs`: properties that relate several functions: a `LOAD` gives
  back the last `STORE` into its slot across any run of other steps (and
  `null` for a slot never written), `CALL`/`RETURN`, `HALT`, the machine
  reading back the literals the assembler writes, the two passes of the
  assembler agreeing on the size of every line (so each label marks the
  instruction after it), each instruction's one uppercase name, and an
  assembly depending only on what its lines mean (blank lines, comments,
  indentation and trailing comments change nothing).
- `app/main.rs`: the `rustcode` command, which runs a file or the demos.
- `tests/`: tests of the library.

## Floats and input

The library holds a float as the bit pattern of an IEEE-754 double and never
interprets it. Whatever depends on the value of a float (arithmetic,
comparison, conversion, truthiness) is asked of the caller:

- `Assembler::assemble` takes the bits of the float literals met so far and
  returns `Assembled::NeedsFloat(literal)` for the next one; the caller
  parses it and assembles again. Each assembly starts from no label and no
  pending jump, so it depends on its source and floats alone.
- `VM::step` takes the answers to the queries of the current instruction and
  returns `Step::Ask(query)` while one is missing, changing nothing. `INPUT`
  asks for a line in the same way, and `PRINT` hands back the value to print.

`app/main.rs` answers these with Rust's `f64` and standard input.
