# tinkervm

A small stack-based virtual machine, verified with Verus.

- `src/parser/assembly.rs` turns assembly text (`func N` … `endfunc`
  blocks with constant pools, labels and instructions) into bytecode and
  registers each function in an environment.
- `src/parser/exec.rs` and `src/parser/exec_cmd.rs` interpret that
  bytecode. The interpreter is a state machine: `Machine::step` runs one
  instruction and reports whether to go on, a result, an error, a panic, or
  a floating-point operation for the caller to carry out.
- `src/memory.rs` is the memory pool that holds strings and pointer
  targets; `src/env.rs` holds variable environments and the function table.
- `app/` is the command-line program: it reads a source file (or text typed
  at a prompt), assembles it, drives the machine and does the
  floating-point arithmetic.

The functions in `src/` are verified by Verus, most of them against a
contract that says what they return; the laws that relate several
functions (reading back what was written, allocation and freeing, the
interpreter reading back the operands and type codes that the assembler
writes, and what assembled `ldc` and `jmp` instructions do when run) are
proof functions next to them. The calls
into `dashmap` and a few calls into `std` that build message text are the
trusted items, each with a doc comment that says what is assumed of it.
