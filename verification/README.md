# bums

Bottom-up memory safety for assembly: a model of an Arm Cortex-A machine that
executes AArch64 instructions over symbolic values and checks, with the Z3
solver, that every load and store stays inside the memory regions it was
given; together with the cryptographic and bignum routines whose assembly it
is meant to check. The code under `src/` is verified with Verus; the calls
into Z3 (`src/smt.rs`) and the `Debug` text of a string stand behind small
wrappers whose contracts are trusted: each states what the called function
gives, over a model of Z3's terms and of the formulas a solver holds.

Layout:

- `instruction_parser` parses one line of assembly into an `Instruction`.
- `common` holds the symbolic values (`AbstractExpression`,
  `AbstractComparison`, `RegisterValue`, `SimdRegister`, `MemorySafeRegion`)
  and how they become solver terms.
- `computer` is the machine: registers, flags, memory regions, and
  `execute`, with the memory-safety check of each access in
  `computer/memory.rs` and the SIMD instructions in `computer/simd.rs`.
- `smt` is the narrow interface to the Z3 solver.
- `conditions` turns preconditions written as Rust expressions into
  symbolic comparisons.
- `aes`, `ghash`, `sha256`, `sha1`, `md5`, `md32`, `bn` are the block
  routines, hashes and bignum arithmetic, each proved against a
  mathematical statement of what it computes.
- `define` computes the assembler configuration of a build target;
  `ipred`, `playground`, `utils`, `text`, `layout` are smaller helpers.
- `app/` is the command-line front end, which reads a file of assembly and
  prints the parsed instructions, and the writer of the configuration file.
