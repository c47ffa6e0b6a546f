# pl0_vm

A virtual machine for the bytecode of a PL/0 compiler, written in Verus.

A program file starts with a header (procedure count and word size of 2, 4 or 8
bytes), followed by the code of its procedures and a table of constants. The
library loads such a program, lists it (`PL0VM::disassemble`), and runs it one
instruction at a time (`PL0VM::start`, `PL0VM::try_step`, `PL0VM::provide_input`).
Each step is proved against `machine::step_spec`, a mathematical description of
every instruction, including the points where the machine stops with a message
and those where it aborts.

Layout:

- `src/opcodes.rs`: the instructions and their bytes.
- `src/data.rs`: machine words of 16, 32 and 64 bits and their little-endian bytes.
- `src/stack.rs`: pushing, popping, reading and storing words on the byte stack.
- `src/vm.rs`: the machine, its program, and loading the procedure and constant tables.
- `src/machine.rs`: the semantics of execution and the step function.
- `src/disasm.rs`: the listing of a program.
- `src/text.rs`: UTF-8 decoding and number parsing from the standard library.
- `app/`: reading files, printing listings and running programs on a terminal.
