# tier2

A second execution tier for a bytecode interpreter: bytecode units are compiled to x86-64
machine code, which runs on the interpreter's own frame and calls helpers for what it cannot
do itself. The library is verified with Verus.

What is proved, from the outside in:

- Compiled code, run byte by byte on a model of the machine, does to the frame what the
  bytecode means, makes the same helper calls in the same order, returns the unit at which the
  interpreter has to go on, and leaves every general register that a callee has to keep under
  the calling convention as it was
  (`simulate::law_compiled_code_runs_the_bytecode`).
- What the bytecode means keeps its promises: owners are counted, the last one drops, borrowed
  values cost nothing, the eval breaker is asked on the first back-edge of a run and then once
  an interval (`promises`).
- Finished code reads back as the listing it was made from, and every jump goes to the place of
  its label (`decode`); every label is bound once, and code of up to a million units can always
  be finished (`labels`).
- `compile` produces exactly the bytes of its listing (`codegen`, `template`), and the assembler
  exactly the bytes of each instruction (`assembler`, `insn`).

| module      | holds                                                             |
| ----------- | ----------------------------------------------------------------- |
| `assembler` | registers, conditions, labels, and an assembler over them          |
| `insn`      | the instructions, their bytes, and what a listing is assembled to |
| `layout`    | lemmas on offsets, labels and displacement fields                 |
| `bytecode`  | units, operands, and the opcode table                             |
| `template`  | the listing of each bytecode instruction                          |
| `codegen`   | the compiler, helper tables, contexts, and compiled code          |
| `exec`      | calling conventions, and the steps of mapping executable memory   |
| `frame`     | what the helpers do to a frame, and when machine code is run      |
| `decode`    | reading machine code back                                         |
| `labels`    | laws on the labels of compiled code                               |
| `machine`   | the machine model                                                 |
| `meaning`   | what bytecode does to a frame                                     |
| `simulate`  | the proof that compiled code does just that                       |
| `splice`    | laws on assembling one run of calls behind another                |
| `promises`  | laws on what bytecode does                                        |

`app/` is the part that talks to the operating system and the interpreter: it maps memory,
calls the code, and hands the helpers' results to the library. `tests/` runs the compiled code
on a small machine of its own.
