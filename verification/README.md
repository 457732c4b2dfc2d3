# riscv_rs

A RISC-V RV32IMAFDC emulator whose core is verified with Verus.

- `src/` is the verified library: instruction decoding (`inst`, `isa`),
  execution of the base, M, A, F/D and compressed instructions (`cpu`,
  `execute`, `compressed`, `float`, `system`, `syscall`), paged memory
  (`memory`), the run loop, slices and breakpoints (`run`), the debugger
  (`simulator`), the program loader (`loader`), the disassembler (`disasm`),
  the command line (`cli`) and text formatting (`text`, `report`).
  Each public function states its effect over a mathematical model of the
  machine (`CpuView`, `Machine`, maps of memory); the laws that span
  several functions are public proof functions named `law_*`.
- Floating-point arithmetic, the host's console, interrupts and MMIO are
  reached through the traits in `src/host.rs` and `src/memory.rs`; nothing is
  assumed of what they return. What is handed to them is kept in ghost
  records that the contracts speak of: the requests to the floating-point unit
  and to the host, the interrupt polls, and the reads and writes handed to
  the MMIO window, each recorded by the function that makes the call.
- `app/` is the WebAssembly face: the JavaScript host behind those traits, the
  floating-point unit, and the debugger API handed to JavaScript.
- `tests/` exercises the library on concrete programs.
