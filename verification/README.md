# agc_core

A simulator of the Apollo Guidance Computer (Block II) whose every operation
is verified with Verus against a mathematical description of the machine.

- `src/` — the verified library
  - `bits.rs`: the 15-bit word and the lemmas tying masks and shifts to arithmetic
  - `memory.rs`: erasable and fixed memory, bank switching
  - `io.rs`: the 512 I/O channels
  - `interrupts.rs`: interrupt sources, priority, service-routine entry and RESUME
  - `timers.rs`: TIME1–TIME6 and the MCT clock
  - `cpu.rs`: registers, the memory map, editing registers, the instruction cycle
  - `instructions.rs`: the basic instructions and extracodes
- `tests/` — scenario tests run against the compiled library
- `app/` — the WebAssembly bindings (wasm-bindgen, serde), unverified

Each state-changing operation states, as a spec function, the state it leaves
behind (`Agc::stepped`, `Agc::after_ccs`, `Timers::ticked`, ...); the proof
functions named `lemma_*` state the laws the machine keeps.
