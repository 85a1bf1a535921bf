# rl78_sim

Simulation support for RL78/G23 boards and clusters of them, verified with Verus.

- `src/` is the library. Its public functions carry contracts that Verus proves;
  only the wrappers around calls into outside crates, and what is said of
  `String::push`, are taken on trust.
  - `peripherals`: clock generator, interrupt controller, timer array unit,
    serial array unit, the G23 core that maps them and its line to the CPU.
  - `callbacks`, `cpu`, `magic`, `map`, `regs`: what surrounds the emulated
    core: guest memory windows, IO accesses, breakpoints, the end of a quantum.
  - `elf`: which loads a guest image asks for.
  - `cluster`: topology checks, control-plane state machines, the Ready barrier
    and virtual-time sync of the arbiter, the board loop, UART rings, mailboxes
    and lanes, command lines.
- `app/` is ordinary Rust around the library: the cluster programs with their
  processes, files and shared memory, the iceoryx2 ports, JSON, and the binding
  to the emulated core.
- `tests/` runs the library.

Laws that relate several functions stand beside them as public proof functions.
Calls into `object`, `xxhash-rust` and `crossbeam-queue` stand behind small
wrappers whose doc comments say what is taken on trust.
