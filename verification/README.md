# Duke

A kernel for x86_64 and aarch64, made to be operated by an agent as well as by
people: a JSON-RPC channel over a serial port, a registry of commands that
describes itself, and a log of typed records. Its decisions are verified with
Verus.

- `src/` is the verified library. It takes plain values and returns plain
  values: what to write to a register, which thread runs next, which frame is
  handed out, what an answer to the agent says. Contracts are exact, and what
  holds of the system as a whole is stated by the public proof functions whose
  names begin with `lei_`.
- `app/` is the kernel and the UEFI program around the library: entry points,
  assembly, device registers, locks, futures and the main loop.
- `tests/` runs the library on concrete values.

## Modules

| Module | What it decides |
| --- | --- |
| `frames`, `heap`, `paginacao`, `mmio`, `machine` | physical and virtual memory |
| `fios` | threads: slots, stacks with guard pages, the scheduler |
| `tarefas` | cooperative tasks: ready queue, input of the channel, sleeping |
| `agent` | frames of the channel, JSON, commands and their answers |
| `interpretador`, `teclado`, `serial` | the console |
| `log`, `irq` | records and counters |
| `pci`, `particoes`, `rede` | the bus, partition tables, address resolution |
| `arch::x86_64`, `arch::aarch64` | page tables, interrupt controllers, contexts, the device tree |
| `iniciador` | the checks and reports of the UEFI program |
| `partida`, `qemu` | the order of the boot, the emulator's exit |

Identifiers and messages are in Portuguese, the kernel's own language; the
documentation is in English.
