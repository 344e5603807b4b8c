//! The verified core of the Duke kernel and of its UEFI loader.
//!
//! Every item here is proved: the memory managers, the scheduler and the task
//! queues, the agent's JSON channel, and the parsers of what the firmware and
//! the hardware hand over. State that the running kernel keeps in globals is
//! an ordinary value here, passed in by whoever owns the lock.

pub mod agent;
pub mod arch;
pub mod bits;
pub mod fios;
pub mod frames;
pub mod heap;
pub mod iniciador;
pub mod inteiros;
pub mod interpretador;
pub mod irq;
pub mod log;
pub mod machine;
pub mod mmio;
pub mod paginacao;
pub mod particoes;
pub mod partida;
pub mod pci;
pub mod qemu;
pub mod rede;
pub mod serial;
pub mod tarefas;
pub mod teclado;
pub mod texto;
