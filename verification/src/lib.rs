pub mod state;
pub mod decode;
pub mod semantics;
pub mod cpu;
pub mod laws;

pub use crate::state::Fault;
pub use crate::cpu::Cpu;
pub use crate::decode::Instr;
pub use crate::decode::decode;
