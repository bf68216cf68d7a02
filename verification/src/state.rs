//! The mathematical model of the machine and the faults the engine reports.

use vstd::prelude::*;

verus! {

/// A fatal condition detected while loading a program or executing an
/// instruction. Faults are returned to the host as values; the engine never
/// aborts, and the state from before the faulting instruction stays intact.
#[derive(Clone, Copy, Debug, PartialEq, Eq, Structural)]
pub enum Fault {
    /// The fetched word matches no instruction pattern; carries the raw word.
    InvalidInstruction(u16),
    /// A call was attempted with all 16 stack slots already in use.
    StackOverflow,
    /// A return was attempted with an empty call stack.
    StackUnderflow,
    /// A program image longer than 3584 bytes was offered for loading.
    ProgramTooLarge,
    /// An instruction would have touched an address outside the 4096-byte
    /// memory, or the program counter points outside it.
    MemoryFault,
}

/// The abstract machine state: what every contract of the engine speaks of.
///
/// `v` are the sixteen general registers (register 15 doubles as the
/// carry/borrow/collision flag), `i` the index register, `pc` the program
/// counter, `gfx` the 64x32 frame buffer stored row-major (one cell per byte,
/// each 0 or 1), `stack` the sixteen return-address slots of which the first
/// `sp` are in use, `key` the sixteen key flags, and `delay`/`sound` the two
/// countdown timers.
#[verifier::ext_equal]
pub ghost struct CpuState {
    pub mem: Seq<u8>,
    pub v: Seq<u8>,
    pub i: u16,
    pub pc: u16,
    pub gfx: Seq<u8>,
    pub stack: Seq<u16>,
    pub sp: u16,
    pub key: Seq<u8>,
    pub delay: u8,
    pub sound: u8,
    pub redraw: bool,
}

/// Well-formedness of the abstract state: fixed sizes of all components, a
/// stack pointer within its sixteen slots, and binary frame-buffer cells.
pub open spec fn wf_state(s: CpuState) -> bool {
    &&& s.mem.len() == 4096
    &&& s.v.len() == 16
    &&& s.gfx.len() == 2048
    &&& s.stack.len() == 16
    &&& s.sp <= 16
    &&& s.key.len() == 16
    &&& forall|p: int| 0 <= p < 2048 ==> #[trigger] s.gfx[p] <= 1
}

/// The machine state immediately after construction: everything zeroed.
pub open spec fn spec_zeroed() -> CpuState {
    CpuState {
        mem: Seq::new(4096, |a: int| 0u8),
        v: Seq::new(16, |r: int| 0u8),
        i: 0,
        pc: 0,
        gfx: Seq::new(2048, |p: int| 0u8),
        stack: Seq::new(16, |d: int| 0u16),
        sp: 0,
        key: Seq::new(16, |k: int| 0u8),
        delay: 0,
        sound: 0,
        redraw: false,
    }
}

/// The built-in 4x5 bitmap font for the hex digits 0 through F: sixteen
/// glyphs of five bytes each, seeded into the first 80 bytes of memory.
pub open spec fn spec_fontset() -> Seq<u8> {
    seq![
        0xF0u8, 0x90u8, 0x90u8, 0x90u8, 0xF0u8,
        0x20u8, 0x60u8, 0x20u8, 0x20u8, 0x70u8,
        0xF0u8, 0x10u8, 0xF0u8, 0x80u8, 0xF0u8,
        0xF0u8, 0x10u8, 0xF0u8, 0x10u8, 0xF0u8,
        0x90u8, 0x90u8, 0xF0u8, 0x10u8, 0x10u8,
        0xF0u8, 0x80u8, 0xF0u8, 0x10u8, 0xF0u8,
        0xF0u8, 0x80u8, 0xF0u8, 0x90u8, 0xF0u8,
        0xF0u8, 0x10u8, 0x20u8, 0x40u8, 0x40u8,
        0xF0u8, 0x90u8, 0xF0u8, 0x90u8, 0xF0u8,
        0xF0u8, 0x90u8, 0xF0u8, 0x10u8, 0xF0u8,
        0xF0u8, 0x90u8, 0xF0u8, 0x90u8, 0x90u8,
        0xE0u8, 0x90u8, 0xE0u8, 0x90u8, 0xE0u8,
        0xF0u8, 0x80u8, 0x80u8, 0x80u8, 0xF0u8,
        0xE0u8, 0x90u8, 0x90u8, 0x90u8, 0xE0u8,
        0xF0u8, 0x80u8, 0xF0u8, 0x80u8, 0xF0u8,
        0xF0u8, 0x80u8, 0xF0u8, 0x80u8, 0x80u8,
    ]
}

} // verus!
