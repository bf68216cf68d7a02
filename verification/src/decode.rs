//! Decoding a 16-bit instruction word into a tagged description of the
//! operation and its operands. Decoding is a pure function of the word: it
//! masks and shifts out the nibble-aligned fields and picks the variant, so
//! it can be reasoned about (and tested) independently of instruction
//! effects.

use vstd::prelude::*;

verus! {

/// One decoded instruction. Register indices are always below 16 and 12-bit
/// addresses below 4096, because they come from 4-bit and 12-bit fields of
/// the instruction word (see `instr_wf`).
#[derive(Clone, Copy, Debug, PartialEq, Eq, Structural)]
pub enum Instr {
    /// `00E0`: clear the frame buffer.
    ClearScreen,
    /// `00EE`: return from a subroutine.
    Ret,
    /// `1nnn`: jump to address nnn.
    Jump(u16),
    /// `2nnn`: call the subroutine at address nnn.
    Call(u16),
    /// `3xnn`: skip the next instruction if Vx == nn.
    SkipEqImm(u8, u8),
    /// `4xnn`: skip the next instruction if Vx != nn.
    SkipNeImm(u8, u8),
    /// `5xy0`: skip the next instruction if Vx == Vy.
    SkipEqReg(u8, u8),
    /// `6xnn`: Vx = nn.
    StoreImm(u8, u8),
    /// `7xnn`: Vx = Vx + nn with 8-bit wraparound, flag untouched.
    AddImm(u8, u8),
    /// `8xy0`: Vx = Vy.
    CopyReg(u8, u8),
    /// `8xy1`: Vx = Vx | Vy.
    OrReg(u8, u8),
    /// `8xy2`: Vx = Vx & Vy.
    AndReg(u8, u8),
    /// `8xy3`: Vx = Vx ^ Vy.
    XorReg(u8, u8),
    /// `8xy4`: Vx = Vx + Vy with wraparound; V15 records the carry.
    AddReg(u8, u8),
    /// `8xy5`: Vx = Vx - Vy with wraparound; V15 = 1 when no borrow.
    SubReg(u8, u8),
    /// `8xy6`: V15 = least-significant bit of Vx; Vx = Vx >> 1.
    ShrReg(u8),
    /// `8xy7`: Vx = Vy - Vx with wraparound; V15 = 1 when no borrow.
    RsubReg(u8, u8),
    /// `8xyE`: V15 = most-significant bit of Vx; Vx = Vx << 1 wrapping.
    ShlReg(u8),
    /// `9xy0`: skip the next instruction if Vx != Vy.
    SkipNeReg(u8, u8),
    /// `Annn`: I = nnn.
    StoreIndex(u16),
    /// `Cxnn`: Vx = random byte & nn.
    RandMask(u8, u8),
    /// `Dxyn`: draw an n-row sprite from memory at I at (Vx, Vy).
    Draw(u8, u8, u8),
    /// `Ex9E`: skip the next instruction if the key named by Vx is held.
    SkipKeyDown(u8),
    /// `ExA1`: skip the next instruction if the key named by Vx is released.
    SkipKeyUp(u8),
    /// `Fx07`: Vx = delay timer.
    ReadDelay(u8),
    /// `Fx15`: delay timer = Vx.
    StoreDelay(u8),
    /// `Fx18`: sound timer = Vx.
    StoreSound(u8),
    /// `Fx1E`: I = I + Vx with 16-bit wraparound, flag untouched.
    AddIndex(u8),
    /// `Fx29`: I = address of the built-in glyph for the hex digit in Vx.
    FontIndex(u8),
    /// `Fx33`: store the three decimal digits of Vx at I, I+1, I+2.
    StoreBcd(u8),
    /// `Fx55`: store V0..=Vx to memory at I; I advances past the block.
    StoreRegs(u8),
    /// `Fx65`: load V0..=Vx from memory at I; I advances past the block.
    LoadRegs(u8),
    /// No pattern matches the word; carries the raw word.
    Unknown(u16),
}

/// The top 4 bits of the word: the instruction family.
pub open spec fn spec_family(op: u16) -> u16 {
    op / 0x1000
}

/// Bits 8..12: the first register index.
pub open spec fn spec_x(op: u16) -> u8 {
    ((op / 0x100) % 16) as u8
}

/// Bits 4..8: the second register index.
pub open spec fn spec_y(op: u16) -> u8 {
    ((op / 0x10) % 16) as u8
}

/// Bits 0..4: the 4-bit immediate (sprite row count).
pub open spec fn spec_n(op: u16) -> u8 {
    (op % 16) as u8
}

/// Bits 0..8: the 8-bit immediate.
pub open spec fn spec_nn(op: u16) -> u8 {
    (op % 0x100) as u8
}

/// Bits 0..12: the 12-bit address.
pub open spec fn spec_nnn(op: u16) -> u16 {
    op % 0x1000
}

/// The first register index of a word, as `decode` extracts it.
pub fn op_x(op: u16) -> (r: u8)
    ensures
        r == spec_x(op),
{
    ((op / 0x100) % 16) as u8
}

/// The second register index of a word, as `decode` extracts it.
pub fn op_y(op: u16) -> (r: u8)
    ensures
        r == spec_y(op),
{
    ((op / 0x10) % 16) as u8
}

/// The 8-bit immediate of a word, as `decode` extracts it.
pub fn op_nn(op: u16) -> (r: u8)
    ensures
        r == spec_nn(op),
{
    (op % 0x100) as u8
}

/// What `decode` returns for every word.
pub open spec fn spec_decode(op: u16) -> Instr {
    let family = spec_family(op);
    let x = spec_x(op);
    let y = spec_y(op);
    let n = spec_n(op);
    let nn = spec_nn(op);
    let nnn = spec_nnn(op);
    if op == 0x00E0 {
        Instr::ClearScreen
    } else if op == 0x00EE {
        Instr::Ret
    } else if family == 0x1 {
        Instr::Jump(nnn)
    } else if family == 0x2 {
        Instr::Call(nnn)
    } else if family == 0x3 {
        Instr::SkipEqImm(x, nn)
    } else if family == 0x4 {
        Instr::SkipNeImm(x, nn)
    } else if family == 0x5 && n == 0x0 {
        Instr::SkipEqReg(x, y)
    } else if family == 0x6 {
        Instr::StoreImm(x, nn)
    } else if family == 0x7 {
        Instr::AddImm(x, nn)
    } else if family == 0x8 && n == 0x0 {
        Instr::CopyReg(x, y)
    } else if family == 0x8 && n == 0x1 {
        Instr::OrReg(x, y)
    } else if family == 0x8 && n == 0x2 {
        Instr::AndReg(x, y)
    } else if family == 0x8 && n == 0x3 {
        Instr::XorReg(x, y)
    } else if family == 0x8 && n == 0x4 {
        Instr::AddReg(x, y)
    } else if family == 0x8 && n == 0x5 {
        Instr::SubReg(x, y)
    } else if family == 0x8 && n == 0x6 {
        Instr::ShrReg(x)
    } else if family == 0x8 && n == 0x7 {
        Instr::RsubReg(x, y)
    } else if family == 0x8 && n == 0xE {
        Instr::ShlReg(x)
    } else if family == 0x9 && n == 0x0 {
        Instr::SkipNeReg(x, y)
    } else if family == 0xA {
        Instr::StoreIndex(nnn)
    } else if family == 0xC {
        Instr::RandMask(x, nn)
    } else if family == 0xD {
        Instr::Draw(x, y, n)
    } else if family == 0xE && nn == 0x9E {
        Instr::SkipKeyDown(x)
    } else if family == 0xE && nn == 0xA1 {
        Instr::SkipKeyUp(x)
    } else if family == 0xF && nn == 0x07 {
        Instr::ReadDelay(x)
    } else if family == 0xF && nn == 0x15 {
        Instr::StoreDelay(x)
    } else if family == 0xF && nn == 0x18 {
        Instr::StoreSound(x)
    } else if family == 0xF && nn == 0x1E {
        Instr::AddIndex(x)
    } else if family == 0xF && nn == 0x29 {
        Instr::FontIndex(x)
    } else if family == 0xF && nn == 0x33 {
        Instr::StoreBcd(x)
    } else if family == 0xF && nn == 0x55 {
        Instr::StoreRegs(x)
    } else if family == 0xF && nn == 0x65 {
        Instr::LoadRegs(x)
    } else {
        Instr::Unknown(op)
    }
}

/// Bounds that every decoded instruction satisfies: register indices are
/// 4-bit fields, row counts 4-bit, addresses 12-bit.
pub open spec fn instr_wf(instr: Instr) -> bool {
    match instr {
        Instr::ClearScreen => true,
        Instr::Ret => true,
        Instr::Jump(nnn) => nnn < 0x1000,
        Instr::Call(nnn) => nnn < 0x1000,
        Instr::SkipEqImm(x, _nn) => x < 16,
        Instr::SkipNeImm(x, _nn) => x < 16,
        Instr::SkipEqReg(x, y) => x < 16 && y < 16,
        Instr::StoreImm(x, _nn) => x < 16,
        Instr::AddImm(x, _nn) => x < 16,
        Instr::CopyReg(x, y) => x < 16 && y < 16,
        Instr::OrReg(x, y) => x < 16 && y < 16,
        Instr::AndReg(x, y) => x < 16 && y < 16,
        Instr::XorReg(x, y) => x < 16 && y < 16,
        Instr::AddReg(x, y) => x < 16 && y < 16,
        Instr::SubReg(x, y) => x < 16 && y < 16,
        Instr::ShrReg(x) => x < 16,
        Instr::RsubReg(x, y) => x < 16 && y < 16,
        Instr::ShlReg(x) => x < 16,
        Instr::SkipNeReg(x, y) => x < 16 && y < 16,
        Instr::StoreIndex(nnn) => nnn < 0x1000,
        Instr::RandMask(x, _nn) => x < 16,
        Instr::Draw(x, y, n) => x < 16 && y < 16 && n < 16,
        Instr::SkipKeyDown(x) => x < 16,
        Instr::SkipKeyUp(x) => x < 16,
        Instr::ReadDelay(x) => x < 16,
        Instr::StoreDelay(x) => x < 16,
        Instr::StoreSound(x) => x < 16,
        Instr::AddIndex(x) => x < 16,
        Instr::FontIndex(x) => x < 16,
        Instr::StoreBcd(x) => x < 16,
        Instr::StoreRegs(x) => x < 16,
        Instr::LoadRegs(x) => x < 16,
        Instr::Unknown(_op) => true,
    }
}

/// Decode an instruction word: extract the nibble-aligned fields and pick
/// the operation. Pure; no machine state is involved.
pub fn decode(op: u16) -> (instr: Instr)
    ensures
        instr == spec_decode(op),
        instr_wf(instr),
{
    let family: u16 = op / 0x1000;
    let x: u8 = ((op / 0x100) % 16) as u8;
    let y: u8 = ((op / 0x10) % 16) as u8;
    let n: u8 = (op % 16) as u8;
    let nn: u8 = (op % 0x100) as u8;
    let nnn: u16 = op % 0x1000;
    if op == 0x00E0 {
        Instr::ClearScreen
    } else if op == 0x00EE {
        Instr::Ret
    } else if family == 0x1 {
        Instr::Jump(nnn)
    } else if family == 0x2 {
        Instr::Call(nnn)
    } else if family == 0x3 {
        Instr::SkipEqImm(x, nn)
    } else if family == 0x4 {
        Instr::SkipNeImm(x, nn)
    } else if family == 0x5 && n == 0x0 {
        Instr::SkipEqReg(x, y)
    } else if family == 0x6 {
        Instr::StoreImm(x, nn)
    } else if family == 0x7 {
        Instr::AddImm(x, nn)
    } else if family == 0x8 && n == 0x0 {
        Instr::CopyReg(x, y)
    } else if family == 0x8 && n == 0x1 {
        Instr::OrReg(x, y)
    } else if family == 0x8 && n == 0x2 {
        Instr::AndReg(x, y)
    } else if family == 0x8 && n == 0x3 {
        Instr::XorReg(x, y)
    } else if family == 0x8 && n == 0x4 {
        Instr::AddReg(x, y)
    } else if family == 0x8 && n == 0x5 {
        Instr::SubReg(x, y)
    } else if family == 0x8 && n == 0x6 {
        Instr::ShrReg(x)
    } else if family == 0x8 && n == 0x7 {
        Instr::RsubReg(x, y)
    } else if family == 0x8 && n == 0xE {
        Instr::ShlReg(x)
    } else if family == 0x9 && n == 0x0 {
        Instr::SkipNeReg(x, y)
    } else if family == 0xA {
        Instr::StoreIndex(nnn)
    } else if family == 0xC {
        Instr::RandMask(x, nn)
    } else if family == 0xD {
        Instr::Draw(x, y, n)
    } else if family == 0xE && nn == 0x9E {
        Instr::SkipKeyDown(x)
    } else if family == 0xE && nn == 0xA1 {
        Instr::SkipKeyUp(x)
    } else if family == 0xF && nn == 0x07 {
        Instr::ReadDelay(x)
    } else if family == 0xF && nn == 0x15 {
        Instr::StoreDelay(x)
    } else if family == 0xF && nn == 0x18 {
        Instr::StoreSound(x)
    } else if family == 0xF && nn == 0x1E {
        Instr::AddIndex(x)
    } else if family == 0xF && nn == 0x29 {
        Instr::FontIndex(x)
    } else if family == 0xF && nn == 0x33 {
        Instr::StoreBcd(x)
    } else if family == 0xF && nn == 0x55 {
        Instr::StoreRegs(x)
    } else if family == 0xF && nn == 0x65 {
        Instr::LoadRegs(x)
    } else {
        Instr::Unknown(op)
    }
}

} // verus!
