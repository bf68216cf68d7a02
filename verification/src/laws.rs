//! Machine-wide laws of the instruction set, proved once and for all states:
//! what a register holds after a store, how the arithmetic wraps, how far
//! the skips advance, that call and return undo each other, what clearing
//! and sprite drawing do to the frame buffer, and that the font survives
//! construction and program load.

use vstd::prelude::*;
use crate::state::CpuState;
use crate::state::spec_fontset;
use crate::state::wf_state;
use crate::decode::Instr;
use crate::decode::spec_decode;
use crate::semantics::spec_execute;
use crate::semantics::spec_init;
use crate::semantics::spec_load;
use crate::semantics::sprite_covers;
use crate::semantics::draw_collides;
use crate::semantics::flip01;

verus! {

/// The decode fields of a word assembled from a family, a register index
/// and an 8-bit immediate.
proof fn lemma_opcode_fields(op: u16, family: u16, x: u16, nn: u16)
    by (bit_vector)
    requires
        family < 16,
        x < 16,
        nn < 256,
        op == family * 0x1000 + x * 0x100 + nn,
    ensures
        op / 0x1000 == family,
        (op / 0x100) % 16 == x,
        op % 0x100 == nn,
        (op / 16) % 16 == nn / 16,
        op % 16 == nn % 16,
        op % 0x1000 == x * 0x100 + nn,
{
}

/// Storing an immediate and then reading the register gives back exactly
/// that immediate, for every register index and every immediate.
pub proof fn lemma_store_imm_then_read(s: CpuState, x: u8, nn: u8)
    requires
        wf_state(s),
        x < 16,
    ensures
        ({
            let op = (0x6000 + x * 0x100 + nn) as u16;
            let so = spec_execute(s, spec_decode(op), 0);
            so.fault is None && so.state.v[x as int] == nn
        }),
{
    let op = (0x6000 + x * 0x100 + nn) as u16;
    lemma_opcode_fields(op, 6, x as u16, nn as u16);
    assert(spec_decode(op) == Instr::StoreImm(x, nn));
}

/// Adding an immediate wraps at 8 bits and, unless the target is the flag
/// register itself, leaves the flag register alone.
pub proof fn lemma_add_imm_wraps_no_flag(s: CpuState, x: u8, nn: u8)
    requires
        wf_state(s),
        x < 16,
    ensures
        ({
            let op = (0x7000 + x * 0x100 + nn) as u16;
            let so = spec_execute(s, spec_decode(op), 0);
            so.fault is None && so.state.v[x as int] == (s.v[x as int] + nn) % 256 && (x != 15
                ==> so.state.v[15] == s.v[15])
        }),
{
    let op = (0x7000 + x * 0x100 + nn) as u16;
    lemma_opcode_fields(op, 7, x as u16, nn as u16);
    assert(spec_decode(op) == Instr::AddImm(x, nn));
}

/// From a program counter of 0x200, each of the four conditional skips
/// advances it to exactly 0x204 when its condition holds, and to exactly
/// 0x202 otherwise, touching nothing else.
pub proof fn lemma_skips_advance(s: CpuState, x: u8, y: u8, nn: u8)
    requires
        wf_state(s),
        x < 16,
        y < 16,
        s.pc == 0x200,
    ensures
        ({
            let so = spec_execute(s, spec_decode((0x3000 + x * 0x100 + nn) as u16), 0);
            so.fault is None && so.state.pc == (if s.v[x as int] == nn {
                0x204u16
            } else {
                0x202u16
            }) && so.state == (CpuState { pc: so.state.pc, ..s })
        }),
        ({
            let so = spec_execute(s, spec_decode((0x4000 + x * 0x100 + nn) as u16), 0);
            so.fault is None && so.state.pc == (if s.v[x as int] != nn {
                0x204u16
            } else {
                0x202u16
            }) && so.state == (CpuState { pc: so.state.pc, ..s })
        }),
        ({
            let so = spec_execute(s, spec_decode((0x5000 + x * 0x100 + y * 0x10) as u16), 0);
            so.fault is None && so.state.pc == (if s.v[x as int] == s.v[y as int] {
                0x204u16
            } else {
                0x202u16
            }) && so.state == (CpuState { pc: so.state.pc, ..s })
        }),
        ({
            let so = spec_execute(s, spec_decode((0x9000 + x * 0x100 + y * 0x10) as u16), 0);
            so.fault is None && so.state.pc == (if s.v[x as int] != s.v[y as int] {
                0x204u16
            } else {
                0x202u16
            }) && so.state == (CpuState { pc: so.state.pc, ..s })
        }),
{
    let op3 = (0x3000 + x * 0x100 + nn) as u16;
    lemma_opcode_fields(op3, 3, x as u16, nn as u16);
    assert(spec_decode(op3) == Instr::SkipEqImm(x, nn));
    let op4 = (0x4000 + x * 0x100 + nn) as u16;
    lemma_opcode_fields(op4, 4, x as u16, nn as u16);
    assert(spec_decode(op4) == Instr::SkipNeImm(x, nn));
    let op5 = (0x5000 + x * 0x100 + y * 0x10) as u16;
    lemma_opcode_fields(op5, 5, x as u16, (y * 0x10) as u16);
    assert(spec_decode(op5) == Instr::SkipEqReg(x, y));
    let op9 = (0x9000 + x * 0x100 + y * 0x10) as u16;
    lemma_opcode_fields(op9, 9, x as u16, (y * 0x10) as u16);
    assert(spec_decode(op9) == Instr::SkipNeReg(x, y));
}

/// A call followed by a return brings the program counter back to its
/// pre-call value and restores the stack pointer; registers, memory and
/// frame buffer are untouched.
pub proof fn lemma_call_ret_round_trip(s: CpuState, nnn: u16)
    requires
        wf_state(s),
        s.sp < 16,
    ensures
        ({
            let after_call = spec_execute(s, Instr::Call(nnn), 0);
            let after_ret = spec_execute(after_call.state, Instr::Ret, 0);
            after_call.fault is None && after_ret.fault is None && after_ret.state.pc == s.pc
                && after_ret.state.sp == s.sp && after_ret.state.v == s.v && after_ret.state.mem
                == s.mem && after_ret.state.gfx == s.gfx
        }),
{
    let after_call = spec_execute(s, Instr::Call(nnn), 0);
    assert(after_call.state.stack[s.sp as int] == s.pc);
}

/// The clear instruction zeroes all 2048 frame-buffer cells and sets the
/// redraw flag.
pub proof fn lemma_clear_zeroes(s: CpuState)
    requires
        wf_state(s),
    ensures
        spec_execute(s, Instr::ClearScreen, 0).fault is None,
        spec_execute(s, Instr::ClearScreen, 0).state.redraw,
        spec_execute(s, Instr::ClearScreen, 0).state.gfx.len() == 2048,
        forall|p: int|
            0 <= p < 2048 ==> #[trigger] spec_execute(s, Instr::ClearScreen, 0).state.gfx[p] == 0,
{
}

/// Drawing a sprite twice at the same coordinates returns every frame-buffer
/// cell to its pre-draw value. The register operands must not be the flag
/// register, which the first draw overwrites with its collision result.
pub proof fn lemma_draw_twice_restores(s: CpuState, x: u8, y: u8, n: u8)
    requires
        wf_state(s),
        x < 16,
        y < 16,
        x != 15,
        y != 15,
        n < 16,
        n > 0 ==> s.i + n <= 4096,
    ensures
        ({
            let once = spec_execute(s, Instr::Draw(x, y, n), 0);
            let twice = spec_execute(once.state, Instr::Draw(x, y, n), 0);
            once.fault is None && twice.fault is None && twice.state.gfx == s.gfx
        }),
{
    let gi = s.i as int;
    let sx = s.v[x as int] as int;
    let sy = s.v[y as int] as int;
    let once = spec_execute(s, Instr::Draw(x, y, n), 0);
    let st1 = once.state;
    assert(st1.v[x as int] == s.v[x as int]);
    assert(st1.v[y as int] == s.v[y as int]);
    let twice = spec_execute(st1, Instr::Draw(x, y, n), 0);
    assert forall|p: int| 0 <= p < 2048 implies twice.state.gfx[p] == s.gfx[p] by {
        if sprite_covers(s.mem, gi, sx, sy, n as int, p) {
            assert(st1.gfx[p] == flip01(s.gfx[p]));
            assert(twice.state.gfx[p] == flip01(flip01(s.gfx[p])));
            assert(s.gfx[p] <= 1);
        } else {
            assert(st1.gfx[p] == s.gfx[p]);
            assert(twice.state.gfx[p] == s.gfx[p]);
        }
    }
    assert(twice.state.gfx =~= s.gfx);
}

/// The second of two identical draws reports a collision in V15 whenever
/// some cell the sprite covers was clear before the first draw — on a
/// cleared frame buffer, every nonzero sprite does. (When every covered
/// cell is already lit, the first draw clears them all and the second finds
/// nothing lit.)
pub proof fn lemma_draw_twice_collides(s: CpuState, x: u8, y: u8, n: u8, p: int)
    requires
        wf_state(s),
        x < 16,
        y < 16,
        x != 15,
        y != 15,
        n < 16,
        n > 0 ==> s.i + n <= 4096,
        0 <= p < 2048,
        sprite_covers(s.mem, s.i as int, s.v[x as int] as int, s.v[y as int] as int, n as int, p),
        s.gfx[p] == 0,
    ensures
        ({
            let once = spec_execute(s, Instr::Draw(x, y, n), 0);
            let twice = spec_execute(once.state, Instr::Draw(x, y, n), 0);
            twice.state.v[15] == 1
        }),
{
    let gi = s.i as int;
    let sx = s.v[x as int] as int;
    let sy = s.v[y as int] as int;
    let once = spec_execute(s, Instr::Draw(x, y, n), 0);
    let st1 = once.state;
    assert(st1.v[x as int] == s.v[x as int]);
    assert(st1.v[y as int] == s.v[y as int]);
    assert(st1.gfx[p] == flip01(s.gfx[p]));
    assert(st1.gfx[p] == 1);
    assert(draw_collides(st1.gfx, st1.mem, gi, sx, sy, n as int));
}

/// Loading writes the image verbatim at 0x200 and touches nothing below or
/// beyond it.
pub proof fn lemma_load_writes_exactly(s: CpuState, bytes: Seq<u8>)
    requires
        wf_state(s),
        bytes.len() <= 3584,
    ensures
        spec_load(s, bytes).mem.len() == 4096,
        forall|j: int|
            0 <= j < bytes.len() ==> #[trigger] spec_load(s, bytes).mem[0x200 + j] == bytes[j],
        forall|a: int|
            0 <= a < 0x200 ==> #[trigger] spec_load(s, bytes).mem[a] == s.mem[a],
        forall|a: int|
            0x200 + bytes.len() <= a < 4096 ==> #[trigger] spec_load(s, bytes).mem[a] == s.mem[a],
{
}

/// The font glyphs stand unmodified at their fixed base, address 0, right
/// after construction, and a program load leaves them untouched.
pub proof fn lemma_font_survives_init_and_load(s: CpuState, bytes: Seq<u8>)
    requires
        wf_state(s),
        bytes.len() <= 3584,
    ensures
        forall|j: int| 0 <= j < 80 ==> #[trigger] spec_init(s).mem[j] == spec_fontset()[j],
        forall|j: int|
            0 <= j < 80 ==> #[trigger] spec_load(spec_init(s), bytes).mem[j] == spec_fontset()[j],
{
}

} // verus!
