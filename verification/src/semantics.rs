//! The meaning of every instruction, as functions on the abstract machine
//! state. The engine's contracts say that executing an instruction produces
//! exactly the state these functions describe.

use vstd::prelude::*;
use crate::state::CpuState;
use crate::state::Fault;
use crate::state::spec_fontset;
use crate::decode::Instr;
use crate::decode::spec_decode;

verus! {

/// What one instruction (or one fetch-and-execute step) leaves behind: the
/// next state, and the fault if one was detected. On a fault the state is
/// the unchanged state from before the instruction.
#[verifier::ext_equal]
pub ghost struct StepOut {
    pub state: CpuState,
    pub fault: Option<Fault>,
}

/// A step that completed.
pub open spec fn step_ok(s: CpuState) -> StepOut {
    StepOut { state: s, fault: None }
}

/// A step that detected a fault; the state is left as it was.
pub open spec fn step_fault(s: CpuState, f: Fault) -> StepOut {
    StepOut { state: s, fault: Some(f) }
}

/// The default program-counter advance: one 2-byte instruction, with 16-bit
/// wraparound.
pub open spec fn adv(pc: u16) -> u16 {
    ((pc + 2) % 0x10000) as u16
}

/// The advance of a skip instruction whose condition holds: two words.
pub open spec fn adv_skip(pc: u16) -> u16 {
    ((pc + 4) % 0x10000) as u16
}

/// 8-bit wraparound of a nonnegative sum.
pub open spec fn wrap8(n: int) -> u8 {
    (n % 256) as u8
}

/// 8-bit wraparound subtraction a - b.
pub open spec fn wrap8_sub(a: u8, b: u8) -> u8 {
    if a >= b {
        (a - b) as u8
    } else {
        (a - b + 256) as u8
    }
}

/// `00E0`: every frame-buffer cell becomes 0 and a redraw is owed.
pub open spec fn sem_clear(s: CpuState) -> CpuState {
    CpuState { gfx: Seq::new(2048, |p: int| 0u8), redraw: true, pc: adv(s.pc), ..s }
}

/// `00EE`: pop a return address into the program counter; underflow is fatal.
pub open spec fn sem_ret(s: CpuState) -> StepOut {
    if s.sp == 0 {
        step_fault(s, Fault::StackUnderflow)
    } else {
        step_ok(CpuState { sp: (s.sp - 1) as u16, pc: s.stack[s.sp - 1], ..s })
    }
}

/// `1nnn`: set the program counter; no stack interaction.
pub open spec fn sem_jump(s: CpuState, nnn: u16) -> CpuState {
    CpuState { pc: nnn, ..s }
}

/// `2nnn`: push the current program counter and jump; overflow is fatal.
pub open spec fn sem_call(s: CpuState, nnn: u16) -> StepOut {
    if s.sp >= 16 {
        step_fault(s, Fault::StackOverflow)
    } else {
        step_ok(
            CpuState {
                stack: s.stack.update(s.sp as int, s.pc),
                sp: (s.sp + 1) as u16,
                pc: nnn,
                ..s
            },
        )
    }
}

/// The common shape of the four skip instructions: advance by two words when
/// the condition holds, by one otherwise.
pub open spec fn sem_skip_if(s: CpuState, cond: bool) -> CpuState {
    CpuState { pc: if cond { adv_skip(s.pc) } else { adv(s.pc) }, ..s }
}

/// `7xnn`: wrapping add of an immediate; the flag register is not touched
/// (unless it is the target itself).
pub open spec fn sem_add_imm(s: CpuState, x: u8, nn: u8) -> CpuState {
    CpuState { v: s.v.update(x as int, wrap8(s.v[x as int] + nn)), pc: adv(s.pc), ..s }
}

/// The shape shared by every instruction whose whole effect is to write one
/// register and advance: `6xnn`, `8xy0`..`8xy3`, `Cxnn` and `Fx07`.
pub open spec fn sem_store_reg(s: CpuState, x: u8, val: u8) -> CpuState {
    CpuState { v: s.v.update(x as int, val), pc: adv(s.pc), ..s }
}

/// `8xy4`: wrapping add; V15 records the carry, written before the result,
/// so when x is 15 the sum wins.
pub open spec fn sem_add_reg(s: CpuState, x: u8, y: u8) -> CpuState {
    let sum = s.v[x as int] + s.v[y as int];
    let flag: u8 = if sum > 255 { 1 } else { 0 };
    CpuState {
        v: s.v.update(15, flag).update(x as int, wrap8(sum)),
        pc: adv(s.pc),
        ..s
    }
}

/// `8xy5`: Vx = Vx - Vy wrapping; V15 = 1 exactly when there is no borrow
/// (Vx >= Vy), written before the result.
pub open spec fn sem_sub_reg(s: CpuState, x: u8, y: u8) -> CpuState {
    let flag: u8 = if s.v[x as int] >= s.v[y as int] { 1 } else { 0 };
    CpuState {
        v: s.v.update(15, flag).update(x as int, wrap8_sub(s.v[x as int], s.v[y as int])),
        pc: adv(s.pc),
        ..s
    }
}

/// `8xy7`: Vx = Vy - Vx wrapping; V15 = 1 exactly when there is no borrow
/// (Vy >= Vx), written before the result.
pub open spec fn sem_rsub_reg(s: CpuState, x: u8, y: u8) -> CpuState {
    let flag: u8 = if s.v[y as int] >= s.v[x as int] { 1 } else { 0 };
    CpuState {
        v: s.v.update(15, flag).update(x as int, wrap8_sub(s.v[y as int], s.v[x as int])),
        pc: adv(s.pc),
        ..s
    }
}

/// `8xy6`: Vx is shifted right in place; V15 receives the bit shifted out,
/// written after the result, so when x is 15 the flag wins.
pub open spec fn sem_shr_reg(s: CpuState, x: u8) -> CpuState {
    let vx = s.v[x as int];
    CpuState {
        v: s.v.update(x as int, (vx / 2) as u8).update(15, (vx % 2) as u8),
        pc: adv(s.pc),
        ..s
    }
}

/// `8xyE`: Vx is shifted left in place with wraparound; V15 receives the bit
/// shifted out, written after the result, so when x is 15 the flag wins.
pub open spec fn sem_shl_reg(s: CpuState, x: u8) -> CpuState {
    let vx = s.v[x as int];
    let flag: u8 = if vx >= 128 { 1 } else { 0 };
    CpuState {
        v: s.v.update(x as int, wrap8(vx * 2)).update(15, flag),
        pc: adv(s.pc),
        ..s
    }
}

/// `Annn`.
pub open spec fn sem_store_index(s: CpuState, nnn: u16) -> CpuState {
    CpuState { i: nnn, pc: adv(s.pc), ..s }
}

/// The frame-buffer cell a sprite row r, bit b lands on, for an origin
/// (sx, sy): coordinates wrap at the screen edges, cells are stored
/// row-major.
pub open spec fn sprite_cell(sx: int, sy: int, r: int, b: int) -> int {
    ((sy + r) % 32) * 64 + ((sx + b) % 64)
}

/// Whether bit b (most-significant first) of a sprite byte is set.
pub open spec fn sprite_bit(byte: u8, b: int) -> bool {
    (byte >> ((7 - b) as u8)) & 1 == 1
}

/// Whether the sprite of n rows at memory address i, drawn at (sx, sy),
/// covers frame-buffer cell p: some set sprite bit lands there. Each cell is
/// covered by at most one sprite bit, because the 8 columns stay distinct
/// modulo 64 and the up-to-15 rows stay distinct modulo 32.
pub open spec fn sprite_covers(
    mem: Seq<u8>,
    i: int,
    sx: int,
    sy: int,
    n: int,
    p: int,
) -> bool {
    exists|r: int, b: int|
        0 <= r < n && 0 <= b < 8 && p == #[trigger] sprite_cell(sx, sy, r, b) && sprite_bit(
            mem[i + r],
            b,
        )
}

/// The cells covered by the part of the sprite already processed when the
/// drawing loop stands at row `row`, bit `b`: rows before `row` whole, and
/// of row `row` the bits before `b`.
pub open spec fn covers_before(
    mem: Seq<u8>,
    i: int,
    sx: int,
    sy: int,
    row: int,
    b: int,
    p: int,
) -> bool {
    exists|r2: int, b2: int|
        0 <= r2 && 0 <= b2 < 8 && (r2 < row || (r2 == row && b2 < b)) && p
            == #[trigger] sprite_cell(sx, sy, r2, b2) && sprite_bit(mem[i + r2], b2)
}

/// Distinct sprite bits land on distinct cells: the up-to-31 rows stay
/// distinct modulo 32 and the 8 columns stay distinct modulo 64.
pub proof fn lemma_sprite_cell_inj(sx: int, sy: int, r1: int, b1: int, r2: int, b2: int)
    requires
        0 <= sx,
        0 <= sy,
        0 <= r1 < 32,
        0 <= r2 < 32,
        0 <= b1 < 8,
        0 <= b2 < 8,
        sprite_cell(sx, sy, r1, b1) == sprite_cell(sx, sy, r2, b2),
    ensures
        r1 == r2,
        b1 == b2,
{
    let cy1 = (sy + r1) % 32;
    let cy2 = (sy + r2) % 32;
    let cx1 = (sx + b1) % 64;
    let cx2 = (sx + b2) % 64;
    assert(0 <= cy1 < 32 && 0 <= cy2 < 32 && 0 <= cx1 < 64 && 0 <= cx2 < 64);
    assert(cy1 * 64 + cx1 == cy2 * 64 + cx2);
    assert(cy1 == cy2 && cx1 == cx2) by (nonlinear_arith)
        requires
            0 <= cy1 < 32 && 0 <= cy2 < 32 && 0 <= cx1 < 64 && 0 <= cx2 < 64,
            cy1 * 64 + cx1 == cy2 * 64 + cx2,
    ;
    let qy1 = (sy + r1) / 32;
    let qy2 = (sy + r2) / 32;
    vstd::arithmetic::div_mod::lemma_fundamental_div_mod(sy + r1, 32);
    vstd::arithmetic::div_mod::lemma_fundamental_div_mod(sy + r2, 32);
    assert(r1 - r2 == 32 * (qy1 - qy2));
    assert(r1 == r2) by (nonlinear_arith)
        requires
            r1 - r2 == 32 * (qy1 - qy2),
            0 <= r1 < 32,
            0 <= r2 < 32,
    ;
    let qx1 = (sx + b1) / 64;
    let qx2 = (sx + b2) / 64;
    vstd::arithmetic::div_mod::lemma_fundamental_div_mod(sx + b1, 64);
    vstd::arithmetic::div_mod::lemma_fundamental_div_mod(sx + b2, 64);
    assert(b1 - b2 == 64 * (qx1 - qx2));
    assert(b1 == b2) by (nonlinear_arith)
        requires
            b1 - b2 == 64 * (qx1 - qx2),
            0 <= b1 < 8,
            0 <= b2 < 8,
    ;
}

/// Every sprite bit lands inside the 2048-cell frame buffer.
pub proof fn lemma_sprite_cell_bounds(sx: int, sy: int, r: int, b: int)
    requires
        0 <= sx,
        0 <= sy,
        0 <= r,
        0 <= b,
    ensures
        0 <= sprite_cell(sx, sy, r, b) < 2048,
{
    assert(0 <= (sy + r) % 32 < 32);
    assert(0 <= (sx + b) % 64 < 64);
}

/// Processing a clear sprite bit covers nothing new.
pub proof fn lemma_covers_grow_miss(mem: Seq<u8>, i: int, sx: int, sy: int, row: int, b: int)
    requires
        0 <= b < 8,
        0 <= row,
        !sprite_bit(mem[i + row], b),
    ensures
        forall|p: int| #[trigger]
            covers_before(mem, i, sx, sy, row, b + 1, p) == covers_before(
                mem,
                i,
                sx,
                sy,
                row,
                b,
                p,
            ),
{
    assert forall|p: int| #[trigger]
        covers_before(mem, i, sx, sy, row, b + 1, p) == covers_before(
            mem,
            i,
            sx,
            sy,
            row,
            b,
            p,
        ) by {
        if covers_before(mem, i, sx, sy, row, b + 1, p) {
            let (r2, b2) = choose|r2: int, b2: int|
                0 <= r2 && 0 <= b2 < 8 && (r2 < row || (r2 == row && b2 < b + 1)) && p
                    == #[trigger] sprite_cell(sx, sy, r2, b2) && sprite_bit(mem[i + r2], b2);
            assert(!(r2 == row && b2 == b));
            assert(covers_before(mem, i, sx, sy, row, b, p));
        }
        if covers_before(mem, i, sx, sy, row, b, p) {
            let (r2, b2) = choose|r2: int, b2: int|
                0 <= r2 && 0 <= b2 < 8 && (r2 < row || (r2 == row && b2 < b)) && p
                    == #[trigger] sprite_cell(sx, sy, r2, b2) && sprite_bit(mem[i + r2], b2);
            assert(covers_before(mem, i, sx, sy, row, b + 1, p));
        }
    }
}

/// Processing a set sprite bit covers exactly one new cell, a cell no
/// earlier bit covered.
pub proof fn lemma_covers_grow_hit(mem: Seq<u8>, i: int, sx: int, sy: int, row: int, b: int)
    requires
        0 <= b < 8,
        0 <= row < 32,
        0 <= sx,
        0 <= sy,
        sprite_bit(mem[i + row], b),
    ensures
        forall|p: int| #[trigger]
            covers_before(mem, i, sx, sy, row, b + 1, p) == (covers_before(
                mem,
                i,
                sx,
                sy,
                row,
                b,
                p,
            ) || p == sprite_cell(sx, sy, row, b)),
        !covers_before(mem, i, sx, sy, row, b, sprite_cell(sx, sy, row, b)),
{
    assert forall|p: int| #[trigger]
        covers_before(mem, i, sx, sy, row, b + 1, p) == (covers_before(mem, i, sx, sy, row, b, p)
            || p == sprite_cell(sx, sy, row, b)) by {
        if covers_before(mem, i, sx, sy, row, b + 1, p) {
            let (r2, b2) = choose|r2: int, b2: int|
                0 <= r2 && 0 <= b2 < 8 && (r2 < row || (r2 == row && b2 < b + 1)) && p
                    == #[trigger] sprite_cell(sx, sy, r2, b2) && sprite_bit(mem[i + r2], b2);
            if r2 == row && b2 == b {
                assert(p == sprite_cell(sx, sy, row, b));
            } else {
                assert(covers_before(mem, i, sx, sy, row, b, p));
            }
        }
        if covers_before(mem, i, sx, sy, row, b, p) {
            let (r2, b2) = choose|r2: int, b2: int|
                0 <= r2 && 0 <= b2 < 8 && (r2 < row || (r2 == row && b2 < b)) && p
                    == #[trigger] sprite_cell(sx, sy, r2, b2) && sprite_bit(mem[i + r2], b2);
            assert(covers_before(mem, i, sx, sy, row, b + 1, p));
        }
        if p == sprite_cell(sx, sy, row, b) {
            assert(covers_before(mem, i, sx, sy, row, b + 1, p));
        }
    }
    if covers_before(mem, i, sx, sy, row, b, sprite_cell(sx, sy, row, b)) {
        let (r2, b2) = choose|r2: int, b2: int|
            0 <= r2 && 0 <= b2 < 8 && (r2 < row || (r2 == row && b2 < b)) && sprite_cell(
                sx,
                sy,
                row,
                b,
            ) == #[trigger] sprite_cell(sx, sy, r2, b2) && sprite_bit(mem[i + r2], b2);
        lemma_sprite_cell_inj(sx, sy, row, b, r2, b2);
    }
}

/// Finishing a row is the same as standing at the start of the next row.
pub proof fn lemma_covers_row_roll(mem: Seq<u8>, i: int, sx: int, sy: int, row: int)
    ensures
        forall|p: int| #[trigger]
            covers_before(mem, i, sx, sy, row + 1, 0, p) == covers_before(
                mem,
                i,
                sx,
                sy,
                row,
                8,
                p,
            ),
{
    assert forall|p: int| #[trigger]
        covers_before(mem, i, sx, sy, row + 1, 0, p) == covers_before(
            mem,
            i,
            sx,
            sy,
            row,
            8,
            p,
        ) by {
        if covers_before(mem, i, sx, sy, row + 1, 0, p) {
            let (r2, b2) = choose|r2: int, b2: int|
                0 <= r2 && 0 <= b2 < 8 && (r2 < row + 1 || (r2 == row + 1 && b2 < 0)) && p
                    == #[trigger] sprite_cell(sx, sy, r2, b2) && sprite_bit(mem[i + r2], b2);
            assert(covers_before(mem, i, sx, sy, row, 8, p));
        }
        if covers_before(mem, i, sx, sy, row, 8, p) {
            let (r2, b2) = choose|r2: int, b2: int|
                0 <= r2 && 0 <= b2 < 8 && (r2 < row || (r2 == row && b2 < 8)) && p
                    == #[trigger] sprite_cell(sx, sy, r2, b2) && sprite_bit(mem[i + r2], b2);
            assert(covers_before(mem, i, sx, sy, row + 1, 0, p));
        }
    }
}

/// When the drawing loop has processed all `n` rows, the cells it covered
/// are exactly the cells the sprite covers.
pub proof fn lemma_covers_before_full(mem: Seq<u8>, i: int, sx: int, sy: int, n: int)
    ensures
        forall|p: int| #[trigger]
            covers_before(mem, i, sx, sy, n, 0, p) == sprite_covers(mem, i, sx, sy, n, p),
{
    assert forall|p: int| #[trigger]
        covers_before(mem, i, sx, sy, n, 0, p) == sprite_covers(mem, i, sx, sy, n, p) by {
        if covers_before(mem, i, sx, sy, n, 0, p) {
            let (r2, b2) = choose|r2: int, b2: int|
                0 <= r2 && 0 <= b2 < 8 && (r2 < n || (r2 == n && b2 < 0)) && p
                    == #[trigger] sprite_cell(sx, sy, r2, b2) && sprite_bit(mem[i + r2], b2);
            assert(sprite_covers(mem, i, sx, sy, n, p));
        }
        if sprite_covers(mem, i, sx, sy, n, p) {
            let (r2, b2) = choose|r2: int, b2: int|
                0 <= r2 < n && 0 <= b2 < 8 && p == #[trigger] sprite_cell(sx, sy, r2, b2)
                    && sprite_bit(mem[i + r2], b2);
            assert(covers_before(mem, i, sx, sy, n, 0, p));
        }
    }
}

/// Whether some cell the processed part of the sprite covers was already
/// lit in the frame buffer the draw started from.
pub open spec fn collides_before(
    gfx: Seq<u8>,
    mem: Seq<u8>,
    i: int,
    sx: int,
    sy: int,
    row: int,
    b: int,
) -> bool {
    exists|p: int|
        0 <= p < 2048 && #[trigger] covers_before(mem, i, sx, sy, row, b, p) && gfx[p] == 1
}

/// A clear sprite bit leaves the collision unchanged.
pub proof fn lemma_collides_grow_miss(
    gfx: Seq<u8>,
    mem: Seq<u8>,
    i: int,
    sx: int,
    sy: int,
    row: int,
    b: int,
)
    requires
        0 <= b < 8,
        0 <= row,
        !sprite_bit(mem[i + row], b),
    ensures
        collides_before(gfx, mem, i, sx, sy, row, b + 1) == collides_before(
            gfx,
            mem,
            i,
            sx,
            sy,
            row,
            b,
        ),
{
    lemma_covers_grow_miss(mem, i, sx, sy, row, b);
    if collides_before(gfx, mem, i, sx, sy, row, b + 1) {
        let p = choose|p: int|
            0 <= p < 2048 && #[trigger] covers_before(mem, i, sx, sy, row, b + 1, p) && gfx[p]
                == 1;
        assert(covers_before(mem, i, sx, sy, row, b, p));
    }
    if collides_before(gfx, mem, i, sx, sy, row, b) {
        let p = choose|p: int|
            0 <= p < 2048 && #[trigger] covers_before(mem, i, sx, sy, row, b, p) && gfx[p] == 1;
        assert(covers_before(mem, i, sx, sy, row, b + 1, p));
    }
}

/// A set sprite bit adds exactly its own cell to the collision test.
pub proof fn lemma_collides_grow_hit(
    gfx: Seq<u8>,
    mem: Seq<u8>,
    i: int,
    sx: int,
    sy: int,
    row: int,
    b: int,
)
    requires
        0 <= b < 8,
        0 <= row < 32,
        0 <= sx,
        0 <= sy,
        sprite_bit(mem[i + row], b),
    ensures
        collides_before(gfx, mem, i, sx, sy, row, b + 1) == (collides_before(
            gfx,
            mem,
            i,
            sx,
            sy,
            row,
            b,
        ) || gfx[sprite_cell(sx, sy, row, b)] == 1),
{
    lemma_covers_grow_hit(mem, i, sx, sy, row, b);
    lemma_sprite_cell_bounds(sx, sy, row, b);
    let cell = sprite_cell(sx, sy, row, b);
    if collides_before(gfx, mem, i, sx, sy, row, b + 1) {
        let p = choose|p: int|
            0 <= p < 2048 && #[trigger] covers_before(mem, i, sx, sy, row, b + 1, p) && gfx[p]
                == 1;
        if p != cell {
            assert(covers_before(mem, i, sx, sy, row, b, p));
        }
    }
    if collides_before(gfx, mem, i, sx, sy, row, b) {
        let p = choose|p: int|
            0 <= p < 2048 && #[trigger] covers_before(mem, i, sx, sy, row, b, p) && gfx[p] == 1;
        assert(covers_before(mem, i, sx, sy, row, b + 1, p));
    }
    if gfx[cell] == 1 {
        assert(covers_before(mem, i, sx, sy, row, b + 1, cell));
    }
}

/// Finishing a row leaves the collision where the next row starts.
pub proof fn lemma_collides_row_roll(
    gfx: Seq<u8>,
    mem: Seq<u8>,
    i: int,
    sx: int,
    sy: int,
    row: int,
)
    ensures
        collides_before(gfx, mem, i, sx, sy, row + 1, 0) == collides_before(
            gfx,
            mem,
            i,
            sx,
            sy,
            row,
            8,
        ),
{
    lemma_covers_row_roll(mem, i, sx, sy, row);
    if collides_before(gfx, mem, i, sx, sy, row + 1, 0) {
        let p = choose|p: int|
            0 <= p < 2048 && #[trigger] covers_before(mem, i, sx, sy, row + 1, 0, p) && gfx[p]
                == 1;
        assert(covers_before(mem, i, sx, sy, row, 8, p));
    }
    if collides_before(gfx, mem, i, sx, sy, row, 8) {
        let p = choose|p: int|
            0 <= p < 2048 && #[trigger] covers_before(mem, i, sx, sy, row, 8, p) && gfx[p] == 1;
        assert(covers_before(mem, i, sx, sy, row + 1, 0, p));
    }
}

/// After all `n` rows the collision test is exactly `draw_collides`.
pub proof fn lemma_collides_full(
    gfx: Seq<u8>,
    mem: Seq<u8>,
    i: int,
    sx: int,
    sy: int,
    n: int,
)
    ensures
        collides_before(gfx, mem, i, sx, sy, n, 0) == draw_collides(gfx, mem, i, sx, sy, n),
{
    lemma_covers_before_full(mem, i, sx, sy, n);
    if collides_before(gfx, mem, i, sx, sy, n, 0) {
        let p = choose|p: int|
            0 <= p < 2048 && #[trigger] covers_before(mem, i, sx, sy, n, 0, p) && gfx[p] == 1;
        assert(sprite_covers(mem, i, sx, sy, n, p));
    }
    if draw_collides(gfx, mem, i, sx, sy, n) {
        let p = choose|p: int|
            0 <= p < 2048 && #[trigger] sprite_covers(mem, i, sx, sy, n, p) && gfx[p] == 1;
        assert(covers_before(mem, i, sx, sy, n, 0, p));
    }
}

/// A binary cell after an XOR with 1.
pub open spec fn flip01(g: u8) -> u8 {
    if g == 1 { 0u8 } else { 1u8 }
}

/// The frame buffer after the sprite is drawn: covered cells flip, others
/// stay.
pub open spec fn draw_gfx(
    gfx: Seq<u8>,
    mem: Seq<u8>,
    i: int,
    sx: int,
    sy: int,
    n: int,
) -> Seq<u8> {
    Seq::new(2048, |p: int| if sprite_covers(mem, i, sx, sy, n, p) { flip01(gfx[p]) } else { gfx[p] })
}

/// Whether the draw collides: some covered cell is already lit.
pub open spec fn draw_collides(
    gfx: Seq<u8>,
    mem: Seq<u8>,
    i: int,
    sx: int,
    sy: int,
    n: int,
) -> bool {
    exists|p: int| 0 <= p < 2048 && #[trigger] sprite_covers(mem, i, sx, sy, n, p) && gfx[p] == 1
}

/// `Dxyn`: reading the n sprite rows must stay inside memory; then covered
/// cells flip, V15 records the collision, and a redraw is owed.
pub open spec fn sem_draw(s: CpuState, x: u8, y: u8, n: u8) -> StepOut {
    if n > 0 && s.i + n > 4096 {
        step_fault(s, Fault::MemoryFault)
    } else {
        let sx = s.v[x as int] as int;
        let sy = s.v[y as int] as int;
        let collision: u8 = if draw_collides(s.gfx, s.mem, s.i as int, sx, sy, n as int) {
            1
        } else {
            0
        };
        step_ok(
            CpuState {
                gfx: draw_gfx(s.gfx, s.mem, s.i as int, sx, sy, n as int),
                v: s.v.update(15, collision),
                redraw: true,
                pc: adv(s.pc),
                ..s
            },
        )
    }
}

/// The key flag an `Ex9E`/`ExA1` instruction tests: the engine consumes
/// 4-bit key identifiers, so only the low nibble of Vx names a key.
pub open spec fn key_of(s: CpuState, x: u8) -> u8 {
    s.key[(s.v[x as int] % 16) as int]
}

/// `Fx15`.
pub open spec fn sem_store_delay(s: CpuState, x: u8) -> CpuState {
    CpuState { delay: s.v[x as int], pc: adv(s.pc), ..s }
}

/// `Fx18`.
pub open spec fn sem_store_sound(s: CpuState, x: u8) -> CpuState {
    CpuState { sound: s.v[x as int], pc: adv(s.pc), ..s }
}

/// `Fx1E`: I = I + Vx with 16-bit wraparound; no flag effect.
pub open spec fn sem_add_index(s: CpuState, x: u8) -> CpuState {
    CpuState { i: ((s.i + s.v[x as int]) % 0x10000) as u16, pc: adv(s.pc), ..s }
}

/// `Fx29`: I = 5 times the hex digit in the low nibble of Vx — the base of
/// that digit's glyph, the font sitting at address 0.
pub open spec fn sem_font_index(s: CpuState, x: u8) -> CpuState {
    CpuState { i: ((s.v[x as int] % 16) * 5) as u16, pc: adv(s.pc), ..s }
}

/// `Fx33`: the three decimal digits of Vx go to I, I+1, I+2; I itself stays.
pub open spec fn sem_store_bcd(s: CpuState, x: u8) -> StepOut {
    if s.i + 3 > 4096 {
        step_fault(s, Fault::MemoryFault)
    } else {
        let vx = s.v[x as int];
        step_ok(
            CpuState {
                mem: s.mem.update(s.i as int, (vx / 100) as u8).update(
                    s.i + 1,
                    ((vx / 10) % 10) as u8,
                ).update(s.i + 2, (vx % 10) as u8),
                pc: adv(s.pc),
                ..s
            },
        )
    }
}

/// `Fx55`: V0..=Vx go to memory at I..=I+x; I advances past the block.
pub open spec fn sem_store_regs(s: CpuState, x: u8) -> StepOut {
    if s.i + x + 1 > 4096 {
        step_fault(s, Fault::MemoryFault)
    } else {
        step_ok(
            CpuState {
                mem: Seq::new(
                    4096,
                    |a: int| if s.i <= a <= s.i + x { s.v[a - s.i] } else { s.mem[a] },
                ),
                i: (s.i + x + 1) as u16,
                pc: adv(s.pc),
                ..s
            },
        )
    }
}

/// `Fx65`: V0..=Vx are filled from memory at I..=I+x; I advances past the
/// block.
pub open spec fn sem_load_regs(s: CpuState, x: u8) -> StepOut {
    if s.i + x + 1 > 4096 {
        step_fault(s, Fault::MemoryFault)
    } else {
        step_ok(
            CpuState {
                v: Seq::new(16, |r: int| if r <= x { s.mem[s.i + r] } else { s.v[r] }),
                i: (s.i + x + 1) as u16,
                pc: adv(s.pc),
                ..s
            },
        )
    }
}

/// The effect of one decoded instruction. `rnd` is the byte the randomness
/// source returned; only `RandMask` looks at it.
pub open spec fn spec_execute(s: CpuState, instr: Instr, rnd: u8) -> StepOut {
    match instr {
        Instr::ClearScreen => step_ok(sem_clear(s)),
        Instr::Ret => sem_ret(s),
        Instr::Jump(nnn) => step_ok(sem_jump(s, nnn)),
        Instr::Call(nnn) => sem_call(s, nnn),
        Instr::SkipEqImm(x, nn) => step_ok(sem_skip_if(s, s.v[x as int] == nn)),
        Instr::SkipNeImm(x, nn) => step_ok(sem_skip_if(s, s.v[x as int] != nn)),
        Instr::SkipEqReg(x, y) => step_ok(sem_skip_if(s, s.v[x as int] == s.v[y as int])),
        Instr::StoreImm(x, nn) => step_ok(sem_store_reg(s, x, nn)),
        Instr::AddImm(x, nn) => step_ok(sem_add_imm(s, x, nn)),
        Instr::CopyReg(x, y) => step_ok(sem_store_reg(s, x, s.v[y as int])),
        Instr::OrReg(x, y) => step_ok(sem_store_reg(s, x, s.v[x as int] | s.v[y as int])),
        Instr::AndReg(x, y) => step_ok(sem_store_reg(s, x, s.v[x as int] & s.v[y as int])),
        Instr::XorReg(x, y) => step_ok(sem_store_reg(s, x, s.v[x as int] ^ s.v[y as int])),
        Instr::AddReg(x, y) => step_ok(sem_add_reg(s, x, y)),
        Instr::SubReg(x, y) => step_ok(sem_sub_reg(s, x, y)),
        Instr::ShrReg(x) => step_ok(sem_shr_reg(s, x)),
        Instr::RsubReg(x, y) => step_ok(sem_rsub_reg(s, x, y)),
        Instr::ShlReg(x) => step_ok(sem_shl_reg(s, x)),
        Instr::SkipNeReg(x, y) => step_ok(sem_skip_if(s, s.v[x as int] != s.v[y as int])),
        Instr::StoreIndex(nnn) => step_ok(sem_store_index(s, nnn)),
        Instr::RandMask(x, nn) => step_ok(sem_store_reg(s, x, rnd & nn)),
        Instr::Draw(x, y, n) => sem_draw(s, x, y, n),
        Instr::SkipKeyDown(x) => step_ok(sem_skip_if(s, key_of(s, x) != 0)),
        Instr::SkipKeyUp(x) => step_ok(sem_skip_if(s, key_of(s, x) == 0)),
        Instr::ReadDelay(x) => step_ok(sem_store_reg(s, x, s.delay)),
        Instr::StoreDelay(x) => step_ok(sem_store_delay(s, x)),
        Instr::StoreSound(x) => step_ok(sem_store_sound(s, x)),
        Instr::AddIndex(x) => step_ok(sem_add_index(s, x)),
        Instr::FontIndex(x) => step_ok(sem_font_index(s, x)),
        Instr::StoreBcd(x) => sem_store_bcd(s, x),
        Instr::StoreRegs(x) => sem_store_regs(s, x),
        Instr::LoadRegs(x) => sem_load_regs(s, x),
        Instr::Unknown(op) => step_fault(s, Fault::InvalidInstruction(op)),
    }
}

/// Only `Cxnn` consults the randomness source.
pub open spec fn is_random(instr: Instr) -> bool {
    instr is RandMask
}

/// The 16-bit big-endian instruction word at the program counter.
pub open spec fn fetch_word(s: CpuState) -> u16 {
    (s.mem[s.pc as int] * 256 + s.mem[s.pc + 1]) as u16
}

/// Whether both bytes of the word at the program counter lie in memory.
pub open spec fn fetch_in_bounds(s: CpuState) -> bool {
    s.pc + 2 <= 4096
}

/// One fetch-decode-execute step: fetching outside memory is a fault;
/// otherwise the decoded instruction is applied.
pub open spec fn spec_step(s: CpuState, rnd: u8) -> StepOut {
    if !fetch_in_bounds(s) {
        step_fault(s, Fault::MemoryFault)
    } else {
        spec_execute(s, spec_decode(fetch_word(s)), rnd)
    }
}

/// Whether the instruction the next step would execute consults the
/// randomness source.
pub open spec fn step_is_random(s: CpuState) -> bool {
    fetch_in_bounds(s) && is_random(spec_decode(fetch_word(s)))
}

/// A run of several steps, one random byte per step, stopping at the first
/// fault.
pub open spec fn spec_run(s: CpuState, rnds: Seq<u8>) -> StepOut
    decreases rnds.len(),
{
    if rnds.len() == 0 {
        step_ok(s)
    } else {
        let first = spec_step(s, rnds[0]);
        if first.fault is Some {
            first
        } else {
            spec_run(first.state, rnds.drop_first())
        }
    }
}

/// Extending a fault-free run by one step runs that step from the state the
/// run reached.
#[verifier::rlimit(100)]
pub proof fn lemma_run_snoc(s: CpuState, rnds: Seq<u8>, rnd: u8)
    requires
        spec_run(s, rnds).fault is None,
    ensures
        spec_run(s, rnds.push(rnd)) == spec_step(spec_run(s, rnds).state, rnd),
    decreases rnds.len(),
{
    if rnds.len() == 0 {
        assert(rnds.push(rnd)[0] == rnd);
        assert(rnds.push(rnd).drop_first() =~= Seq::<u8>::empty());
    } else {
        assert(rnds.push(rnd)[0] == rnds[0]);
        assert(rnds.push(rnd).drop_first() =~= rnds.drop_first().push(rnd));
        lemma_run_snoc(spec_step(s, rnds[0]).state, rnds.drop_first(), rnd);
    }
}

/// A run that has already faulted ignores the remaining random bytes.
#[verifier::rlimit(100)]
pub proof fn lemma_run_after_fault(s: CpuState, rnds: Seq<u8>, more: Seq<u8>)
    requires
        spec_run(s, rnds).fault is Some,
    ensures
        spec_run(s, rnds + more) == spec_run(s, rnds),
    decreases rnds.len(),
{
    if rnds.len() == 0 {
    } else {
        assert((rnds + more)[0] == rnds[0]);
        let first = spec_step(s, rnds[0]);
        if first.fault is Some {
            assert(spec_run(s, rnds) == first);
            assert(spec_run(s, rnds + more) == first);
        } else {
            assert((rnds + more).drop_first() =~= rnds.drop_first() + more);
            lemma_run_after_fault(first.state, rnds.drop_first(), more);
        }
    }
}

/// How a whole `cycle` call observed from outside relates two states, a
/// result and the sequence of random bytes its steps consumed: the n steps
/// run first; a fault is returned with the state the run had reached; a
/// fault-free run is followed by exactly one timer tick whose tone edge is
/// the call's result.
pub open spec fn cycle_obs(
    s0: CpuState,
    s1: CpuState,
    r: Result<bool, Fault>,
    rnds: Seq<u8>,
    n: int,
) -> bool {
    rnds.len() == n && {
        let ro = spec_run(s0, rnds);
        match ro.fault {
            Some(f) => s1 == ro.state && r == Err::<bool, Fault>(f),
            None => s1 == tick_state(ro.state) && r == Ok::<bool, Fault>(tick_edge(ro.state)),
        }
    }
}

/// One timer tick: both timers saturate at zero.
pub open spec fn tick_state(s: CpuState) -> CpuState {
    CpuState {
        delay: if s.delay > 0 { (s.delay - 1) as u8 } else { 0 },
        sound: if s.sound > 0 { (s.sound - 1) as u8 } else { 0 },
        ..s
    }
}

/// Whether a tick emits the tone edge: exactly when the sound timer stood at
/// 1 just before the decrement.
pub open spec fn tick_edge(s: CpuState) -> bool {
    s.sound == 1
}

/// A program image of length len written verbatim at 0x200.
pub open spec fn spec_load(s: CpuState, bytes: Seq<u8>) -> CpuState {
    CpuState {
        mem: Seq::new(
            4096,
            |a: int| if 0x200 <= a < 0x200 + bytes.len() { bytes[a - 0x200] } else { s.mem[a] },
        ),
        ..s
    }
}

/// Initialisation: the font seeded into the first 80 bytes, the program
/// counter at 0x200.
pub open spec fn spec_init(s: CpuState) -> CpuState {
    CpuState {
        mem: Seq::new(4096, |a: int| if 0 <= a < 80 { spec_fontset()[a] } else { s.mem[a] }),
        pc: 0x200,
        ..s
    }
}

/// How an execution observed from outside relates two states, a result and a
/// random byte: the state and the returned fault are exactly those of
/// `spec_execute`.
pub open spec fn instr_obs(
    s0: CpuState,
    s1: CpuState,
    r: Result<(), Fault>,
    instr: Instr,
    rnd: u8,
) -> bool {
    let so = spec_execute(s0, instr, rnd);
    s1 == so.state && res_fault(r) == so.fault
}

/// How one fetch-decode-execute step observed from outside relates two
/// states, a result and a random byte.
pub open spec fn step_obs(s0: CpuState, s1: CpuState, r: Result<(), Fault>, rnd: u8) -> bool {
    let so = spec_step(s0, rnd);
    s1 == so.state && res_fault(r) == so.fault
}

/// The fault a `Result` carries.
pub open spec fn res_fault(r: Result<(), Fault>) -> Option<Fault> {
    match r {
        Ok(_) => None,
        Err(f) => Some(f),
    }
}

} // verus!
