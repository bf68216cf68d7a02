//! The execution engine: one instance owns the whole machine state and
//! executes one decoded instruction per step. Every public operation is
//! specified against the abstract state in `state` through the semantics
//! functions in `semantics`.

use vstd::prelude::*;
use crate::state::CpuState;
use crate::state::Fault;
use crate::state::spec_fontset;
use crate::state::spec_zeroed;
use crate::state::wf_state;
use crate::decode::Instr;
use crate::decode::decode;
use crate::decode::instr_wf;
use crate::decode::spec_decode;
use crate::semantics::adv;
use crate::semantics::cycle_obs;
use crate::semantics::fetch_word;
use crate::semantics::flip01;
use crate::semantics::instr_obs;
use crate::semantics::is_random;
use crate::semantics::key_of;
use crate::semantics::lemma_run_after_fault;
use crate::semantics::lemma_run_snoc;
use crate::semantics::res_fault;
use crate::semantics::sem_add_imm;
use crate::semantics::sem_add_index;
use crate::semantics::sem_add_reg;
use crate::semantics::sem_call;
use crate::semantics::sem_clear;
use crate::semantics::sem_draw;
use crate::semantics::sem_font_index;
use crate::semantics::sem_jump;
use crate::semantics::sem_load_regs;
use crate::semantics::sem_ret;
use crate::semantics::sem_rsub_reg;
use crate::semantics::sem_shl_reg;
use crate::semantics::sem_shr_reg;
use crate::semantics::sem_skip_if;
use crate::semantics::sem_store_bcd;
use crate::semantics::sem_store_delay;
use crate::semantics::sem_store_index;
use crate::semantics::sem_store_reg;
use crate::semantics::sem_store_regs;
use crate::semantics::sem_store_sound;
use crate::semantics::sem_sub_reg;
use crate::semantics::spec_init;
use crate::semantics::spec_load;
use crate::semantics::spec_run;
use crate::semantics::sprite_bit;
use crate::semantics::sprite_cell;
use crate::semantics::covers_before;
use crate::semantics::collides_before;
use crate::semantics::lemma_covers_before_full;
use crate::semantics::lemma_covers_grow_hit;
use crate::semantics::lemma_covers_grow_miss;
use crate::semantics::lemma_covers_row_roll;
use crate::semantics::lemma_collides_full;
use crate::semantics::lemma_collides_grow_hit;
use crate::semantics::lemma_collides_grow_miss;
use crate::semantics::lemma_collides_row_roll;
use crate::semantics::lemma_sprite_cell_bounds;
use crate::semantics::step_is_random;
use crate::semantics::step_obs;
use crate::semantics::step_ok;
use crate::semantics::tick_edge;
use crate::semantics::tick_state;

verus! {

/// Draws one byte from the process-wide randomness source.
///
/// Relies on `rand::random::<u8>`: it returns a byte from the thread-local
/// generator. Nothing can be promised about the value.
#[verifier::external_body]
fn random_byte() -> u8 {
    rand::random::<u8>()
}

/// A vector of `n` zero bytes.
fn zeroed_u8(n: usize) -> (r: Vec<u8>)
    ensures
        r@ == Seq::new(n as nat, |idx: int| 0u8),
{
    let mut r: Vec<u8> = Vec::new();
    let mut k: usize = 0;
    while k < n
        invariant
            k <= n,
            r@ == Seq::new(k as nat, |idx: int| 0u8),
        decreases n - k,
    {
        r.push(0);
        k = k + 1;
    }
    r
}

/// A vector of `n` zero words.
fn zeroed_u16(n: usize) -> (r: Vec<u16>)
    ensures
        r@ == Seq::new(n as nat, |idx: int| 0u16),
{
    let mut r: Vec<u16> = Vec::new();
    let mut k: usize = 0;
    while k < n
        invariant
            k <= n,
            r@ == Seq::new(k as nat, |idx: int| 0u16),
        decreases n - k,
    {
        r.push(0);
        k = k + 1;
    }
    r
}

/// The built-in font as bytes, in glyph order 0 through F.
#[verifier::rlimit(100)]
fn font_data() -> (r: Vec<u8>)
    ensures
        r@ == spec_fontset(),
{
    let mut r: Vec<u8> = Vec::new();
    r.push(0xF0); r.push(0x90); r.push(0x90); r.push(0x90); r.push(0xF0);
    r.push(0x20); r.push(0x60); r.push(0x20); r.push(0x20); r.push(0x70);
    r.push(0xF0); r.push(0x10); r.push(0xF0); r.push(0x80); r.push(0xF0);
    r.push(0xF0); r.push(0x10); r.push(0xF0); r.push(0x10); r.push(0xF0);
    r.push(0x90); r.push(0x90); r.push(0xF0); r.push(0x10); r.push(0x10);
    r.push(0xF0); r.push(0x80); r.push(0xF0); r.push(0x10); r.push(0xF0);
    r.push(0xF0); r.push(0x80); r.push(0xF0); r.push(0x90); r.push(0xF0);
    r.push(0xF0); r.push(0x10); r.push(0x20); r.push(0x40); r.push(0x40);
    r.push(0xF0); r.push(0x90); r.push(0xF0); r.push(0x90); r.push(0xF0);
    r.push(0xF0); r.push(0x90); r.push(0xF0); r.push(0x10); r.push(0xF0);
    r.push(0xF0); r.push(0x90); r.push(0xF0); r.push(0x90); r.push(0x90);
    r.push(0xE0); r.push(0x90); r.push(0xE0); r.push(0x90); r.push(0xE0);
    r.push(0xF0); r.push(0x80); r.push(0x80); r.push(0x80); r.push(0xF0);
    r.push(0xE0); r.push(0x90); r.push(0x90); r.push(0x90); r.push(0xE0);
    r.push(0xF0); r.push(0x80); r.push(0xF0); r.push(0x80); r.push(0xF0);
    r.push(0xF0); r.push(0x80); r.push(0xF0); r.push(0x80); r.push(0x80);
    proof {
        assert(r@ =~= spec_fontset());
    }
    r
}

/// The machine: memory, registers, call stack, timers, key flags and frame
/// buffer, owned exclusively by one instance.
pub struct Cpu {
    mem: Vec<u8>,
    v: Vec<u8>,
    i: u16,
    pc: u16,
    gfx: Vec<u8>,
    stack: Vec<u16>,
    sp: u16,
    key: Vec<u8>,
    delay_timer: u8,
    sound_timer: u8,
    redraw: bool,
}

impl View for Cpu {
    type V = CpuState;

    closed spec fn view(&self) -> CpuState {
        CpuState {
            mem: self.mem@,
            v: self.v@,
            i: self.i,
            pc: self.pc,
            gfx: self.gfx@,
            stack: self.stack@,
            sp: self.sp,
            key: self.key@,
            delay: self.delay_timer,
            sound: self.sound_timer,
            redraw: self.redraw,
        }
    }
}

impl Default for Cpu {
    /// A machine with everything zeroed; `init` seeds the font and the
    /// program counter.
    fn default() -> (r: Cpu)
        ensures
            r.wf(),
            r@ == spec_zeroed(),
    {
        let r = Cpu {
            mem: zeroed_u8(4096),
            v: zeroed_u8(16),
            i: 0,
            pc: 0,
            gfx: zeroed_u8(2048),
            stack: zeroed_u16(16),
            sp: 0,
            key: zeroed_u8(16),
            delay_timer: 0,
            sound_timer: 0,
            redraw: false,
        };
        proof {
            assert(r@ =~= spec_zeroed());
        }
        r
    }
}

impl Cpu {
    /// Well-formedness of the machine; every operation preserves it.
    pub open spec fn wf(&self) -> bool {
        wf_state(self@)
    }

    /// Seed the font into the first 80 bytes of memory and start the program
    /// counter at 0x200.
    pub fn init(self) -> (r: Cpu)
        requires
            self.wf(),
        ensures
            r.wf(),
            r@ == spec_init(self@),
    {
        let ghost s0 = self@;
        let mut cpu = self;
        let font = font_data();
        let mut a: usize = 0;
        while a < 80
            invariant
                a <= 80,
                font@ == spec_fontset(),
                cpu@.mem.len() == 4096,
                forall|p: int|
                    0 <= p < 4096 ==> cpu@.mem[p] == (if 0 <= p < a {
                        spec_fontset()[p]
                    } else {
                        s0.mem[p]
                    }),
                cpu@ == (CpuState { mem: cpu@.mem, ..s0 }),
            decreases 80 - a,
        {
            let byte = font[a];
            cpu.mem[a] = byte;
            a = a + 1;
        }
        cpu.pc = 0x200;
        proof {
            assert(cpu@.mem =~= spec_init(s0).mem);
            assert(cpu@ =~= spec_init(s0));
        }
        cpu
    }

    /// Load a program image: write it verbatim at 0x200. An image longer
    /// than the 3584 bytes between 0x200 and the end of memory is rejected
    /// before anything is written.
    pub fn load_bytes(&mut self, bytes: &Vec<u8>) -> (r: Result<(), Fault>)
        requires
            old(self).wf(),
        ensures
            final(self).wf(),
            bytes@.len() <= 3584 ==> r is Ok && final(self)@ == spec_load(old(self)@, bytes@),
            bytes@.len() > 3584 ==> r == Err::<(), Fault>(Fault::ProgramTooLarge) && final(self)@
                == old(self)@,
    {
        if bytes.len() > 3584 {
            return Err(Fault::ProgramTooLarge);
        }
        let ghost s0 = self@;
        let mut k: usize = 0;
        while k < bytes.len()
            invariant
                k <= bytes@.len() <= 3584,
                self@.mem.len() == 4096,
                forall|p: int|
                    0 <= p < 4096 ==> self@.mem[p] == (if 0x200 <= p < 0x200 + k {
                        bytes@[p - 0x200]
                    } else {
                        s0.mem[p]
                    }),
                self@ == (CpuState { mem: self@.mem, ..s0 }),
            decreases bytes@.len() - k,
        {
            let byte = bytes[k];
            self.mem[0x200 + k] = byte;
            k = k + 1;
        }
        proof {
            assert(self@.mem =~= spec_load(s0, bytes@).mem);
            assert(self@ =~= spec_load(s0, bytes@));
        }
        Ok(())
    }

    /// The contents of register `register`.
    pub fn read_register(&self, register: u8) -> (r: u8)
        requires
            self.wf(),
            register < 16,
        ensures
            r == self@.v[register as int],
    {
        self.v[register as usize]
    }

    /// Write `content` to register `register`; nothing else moves.
    pub fn set_register(&mut self, register: u8, content: u8)
        requires
            old(self).wf(),
            register < 16,
        ensures
            final(self).wf(),
            final(self)@ == (CpuState {
                v: old(self)@.v.update(register as int, content),
                ..old(self)@
            }),
    {
        self.v[register as usize] = content;
    }

    /// The program counter.
    pub fn pc(&self) -> (r: u16)
        ensures
            r == self@.pc,
    {
        self.pc
    }

    /// Place the program counter; used by hosts and tests to start a run at
    /// a chosen address.
    pub fn set_pc(&mut self, pc: u16)
        requires
            old(self).wf(),
        ensures
            final(self).wf(),
            final(self)@ == (CpuState { pc: pc, ..old(self)@ }),
    {
        self.pc = pc;
    }

    /// The index register I.
    pub fn index_register(&self) -> (r: u16)
        ensures
            r == self@.i,
    {
        self.i
    }

    /// The byte at memory address `offset`.
    pub fn read_mem(&self, offset: u16) -> (r: u8)
        requires
            self.wf(),
            offset < 4096,
        ensures
            r == self@.mem[offset as int],
    {
        self.mem[offset as usize]
    }

    /// Write a byte of memory directly; programs are free to modify
    /// themselves, and tests seed memory this way.
    pub fn write_mem(&mut self, offset: u16, val: u8)
        requires
            old(self).wf(),
            offset < 4096,
        ensures
            final(self).wf(),
            final(self)@ == (CpuState {
                mem: old(self)@.mem.update(offset as int, val),
                ..old(self)@
            }),
    {
        self.mem[offset as usize] = val;
    }

    /// The whole memory, for diagnostics; normal execution does not use it.
    pub fn dump_memory(&self) -> (r: &Vec<u8>)
        ensures
            r@ == self@.mem,
    {
        &self.mem
    }

    /// The frame-buffer cell at row-major position `idx`.
    pub fn read_pixel(&self, idx: usize) -> (r: u8)
        requires
            self.wf(),
            idx < 2048,
        ensures
            r == self@.gfx[idx as int],
    {
        self.gfx[idx]
    }

    /// Write one frame-buffer cell; cells are binary.
    pub fn write_pixel(&mut self, idx: usize, val: u8)
        requires
            old(self).wf(),
            idx < 2048,
            val <= 1,
        ensures
            final(self).wf(),
            final(self)@ == (CpuState {
                gfx: old(self)@.gfx.update(idx as int, val),
                ..old(self)@
            }),
    {
        self.gfx[idx] = val;
    }

    /// Whether a visible change happened since the redraw flag was last
    /// acknowledged.
    pub fn needs_redraw(&self) -> (r: bool)
        ensures
            r == self@.redraw,
    {
        self.redraw
    }

    /// The renderer acknowledges the redraw flag after consuming the frame
    /// buffer; the engine itself never clears it.
    pub fn ack_redraw(&mut self)
        requires
            old(self).wf(),
        ensures
            final(self).wf(),
            final(self)@ == (CpuState { redraw: false, ..old(self)@ }),
    {
        self.redraw = false;
    }

    /// The delay timer.
    pub fn delay_timer(&self) -> (r: u8)
        ensures
            r == self@.delay,
    {
        self.delay_timer
    }

    /// The sound timer.
    pub fn sound_timer(&self) -> (r: u8)
        ensures
            r == self@.sound,
    {
        self.sound_timer
    }

    /// The input collaborator reports a key going down. Key identifiers are
    /// 4-bit; out-of-range identifiers are rejected before reaching the
    /// engine.
    pub fn handle_key_press(&mut self, key: u8)
        requires
            old(self).wf(),
            key < 16,
        ensures
            final(self).wf(),
            final(self)@ == (CpuState {
                key: old(self)@.key.update(key as int, 1u8),
                ..old(self)@
            }),
    {
        self.key[key as usize] = 1;
    }

    /// The input collaborator reports a key going up.
    pub fn handle_key_release(&mut self, key: u8)
        requires
            old(self).wf(),
            key < 16,
        ensures
            final(self).wf(),
            final(self)@ == (CpuState {
                key: old(self)@.key.update(key as int, 0u8),
                ..old(self)@
            }),
    {
        self.key[key as usize] = 0;
    }

    /// One timer tick, independent of how many instructions ran: both timers
    /// saturate at zero, and the tone edge is reported exactly when the
    /// sound timer stood at 1 just before the decrement.
    pub fn tick_timers(&mut self) -> (edge: bool)
        requires
            old(self).wf(),
        ensures
            final(self).wf(),
            final(self)@ == tick_state(old(self)@),
            edge == tick_edge(old(self)@),
    {
        if self.delay_timer > 0 {
            self.delay_timer = self.delay_timer - 1;
        }
        let edge = self.sound_timer == 1;
        if self.sound_timer > 0 {
            self.sound_timer = self.sound_timer - 1;
        }
        edge
    }

    /// The default program-counter advance: one 2-byte word, wrapping.
    fn inc_pc(&mut self)
        requires
            old(self).wf(),
        ensures
            final(self).wf(),
            final(self)@ == (CpuState { pc: adv(old(self)@.pc), ..old(self)@ }),
    {
        if self.pc <= 0xFFFD {
            self.pc = self.pc + 2;
        } else {
            self.pc = self.pc - 0xFFFE;
        }
    }

    /// Advance the program counter by one word, or by two when `cond` holds:
    /// the common shape of the four skip instructions.
    fn skip_pc_if(&mut self, cond: bool)
        requires
            old(self).wf(),
        ensures
            final(self).wf(),
            final(self)@ == sem_skip_if(old(self)@, cond),
    {
        if cond {
            if self.pc <= 0xFFFB {
                self.pc = self.pc + 4;
            } else {
                self.pc = self.pc - 0xFFFC;
            }
        } else {
            self.inc_pc();
        }
    }

    /// `00E0`.
    fn op_clear_screen(&mut self)
        requires
            old(self).wf(),
        ensures
            final(self).wf(),
            final(self)@ == sem_clear(old(self)@),
    {
        self.gfx = zeroed_u8(2048);
        self.redraw = true;
        self.inc_pc();
    }

    /// `00EE`.
    fn op_ret(&mut self) -> (r: Result<(), Fault>)
        requires
            old(self).wf(),
        ensures
            final(self).wf(),
            ({
                let so = sem_ret(old(self)@);
                final(self)@ == so.state && res_fault(r) == so.fault
            }),
    {
        if self.sp == 0 {
            return Err(Fault::StackUnderflow);
        }
        self.sp = self.sp - 1;
        let addr = self.stack[self.sp as usize];
        self.pc = addr;
        Ok(())
    }

    /// `2nnn`.
    fn op_call(&mut self, nnn: u16) -> (r: Result<(), Fault>)
        requires
            old(self).wf(),
        ensures
            final(self).wf(),
            ({
                let so = sem_call(old(self)@, nnn);
                final(self)@ == so.state && res_fault(r) == so.fault
            }),
    {
        if self.sp >= 16 {
            return Err(Fault::StackOverflow);
        }
        let pc = self.pc;
        self.stack[self.sp as usize] = pc;
        self.sp = self.sp + 1;
        self.pc = nnn;
        Ok(())
    }

    /// `7xnn`.
    fn op_add_imm(&mut self, x: u8, nn: u8)
        requires
            old(self).wf(),
            x < 16,
        ensures
            final(self).wf(),
            final(self)@ == sem_add_imm(old(self)@, x, nn),
    {
        let vx = self.v[x as usize];
        let sum: u16 = vx as u16 + nn as u16;
        self.v[x as usize] = (sum % 256) as u8;
        self.inc_pc();
    }

    /// `8xy4`.
    fn op_add_reg(&mut self, x: u8, y: u8)
        requires
            old(self).wf(),
            x < 16,
            y < 16,
        ensures
            final(self).wf(),
            final(self)@ == sem_add_reg(old(self)@, x, y),
    {
        let vx = self.v[x as usize];
        let vy = self.v[y as usize];
        let sum: u16 = vx as u16 + vy as u16;
        let flag: u8 = if sum > 255 {
            1
        } else {
            0
        };
        self.v[15] = flag;
        self.v[x as usize] = (sum % 256) as u8;
        self.inc_pc();
    }

    /// `8xy5`.
    fn op_sub_reg(&mut self, x: u8, y: u8)
        requires
            old(self).wf(),
            x < 16,
            y < 16,
        ensures
            final(self).wf(),
            final(self)@ == sem_sub_reg(old(self)@, x, y),
    {
        let vx = self.v[x as usize];
        let vy = self.v[y as usize];
        let flag: u8 = if vx >= vy {
            1
        } else {
            0
        };
        let diff: u8 = if vx >= vy {
            vx - vy
        } else {
            ((vx as u16 + 256) - vy as u16) as u8
        };
        self.v[15] = flag;
        self.v[x as usize] = diff;
        self.inc_pc();
    }

    /// `8xy7`.
    fn op_rsub_reg(&mut self, x: u8, y: u8)
        requires
            old(self).wf(),
            x < 16,
            y < 16,
        ensures
            final(self).wf(),
            final(self)@ == sem_rsub_reg(old(self)@, x, y),
    {
        let vx = self.v[x as usize];
        let vy = self.v[y as usize];
        let flag: u8 = if vy >= vx {
            1
        } else {
            0
        };
        let diff: u8 = if vy >= vx {
            vy - vx
        } else {
            ((vy as u16 + 256) - vx as u16) as u8
        };
        self.v[15] = flag;
        self.v[x as usize] = diff;
        self.inc_pc();
    }

    /// `8xy6`.
    fn op_shr_reg(&mut self, x: u8)
        requires
            old(self).wf(),
            x < 16,
        ensures
            final(self).wf(),
            final(self)@ == sem_shr_reg(old(self)@, x),
    {
        let vx = self.v[x as usize];
        self.v[x as usize] = vx / 2;
        self.v[15] = vx % 2;
        self.inc_pc();
    }

    /// `8xyE`.
    fn op_shl_reg(&mut self, x: u8)
        requires
            old(self).wf(),
            x < 16,
        ensures
            final(self).wf(),
            final(self)@ == sem_shl_reg(old(self)@, x),
    {
        let vx = self.v[x as usize];
        let flag: u8 = if vx >= 128 {
            1
        } else {
            0
        };
        let doubled: u16 = vx as u16 * 2;
        self.v[x as usize] = (doubled % 256) as u8;
        self.v[15] = flag;
        self.inc_pc();
    }

    /// `Fx33`.
    fn op_store_bcd(&mut self, x: u8) -> (r: Result<(), Fault>)
        requires
            old(self).wf(),
            x < 16,
        ensures
            final(self).wf(),
            ({
                let so = sem_store_bcd(old(self)@, x);
                final(self)@ == so.state && res_fault(r) == so.fault
            }),
    {
        if self.i as u32 + 3 > 4096 {
            return Err(Fault::MemoryFault);
        }
        let vx = self.v[x as usize];
        let base = self.i as usize;
        self.mem[base] = vx / 100;
        self.mem[base + 1] = (vx / 10) % 10;
        self.mem[base + 2] = vx % 10;
        self.inc_pc();
        Ok(())
    }

    /// `Fx55`.
    fn op_store_regs(&mut self, x: u8) -> (r: Result<(), Fault>)
        requires
            old(self).wf(),
            x < 16,
        ensures
            final(self).wf(),
            ({
                let so = sem_store_regs(old(self)@, x);
                final(self)@ == so.state && res_fault(r) == so.fault
            }),
    {
        if self.i as u32 + x as u32 + 1 > 4096 {
            return Err(Fault::MemoryFault);
        }
        let ghost s0 = self@;
        let mut idx: u8 = 0;
        while idx < x + 1
            invariant
                idx <= x + 1,
                x < 16,
                s0.i + x + 1 <= 4096,
                self@.mem.len() == 4096,
                s0.v.len() == 16,
                forall|a: int|
                    0 <= a < 4096 ==> self@.mem[a] == (if s0.i <= a < s0.i + idx {
                        s0.v[a - s0.i]
                    } else {
                        s0.mem[a]
                    }),
                self@ == (CpuState { mem: self@.mem, ..s0 }),
            decreases x + 1 - idx,
        {
            let val = self.v[idx as usize];
            let addr = self.i as usize + idx as usize;
            self.mem[addr] = val;
            idx = idx + 1;
        }
        self.i = self.i + x as u16 + 1;
        self.inc_pc();
        proof {
            let so = sem_store_regs(s0, x);
            assert(self@.mem =~= so.state.mem);
            assert(self@ =~= so.state);
        }
        Ok(())
    }

    /// `Fx65`.
    fn op_load_regs(&mut self, x: u8) -> (r: Result<(), Fault>)
        requires
            old(self).wf(),
            x < 16,
        ensures
            final(self).wf(),
            ({
                let so = sem_load_regs(old(self)@, x);
                final(self)@ == so.state && res_fault(r) == so.fault
            }),
    {
        if self.i as u32 + x as u32 + 1 > 4096 {
            return Err(Fault::MemoryFault);
        }
        let ghost s0 = self@;
        let mut idx: u8 = 0;
        while idx < x + 1
            invariant
                idx <= x + 1,
                x < 16,
                s0.i + x + 1 <= 4096,
                self@.v.len() == 16,
                s0.mem.len() == 4096,
                forall|r2: int|
                    0 <= r2 < 16 ==> self@.v[r2] == (if r2 < idx {
                        s0.mem[s0.i + r2]
                    } else {
                        s0.v[r2]
                    }),
                self@ == (CpuState { v: self@.v, ..s0 }),
            decreases x + 1 - idx,
        {
            let addr = self.i as usize + idx as usize;
            let val = self.mem[addr];
            self.v[idx as usize] = val;
            idx = idx + 1;
        }
        self.i = self.i + x as u16 + 1;
        self.inc_pc();
        proof {
            let so = sem_load_regs(s0, x);
            assert forall|r2: int| 0 <= r2 < 16 implies self@.v[r2] == so.state.v[r2] by {
                assert(self@.v[r2] == (if r2 < x as int + 1 {
                    s0.mem[s0.i + r2]
                } else {
                    s0.v[r2]
                }));
            }
            assert(self@.v =~= so.state.v);
            assert(self@ =~= so.state);
        }
        Ok(())
    }

    /// `Dxyn`: XOR the sprite into the frame buffer, recording a collision
    /// in V15 when a lit cell is flipped off.
    fn op_draw(&mut self, x: u8, y: u8, n: u8) -> (r: Result<(), Fault>)
        requires
            old(self).wf(),
            x < 16,
            y < 16,
            n < 16,
        ensures
            final(self).wf(),
            ({
                let so = sem_draw(old(self)@, x, y, n);
                final(self)@ == so.state && res_fault(r) == so.fault
            }),
    {
        if n > 0 && self.i as u32 + n as u32 > 4096 {
            return Err(Fault::MemoryFault);
        }
        let ghost s0 = self@;
        let gi16 = self.i;
        let start_x = self.v[x as usize];
        let start_y = self.v[y as usize];
        let ghost gi = s0.i as int;
        let ghost sx = s0.v[x as int] as int;
        let ghost sy = s0.v[y as int] as int;
        let mut collision: bool = false;
        let mut row: u8 = 0;
        while row < n
            invariant
                row <= n,
                n < 16,
                n > 0 ==> s0.i + n <= 4096,
                gi == s0.i,
                gi == gi16,
                sx == start_x as int,
                sy == start_y as int,
                0 <= sx < 256,
                0 <= sy < 256,
                s0.mem.len() == 4096,
                s0.gfx.len() == 2048,
                self@.gfx.len() == 2048,
                forall|p: int| 0 <= p < 2048 ==> #[trigger] s0.gfx[p] <= 1,
                forall|p: int|
                    0 <= p < 2048 ==> self@.gfx[p] == (if covers_before(
                        s0.mem,
                        gi,
                        sx,
                        sy,
                        row as int,
                        0,
                        p,
                    ) {
                        flip01(s0.gfx[p])
                    } else {
                        s0.gfx[p]
                    }),
                collision == collides_before(s0.gfx, s0.mem, gi, sx, sy, row as int, 0),
                self@ == (CpuState { gfx: self@.gfx, ..s0 }),
            decreases n - row,
        {
            let addr = gi16 as usize + row as usize;
            let byte = self.mem[addr];
            let mut b: u8 = 0;
            while b < 8
                invariant
                    b <= 8,
                    row < n,
                    n < 16,
                    n > 0 ==> s0.i + n <= 4096,
                    gi == s0.i,
                    gi == gi16,
                    sx == start_x as int,
                    sy == start_y as int,
                    0 <= sx < 256,
                    0 <= sy < 256,
                    byte == s0.mem[gi + row],
                    s0.mem.len() == 4096,
                    s0.gfx.len() == 2048,
                    self@.gfx.len() == 2048,
                    forall|p: int| 0 <= p < 2048 ==> #[trigger] s0.gfx[p] <= 1,
                    forall|p: int|
                        0 <= p < 2048 ==> self@.gfx[p] == (if covers_before(
                            s0.mem,
                            gi,
                            sx,
                            sy,
                            row as int,
                            b as int,
                            p,
                        ) {
                            flip01(s0.gfx[p])
                        } else {
                            s0.gfx[p]
                        }),
                    collision == collides_before(s0.gfx, s0.mem, gi, sx, sy, row as int, b as int),
                    self@ == (CpuState { gfx: self@.gfx, ..s0 }),
                decreases 8 - b,
            {
                let bit_set = (byte >> (7 - b)) & 1 == 1;
                proof {
                    assert(bit_set == sprite_bit(s0.mem[gi + row], b as int));
                }
                if bit_set {
                    let cx = (start_x as usize + b as usize) % 64;
                    let cy = (start_y as usize + row as usize) % 32;
                    let off = cy * 64 + cx;
                    proof {
                        lemma_covers_grow_hit(s0.mem, gi, sx, sy, row as int, b as int);
                        lemma_collides_grow_hit(
                            s0.gfx,
                            s0.mem,
                            gi,
                            sx,
                            sy,
                            row as int,
                            b as int,
                        );
                        lemma_sprite_cell_bounds(sx, sy, row as int, b as int);
                        assert(off == sprite_cell(sx, sy, row as int, b as int));
                        assert(self@.gfx[off as int] == s0.gfx[off as int]);
                    }
                    let cur = self.gfx[off];
                    if cur == 1 {
                        collision = true;
                        self.gfx[off] = 0;
                    } else {
                        self.gfx[off] = 1;
                    }
                    proof {
                        assert forall|p: int| 0 <= p < 2048 implies self@.gfx[p] == (
                        if covers_before(s0.mem, gi, sx, sy, row as int, b as int + 1, p) {
                            flip01(s0.gfx[p])
                        } else {
                            s0.gfx[p]
                        }) by {
                            assert(covers_before(s0.mem, gi, sx, sy, row as int, b as int + 1, p)
                                == (covers_before(s0.mem, gi, sx, sy, row as int, b as int, p) || p
                                == sprite_cell(sx, sy, row as int, b as int)));
                        }
                        assert(collision == collides_before(
                            s0.gfx,
                            s0.mem,
                            gi,
                            sx,
                            sy,
                            row as int,
                            b as int + 1,
                        ));
                    }
                } else {
                    proof {
                        lemma_covers_grow_miss(s0.mem, gi, sx, sy, row as int, b as int);
                        lemma_collides_grow_miss(
                            s0.gfx,
                            s0.mem,
                            gi,
                            sx,
                            sy,
                            row as int,
                            b as int,
                        );
                        assert forall|p: int| 0 <= p < 2048 implies self@.gfx[p] == (
                        if covers_before(s0.mem, gi, sx, sy, row as int, b as int + 1, p) {
                            flip01(s0.gfx[p])
                        } else {
                            s0.gfx[p]
                        }) by {
                            assert(covers_before(s0.mem, gi, sx, sy, row as int, b as int + 1, p)
                                == covers_before(s0.mem, gi, sx, sy, row as int, b as int, p));
                        }
                    }
                }
                b = b + 1;
            }
            proof {
                lemma_covers_row_roll(s0.mem, gi, sx, sy, row as int);
                lemma_collides_row_roll(s0.gfx, s0.mem, gi, sx, sy, row as int);
                assert forall|p: int| 0 <= p < 2048 implies self@.gfx[p] == (
                if covers_before(s0.mem, gi, sx, sy, row as int + 1, 0, p) {
                    flip01(s0.gfx[p])
                } else {
                    s0.gfx[p]
                }) by {
                    assert(covers_before(s0.mem, gi, sx, sy, row as int + 1, 0, p)
                        == covers_before(s0.mem, gi, sx, sy, row as int, 8, p));
                }
            }
            row = row + 1;
        }
        let flag: u8 = if collision {
            1
        } else {
            0
        };
        self.v[15] = flag;
        self.redraw = true;
        self.inc_pc();
        proof {
            lemma_covers_before_full(s0.mem, gi, sx, sy, n as int);
            lemma_collides_full(s0.gfx, s0.mem, gi, sx, sy, n as int);
            let so = sem_draw(s0, x, y, n);
            assert(self@.gfx =~= so.state.gfx);
            assert(self@.v =~= so.state.v);
            assert(self@ =~= so.state);
        }
        Ok(())
    }

    /// Write `val` to register `x` and advance: the shared tail of `6xnn`,
    /// the `8xy` register moves, `Cxnn` and `Fx07`.
    fn store_and_advance(&mut self, x: u8, val: u8)
        requires
            old(self).wf(),
            x < 16,
        ensures
            final(self).wf(),
            final(self)@ == sem_store_reg(old(self)@, x, val),
    {
        self.v[x as usize] = val;
        self.inc_pc();
    }

    /// `1nnn`.
    fn op_jump(&mut self, nnn: u16)
        requires
            old(self).wf(),
        ensures
            final(self).wf(),
            final(self)@ == sem_jump(old(self)@, nnn),
    {
        self.pc = nnn;
    }

    /// `Annn`.
    fn op_store_index(&mut self, nnn: u16)
        requires
            old(self).wf(),
        ensures
            final(self).wf(),
            final(self)@ == sem_store_index(old(self)@, nnn),
    {
        self.i = nnn;
        self.inc_pc();
    }

    /// `Fx15`.
    fn op_store_delay(&mut self, x: u8)
        requires
            old(self).wf(),
            x < 16,
        ensures
            final(self).wf(),
            final(self)@ == sem_store_delay(old(self)@, x),
    {
        let vx = self.v[x as usize];
        self.delay_timer = vx;
        self.inc_pc();
    }

    /// `Fx18`.
    fn op_store_sound(&mut self, x: u8)
        requires
            old(self).wf(),
            x < 16,
        ensures
            final(self).wf(),
            final(self)@ == sem_store_sound(old(self)@, x),
    {
        let vx = self.v[x as usize];
        self.sound_timer = vx;
        self.inc_pc();
    }

    /// `Fx1E`.
    fn op_add_index(&mut self, x: u8)
        requires
            old(self).wf(),
            x < 16,
        ensures
            final(self).wf(),
            final(self)@ == sem_add_index(old(self)@, x),
    {
        let vx = self.v[x as usize];
        let widened: u32 = self.i as u32 + vx as u32;
        self.i = (widened % 0x10000) as u16;
        self.inc_pc();
    }

    /// `Fx29`.
    fn op_font_index(&mut self, x: u8)
        requires
            old(self).wf(),
            x < 16,
        ensures
            final(self).wf(),
            final(self)@ == sem_font_index(old(self)@, x),
    {
        let vx = self.v[x as usize];
        self.i = (vx % 16) as u16 * 5;
        self.inc_pc();
    }

    /// The key flag `Ex9E` and `ExA1` test: the low nibble of Vx names the
    /// key.
    fn key_flag(&self, x: u8) -> (r: u8)
        requires
            self.wf(),
            x < 16,
        ensures
            r == key_of(self@, x),
    {
        let vx = self.v[x as usize];
        self.key[(vx % 16) as usize]
    }

    /// Execute one decoded instruction. The resulting state and fault are
    /// exactly those of `spec_execute` for some random byte, and for every
    /// instruction except `Cxnn` the byte is irrelevant and 0 serves.
    pub fn execute_instr(&mut self, instr: Instr) -> (r: Result<(), Fault>)
        requires
            old(self).wf(),
            instr_wf(instr),
        ensures
            final(self).wf(),
            exists|rnd: u8| #[trigger] instr_obs(old(self)@, final(self)@, r, instr, rnd),
            !is_random(instr) ==> instr_obs(old(self)@, final(self)@, r, instr, 0),
    {
        let ghost s0 = self@;
        match instr {
            Instr::ClearScreen => {
                self.op_clear_screen();
                proof {
                    assert(instr_obs(s0, self@, Ok::<(), Fault>(()), instr, 0));
                }
                Ok(())
            },
            Instr::Ret => {
                let r = self.op_ret();
                proof {
                    assert(instr_obs(s0, self@, r, instr, 0));
                }
                r
            },
            Instr::Jump(nnn) => {
                self.op_jump(nnn);
                proof {
                    assert(instr_obs(s0, self@, Ok::<(), Fault>(()), instr, 0));
                }
                Ok(())
            },
            Instr::Call(nnn) => {
                let r = self.op_call(nnn);
                proof {
                    assert(instr_obs(s0, self@, r, instr, 0));
                }
                r
            },
            Instr::SkipEqImm(x, nn) => {
                let vx = self.read_register(x);
                self.skip_pc_if(vx == nn);
                proof {
                    assert(instr_obs(s0, self@, Ok::<(), Fault>(()), instr, 0));
                }
                Ok(())
            },
            Instr::SkipNeImm(x, nn) => {
                let vx = self.read_register(x);
                self.skip_pc_if(vx != nn);
                proof {
                    assert(instr_obs(s0, self@, Ok::<(), Fault>(()), instr, 0));
                }
                Ok(())
            },
            Instr::SkipEqReg(x, y) => {
                let vx = self.read_register(x);
                let vy = self.read_register(y);
                self.skip_pc_if(vx == vy);
                proof {
                    assert(instr_obs(s0, self@, Ok::<(), Fault>(()), instr, 0));
                }
                Ok(())
            },
            Instr::StoreImm(x, nn) => {
                self.store_and_advance(x, nn);
                proof {
                    assert(instr_obs(s0, self@, Ok::<(), Fault>(()), instr, 0));
                }
                Ok(())
            },
            Instr::AddImm(x, nn) => {
                self.op_add_imm(x, nn);
                proof {
                    assert(instr_obs(s0, self@, Ok::<(), Fault>(()), instr, 0));
                }
                Ok(())
            },
            Instr::CopyReg(x, y) => {
                let vy = self.read_register(y);
                self.store_and_advance(x, vy);
                proof {
                    assert(instr_obs(s0, self@, Ok::<(), Fault>(()), instr, 0));
                }
                Ok(())
            },
            Instr::OrReg(x, y) => {
                let vx = self.read_register(x);
                let vy = self.read_register(y);
                self.store_and_advance(x, vx | vy);
                proof {
                    assert(instr_obs(s0, self@, Ok::<(), Fault>(()), instr, 0));
                }
                Ok(())
            },
            Instr::AndReg(x, y) => {
                let vx = self.read_register(x);
                let vy = self.read_register(y);
                self.store_and_advance(x, vx & vy);
                proof {
                    assert(instr_obs(s0, self@, Ok::<(), Fault>(()), instr, 0));
                }
                Ok(())
            },
            Instr::XorReg(x, y) => {
                let vx = self.read_register(x);
                let vy = self.read_register(y);
                self.store_and_advance(x, vx ^ vy);
                proof {
                    assert(instr_obs(s0, self@, Ok::<(), Fault>(()), instr, 0));
                }
                Ok(())
            },
            Instr::AddReg(x, y) => {
                self.op_add_reg(x, y);
                proof {
                    assert(instr_obs(s0, self@, Ok::<(), Fault>(()), instr, 0));
                }
                Ok(())
            },
            Instr::SubReg(x, y) => {
                self.op_sub_reg(x, y);
                proof {
                    assert(instr_obs(s0, self@, Ok::<(), Fault>(()), instr, 0));
                }
                Ok(())
            },
            Instr::ShrReg(x) => {
                self.op_shr_reg(x);
                proof {
                    assert(instr_obs(s0, self@, Ok::<(), Fault>(()), instr, 0));
                }
                Ok(())
            },
            Instr::RsubReg(x, y) => {
                self.op_rsub_reg(x, y);
                proof {
                    assert(instr_obs(s0, self@, Ok::<(), Fault>(()), instr, 0));
                }
                Ok(())
            },
            Instr::ShlReg(x) => {
                self.op_shl_reg(x);
                proof {
                    assert(instr_obs(s0, self@, Ok::<(), Fault>(()), instr, 0));
                }
                Ok(())
            },
            Instr::SkipNeReg(x, y) => {
                let vx = self.read_register(x);
                let vy = self.read_register(y);
                self.skip_pc_if(vx != vy);
                proof {
                    assert(instr_obs(s0, self@, Ok::<(), Fault>(()), instr, 0));
                }
                Ok(())
            },
            Instr::StoreIndex(nnn) => {
                self.op_store_index(nnn);
                proof {
                    assert(instr_obs(s0, self@, Ok::<(), Fault>(()), instr, 0));
                }
                Ok(())
            },
            Instr::RandMask(x, nn) => {
                let rb = random_byte();
                self.store_and_advance(x, rb & nn);
                proof {
                    assert(instr_obs(s0, self@, Ok::<(), Fault>(()), instr, rb));
                }
                Ok(())
            },
            Instr::Draw(x, y, n) => {
                let r = self.op_draw(x, y, n);
                proof {
                    assert(instr_obs(s0, self@, r, instr, 0));
                }
                r
            },
            Instr::SkipKeyDown(x) => {
                let k = self.key_flag(x);
                self.skip_pc_if(k != 0);
                proof {
                    assert(instr_obs(s0, self@, Ok::<(), Fault>(()), instr, 0));
                }
                Ok(())
            },
            Instr::SkipKeyUp(x) => {
                let k = self.key_flag(x);
                self.skip_pc_if(k == 0);
                proof {
                    assert(instr_obs(s0, self@, Ok::<(), Fault>(()), instr, 0));
                }
                Ok(())
            },
            Instr::ReadDelay(x) => {
                let d = self.delay_timer;
                self.store_and_advance(x, d);
                proof {
                    assert(instr_obs(s0, self@, Ok::<(), Fault>(()), instr, 0));
                }
                Ok(())
            },
            Instr::StoreDelay(x) => {
                self.op_store_delay(x);
                proof {
                    assert(instr_obs(s0, self@, Ok::<(), Fault>(()), instr, 0));
                }
                Ok(())
            },
            Instr::StoreSound(x) => {
                self.op_store_sound(x);
                proof {
                    assert(instr_obs(s0, self@, Ok::<(), Fault>(()), instr, 0));
                }
                Ok(())
            },
            Instr::AddIndex(x) => {
                self.op_add_index(x);
                proof {
                    assert(instr_obs(s0, self@, Ok::<(), Fault>(()), instr, 0));
                }
                Ok(())
            },
            Instr::FontIndex(x) => {
                self.op_font_index(x);
                proof {
                    assert(instr_obs(s0, self@, Ok::<(), Fault>(()), instr, 0));
                }
                Ok(())
            },
            Instr::StoreBcd(x) => {
                let r = self.op_store_bcd(x);
                proof {
                    assert(instr_obs(s0, self@, r, instr, 0));
                }
                r
            },
            Instr::StoreRegs(x) => {
                let r = self.op_store_regs(x);
                proof {
                    assert(instr_obs(s0, self@, r, instr, 0));
                }
                r
            },
            Instr::LoadRegs(x) => {
                let r = self.op_load_regs(x);
                proof {
                    assert(instr_obs(s0, self@, r, instr, 0));
                }
                r
            },
            Instr::Unknown(op) => {
                let r = Err(Fault::InvalidInstruction(op));
                proof {
                    assert(instr_obs(s0, self@, r, instr, 0));
                }
                r
            },
        }
    }

    /// Decode and execute one instruction word against the current state.
    pub fn execute_opcode(&mut self, opcode: u16) -> (r: Result<(), Fault>)
        requires
            old(self).wf(),
        ensures
            final(self).wf(),
            exists|rnd: u8| #[trigger] instr_obs(
                old(self)@,
                final(self)@,
                r,
                spec_decode(opcode),
                rnd,
            ),
            !is_random(spec_decode(opcode)) ==> instr_obs(
                old(self)@,
                final(self)@,
                r,
                spec_decode(opcode),
                0,
            ),
    {
        let instr = decode(opcode);
        self.execute_instr(instr)
    }

    /// One fetch-decode-execute step: read the big-endian word at the
    /// program counter (a fault if it lies outside memory) and execute it.
    pub fn step(&mut self) -> (r: Result<(), Fault>)
        requires
            old(self).wf(),
        ensures
            final(self).wf(),
            exists|rnd: u8| #[trigger] step_obs(old(self)@, final(self)@, r, rnd),
            !step_is_random(old(self)@) ==> step_obs(old(self)@, final(self)@, r, 0),
    {
        let ghost s0 = self@;
        if self.pc >= 4095 {
            let r = Err(Fault::MemoryFault);
            proof {
                assert(step_obs(s0, self@, r, 0));
            }
            return r;
        }
        let hi = self.mem[self.pc as usize];
        let lo = self.mem[self.pc as usize + 1];
        let word: u16 = (hi as u16) * 256 + (lo as u16);
        proof {
            assert(word == fetch_word(s0));
        }
        let r = self.execute_opcode(word);
        proof {
            let rnd = choose|rnd: u8| instr_obs(s0, self@, r, spec_decode(word), rnd);
            assert(step_obs(s0, self@, r, rnd));
            if !step_is_random(s0) {
                assert(step_obs(s0, self@, r, 0));
            }
        }
        r
    }

    /// One host-paced call: execute `num_instructions` sequential steps,
    /// stopping at the first fault, then apply exactly one timer tick —
    /// timer decay is decoupled from the instruction count. Returns the tone
    /// edge of the tick, or the fault, with the state left as the faulting
    /// instruction found it.
    pub fn cycle(&mut self, num_instructions: u64) -> (r: Result<bool, Fault>)
        requires
            old(self).wf(),
        ensures
            final(self).wf(),
            exists|rnds: Seq<u8>| #[trigger] cycle_obs(
                old(self)@,
                final(self)@,
                r,
                rnds,
                num_instructions as int,
            ),
    {
        let ghost s0 = self@;
        let ghost mut rnds: Seq<u8> = Seq::empty();
        let mut k: u64 = 0;
        while k < num_instructions
            invariant
                self.wf(),
                k <= num_instructions,
                s0 == old(self)@,
                rnds.len() == k as int,
                spec_run(s0, rnds) == step_ok(self@),
            decreases num_instructions - k,
        {
            let ghost pre = self@;
            let r = self.step();
            let ghost rnd = choose|rnd: u8| step_obs(pre, self@, r, rnd);
            proof {
                lemma_run_snoc(s0, rnds, rnd);
                rnds = rnds.push(rnd);
            }
            match r {
                Err(f) => {
                    proof {
                        let pad = Seq::new((num_instructions - k - 1) as nat, |j: int| 0u8);
                        lemma_run_after_fault(s0, rnds, pad);
                        rnds = rnds + pad;
                        assert(cycle_obs(
                            s0,
                            self@,
                            Err::<bool, Fault>(f),
                            rnds,
                            num_instructions as int,
                        ));
                    }
                    return Err(f);
                },
                Ok(()) => {},
            }
            k = k + 1;
        }
        let ghost pre_tick = self@;
        let edge = self.tick_timers();
        proof {
            assert(spec_run(s0, rnds) == step_ok(pre_tick));
            assert(cycle_obs(s0, self@, Ok::<bool, Fault>(edge), rnds, num_instructions as int));
        }
        Ok(edge)
    }
}

} // verus!
