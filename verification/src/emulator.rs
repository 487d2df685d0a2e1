use vstd::prelude::*;

use crate::decode::{decode, spec_decode, Instr};
use crate::state::{
    draw_collides, draw_screen, drawn_rows, font_data, initial_mem, initial_state, kept_rom_len,
    key_event, row_cleared, shifted_row, spec_exec, spec_step, step_fits, State,
};

verus! {

/// Width of the display in pixels.
pub const DISPLAY_WIDTH: usize = 64;

/// Height of the display in pixels.
pub const DISPLAY_HEIGHT: usize = 32;

/// Why a cycle failed.  Each variant carries the offending instruction's raw
/// bytes and its fetch address where applicable.
#[derive(Clone, Copy, Debug, PartialEq, Eq, Structural)]
pub enum EmulatorError {
    /// A return was executed with an empty call stack.
    InvalidReturn(u16),
    /// A machine-code routine call, which the interpreter does not support.
    MachineSubroutine(u16),
    /// A computed jump target outside the address space.
    InvalidJump(u8, u8, u16),
    /// A bit pattern that matches no instruction.
    InvalidOpcode(u8, u8, u16),
}

/// The virtual machine: registers, memory, stack, framebuffer, timers,
/// key state and the pseudorandom generator, mutated in place by `execute`.
#[allow(non_snake_case)]
pub struct Emulator {
    /// Program counter.
    pub PC: usize,
    /// The 4096 bytes of memory.
    pub memory: Vec<u8>,
    /// Data registers V0..VF.
    pub V: Vec<u8>,
    /// Address register.
    pub I: u16,
    /// Subroutine stack of saved program counters.
    pub sub_stack: Vec<usize>,
    /// Delay timer.
    pub DT: u8,
    /// Sound timer.
    pub ST: u8,
    /// Which keys are pressed.
    keys: Vec<bool>,
    /// Pseudorandom generator, advanced once per random-number instruction.
    rng: crate::rng::Prng,
    /// The framebuffer: one 64-bit mask per row.
    pub screen: Vec<u64>,
    /// Snapshot of the framebuffer at the last change check.
    prev_screen: Vec<u64>,
    /// Whether a vertical-blank pulse is pending; the draw instruction
    /// waits for it, to avoid tearing.
    vblank_interrupt: bool,
    /// The key released since the last completed instruction, if any.
    last_pressed_key: Option<u8>,
}

impl View for Emulator {
    type V = State;

    closed spec fn view(&self) -> State {
        State {
            pc: self.PC as int,
            mem: self.memory@,
            v: self.V@,
            i: self.I,
            stack: self.sub_stack@.map_values(|e: usize| e as int),
            dt: self.DT,
            st: self.ST,
            keys: self.keys@,
            screen: self.screen@,
            prev: self.prev_screen@,
            vblank: self.vblank_interrupt,
            last_key: self.last_pressed_key,
        }
    }
}

/// A vector holding `n` copies of one byte.
fn filled_bytes(n: usize, val: u8) -> (v: Vec<u8>)
    ensures
        v@ == Seq::new(n as nat, |j: int| val),
{
    let mut v: Vec<u8> = Vec::new();
    while v.len() < n
        invariant
            v@.len() <= n,
            forall|j: int| 0 <= j < v@.len() ==> v@[j] == val,
        decreases n - v@.len(),
    {
        v.push(val);
    }
    proof {
        assert(v@ =~= Seq::new(n as nat, |j: int| val));
    }
    v
}

/// A vector holding `n` copies of one row mask.
fn filled_rows(n: usize, val: u64) -> (v: Vec<u64>)
    ensures
        v@ == Seq::new(n as nat, |j: int| val),
{
    let mut v: Vec<u64> = Vec::new();
    while v.len() < n
        invariant
            v@.len() <= n,
            forall|j: int| 0 <= j < v@.len() ==> v@[j] == val,
        decreases n - v@.len(),
    {
        v.push(val);
    }
    proof {
        assert(v@ =~= Seq::new(n as nat, |j: int| val));
    }
    v
}

/// A vector holding `n` copies of one flag.
fn filled_flags(n: usize, val: bool) -> (v: Vec<bool>)
    ensures
        v@ == Seq::new(n as nat, |j: int| val),
{
    let mut v: Vec<bool> = Vec::new();
    while v.len() < n
        invariant
            v@.len() <= n,
            forall|j: int| 0 <= j < v@.len() ==> v@[j] == val,
        decreases n - v@.len(),
    {
        v.push(val);
    }
    proof {
        assert(v@ =~= Seq::new(n as nat, |j: int| val));
    }
    v
}

/// The built-in font, as stored at the bottom of memory.
fn build_font() -> (v: Vec<u8>)
    ensures
        v@ == font_data(),
{
    let glyphs: [u8; 80] = [
        0xF0, 0x90, 0x90, 0x90, 0xF0, // 0
        0x20, 0x60, 0x20, 0x20, 0x70, // 1
        0xF0, 0x10, 0xF0, 0x80, 0xF0, // 2
        0xF0, 0x10, 0xF0, 0x10, 0xF0, // 3
        0x90, 0x90, 0xF0, 0x10, 0x10, // 4
        0xF0, 0x80, 0xF0, 0x10, 0xF0, // 5
        0xF0, 0x80, 0xF0, 0x90, 0xF0, // 6
        0xF0, 0x10, 0x20, 0x40, 0x40, // 7
        0xF0, 0x90, 0xF0, 0x90, 0xF0, // 8
        0xF0, 0x90, 0xF0, 0x10, 0xF0, // 9
        0xF0, 0x90, 0xF0, 0x90, 0x90, // A
        0xE0, 0x90, 0xE0, 0x90, 0xE0, // B
        0xF0, 0x80, 0x80, 0x80, 0xF0, // C
        0xE0, 0x90, 0x90, 0x90, 0xE0, // D
        0xF0, 0x80, 0xF0, 0x80, 0xF0, // E
        0xF0, 0x80, 0xF0, 0x80, 0x80, // F
    ];
    let mut v: Vec<u8> = Vec::new();
    let mut k: usize = 0;
    while k < 80
        invariant
            k <= 80,
            v@.len() == k,
            glyphs@ =~= font_data(),
            forall|j: int| 0 <= j < k ==> v@[j] == font_data()[j],
        decreases 80 - k,
    {
        v.push(glyphs[k]);
        k += 1;
    }
    proof {
        assert(v@ =~= font_data());
    }
    v
}

/// A copy of a row vector.
fn clone_rows(src: &Vec<u64>) -> (v: Vec<u64>)
    ensures
        v@ == src@,
{
    let mut v: Vec<u64> = Vec::new();
    let mut k: usize = 0;
    while k < src.len()
        invariant
            k <= src@.len(),
            v@.len() == k,
            forall|j: int| 0 <= j < k ==> v@[j] == src@[j],
        decreases src@.len() - k,
    {
        v.push(src[k]);
        k += 1;
    }
    proof {
        assert(v@ =~= src@);
    }
    v
}

/// Whether two row vectors of equal length hold the same rows.
fn rows_equal(a: &Vec<u64>, b: &Vec<u64>) -> (r: bool)
    requires
        a@.len() == b@.len(),
    ensures
        r == (a@ == b@),
{
    let mut k: usize = 0;
    let mut same = true;
    while k < a.len()
        invariant
            k <= a@.len(),
            a@.len() == b@.len(),
            same ==> forall|j: int| 0 <= j < k ==> a@[j] == b@[j],
            !same ==> a@ != b@,
        decreases a@.len() - k,
    {
        if a[k] != b[k] {
            proof {
                if a@ == b@ {
                    assert(a@[k as int] == b@[k as int]);
                }
            }
            same = false;
        }
        k += 1;
    }
    proof {
        if same {
            assert(a@ =~= b@);
        }
    }
    same
}

/// XOR `cnt` shifted sprite bytes onto the rows `ypos..ypos + cnt`, reporting
/// whether any lit pixel was cleared anywhere in the drawn rows.
#[verifier::loop_isolation(false)]
fn draw_rows(screen: &mut Vec<u64>, mem: &Vec<u8>, start: usize, xpos: usize, ypos: usize, cnt: usize) -> (hit: bool)
    requires
        old(screen)@.len() == 32,
        mem@.len() == 4096,
        xpos < 64,
        ypos + cnt <= 32,
        cnt == 0 || start + cnt <= 4096,
    ensures
        final(screen)@.len() == 32,
        forall|r: int|
            0 <= r < 32 && !(ypos <= r < ypos + cnt) ==> final(screen)@[r] == old(screen)@[r],
        forall|r: int|
            ypos <= r < ypos + cnt ==> final(screen)@[r] == (old(screen)@[r] ^ shifted_row(
                mem@[start + r - ypos],
                xpos as int,
            )),
        hit == (exists|r: int|
            ypos <= r < ypos + cnt && #[trigger] row_cleared(
                old(screen)@[r],
                old(screen)@[r] ^ shifted_row(mem@[start + r - ypos], xpos as int),
            )),
{
    let mut hit = false;
    let mut off: usize = 0;
    while off < cnt
        invariant
            off <= cnt,
            screen@.len() == 32,
            forall|r: int|
                0 <= r < 32 && !(ypos <= r < ypos + off) ==> screen@[r] == old(screen)@[r],
            forall|r: int|
                ypos <= r < ypos + off ==> screen@[r] == (old(screen)@[r] ^ shifted_row(
                    mem@[start + r - ypos],
                    xpos as int,
                )),
            hit == (exists|r: int|
                ypos <= r < ypos + off && #[trigger] row_cleared(
                    old(screen)@[r],
                    old(screen)@[r] ^ shifted_row(mem@[start + r - ypos], xpos as int),
                )),
        decreases cnt - off,
    {
        let byte = mem[start + off];
        let row = ypos + off;
        let before = screen[row];
        let sp: u64 = if xpos > 56 {
            (byte as u64) >> ((xpos - 56) as u64)
        } else if xpos < 56 {
            (byte as u64) << ((56 - xpos) as u64)
        } else {
            byte as u64
        };
        let after = before ^ sp;
        proof {
            assert(sp == shifted_row(mem@[start + off], xpos as int));
            assert((before != (before & after)) == row_cleared(before, after)) by (bit_vector);
        }
        let ghost r0 = row as int;
        if before != (before & after) {
            hit = true;
            proof {
                assert(row_cleared(
                    old(screen)@[r0],
                    old(screen)@[r0] ^ shifted_row(mem@[start + r0 - ypos], xpos as int),
                ));
            }
        } else {
            proof {
                assert(!row_cleared(
                    old(screen)@[r0],
                    old(screen)@[r0] ^ shifted_row(mem@[start + r0 - ypos], xpos as int),
                ));
            }
        }
        screen.set(row, after);
        off += 1;
    }
    hit
}

/// Copy `count` registers into memory starting at `start`.
#[verifier::loop_isolation(false)]
fn copy_regs_to_mem(mem: &mut Vec<u8>, regs: &Vec<u8>, start: usize, count: usize)
    requires
        old(mem)@.len() == 4096,
        regs@.len() == 16,
        count <= 16,
        start + count <= 4096,
    ensures
        final(mem)@ == Seq::new(
            4096,
            |j: int|
                if start <= j < start + count {
                    regs@[j - start]
                } else {
                    old(mem)@[j]
                },
        ),
{
    let mut k: usize = 0;
    while k < count
        invariant
            k <= count,
            mem@.len() == 4096,
            forall|j: int| 0 <= j < 4096 && !(start <= j < start + k) ==> mem@[j] == old(mem)@[j],
            forall|j: int| start <= j < start + k ==> mem@[j] == regs@[j - start],
        decreases count - k,
    {
        mem.set(start + k, regs[k]);
        k += 1;
    }
    proof {
        assert(mem@ =~= Seq::new(
            4096,
            |j: int|
                if start <= j < start + count {
                    regs@[j - start]
                } else {
                    old(mem)@[j]
                },
        ));
    }
}

/// Copy `count` bytes of memory starting at `start` into the registers.
#[verifier::loop_isolation(false)]
fn copy_mem_to_regs(regs: &mut Vec<u8>, mem: &Vec<u8>, start: usize, count: usize)
    requires
        old(regs)@.len() == 16,
        mem@.len() == 4096,
        count <= 16,
        start + count <= 4096,
    ensures
        final(regs)@ == Seq::new(
            16,
            |j: int|
                if j < count {
                    mem@[start + j]
                } else {
                    old(regs)@[j]
                },
        ),
{
    let mut k: usize = 0;
    while k < count
        invariant
            k <= count,
            regs@.len() == 16,
            forall|j: int| 0 <= j < 16 && !(j < k) ==> regs@[j] == old(regs)@[j],
            forall|j: int| 0 <= j < k ==> regs@[j] == mem@[start + j],
        decreases count - k,
    {
        regs.set(k, mem[start + k]);
        k += 1;
    }
    proof {
        assert(regs@ =~= Seq::new(
            16,
            |j: int|
                if j < count {
                    mem@[start + j]
                } else {
                    old(regs)@[j]
                },
        ));
    }
}

impl Emulator {
    /// The fixed shapes of the machine's components.
    pub open spec fn wf(&self) -> bool {
        self@.wf()
    }

    /// Whether the next cycle stays inside the 4096-byte address space:
    /// the fetch, and every memory access the fetched instruction would
    /// make.  `execute` is specified only on such states; on any other,
    /// the reference machine has no defined behaviour.
    pub fn can_step(&self) -> (r: bool)
        requires
            self.wf(),
        ensures
            r == step_fits(self@),
    {
        if self.PC >= 4095 {
            return false;
        }
        let a = self.memory[self.PC];
        let b = self.memory[self.PC + 1];
        match decode(a, b) {
            Instr::StoreDigits(_) => (self.I as usize) + 2 < 4096,
            Instr::StoreRegs(x) => (self.I as usize) + (x as usize) + 1 <= 4096,
            Instr::LoadRegs(x) => (self.I as usize) + (x as usize) + 1 <= 4096,
            Instr::Draw(_, y, n) => {
                if !self.vblank_interrupt {
                    true
                } else {
                    let ypos = (self.V[y as usize] % 32) as usize;
                    let cnt = if (n as usize) <= 32 - ypos {
                        n as usize
                    } else {
                        32 - ypos
                    };
                    cnt == 0 || (self.I as usize) + cnt <= 4096
                }
            },
            _ => true,
        }
    }

    /// Build a machine from a program image: the font and the image are
    /// loaded (the image clamped to the 3216-byte program area, excess
    /// silently discarded), everything else starts zeroed.
    pub fn load_rom(rom: &[u8]) -> (emu: Emulator)
        ensures
            emu.wf(),
            emu@ == initial_state(rom@),
    {
        let mut memory: Vec<u8> = build_font();
        while memory.len() < 4096
            invariant
                80 <= memory@.len() <= 4096,
                forall|j: int| 0 <= j < 80 ==> memory@[j] == font_data()[j],
                forall|j: int| 80 <= j < memory@.len() ==> memory@[j] == 0u8,
            decreases 4096 - memory@.len(),
        {
            memory.push(0u8);
        }
        let limit: usize = if rom.len() < 3216 {
            rom.len()
        } else {
            3216
        };
        let mut k: usize = 0;
        while k < limit
            invariant
                k <= limit,
                limit == kept_rom_len(rom@),
                memory@.len() == 4096,
                forall|j: int| 0 <= j < 80 ==> memory@[j] == font_data()[j],
                forall|j: int| 80 <= j < 0x200 ==> memory@[j] == 0u8,
                forall|j: int| 0x200 <= j < 0x200 + k ==> memory@[j] == rom@[j - 0x200],
                forall|j: int| 0x200 + k <= j < 4096 ==> memory@[j] == 0u8,
            decreases limit - k,
        {
            memory.set(0x200 + k, rom[k]);
            k += 1;
        }
        let emu = Emulator {
            PC: 0x200,
            memory,
            V: filled_bytes(16, 0),
            I: 0,
            // typical program nesting depth, pre-reserved
            sub_stack: Vec::with_capacity(12),
            DT: 0,
            ST: 0,
            keys: filled_flags(16, false),
            rng: crate::rng::entropy_rng(),
            screen: filled_rows(32, 0),
            prev_screen: filled_rows(32, 0),
            vblank_interrupt: false,
            last_pressed_key: None,
        };
        proof {
            assert(emu@.mem =~= initial_mem(rom@));
            assert(emu@.stack =~= Seq::<int>::empty());
            assert(emu@ =~= initial_state(rom@));
        }
        emu
    }

    /// 00E0: clear the framebuffer.
    fn op_cls(&mut self, pc0: usize, a: u8, b: u8) -> (r: Result<(), EmulatorError>)
        requires
            old(self).wf(),
            spec_decode(a, b) == Instr::Cls,
        ensures
            final(self).wf(),
            (final(self)@, r) == spec_exec(old(self)@, pc0 as int, a, b, 0),
    {
        self.screen = filled_rows(32, 0);
        self.last_pressed_key = None;
        proof {
            assert(self@ =~= spec_exec(old(self)@, pc0 as int, a, b, 0).0);
        }
        Ok(())
    }

    /// 00EE: pop the stack into the program counter.
    fn op_ret(&mut self, pc0: usize, a: u8, b: u8) -> (r: Result<(), EmulatorError>)
        requires
            old(self).wf(),
            pc0 < 4096,
            spec_decode(a, b) == Instr::Ret,
        ensures
            final(self).wf(),
            (final(self)@, r) == spec_exec(old(self)@, pc0 as int, a, b, 0),
    {
        if self.sub_stack.len() == 0 {
            proof {
                assert(old(self)@.stack.len() == 0);
            }
            return Err(EmulatorError::InvalidReturn(pc0 as u16));
        }
        let target = self.sub_stack.pop().unwrap();
        self.PC = target;
        self.last_pressed_key = None;
        proof {
            assert(self@.stack =~= old(self)@.stack.drop_last());
            assert(self@.pc == old(self)@.stack.last());
            assert(self@ =~= spec_exec(old(self)@, pc0 as int, a, b, 0).0);
        }
        Ok(())
    }

    /// 0nnn: machine-code routine, reported as unsupported.
    fn op_sys(&mut self, pc0: usize, a: u8, b: u8) -> (r: Result<(), EmulatorError>)
        requires
            old(self).wf(),
            pc0 < 4096,
            spec_decode(a, b) == Instr::Sys,
        ensures
            final(self).wf(),
            (final(self)@, r) == spec_exec(old(self)@, pc0 as int, a, b, 0),
    {
        Err(EmulatorError::MachineSubroutine(pc0 as u16))
    }

    /// 1nnn: jump.
    fn op_jump(&mut self, pc0: usize, a: u8, b: u8, t: u16) -> (r: Result<(), EmulatorError>)
        requires
            old(self).wf(),
            spec_decode(a, b) == Instr::Jump(t),
        ensures
            final(self).wf(),
            (final(self)@, r) == spec_exec(old(self)@, pc0 as int, a, b, 0),
    {
        self.PC = t as usize;
        self.last_pressed_key = None;
        proof {
            assert(self@ =~= spec_exec(old(self)@, pc0 as int, a, b, 0).0);
        }
        Ok(())
    }

    /// 2nnn: push the program counter, then jump.
    fn op_call(&mut self, pc0: usize, a: u8, b: u8, t: u16) -> (r: Result<(), EmulatorError>)
        requires
            old(self).wf(),
            spec_decode(a, b) == Instr::Call(t),
        ensures
            final(self).wf(),
            (final(self)@, r) == spec_exec(old(self)@, pc0 as int, a, b, 0),
    {
        self.sub_stack.push(self.PC);
        self.PC = t as usize;
        self.last_pressed_key = None;
        proof {
            assert(self@.stack =~= old(self)@.stack.push(old(self)@.pc));
            assert(self@ =~= spec_exec(old(self)@, pc0 as int, a, b, 0).0);
        }
        Ok(())
    }

    /// 3xnn and 4xnn: skip on comparison with an immediate.
    fn op_skip_imm(&mut self, pc0: usize, a: u8, b: u8, x: u8, nn: u8, when_eq: bool) -> (r:
        Result<(), EmulatorError>)
        requires
            old(self).wf(),
            old(self)@.pc <= 4096,
            when_eq ==> spec_decode(a, b) == Instr::SkipEqImm(x, nn),
            !when_eq ==> spec_decode(a, b) == Instr::SkipNeImm(x, nn),
        ensures
            final(self).wf(),
            (final(self)@, r) == spec_exec(old(self)@, pc0 as int, a, b, 0),
    {
        if (self.V[x as usize] == nn) == when_eq {
            self.PC += 2;
        }
        self.last_pressed_key = None;
        proof {
            assert(self@ =~= spec_exec(old(self)@, pc0 as int, a, b, 0).0);
        }
        Ok(())
    }

    /// 5xy0 and 9xy0: skip on comparison of two registers.
    fn op_skip_reg(&mut self, pc0: usize, a: u8, b: u8, x: u8, y: u8, when_eq: bool) -> (r:
        Result<(), EmulatorError>)
        requires
            old(self).wf(),
            old(self)@.pc <= 4096,
            when_eq ==> spec_decode(a, b) == Instr::SkipEqReg(x, y),
            !when_eq ==> spec_decode(a, b) == Instr::SkipNeReg(x, y),
        ensures
            final(self).wf(),
            (final(self)@, r) == spec_exec(old(self)@, pc0 as int, a, b, 0),
    {
        if (self.V[x as usize] == self.V[y as usize]) == when_eq {
            self.PC += 2;
        }
        self.last_pressed_key = None;
        proof {
            assert(self@ =~= spec_exec(old(self)@, pc0 as int, a, b, 0).0);
        }
        Ok(())
    }

    /// 6xnn: load an immediate.
    fn op_load_imm(&mut self, pc0: usize, a: u8, b: u8, x: u8, nn: u8) -> (r: Result<(),
        EmulatorError>)
        requires
            old(self).wf(),
            spec_decode(a, b) == Instr::LoadImm(x, nn),
        ensures
            final(self).wf(),
            (final(self)@, r) == spec_exec(old(self)@, pc0 as int, a, b, 0),
    {
        self.V.set(x as usize, nn);
        self.last_pressed_key = None;
        proof {
            assert(self@ =~= spec_exec(old(self)@, pc0 as int, a, b, 0).0);
        }
        Ok(())
    }

    /// 7xnn: add an immediate, wrapping, flag untouched.
    fn op_add_imm(&mut self, pc0: usize, a: u8, b: u8, x: u8, nn: u8) -> (r: Result<(),
        EmulatorError>)
        requires
            old(self).wf(),
            spec_decode(a, b) == Instr::AddImm(x, nn),
        ensures
            final(self).wf(),
            (final(self)@, r) == spec_exec(old(self)@, pc0 as int, a, b, 0),
    {
        let sum = self.V[x as usize] as u16 + nn as u16;
        self.V.set(x as usize, (sum % 256) as u8);
        self.last_pressed_key = None;
        proof {
            assert(self@ =~= spec_exec(old(self)@, pc0 as int, a, b, 0).0);
        }
        Ok(())
    }

    /// 8xy0: copy a register.
    fn op_load_reg(&mut self, pc0: usize, a: u8, b: u8, x: u8, y: u8) -> (r: Result<(),
        EmulatorError>)
        requires
            old(self).wf(),
            spec_decode(a, b) == Instr::LoadReg(x, y),
        ensures
            final(self).wf(),
            (final(self)@, r) == spec_exec(old(self)@, pc0 as int, a, b, 0),
    {
        let val = self.V[y as usize];
        self.V.set(x as usize, val);
        self.last_pressed_key = None;
        proof {
            assert(self@ =~= spec_exec(old(self)@, pc0 as int, a, b, 0).0);
        }
        Ok(())
    }

    /// 8xy1, 8xy2, 8xy3: bitwise operation, then VF forced to zero.
    fn op_bitwise(&mut self, pc0: usize, a: u8, b: u8, x: u8, y: u8, n: u8) -> (r: Result<(),
        EmulatorError>)
        requires
            old(self).wf(),
            n == 1 ==> spec_decode(a, b) == Instr::Or(x, y),
            n == 2 ==> spec_decode(a, b) == Instr::And(x, y),
            n == 3 ==> spec_decode(a, b) == Instr::Xor(x, y),
            1 <= n <= 3,
        ensures
            final(self).wf(),
            (final(self)@, r) == spec_exec(old(self)@, pc0 as int, a, b, 0),
    {
        let vx = self.V[x as usize];
        let vy = self.V[y as usize];
        let val = if n == 1 {
            vx | vy
        } else if n == 2 {
            vx & vy
        } else {
            vx ^ vy
        };
        self.V.set(x as usize, val);
        self.V.set(15, 0);
        self.last_pressed_key = None;
        proof {
            assert(self@ =~= spec_exec(old(self)@, pc0 as int, a, b, 0).0);
        }
        Ok(())
    }

    /// 8xy4: add two registers, VF reporting the carry.
    fn op_add_reg(&mut self, pc0: usize, a: u8, b: u8, x: u8, y: u8) -> (r: Result<(),
        EmulatorError>)
        requires
            old(self).wf(),
            spec_decode(a, b) == Instr::AddReg(x, y),
        ensures
            final(self).wf(),
            (final(self)@, r) == spec_exec(old(self)@, pc0 as int, a, b, 0),
    {
        let sum = self.V[x as usize] as u16 + self.V[y as usize] as u16;
        self.V.set(x as usize, (sum % 256) as u8);
        self.V.set(15, if sum > 255 { 1 } else { 0 });
        self.last_pressed_key = None;
        proof {
            assert(self@ =~= spec_exec(old(self)@, pc0 as int, a, b, 0).0);
        }
        Ok(())
    }

    /// 8xy5 and 8xy7: subtract, VF cleared exactly when a borrow occurred.
    fn op_sub_reg(&mut self, pc0: usize, a: u8, b: u8, x: u8, y: u8, reversed: bool) -> (r:
        Result<(), EmulatorError>)
        requires
            old(self).wf(),
            !reversed ==> spec_decode(a, b) == Instr::SubReg(x, y),
            reversed ==> spec_decode(a, b) == Instr::SubRev(x, y),
        ensures
            final(self).wf(),
            (final(self)@, r) == spec_exec(old(self)@, pc0 as int, a, b, 0),
    {
        let vx = self.V[x as usize];
        let vy = self.V[y as usize];
        let (from, sub) = if reversed {
            (vy, vx)
        } else {
            (vx, vy)
        };
        let diff = (from as u16 + 256) - sub as u16;
        self.V.set(x as usize, (diff % 256) as u8);
        self.V.set(15, if from < sub { 0 } else { 1 });
        self.last_pressed_key = None;
        proof {
            assert(self@ =~= spec_exec(old(self)@, pc0 as int, a, b, 0).0);
        }
        Ok(())
    }

    /// 8xy6: shift the source register right, VF taking its old low bit.
    fn op_shift_right(&mut self, pc0: usize, a: u8, b: u8, x: u8, y: u8) -> (r: Result<(),
        EmulatorError>)
        requires
            old(self).wf(),
            spec_decode(a, b) == Instr::ShiftRight(x, y),
        ensures
            final(self).wf(),
            (final(self)@, r) == spec_exec(old(self)@, pc0 as int, a, b, 0),
    {
        let vy = self.V[y as usize];
        let flag = vy & 1;
        proof {
            assert((vy >> 1u8) == vy / 2 && (vy & 1) == vy % 2) by (bit_vector);
        }
        self.V.set(x as usize, vy >> 1);
        self.V.set(15, flag);
        self.last_pressed_key = None;
        proof {
            assert(self@ =~= spec_exec(old(self)@, pc0 as int, a, b, 0).0);
        }
        Ok(())
    }

    /// 8xyE: shift the source register left, VF taking its old high bit.
    fn op_shift_left(&mut self, pc0: usize, a: u8, b: u8, x: u8, y: u8) -> (r: Result<(),
        EmulatorError>)
        requires
            old(self).wf(),
            spec_decode(a, b) == Instr::ShiftLeft(x, y),
        ensures
            final(self).wf(),
            (final(self)@, r) == spec_exec(old(self)@, pc0 as int, a, b, 0),
    {
        let vy = self.V[y as usize];
        let flag = vy >> 7;
        proof {
            assert((vy << 1u8) == ((vy * 2) % 256) && (vy >> 7u8) == vy / 128) by (bit_vector);
        }
        self.V.set(x as usize, vy << 1);
        self.V.set(15, flag);
        self.last_pressed_key = None;
        proof {
            assert(self@ =~= spec_exec(old(self)@, pc0 as int, a, b, 0).0);
        }
        Ok(())
    }

    /// Annn: load the address register.
    fn op_load_index(&mut self, pc0: usize, a: u8, b: u8, t: u16) -> (r: Result<(),
        EmulatorError>)
        requires
            old(self).wf(),
            spec_decode(a, b) == Instr::LoadIndex(t),
        ensures
            final(self).wf(),
            (final(self)@, r) == spec_exec(old(self)@, pc0 as int, a, b, 0),
    {
        self.I = t;
        self.last_pressed_key = None;
        proof {
            assert(self@ =~= spec_exec(old(self)@, pc0 as int, a, b, 0).0);
        }
        Ok(())
    }

    /// Bnnn: jump to V0 + nnn, rolling the program counter back and failing
    /// when the target leaves the address space.
    fn op_jump_offset(&mut self, pc0: usize, a: u8, b: u8, t: u16) -> (r: Result<(),
        EmulatorError>)
        requires
            old(self).wf(),
            pc0 < 4096,
            spec_decode(a, b) == Instr::JumpOffset(t),
        ensures
            final(self).wf(),
            (final(self)@, r) == spec_exec(old(self)@, pc0 as int, a, b, 0),
    {
        let addr = self.V[0] as usize + t as usize;
        if addr >= 4096 {
            self.PC = pc0;
            proof {
                assert(self@ =~= spec_exec(old(self)@, pc0 as int, a, b, 0).0);
            }
            return Err(EmulatorError::InvalidJump(a, b, pc0 as u16));
        }
        self.PC = addr;
        self.last_pressed_key = None;
        proof {
            assert(self@ =~= spec_exec(old(self)@, pc0 as int, a, b, 0).0);
        }
        Ok(())
    }

    /// Cxnn: a fresh byte from the generator, masked.  The contract is
    /// existential in the drawn byte: nothing is promised of its value.
    fn op_random(&mut self, pc0: usize, a: u8, b: u8, x: u8, nn: u8) -> (r: Result<(),
        EmulatorError>)
        requires
            old(self).wf(),
            spec_decode(a, b) == Instr::Random(x, nn),
        ensures
            final(self).wf(),
            exists|rb: u8| (final(self)@, r) == spec_exec(old(self)@, pc0 as int, a, b, rb),
    {
        let rbyte = crate::rng::next_byte(&mut self.rng);
        self.V.set(x as usize, rbyte & nn);
        self.last_pressed_key = None;
        let r: Result<(), EmulatorError> = Ok(());
        proof {
            assert(self@ =~= spec_exec(old(self)@, pc0 as int, a, b, rbyte).0);
            assert((self@, r) == spec_exec(old(self)@, pc0 as int, a, b, rbyte));
        }
        r
    }

    /// Dxyn: draw a sprite, gated on the vertical-blank latch; without a
    /// pending pulse the program counter is rolled back and nothing drawn.
    fn op_draw(&mut self, pc0: usize, a: u8, b: u8, x: u8, y: u8, n: u8) -> (r: Result<(),
        EmulatorError>)
        requires
            old(self).wf(),
            spec_decode(a, b) == Instr::Draw(x, y, n),
            old(self)@.vblank ==> {
                let cnt = drawn_rows((old(self)@.v[y as int] % 32) as int, n);
                cnt == 0 || old(self)@.i + cnt <= 4096
            },
        ensures
            final(self).wf(),
            (final(self)@, r) == spec_exec(old(self)@, pc0 as int, a, b, 0),
    {
        if !self.vblank_interrupt {
            self.PC = pc0;
            proof {
                assert(self@ =~= spec_exec(old(self)@, pc0 as int, a, b, 0).0);
            }
            return Ok(());
        }
        self.vblank_interrupt = false;
        let xpos = (self.V[x as usize] % 64) as usize;
        let ypos = (self.V[y as usize] % 32) as usize;
        let cnt = if (n as usize) <= 32 - ypos {
            n as usize
        } else {
            32 - ypos
        };
        proof {
            assert(cnt == drawn_rows(ypos as int, n));
        }
        let hit = draw_rows(&mut self.screen, &self.memory, self.I as usize, xpos, ypos, cnt);
        self.V.set(15, if hit { 1 } else { 0 });
        self.last_pressed_key = None;
        proof {
            assert(self@.screen =~= draw_screen(old(self)@, x, y, n));
            assert(hit == draw_collides(old(self)@, x, y, n));
            assert(self@ =~= spec_exec(old(self)@, pc0 as int, a, b, 0).0);
        }
        Ok(())
    }

    /// Ex9E and ExA1: skip on the state of the key selected by Vx.
    fn op_skip_key(&mut self, pc0: usize, a: u8, b: u8, x: u8, when_pressed: bool) -> (r:
        Result<(), EmulatorError>)
        requires
            old(self).wf(),
            old(self)@.pc <= 4096,
            when_pressed ==> spec_decode(a, b) == Instr::SkipKey(x),
            !when_pressed ==> spec_decode(a, b) == Instr::SkipNoKey(x),
        ensures
            final(self).wf(),
            (final(self)@, r) == spec_exec(old(self)@, pc0 as int, a, b, 0),
    {
        let vx = self.V[x as usize];
        proof {
            assert((vx & 0xF) == vx % 16 && vx % 16 < 16) by (bit_vector);
        }
        if self.keys[(vx & 0xF) as usize] == when_pressed {
            self.PC += 2;
        }
        self.last_pressed_key = None;
        proof {
            assert(self@ =~= spec_exec(old(self)@, pc0 as int, a, b, 0).0);
        }
        Ok(())
    }

    /// Fx07: read the delay timer.
    fn op_read_delay(&mut self, pc0: usize, a: u8, b: u8, x: u8) -> (r: Result<(),
        EmulatorError>)
        requires
            old(self).wf(),
            spec_decode(a, b) == Instr::ReadDelay(x),
        ensures
            final(self).wf(),
            (final(self)@, r) == spec_exec(old(self)@, pc0 as int, a, b, 0),
    {
        let val = self.DT;
        self.V.set(x as usize, val);
        self.last_pressed_key = None;
        proof {
            assert(self@ =~= spec_exec(old(self)@, pc0 as int, a, b, 0).0);
        }
        Ok(())
    }

    /// Fx0A: consume the released-key latch, or roll the program counter
    /// back to retry on the next cycle.
    fn op_wait_key(&mut self, pc0: usize, a: u8, b: u8, x: u8) -> (r: Result<(), EmulatorError>)
        requires
            old(self).wf(),
            spec_decode(a, b) == Instr::WaitKey(x),
        ensures
            final(self).wf(),
            (final(self)@, r) == spec_exec(old(self)@, pc0 as int, a, b, 0),
    {
        match self.last_pressed_key {
            Some(k) => {
                self.V.set(x as usize, k);
            },
            None => {
                self.PC = pc0;
            },
        }
        self.last_pressed_key = None;
        proof {
            assert(self@ =~= spec_exec(old(self)@, pc0 as int, a, b, 0).0);
        }
        Ok(())
    }

    /// Fx15: set the delay timer.
    fn op_set_delay(&mut self, pc0: usize, a: u8, b: u8, x: u8) -> (r: Result<(), EmulatorError>)
        requires
            old(self).wf(),
            spec_decode(a, b) == Instr::SetDelay(x),
        ensures
            final(self).wf(),
            (final(self)@, r) == spec_exec(old(self)@, pc0 as int, a, b, 0),
    {
        self.DT = self.V[x as usize];
        self.last_pressed_key = None;
        proof {
            assert(self@ =~= spec_exec(old(self)@, pc0 as int, a, b, 0).0);
        }
        Ok(())
    }

    /// Fx18: set the sound timer.
    fn op_set_sound(&mut self, pc0: usize, a: u8, b: u8, x: u8) -> (r: Result<(), EmulatorError>)
        requires
            old(self).wf(),
            spec_decode(a, b) == Instr::SetSound(x),
        ensures
            final(self).wf(),
            (final(self)@, r) == spec_exec(old(self)@, pc0 as int, a, b, 0),
    {
        self.ST = self.V[x as usize];
        self.last_pressed_key = None;
        proof {
            assert(self@ =~= spec_exec(old(self)@, pc0 as int, a, b, 0).0);
        }
        Ok(())
    }

    /// Fx1E: add Vx to the address register, wrapping at 16 bits.
    fn op_add_index(&mut self, pc0: usize, a: u8, b: u8, x: u8) -> (r: Result<(), EmulatorError>)
        requires
            old(self).wf(),
            spec_decode(a, b) == Instr::AddIndex(x),
        ensures
            final(self).wf(),
            (final(self)@, r) == spec_exec(old(self)@, pc0 as int, a, b, 0),
    {
        let sum = self.I as u32 + self.V[x as usize] as u32;
        self.I = (sum % 0x10000) as u16;
        self.last_pressed_key = None;
        proof {
            assert(self@ =~= spec_exec(old(self)@, pc0 as int, a, b, 0).0);
        }
        Ok(())
    }

    /// Fx29: point the address register at the built-in glyph for Vx & 0xF.
    fn op_glyph_index(&mut self, pc0: usize, a: u8, b: u8, x: u8) -> (r: Result<(),
        EmulatorError>)
        requires
            old(self).wf(),
            spec_decode(a, b) == Instr::GlyphIndex(x),
        ensures
            final(self).wf(),
            (final(self)@, r) == spec_exec(old(self)@, pc0 as int, a, b, 0),
    {
        let vx = self.V[x as usize];
        proof {
            assert((vx & 0xF) == vx % 16 && vx % 16 < 16) by (bit_vector);
        }
        self.I = ((vx & 0xF) as u16) * 5;
        self.last_pressed_key = None;
        proof {
            assert(self@ =~= spec_exec(old(self)@, pc0 as int, a, b, 0).0);
        }
        Ok(())
    }

    /// Fx33: store the decimal digits of Vx at I, I+1, I+2.
    fn op_store_digits(&mut self, pc0: usize, a: u8, b: u8, x: u8) -> (r: Result<(),
        EmulatorError>)
        requires
            old(self).wf(),
            old(self)@.i + 2 < 4096,
            spec_decode(a, b) == Instr::StoreDigits(x),
        ensures
            final(self).wf(),
            (final(self)@, r) == spec_exec(old(self)@, pc0 as int, a, b, 0),
    {
        let vx = self.V[x as usize];
        let i = self.I as usize;
        self.memory.set(i, vx / 100);
        self.memory.set(i + 1, (vx / 10) % 10);
        self.memory.set(i + 2, vx % 10);
        self.last_pressed_key = None;
        proof {
            assert(self@ =~= spec_exec(old(self)@, pc0 as int, a, b, 0).0);
        }
        Ok(())
    }

    /// Fx55: copy V0..=Vx into memory at I, then advance I past the block.
    fn op_store_regs(&mut self, pc0: usize, a: u8, b: u8, x: u8) -> (r: Result<(),
        EmulatorError>)
        requires
            old(self).wf(),
            old(self)@.i + x + 1 <= 4096,
            spec_decode(a, b) == Instr::StoreRegs(x),
        ensures
            final(self).wf(),
            (final(self)@, r) == spec_exec(old(self)@, pc0 as int, a, b, 0),
    {
        let start = self.I as usize;
        copy_regs_to_mem(&mut self.memory, &self.V, start, x as usize + 1);
        self.I = self.I + x as u16 + 1;
        self.last_pressed_key = None;
        proof {
            assert(self@.mem =~= spec_exec(old(self)@, pc0 as int, a, b, 0).0.mem);
            assert(self@ =~= spec_exec(old(self)@, pc0 as int, a, b, 0).0);
        }
        Ok(())
    }

    /// Fx65: copy memory at I into V0..=Vx, then advance I past the block.
    fn op_load_regs(&mut self, pc0: usize, a: u8, b: u8, x: u8) -> (r: Result<(), EmulatorError>)
        requires
            old(self).wf(),
            old(self)@.i + x + 1 <= 4096,
            spec_decode(a, b) == Instr::LoadRegs(x),
        ensures
            final(self).wf(),
            (final(self)@, r) == spec_exec(old(self)@, pc0 as int, a, b, 0),
    {
        let start = self.I as usize;
        copy_mem_to_regs(&mut self.V, &self.memory, start, x as usize + 1);
        self.I = self.I + x as u16 + 1;
        self.last_pressed_key = None;
        proof {
            assert(self@.v =~= spec_exec(old(self)@, pc0 as int, a, b, 0).0.v);
            assert(self@ =~= spec_exec(old(self)@, pc0 as int, a, b, 0).0);
        }
        Ok(())
    }

    /// Any unassigned bit pattern.
    fn op_invalid(&mut self, pc0: usize, a: u8, b: u8) -> (r: Result<(), EmulatorError>)
        requires
            old(self).wf(),
            pc0 < 4096,
            spec_decode(a, b) == Instr::Invalid,
        ensures
            final(self).wf(),
            (final(self)@, r) == spec_exec(old(self)@, pc0 as int, a, b, 0),
    {
        Err(EmulatorError::InvalidOpcode(a, b, pc0 as u16))
    }

    /// Execute exactly one instruction at the program counter: fetch the two
    /// bytes there, advance the counter past them, then dispatch.  The whole
    /// transition — every register, memory, stack, screen and latch change,
    /// every error, and the deliberate re-attempt behaviour of the draw and
    /// wait instructions — is pinned down by `spec_step`.  The random byte is
    /// existential because only the random-number instruction draws one.
    pub fn execute(&mut self) -> (r: Result<(), EmulatorError>)
        requires
            old(self).wf(),
            step_fits(old(self)@),
        ensures
            final(self).wf(),
            exists|rb: u8| (final(self)@, r) == spec_step(old(self)@, rb),
    {
        let ghost s0 = old(self)@;
        let pc0 = self.PC;
        let a = self.memory[pc0];
        let b = self.memory[pc0 + 1];
        self.PC = pc0 + 2;
        let ghost s1 = self@;
        proof {
            assert(s1 =~= (State { pc: s0.pc + 2, ..s0 }));
        }
        match decode(a, b) {
            Instr::Cls => {
                let r = self.op_cls(pc0, a, b);
                proof {
                    assert(spec_step(s0, 0) == spec_exec(s1, pc0 as int, a, b, 0));
                    assert(exists|rb: u8| (self@, r) == spec_step(s0, rb));
                }
                r
            },
            Instr::Ret => {
                let r = self.op_ret(pc0, a, b);
                proof {
                    assert(spec_step(s0, 0) == spec_exec(s1, pc0 as int, a, b, 0));
                    assert(exists|rb: u8| (self@, r) == spec_step(s0, rb));
                }
                r
            },
            Instr::Sys => {
                let r = self.op_sys(pc0, a, b);
                proof {
                    assert(spec_step(s0, 0) == spec_exec(s1, pc0 as int, a, b, 0));
                    assert(exists|rb: u8| (self@, r) == spec_step(s0, rb));
                }
                r
            },
            Instr::Jump(t) => {
                let r = self.op_jump(pc0, a, b, t);
                proof {
                    assert(spec_step(s0, 0) == spec_exec(s1, pc0 as int, a, b, 0));
                    assert(exists|rb: u8| (self@, r) == spec_step(s0, rb));
                }
                r
            },
            Instr::Call(t) => {
                let r = self.op_call(pc0, a, b, t);
                proof {
                    assert(spec_step(s0, 0) == spec_exec(s1, pc0 as int, a, b, 0));
                    assert(exists|rb: u8| (self@, r) == spec_step(s0, rb));
                }
                r
            },
            Instr::SkipEqImm(x, nn) => {
                let r = self.op_skip_imm(pc0, a, b, x, nn, true);
                proof {
                    assert(spec_step(s0, 0) == spec_exec(s1, pc0 as int, a, b, 0));
                    assert(exists|rb: u8| (self@, r) == spec_step(s0, rb));
                }
                r
            },
            Instr::SkipNeImm(x, nn) => {
                let r = self.op_skip_imm(pc0, a, b, x, nn, false);
                proof {
                    assert(spec_step(s0, 0) == spec_exec(s1, pc0 as int, a, b, 0));
                    assert(exists|rb: u8| (self@, r) == spec_step(s0, rb));
                }
                r
            },
            Instr::SkipEqReg(x, y) => {
                let r = self.op_skip_reg(pc0, a, b, x, y, true);
                proof {
                    assert(spec_step(s0, 0) == spec_exec(s1, pc0 as int, a, b, 0));
                    assert(exists|rb: u8| (self@, r) == spec_step(s0, rb));
                }
                r
            },
            Instr::LoadImm(x, nn) => {
                let r = self.op_load_imm(pc0, a, b, x, nn);
                proof {
                    assert(spec_step(s0, 0) == spec_exec(s1, pc0 as int, a, b, 0));
                    assert(exists|rb: u8| (self@, r) == spec_step(s0, rb));
                }
                r
            },
            Instr::AddImm(x, nn) => {
                let r = self.op_add_imm(pc0, a, b, x, nn);
                proof {
                    assert(spec_step(s0, 0) == spec_exec(s1, pc0 as int, a, b, 0));
                    assert(exists|rb: u8| (self@, r) == spec_step(s0, rb));
                }
                r
            },
            Instr::LoadReg(x, y) => {
                let r = self.op_load_reg(pc0, a, b, x, y);
                proof {
                    assert(spec_step(s0, 0) == spec_exec(s1, pc0 as int, a, b, 0));
                    assert(exists|rb: u8| (self@, r) == spec_step(s0, rb));
                }
                r
            },
            Instr::Or(x, y) => {
                let r = self.op_bitwise(pc0, a, b, x, y, 1);
                proof {
                    assert(spec_step(s0, 0) == spec_exec(s1, pc0 as int, a, b, 0));
                    assert(exists|rb: u8| (self@, r) == spec_step(s0, rb));
                }
                r
            },
            Instr::And(x, y) => {
                let r = self.op_bitwise(pc0, a, b, x, y, 2);
                proof {
                    assert(spec_step(s0, 0) == spec_exec(s1, pc0 as int, a, b, 0));
                    assert(exists|rb: u8| (self@, r) == spec_step(s0, rb));
                }
                r
            },
            Instr::Xor(x, y) => {
                let r = self.op_bitwise(pc0, a, b, x, y, 3);
                proof {
                    assert(spec_step(s0, 0) == spec_exec(s1, pc0 as int, a, b, 0));
                    assert(exists|rb: u8| (self@, r) == spec_step(s0, rb));
                }
                r
            },
            Instr::AddReg(x, y) => {
                let r = self.op_add_reg(pc0, a, b, x, y);
                proof {
                    assert(spec_step(s0, 0) == spec_exec(s1, pc0 as int, a, b, 0));
                    assert(exists|rb: u8| (self@, r) == spec_step(s0, rb));
                }
                r
            },
            Instr::SubReg(x, y) => {
                let r = self.op_sub_reg(pc0, a, b, x, y, false);
                proof {
                    assert(spec_step(s0, 0) == spec_exec(s1, pc0 as int, a, b, 0));
                    assert(exists|rb: u8| (self@, r) == spec_step(s0, rb));
                }
                r
            },
            Instr::ShiftRight(x, y) => {
                let r = self.op_shift_right(pc0, a, b, x, y);
                proof {
                    assert(spec_step(s0, 0) == spec_exec(s1, pc0 as int, a, b, 0));
                    assert(exists|rb: u8| (self@, r) == spec_step(s0, rb));
                }
                r
            },
            Instr::SubRev(x, y) => {
                let r = self.op_sub_reg(pc0, a, b, x, y, true);
                proof {
                    assert(spec_step(s0, 0) == spec_exec(s1, pc0 as int, a, b, 0));
                    assert(exists|rb: u8| (self@, r) == spec_step(s0, rb));
                }
                r
            },
            Instr::ShiftLeft(x, y) => {
                let r = self.op_shift_left(pc0, a, b, x, y);
                proof {
                    assert(spec_step(s0, 0) == spec_exec(s1, pc0 as int, a, b, 0));
                    assert(exists|rb: u8| (self@, r) == spec_step(s0, rb));
                }
                r
            },
            Instr::SkipNeReg(x, y) => {
                let r = self.op_skip_reg(pc0, a, b, x, y, false);
                proof {
                    assert(spec_step(s0, 0) == spec_exec(s1, pc0 as int, a, b, 0));
                    assert(exists|rb: u8| (self@, r) == spec_step(s0, rb));
                }
                r
            },
            Instr::LoadIndex(t) => {
                let r = self.op_load_index(pc0, a, b, t);
                proof {
                    assert(spec_step(s0, 0) == spec_exec(s1, pc0 as int, a, b, 0));
                    assert(exists|rb: u8| (self@, r) == spec_step(s0, rb));
                }
                r
            },
            Instr::JumpOffset(t) => {
                let r = self.op_jump_offset(pc0, a, b, t);
                proof {
                    assert(spec_step(s0, 0) == spec_exec(s1, pc0 as int, a, b, 0));
                    assert(exists|rb: u8| (self@, r) == spec_step(s0, rb));
                }
                r
            },
            Instr::Random(x, nn) => {
                let r = self.op_random(pc0, a, b, x, nn);
                proof {
                    let rb0 = choose|rb: u8| (self@, r) == spec_exec(s1, pc0 as int, a, b, rb);
                    assert(spec_step(s0, rb0) == spec_exec(s1, pc0 as int, a, b, rb0));
                    assert(exists|rb: u8| (self@, r) == spec_step(s0, rb));
                }
                r
            },
            Instr::Draw(x, y, n) => {
                let r = self.op_draw(pc0, a, b, x, y, n);
                proof {
                    assert(spec_step(s0, 0) == spec_exec(s1, pc0 as int, a, b, 0));
                    assert(exists|rb: u8| (self@, r) == spec_step(s0, rb));
                }
                r
            },
            Instr::SkipKey(x) => {
                let r = self.op_skip_key(pc0, a, b, x, true);
                proof {
                    assert(spec_step(s0, 0) == spec_exec(s1, pc0 as int, a, b, 0));
                    assert(exists|rb: u8| (self@, r) == spec_step(s0, rb));
                }
                r
            },
            Instr::SkipNoKey(x) => {
                let r = self.op_skip_key(pc0, a, b, x, false);
                proof {
                    assert(spec_step(s0, 0) == spec_exec(s1, pc0 as int, a, b, 0));
                    assert(exists|rb: u8| (self@, r) == spec_step(s0, rb));
                }
                r
            },
            Instr::ReadDelay(x) => {
                let r = self.op_read_delay(pc0, a, b, x);
                proof {
                    assert(spec_step(s0, 0) == spec_exec(s1, pc0 as int, a, b, 0));
                    assert(exists|rb: u8| (self@, r) == spec_step(s0, rb));
                }
                r
            },
            Instr::WaitKey(x) => {
                let r = self.op_wait_key(pc0, a, b, x);
                proof {
                    assert(spec_step(s0, 0) == spec_exec(s1, pc0 as int, a, b, 0));
                    assert(exists|rb: u8| (self@, r) == spec_step(s0, rb));
                }
                r
            },
            Instr::SetDelay(x) => {
                let r = self.op_set_delay(pc0, a, b, x);
                proof {
                    assert(spec_step(s0, 0) == spec_exec(s1, pc0 as int, a, b, 0));
                    assert(exists|rb: u8| (self@, r) == spec_step(s0, rb));
                }
                r
            },
            Instr::SetSound(x) => {
                let r = self.op_set_sound(pc0, a, b, x);
                proof {
                    assert(spec_step(s0, 0) == spec_exec(s1, pc0 as int, a, b, 0));
                    assert(exists|rb: u8| (self@, r) == spec_step(s0, rb));
                }
                r
            },
            Instr::AddIndex(x) => {
                let r = self.op_add_index(pc0, a, b, x);
                proof {
                    assert(spec_step(s0, 0) == spec_exec(s1, pc0 as int, a, b, 0));
                    assert(exists|rb: u8| (self@, r) == spec_step(s0, rb));
                }
                r
            },
            Instr::GlyphIndex(x) => {
                let r = self.op_glyph_index(pc0, a, b, x);
                proof {
                    assert(spec_step(s0, 0) == spec_exec(s1, pc0 as int, a, b, 0));
                    assert(exists|rb: u8| (self@, r) == spec_step(s0, rb));
                }
                r
            },
            Instr::StoreDigits(x) => {
                let r = self.op_store_digits(pc0, a, b, x);
                proof {
                    assert(spec_step(s0, 0) == spec_exec(s1, pc0 as int, a, b, 0));
                    assert(exists|rb: u8| (self@, r) == spec_step(s0, rb));
                }
                r
            },
            Instr::StoreRegs(x) => {
                let r = self.op_store_regs(pc0, a, b, x);
                proof {
                    assert(spec_step(s0, 0) == spec_exec(s1, pc0 as int, a, b, 0));
                    assert(exists|rb: u8| (self@, r) == spec_step(s0, rb));
                }
                r
            },
            Instr::LoadRegs(x) => {
                let r = self.op_load_regs(pc0, a, b, x);
                proof {
                    assert(spec_step(s0, 0) == spec_exec(s1, pc0 as int, a, b, 0));
                    assert(exists|rb: u8| (self@, r) == spec_step(s0, rb));
                }
                r
            },
            Instr::Invalid => {
                let r = self.op_invalid(pc0, a, b);
                proof {
                    assert(spec_step(s0, 0) == spec_exec(s1, pc0 as int, a, b, 0));
                    assert(exists|rb: u8| (self@, r) == spec_step(s0, rb));
                }
                r
            },
        }
    }

    /// Replace the pseudorandom generator with one seeded deterministically.
    /// No observable machine state changes.
    pub fn set_seed(&mut self, seed: u64)
        ensures
            final(self)@ == old(self)@,
    {
        self.rng = crate::rng::seeded_rng(seed);
        proof {
            assert(self@ =~= old(self)@);
        }
    }

    /// Record the state of a key, the index masked to 0..16.  A
    /// press-to-release transition records the masked index as the most
    /// recently released key, for the wait instruction.
    pub fn set_key(&mut self, key: usize, pressed: bool)
        requires
            old(self).wf(),
        ensures
            final(self).wf(),
            final(self)@ == key_event(old(self)@, key as int, pressed),
    {
        proof {
            assert((key & 0xF) == key % 16 && key % 16 < 16) by (bit_vector);
        }
        if self.keys[key & 0xF] && !pressed {
            self.last_pressed_key = Some((key & 0xF) as u8);
        }
        self.keys.set(key & 0xF, pressed);
        proof {
            assert(self@ =~= key_event(old(self)@, key as int, pressed));
        }
    }

    /// Record that a vertical-blank pulse happened.  Idempotent until the
    /// next draw instruction consumes it.
    pub fn vblank(&mut self)
        ensures
            final(self)@ == (State { vblank: true, ..old(self)@ }),
    {
        self.vblank_interrupt = true;
        proof {
            assert(self@ =~= (State { vblank: true, ..old(self)@ }));
        }
    }

    /// One timer period: each timer counts down by one, stopping at zero.
    pub fn decrease_timers(&mut self)
        ensures
            final(self)@ == (State {
                dt: if old(self)@.dt > 0 {
                    (old(self)@.dt - 1) as u8
                } else {
                    0u8
                },
                st: if old(self)@.st > 0 {
                    (old(self)@.st - 1) as u8
                } else {
                    0u8
                },
                ..old(self)@
            }),
    {
        if self.DT > 0 {
            self.DT = self.DT - 1;
        }
        if self.ST > 0 {
            self.ST = self.ST - 1;
        }
        proof {
            assert(self@ =~= (State {
                dt: if old(self)@.dt > 0 {
                    (old(self)@.dt - 1) as u8
                } else {
                    0u8
                },
                st: if old(self)@.st > 0 {
                    (old(self)@.st - 1) as u8
                } else {
                    0u8
                },
                ..old(self)@
            }));
        }
    }

    /// Whether the sound output should be emitting tone: only while the
    /// sound timer stands above one, a documented quirk of the reference
    /// hardware — not merely while it is nonzero.
    pub fn sound_active(&self) -> (r: bool)
        ensures
            r == (self@.st > 1),
    {
        self.ST > 1
    }

    /// Whether the pixel at the (wrapped) coordinate is lit.
    pub fn get_pixel(&self, x: usize, y: usize) -> (r: bool)
        requires
            self.wf(),
        ensures
            r == self@.pixel_at(x as int, y as int),
    {
        let xm = x % 64;
        let ym = y % 32;
        let mask: u64 = 1u64 << ((63 - xm) as u64);
        (self.screen[ym] & mask) > 0
    }

    /// Whether the framebuffer differs from the snapshot taken at the
    /// previous call; the snapshot is refreshed as a side effect, so a
    /// second call without an intervening draw reports no change.
    pub fn screen_changed(&mut self) -> (r: bool)
        requires
            old(self).wf(),
        ensures
            final(self).wf(),
            r == (old(self)@.screen != old(self)@.prev),
            final(self)@ == (State { prev: old(self)@.screen, ..old(self)@ }),
    {
        let changed = !rows_equal(&self.screen, &self.prev_screen);
        self.prev_screen = clone_rows(&self.screen);
        proof {
            assert(self@ =~= (State { prev: old(self)@.screen, ..old(self)@ }));
        }
        changed
    }
}

} // verus!
