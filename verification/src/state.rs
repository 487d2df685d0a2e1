use vstd::prelude::*;

use crate::decode::{spec_decode, Instr};
use crate::emulator::EmulatorError;

verus! {

/// The mathematical value of the whole machine.  Every contract of this crate
/// speaks of this view of the interpreter, and the step semantics below is the
/// reference meaning of one executed instruction.
#[verifier::ext_equal]
pub ghost struct State {
    /// Program counter.
    pub pc: int,
    /// The 4096 bytes of memory.
    pub mem: Seq<u8>,
    /// The sixteen 8-bit registers V0..VF.
    pub v: Seq<u8>,
    /// The 16-bit address register I.
    pub i: u16,
    /// Saved program counters of active subroutine calls, oldest first.
    pub stack: Seq<int>,
    /// Delay timer.
    pub dt: u8,
    /// Sound timer.
    pub st: u8,
    /// Pressed state of the sixteen keys.
    pub keys: Seq<bool>,
    /// The framebuffer: one 64-bit mask per row, bit 0 the rightmost pixel.
    pub screen: Seq<u64>,
    /// Snapshot of the framebuffer taken at the last change check.
    pub prev: Seq<u64>,
    /// Whether a vertical-blank pulse is pending.
    pub vblank: bool,
    /// The key released since the last completed instruction, if any.
    pub last_key: Option<u8>,
}

impl State {
    /// The fixed shapes of the machine's components.
    pub open spec fn wf(self) -> bool {
        &&& self.mem.len() == 4096
        &&& self.v.len() == 16
        &&& self.keys.len() == 16
        &&& self.screen.len() == 32
        &&& self.prev.len() == 32
        &&& 0 <= self.pc
    }

    /// Whether the (wrapped) screen coordinate carries a lit pixel.
    pub open spec fn pixel_at(self, x: int, y: int) -> bool {
        self.screen[y % 32] & (1u64 << ((63 - x % 64) as u64)) != 0
    }
}

/// The built-in font: sixteen 5-byte glyphs, one per hexadecimal digit,
/// stored at the bottom of memory.
pub open spec fn font_data() -> Seq<u8> {
    seq![
        0xF0u8, 0x90, 0x90, 0x90, 0xF0, // 0
        0x20, 0x60, 0x20, 0x20, 0x70, // 1
        0xF0, 0x10, 0xF0, 0x80, 0xF0, // 2
        0xF0, 0x10, 0xF0, 0x10, 0xF0, // 3
        0x90, 0x90, 0xF0, 0x10, 0x10, // 4
        0xF0, 0x80, 0xF0, 0x10, 0xF0, // 5
        0xF0, 0x80, 0xF0, 0x90, 0xF0, // 6
        0xF0, 0x10, 0x20, 0x40, 0x40, // 7
        0xF0, 0x90, 0xF0, 0x90, 0xF0, // 8
        0xF0, 0x90, 0xF0, 0x10, 0xF0, // 9
        0xF0, 0x90, 0xF0, 0x90, 0x90, // A
        0xE0, 0x90, 0xE0, 0x90, 0xE0, // B
        0xF0, 0x80, 0x80, 0x80, 0xF0, // C
        0xE0, 0x90, 0x90, 0x90, 0xE0, // D
        0xF0, 0x80, 0xF0, 0x80, 0xF0, // E
        0xF0, 0x80, 0xF0, 0x80, 0x80, // F
    ]
}

/// How many bytes of a program image are kept: the program area holds
/// 3216 bytes, anything beyond is discarded.
pub open spec fn kept_rom_len(rom: Seq<u8>) -> int {
    if rom.len() <= 3216 {
        rom.len() as int
    } else {
        3216
    }
}

/// Memory right after construction: font at the bottom, the program image
/// from 0x200 on (clamped to the program area), zero everywhere else.
pub open spec fn initial_mem(rom: Seq<u8>) -> Seq<u8> {
    Seq::new(
        4096,
        |j: int|
            if j < 80 {
                font_data()[j]
            } else if 0x200 <= j < 0x200 + kept_rom_len(rom) {
                rom[j - 0x200]
            } else {
                0u8
            },
    )
}

/// The machine as constructed from a program image: memory loaded,
/// everything else zeroed, execution starting at 0x200.
pub open spec fn initial_state(rom: Seq<u8>) -> State {
    State {
        pc: 0x200,
        mem: initial_mem(rom),
        v: Seq::new(16, |j: int| 0u8),
        i: 0,
        stack: Seq::empty(),
        dt: 0,
        st: 0,
        keys: Seq::new(16, |j: int| false),
        screen: Seq::new(32, |j: int| 0u64),
        prev: Seq::new(32, |j: int| 0u64),
        vblank: false,
        last_key: None,
    }
}

/// A key event: the key's pressed flag (index masked to 0..16) is updated,
/// and a press-to-release transition records the masked key index as the
/// last released one.
pub open spec fn key_event(s: State, key: int, pressed: bool) -> State {
    State {
        keys: s.keys.update(key % 16, pressed),
        last_key: if s.keys[key % 16] && !pressed {
            Some((key % 16) as u8)
        } else {
            s.last_key
        },
        ..s
    }
}

/// A sprite byte shifted into place inside a 64-bit row mask: the byte's
/// leftmost pixel lands at column `xpos`, and columns past the right edge of
/// the row are shifted out (the sprite is 8 wide, so 56 is the pivot).
pub open spec fn shifted_row(byte: u8, xpos: int) -> u64 {
    if xpos > 56 {
        (byte as u64) >> ((xpos - 56) as u64)
    } else if xpos < 56 {
        (byte as u64) << ((56 - xpos) as u64)
    } else {
        byte as u64
    }
}

/// A pixel was cleared: set before, and no longer set afterward.
pub open spec fn row_cleared(before: u64, after: u64) -> bool {
    before & !after != 0
}

/// How many sprite rows are actually drawn: rows past the bottom edge
/// are clipped, never wrapped.
pub open spec fn drawn_rows(ypos: int, n: u8) -> int {
    if n <= 32 - ypos {
        n as int
    } else {
        32 - ypos
    }
}

/// The framebuffer after drawing an `n`-row sprite read from address I
/// at screen position (Vx mod 64, Vy mod 32): each drawn row is XORed
/// with the shifted sprite byte.
pub open spec fn draw_screen(s: State, x: u8, y: u8, n: u8) -> Seq<u64> {
    let xpos = s.v[x as int] % 64;
    let ypos = s.v[y as int] % 32;
    let cnt = drawn_rows(ypos as int, n);
    Seq::new(
        32,
        |r: int|
            if ypos <= r < ypos + cnt {
                s.screen[r] ^ shifted_row(s.mem[s.i + r - ypos], xpos as int)
            } else {
                s.screen[r]
            },
    )
}

/// Whether drawing the sprite clears at least one previously lit pixel,
/// over all drawn rows together.
pub open spec fn draw_collides(s: State, x: u8, y: u8, n: u8) -> bool {
    let xpos = s.v[x as int] % 64;
    let ypos = s.v[y as int] % 32;
    let cnt = drawn_rows(ypos as int, n);
    exists|r: int|
        ypos <= r < ypos + cnt && #[trigger] row_cleared(
            s.screen[r],
            s.screen[r] ^ shifted_row(s.mem[s.i + r - ypos], xpos as int),
        )
}

/// An instruction ran to completion: the released-key latch is cleared,
/// whatever the instruction was.
pub open spec fn done(s: State) -> (State, Result<(), EmulatorError>) {
    (State { last_key: None, ..s }, Ok(()))
}

/// What one decoded instruction does.  `s` is the state after the program
/// counter was already advanced past the instruction word `(a, b)` that was
/// fetched at `pc0`; `rb` is the byte the random-number generator produced,
/// consulted only by the random instruction.
pub open spec fn spec_exec(s: State, pc0: int, a: u8, b: u8, rb: u8) -> (
    State,
    Result<(), EmulatorError>,
) {
    match spec_decode(a, b) {
        Instr::Cls => done(State { screen: Seq::new(32, |r: int| 0u64), ..s }),
        Instr::Ret => if s.stack.len() == 0 {
            (s, Err(EmulatorError::InvalidReturn(pc0 as u16)))
        } else {
            done(State { pc: s.stack.last(), stack: s.stack.drop_last(), ..s })
        },
        Instr::Sys => (s, Err(EmulatorError::MachineSubroutine(pc0 as u16))),
        Instr::Jump(t) => done(State { pc: t as int, ..s }),
        Instr::Call(t) => done(State { pc: t as int, stack: s.stack.push(s.pc), ..s }),
        Instr::SkipEqImm(x, nn) => done(
            State { pc: if s.v[x as int] == nn { s.pc + 2 } else { s.pc }, ..s },
        ),
        Instr::SkipNeImm(x, nn) => done(
            State { pc: if s.v[x as int] != nn { s.pc + 2 } else { s.pc }, ..s },
        ),
        Instr::SkipEqReg(x, y) => done(
            State { pc: if s.v[x as int] == s.v[y as int] { s.pc + 2 } else { s.pc }, ..s },
        ),
        Instr::LoadImm(x, nn) => done(State { v: s.v.update(x as int, nn), ..s }),
        Instr::AddImm(x, nn) => done(
            State { v: s.v.update(x as int, ((s.v[x as int] + nn) % 256) as u8), ..s },
        ),
        Instr::LoadReg(x, y) => done(State { v: s.v.update(x as int, s.v[y as int]), ..s }),
        Instr::Or(x, y) => done(
            State { v: s.v.update(x as int, s.v[x as int] | s.v[y as int]).update(15, 0), ..s },
        ),
        Instr::And(x, y) => done(
            State { v: s.v.update(x as int, s.v[x as int] & s.v[y as int]).update(15, 0), ..s },
        ),
        Instr::Xor(x, y) => done(
            State { v: s.v.update(x as int, s.v[x as int] ^ s.v[y as int]).update(15, 0), ..s },
        ),
        Instr::AddReg(x, y) => done(
            State {
                v: s.v.update(x as int, ((s.v[x as int] + s.v[y as int]) % 256) as u8).update(
                    15,
                    if s.v[x as int] + s.v[y as int] > 255 {
                        1u8
                    } else {
                        0u8
                    },
                ),
                ..s
            },
        ),
        Instr::SubReg(x, y) => done(
            State {
                v: s.v.update(x as int, ((s.v[x as int] + 256 - s.v[y as int]) % 256) as u8).update(
                    15,
                    if s.v[x as int] < s.v[y as int] {
                        0u8
                    } else {
                        1u8
                    },
                ),
                ..s
            },
        ),
        Instr::ShiftRight(x, y) => done(
            State {
                v: s.v.update(x as int, s.v[y as int] / 2).update(15, s.v[y as int] % 2),
                ..s
            },
        ),
        Instr::SubRev(x, y) => done(
            State {
                v: s.v.update(x as int, ((s.v[y as int] + 256 - s.v[x as int]) % 256) as u8).update(
                    15,
                    if s.v[y as int] < s.v[x as int] {
                        0u8
                    } else {
                        1u8
                    },
                ),
                ..s
            },
        ),
        Instr::ShiftLeft(x, y) => done(
            State {
                v: s.v.update(x as int, ((s.v[y as int] * 2) % 256) as u8).update(
                    15,
                    s.v[y as int] / 128,
                ),
                ..s
            },
        ),
        Instr::SkipNeReg(x, y) => done(
            State { pc: if s.v[x as int] != s.v[y as int] { s.pc + 2 } else { s.pc }, ..s },
        ),
        Instr::LoadIndex(t) => done(State { i: t, ..s }),
        Instr::JumpOffset(t) => if s.v[0] + t >= 4096 {
            (State { pc: pc0, ..s }, Err(EmulatorError::InvalidJump(a, b, pc0 as u16)))
        } else {
            done(State { pc: s.v[0] + t, ..s })
        },
        Instr::Random(x, nn) => done(State { v: s.v.update(x as int, rb & nn), ..s }),
        Instr::Draw(x, y, n) => if !s.vblank {
            (State { pc: pc0, ..s }, Ok(()))
        } else {
            done(
                State {
                    screen: draw_screen(s, x, y, n),
                    v: s.v.update(
                        15,
                        if draw_collides(s, x, y, n) {
                            1u8
                        } else {
                            0u8
                        },
                    ),
                    vblank: false,
                    ..s
                },
            )
        },
        Instr::SkipKey(x) => done(
            State {
                pc: if s.keys[(s.v[x as int] % 16) as int] { s.pc + 2 } else { s.pc },
                ..s
            },
        ),
        Instr::SkipNoKey(x) => done(
            State {
                pc: if !s.keys[(s.v[x as int] % 16) as int] { s.pc + 2 } else { s.pc },
                ..s
            },
        ),
        Instr::ReadDelay(x) => done(State { v: s.v.update(x as int, s.dt), ..s }),
        Instr::WaitKey(x) => match s.last_key {
            Some(k) => done(State { v: s.v.update(x as int, k), ..s }),
            None => done(State { pc: pc0, ..s }),
        },
        Instr::SetDelay(x) => done(State { dt: s.v[x as int], ..s }),
        Instr::SetSound(x) => done(State { st: s.v[x as int], ..s }),
        Instr::AddIndex(x) => done(
            State { i: ((s.i + s.v[x as int]) % 0x10000) as u16, ..s },
        ),
        Instr::GlyphIndex(x) => done(State { i: ((s.v[x as int] % 16) * 5) as u16, ..s }),
        Instr::StoreDigits(x) => done(
            State {
                mem: s.mem.update(s.i as int, s.v[x as int] / 100).update(
                    s.i + 1,
                    (s.v[x as int] / 10) % 10,
                ).update(s.i + 2, s.v[x as int] % 10),
                ..s
            },
        ),
        Instr::StoreRegs(x) => done(
            State {
                mem: Seq::new(
                    4096,
                    |j: int|
                        if s.i <= j < s.i + x + 1 {
                            s.v[j - s.i]
                        } else {
                            s.mem[j]
                        },
                ),
                i: (s.i + x + 1) as u16,
                ..s
            },
        ),
        Instr::LoadRegs(x) => done(
            State {
                v: Seq::new(
                    16,
                    |j: int|
                        if j < x + 1 {
                            s.mem[s.i + j]
                        } else {
                            s.v[j]
                        },
                ),
                i: (s.i + x + 1) as u16,
                ..s
            },
        ),
        Instr::Invalid => (s, Err(EmulatorError::InvalidOpcode(a, b, pc0 as u16))),
    }
}

/// One whole instruction cycle: fetch the word at the program counter,
/// advance the counter past it, then execute.
pub open spec fn spec_step(s: State, rb: u8) -> (State, Result<(), EmulatorError>) {
    spec_exec(State { pc: s.pc + 2, ..s }, s.pc, s.mem[s.pc], s.mem[s.pc + 1], rb)
}

/// The inputs on which a cycle stays inside the 4096-byte address space.
/// The reference machine has no defined behaviour outside of these: the
/// fetch or a memory access would leave the address space.
pub open spec fn step_fits(s: State) -> bool {
    &&& s.pc + 1 < 4096
    &&& match spec_decode(s.mem[s.pc], s.mem[s.pc + 1]) {
        Instr::StoreDigits(x) => s.i + 2 < 4096,
        Instr::StoreRegs(x) => s.i + x + 1 <= 4096,
        Instr::LoadRegs(x) => s.i + x + 1 <= 4096,
        Instr::Draw(x, y, n) => s.vblank ==> {
            let cnt = drawn_rows((s.v[y as int] % 32) as int, n);
            cnt == 0 || s.i + cnt <= 4096
        },
        _ => true,
    }
}

} // verus!
