use vstd::prelude::*;

use crate::decode::{spec_decode, Instr};
use crate::emulator::EmulatorError;
use crate::state::{key_event, spec_exec, spec_step, State};

verus! {

/// Only the random-number instruction consults the generator: on any other
/// instruction word, a cycle's outcome is the same whatever byte the
/// generator would have produced.  With this, `execute`'s existential
/// contract determines the transition completely for every other
/// instruction.
pub proof fn lemma_step_deterministic(s: State, rb1: u8, rb2: u8)
    requires
        !(spec_decode(s.mem[s.pc], s.mem[s.pc + 1]) matches Instr::Random(_, _)),
    ensures
        spec_step(s, rb1) == spec_step(s, rb2),
{
}

/// Adding two registers reports a carry in VF exactly when the true sum of
/// the two operand values exceeds 255 — whichever registers the instruction
/// names, the flag register included, since the flag is written last.
pub proof fn lemma_add_carry(s: State, pc0: int, a: u8, b: u8, rb: u8, x: u8, y: u8)
    requires
        s.wf(),
        spec_decode(a, b) == Instr::AddReg(x, y),
    ensures
        ({
            let (t, r) = spec_exec(s, pc0, a, b, rb);
            &&& r == Ok::<(), EmulatorError>(())
            &&& (t.v[15] == 1 <==> s.v[x as int] + s.v[y as int] > 255)
            &&& (t.v[15] == 0 <==> s.v[x as int] + s.v[y as int] <= 255)
        }),
{
}

/// Subtracting Vy from Vx clears VF exactly when a borrow occurred, that is,
/// when the minuend was smaller than the subtrahend (inverted-carry
/// convention); the flag reflects the register values before the write.
pub proof fn lemma_sub_borrow(s: State, pc0: int, a: u8, b: u8, rb: u8, x: u8, y: u8)
    requires
        s.wf(),
        spec_decode(a, b) == Instr::SubReg(x, y),
    ensures
        ({
            let (t, r) = spec_exec(s, pc0, a, b, rb);
            &&& r == Ok::<(), EmulatorError>(())
            &&& (t.v[15] == 0 <==> s.v[x as int] < s.v[y as int])
            &&& (t.v[15] == 1 <==> s.v[x as int] >= s.v[y as int])
        }),
{
}

/// The three bitwise instructions always leave VF zero afterward, even when
/// VF itself is the destination or a source register.
pub proof fn lemma_bitwise_clears_flag(s: State, pc0: int, a: u8, b: u8, rb: u8, x: u8, y: u8)
    requires
        s.wf(),
        spec_decode(a, b) == Instr::Or(x, y) || spec_decode(a, b) == Instr::And(x, y)
            || spec_decode(a, b) == Instr::Xor(x, y),
    ensures
        ({
            let (t, r) = spec_exec(s, pc0, a, b, rb);
            &&& r == Ok::<(), EmulatorError>(())
            &&& t.v[15] == 0
        }),
{
}

/// The right shift computes both the result and VF from the value that the
/// source register Vy held before anything was written — also when the
/// destination and the source are the same register.
pub proof fn lemma_shift_right_reads_source(s: State, pc0: int, a: u8, b: u8, rb: u8, x: u8, y: u8)
    requires
        s.wf(),
        spec_decode(a, b) == Instr::ShiftRight(x, y),
    ensures
        ({
            let (t, r) = spec_exec(s, pc0, a, b, rb);
            &&& r == Ok::<(), EmulatorError>(())
            &&& t.v[15] == s.v[y as int] % 2
            &&& t.v[x as int] == if x == 15 {
                s.v[y as int] % 2
            } else {
                s.v[y as int] / 2
            }
        }),
{
}

/// The left shift computes both the result and VF from the value that the
/// source register Vy held before anything was written — also when the
/// destination and the source are the same register.
pub proof fn lemma_shift_left_reads_source(s: State, pc0: int, a: u8, b: u8, rb: u8, x: u8, y: u8)
    requires
        s.wf(),
        spec_decode(a, b) == Instr::ShiftLeft(x, y),
    ensures
        ({
            let (t, r) = spec_exec(s, pc0, a, b, rb);
            &&& r == Ok::<(), EmulatorError>(())
            &&& t.v[15] == s.v[y as int] / 128
            &&& t.v[x as int] == if x == 15 {
                s.v[y as int] / 128
            } else {
                ((s.v[y as int] * 2) % 256) as u8
            }
        }),
{
}

/// While no key release has been latched, the wait-for-key instruction rolls
/// the program counter back to itself and changes nothing else: it re-runs
/// on the next cycle instead of advancing.
pub proof fn lemma_wait_key_blocks(s: State, pc0: int, a: u8, b: u8, rb: u8, x: u8)
    requires
        s.wf(),
        spec_decode(a, b) == Instr::WaitKey(x),
        s.last_key is None,
    ensures
        ({
            let (t, r) = spec_exec(s, pc0, a, b, rb);
            &&& r == Ok::<(), EmulatorError>(())
            &&& t == (State { pc: pc0, ..s })
        }),
{
    let (t, r) = spec_exec(s, pc0, a, b, rb);
    assert(t =~= (State { pc: pc0, ..s }));
}

/// While no key release is latched, a whole cycle at a wait-for-key
/// instruction leaves the machine exactly as it was — so stepping it any
/// number of times cannot advance the program counter.
pub proof fn lemma_wait_key_blocks_repeatedly(s: State, rb: u8, x: u8)
    requires
        s.wf(),
        s.pc + 1 < 4096,
        spec_decode(s.mem[s.pc], s.mem[s.pc + 1]) == Instr::WaitKey(x),
        s.last_key is None,
    ensures
        spec_step(s, rb) == (s, Ok::<(), EmulatorError>(())),
{
    let (t, r) = spec_step(s, rb);
    assert(t =~= s);
}

/// Pressing a key — holding it down included — never sets the released-key
/// latch; only a press-to-release transition does.  Together with
/// `lemma_wait_key_blocks`, a held key can never satisfy the wait
/// instruction.
pub proof fn lemma_press_never_latches(s: State, key: int)
    ensures
        key_event(s, key, true).last_key == s.last_key,
{
}

/// Once a key release has been latched, the wait-for-key instruction
/// completes: the program counter stays where the fetch put it (two past the
/// instruction), the register receives the latched key, and the latch is
/// cleared.
pub proof fn lemma_wait_key_completes(s: State, pc0: int, a: u8, b: u8, rb: u8, x: u8, k: u8)
    requires
        s.wf(),
        spec_decode(a, b) == Instr::WaitKey(x),
        s.last_key == Some(k),
    ensures
        ({
            let (t, r) = spec_exec(s, pc0, a, b, rb);
            &&& r == Ok::<(), EmulatorError>(())
            &&& t == (State { v: s.v.update(x as int, k), last_key: None, ..s })
        }),
{
    let (t, r) = spec_exec(s, pc0, a, b, rb);
    assert(t =~= (State { v: s.v.update(x as int, k), last_key: None, ..s }));
}

/// A computed jump whose target leaves the address space fails with the
/// invalid-jump error, naming the instruction's bytes and fetch address, and
/// leaves the machine exactly as it was — the program counter included, so
/// stepping again fails identically.
pub proof fn lemma_invalid_jump_idempotent(s: State, rb: u8, rb2: u8, nnn: u16)
    requires
        s.wf(),
        s.pc + 1 < 4096,
        spec_decode(s.mem[s.pc], s.mem[s.pc + 1]) == Instr::JumpOffset(nnn),
        s.v[0] + nnn >= 4096,
    ensures
        ({
            let (t, r) = spec_step(s, rb);
            &&& r == Err::<(), EmulatorError>(EmulatorError::InvalidJump(
                s.mem[s.pc],
                s.mem[s.pc + 1],
                s.pc as u16,
            ))
            &&& t == s
            &&& spec_step(t, rb2) == (t, r)
        }),
{
    let (t, r) = spec_step(s, rb);
    assert(t =~= s);
}

/// Storing V0..Vx at I and then loading from the same address — in any later
/// well-formed state that still holds that memory, whatever happened to the
/// registers in between — reproduces the original register values, and each
/// of the two instructions advances I by x + 1.
pub proof fn lemma_regs_round_trip(
    s: State,
    pc0: int,
    a: u8,
    b: u8,
    rb: u8,
    x: u8,
    t: State,
    pc1: int,
    a2: u8,
    b2: u8,
    rb2: u8,
)
    requires
        s.wf(),
        spec_decode(a, b) == Instr::StoreRegs(x),
        s.i + x + 1 <= 4096,
        t.wf(),
        spec_decode(a2, b2) == Instr::LoadRegs(x),
        t.mem == spec_exec(s, pc0, a, b, rb).0.mem,
        t.i == s.i,
    ensures
        ({
            let (s2, r1) = spec_exec(s, pc0, a, b, rb);
            let (t2, r2) = spec_exec(t, pc1, a2, b2, rb2);
            &&& r1 == Ok::<(), EmulatorError>(())
            &&& r2 == Ok::<(), EmulatorError>(())
            &&& s2.i == s.i + x + 1
            &&& t2.i == t.i + x + 1
            &&& forall|k: int| 0 <= k <= x ==> t2.v[k] == s.v[k]
        }),
{
}

} // verus!
