use vstd::prelude::*;

verus! {

/// High nibble of a byte, as a value in 0..16.
pub fn nibble_h(b: u8) -> (r: u8)
    ensures
        r == b / 16,
{
    proof {
        assert(((b >> 4u8) & 0xF) == b / 16) by (bit_vector);
    }
    (b >> 4) & 0xF
}

/// Low nibble of a byte, as a value in 0..16.
pub fn nibble_l(b: u8) -> (r: u8)
    ensures
        r == b % 16,
{
    proof {
        assert((b & 0xF) == b % 16) by (bit_vector);
    }
    b & 0xF
}

/// The 12-bit address field of an instruction word.
pub fn nnn(a: u8, b: u8) -> (r: u16)
    ensures
        r == imm12(a, b),
{
    proof {
        assert(((((a as u16) << 8u16) | (b as u16)) & 0xFFF) == (a as u16 % 16) * 256 + b)
            by (bit_vector);
    }
    (((a as u16) << 8) | (b as u16)) & 0xFFF
}

/// Low nibble, in specifications.
pub open spec fn lo(b: u8) -> u8 {
    b % 16
}

/// High nibble, in specifications.
pub open spec fn hi(b: u8) -> u8 {
    b / 16
}

/// The 12-bit address field, in specifications.
pub open spec fn imm12(a: u8, b: u8) -> u16 {
    (lo(a) * 256 + b) as u16
}

/// One decoded instruction word.  Register selectors (`x`, `y`) are nibbles,
/// so they always lie in 0..16; immediate fields keep their natural width.
#[derive(Clone, Copy, Debug, PartialEq, Eq, Structural)]
pub enum Instr {
    /// 00E0: clear the framebuffer.
    Cls,
    /// 00EE: return from a subroutine.
    Ret,
    /// 0nnn (other): call a machine-code routine; unsupported, reported as an error.
    Sys,
    /// 1nnn: jump to nnn.
    Jump(u16),
    /// 2nnn: call the subroutine at nnn.
    Call(u16),
    /// 3xnn: skip the next instruction if Vx == nn.
    SkipEqImm(u8, u8),
    /// 4xnn: skip the next instruction if Vx != nn.
    SkipNeImm(u8, u8),
    /// 5xy0: skip the next instruction if Vx == Vy.
    SkipEqReg(u8, u8),
    /// 6xnn: Vx := nn.
    LoadImm(u8, u8),
    /// 7xnn: Vx := Vx + nn (wrapping, VF untouched).
    AddImm(u8, u8),
    /// 8xy0: Vx := Vy.
    LoadReg(u8, u8),
    /// 8xy1: Vx := Vx | Vy, then VF := 0.
    Or(u8, u8),
    /// 8xy2: Vx := Vx & Vy, then VF := 0.
    And(u8, u8),
    /// 8xy3: Vx := Vx ^ Vy, then VF := 0.
    Xor(u8, u8),
    /// 8xy4: Vx := Vx + Vy (wrapping), VF := carry.
    AddReg(u8, u8),
    /// 8xy5: Vx := Vx - Vy (wrapping), VF := 0 on borrow else 1.
    SubReg(u8, u8),
    /// 8xy6: VF := Vy & 1, Vx := Vy >> 1 (flag written last).
    ShiftRight(u8, u8),
    /// 8xy7: Vx := Vy - Vx (wrapping), VF := 0 on borrow else 1.
    SubRev(u8, u8),
    /// 8xyE: VF := Vy >> 7, Vx := Vy << 1 (flag written last).
    ShiftLeft(u8, u8),
    /// 9xy0: skip the next instruction if Vx != Vy.
    SkipNeReg(u8, u8),
    /// Annn: I := nnn.
    LoadIndex(u16),
    /// Bnnn: jump to V0 + nnn, failing if the target is out of memory.
    JumpOffset(u16),
    /// Cxnn: Vx := random byte & nn.
    Random(u8, u8),
    /// Dxyn: draw an n-row sprite from address I at (Vx, Vy).
    Draw(u8, u8, u8),
    /// Ex9E: skip the next instruction if key Vx & 0xF is pressed.
    SkipKey(u8),
    /// ExA1: skip the next instruction if key Vx & 0xF is not pressed.
    SkipNoKey(u8),
    /// Fx07: Vx := delay timer.
    ReadDelay(u8),
    /// Fx0A: wait for a key release, then Vx := that key.
    WaitKey(u8),
    /// Fx15: delay timer := Vx.
    SetDelay(u8),
    /// Fx18: sound timer := Vx.
    SetSound(u8),
    /// Fx1E: I := I + Vx (16-bit wrapping).
    AddIndex(u8),
    /// Fx29: I := address of the built-in glyph for digit Vx & 0xF.
    GlyphIndex(u8),
    /// Fx33: store the three decimal digits of Vx at I, I+1, I+2.
    StoreDigits(u8),
    /// Fx55: copy V0..=Vx to memory at I, then I := I + x + 1.
    StoreRegs(u8),
    /// Fx65: copy memory at I to V0..=Vx, then I := I + x + 1.
    LoadRegs(u8),
    /// Any other bit pattern.
    Invalid,
}

/// What a two-byte instruction word means, disambiguated first by the high
/// nibble of the first byte and then by the low nibble or the second byte.
pub open spec fn spec_decode(a: u8, b: u8) -> Instr {
    let x = lo(a);
    let y = hi(b);
    let n = lo(b);
    if a == 0x00 && b == 0xE0 {
        Instr::Cls
    } else if a == 0x00 && b == 0xEE {
        Instr::Ret
    } else if hi(a) == 0x0 {
        Instr::Sys
    } else if hi(a) == 0x1 {
        Instr::Jump(imm12(a, b))
    } else if hi(a) == 0x2 {
        Instr::Call(imm12(a, b))
    } else if hi(a) == 0x3 {
        Instr::SkipEqImm(x, b)
    } else if hi(a) == 0x4 {
        Instr::SkipNeImm(x, b)
    } else if hi(a) == 0x5 && n == 0x0 {
        Instr::SkipEqReg(x, y)
    } else if hi(a) == 0x6 {
        Instr::LoadImm(x, b)
    } else if hi(a) == 0x7 {
        Instr::AddImm(x, b)
    } else if hi(a) == 0x8 && n == 0x0 {
        Instr::LoadReg(x, y)
    } else if hi(a) == 0x8 && n == 0x1 {
        Instr::Or(x, y)
    } else if hi(a) == 0x8 && n == 0x2 {
        Instr::And(x, y)
    } else if hi(a) == 0x8 && n == 0x3 {
        Instr::Xor(x, y)
    } else if hi(a) == 0x8 && n == 0x4 {
        Instr::AddReg(x, y)
    } else if hi(a) == 0x8 && n == 0x5 {
        Instr::SubReg(x, y)
    } else if hi(a) == 0x8 && n == 0x6 {
        Instr::ShiftRight(x, y)
    } else if hi(a) == 0x8 && n == 0x7 {
        Instr::SubRev(x, y)
    } else if hi(a) == 0x8 && n == 0xE {
        Instr::ShiftLeft(x, y)
    } else if hi(a) == 0x9 && n == 0x0 {
        Instr::SkipNeReg(x, y)
    } else if hi(a) == 0xA {
        Instr::LoadIndex(imm12(a, b))
    } else if hi(a) == 0xB {
        Instr::JumpOffset(imm12(a, b))
    } else if hi(a) == 0xC {
        Instr::Random(x, b)
    } else if hi(a) == 0xD {
        Instr::Draw(x, y, n)
    } else if hi(a) == 0xE && b == 0x9E {
        Instr::SkipKey(x)
    } else if hi(a) == 0xE && b == 0xA1 {
        Instr::SkipNoKey(x)
    } else if hi(a) == 0xF && b == 0x07 {
        Instr::ReadDelay(x)
    } else if hi(a) == 0xF && b == 0x0A {
        Instr::WaitKey(x)
    } else if hi(a) == 0xF && b == 0x15 {
        Instr::SetDelay(x)
    } else if hi(a) == 0xF && b == 0x18 {
        Instr::SetSound(x)
    } else if hi(a) == 0xF && b == 0x1E {
        Instr::AddIndex(x)
    } else if hi(a) == 0xF && b == 0x29 {
        Instr::GlyphIndex(x)
    } else if hi(a) == 0xF && b == 0x33 {
        Instr::StoreDigits(x)
    } else if hi(a) == 0xF && b == 0x55 {
        Instr::StoreRegs(x)
    } else if hi(a) == 0xF && b == 0x65 {
        Instr::LoadRegs(x)
    } else {
        Instr::Invalid
    }
}

/// Decode one instruction word.
pub fn decode(a: u8, b: u8) -> (instr: Instr)
    ensures
        instr == spec_decode(a, b),
{
    let x = nibble_l(a);
    let y = nibble_h(b);
    let n = nibble_l(b);
    match nibble_h(a) {
        0x0 if a == 0x00 && b == 0xE0 => Instr::Cls,
        0x0 if a == 0x00 && b == 0xEE => Instr::Ret,
        0x0 => Instr::Sys,
        0x1 => Instr::Jump(nnn(a, b)),
        0x2 => Instr::Call(nnn(a, b)),
        0x3 => Instr::SkipEqImm(x, b),
        0x4 => Instr::SkipNeImm(x, b),
        0x5 if n == 0x0 => Instr::SkipEqReg(x, y),
        0x6 => Instr::LoadImm(x, b),
        0x7 => Instr::AddImm(x, b),
        0x8 if n == 0x0 => Instr::LoadReg(x, y),
        0x8 if n == 0x1 => Instr::Or(x, y),
        0x8 if n == 0x2 => Instr::And(x, y),
        0x8 if n == 0x3 => Instr::Xor(x, y),
        0x8 if n == 0x4 => Instr::AddReg(x, y),
        0x8 if n == 0x5 => Instr::SubReg(x, y),
        0x8 if n == 0x6 => Instr::ShiftRight(x, y),
        0x8 if n == 0x7 => Instr::SubRev(x, y),
        0x8 if n == 0xE => Instr::ShiftLeft(x, y),
        0x9 if n == 0x0 => Instr::SkipNeReg(x, y),
        0xA => Instr::LoadIndex(nnn(a, b)),
        0xB => Instr::JumpOffset(nnn(a, b)),
        0xC => Instr::Random(x, b),
        0xD => Instr::Draw(x, y, n),
        0xE if b == 0x9E => Instr::SkipKey(x),
        0xE if b == 0xA1 => Instr::SkipNoKey(x),
        0xF if b == 0x07 => Instr::ReadDelay(x),
        0xF if b == 0x0A => Instr::WaitKey(x),
        0xF if b == 0x15 => Instr::SetDelay(x),
        0xF if b == 0x18 => Instr::SetSound(x),
        0xF if b == 0x1E => Instr::AddIndex(x),
        0xF if b == 0x29 => Instr::GlyphIndex(x),
        0xF if b == 0x33 => Instr::StoreDigits(x),
        0xF if b == 0x55 => Instr::StoreRegs(x),
        0xF if b == 0x65 => Instr::LoadRegs(x),
        _ => Instr::Invalid,
    }
}

} // verus!
