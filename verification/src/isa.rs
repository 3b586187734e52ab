//! The instruction set: decoded instruction variants and the decoder.
//!
//! Every instruction is a 16-bit word. The top nibble selects the family;
//! some families are further disambiguated by the low nibble or the low byte.
//! Decoding is total and side-effect-free: a word either decodes to exactly
//! one variant or to no instruction at all.

use vstd::prelude::*;

verus! {

/// A decoded instruction. Register indices (`x`, `y`) are 4-bit fields,
/// immediates are 8-bit (`nn`) or 12-bit (`nnn`) fields of the word.
#[derive(Debug, Clone, Copy, PartialEq, Eq, Structural)]
pub enum Instr {
    /// 00E0: clear the framebuffer.
    ClearScreen,
    /// 00EE: return from a subroutine.
    Return,
    /// 0NNN: legacy machine-code routine call; categorically unsupported.
    MachineRoutine(u16),
    /// 1NNN: unconditional jump to `nnn`.
    Jump(u16),
    /// 2NNN: call the subroutine at `nnn`.
    Call(u16),
    /// 3XNN: skip the next instruction if `Vx == nn`.
    SkipIfEqImm(u8, u8),
    /// 4XNN: skip the next instruction if `Vx != nn`.
    SkipIfNeImm(u8, u8),
    /// 5XY0: skip the next instruction if `Vx == Vy`.
    SkipIfEqReg(u8, u8),
    /// 6XNN: `Vx := nn`.
    SetImm(u8, u8),
    /// 7XNN: `Vx := Vx + nn`, wrapping, no flag.
    AddImm(u8, u8),
    /// 8XY0: `Vx := Vy`.
    Copy(u8, u8),
    /// 8XY1: `Vx := Vx | Vy`.
    Or(u8, u8),
    /// 8XY2: `Vx := Vx & Vy`.
    And(u8, u8),
    /// 8XY3: `Vx := Vx ^ Vy`.
    Xor(u8, u8),
    /// 8XY4: `Vx := Vx + Vy`; `VF := carry`.
    AddReg(u8, u8),
    /// 8XY5: `Vx := Vx - Vy`; `VF := 1` if no borrow, else `0`.
    SubReg(u8, u8),
    /// 8XY6: `VF := Vx & 1`; `Vx := Vx >> 1`. The `y` field is decoded but
    /// unused, a documented quirk of this instruction.
    ShiftRight(u8, u8),
    /// 8XY7: `Vx := Vy - Vx`; `VF := 1` if no borrow, else `0`.
    SubFrom(u8, u8),
    /// 8XYE: `VF := Vx >> 7`; `Vx := Vx << 1` (truncated). The `y` field is
    /// decoded but unused, the same quirk as 8XY6.
    ShiftLeft(u8, u8),
    /// 9XY0: skip the next instruction if `Vx != Vy`.
    SkipIfNeReg(u8, u8),
    /// ANNN: `I := nnn`.
    SetIndex(u16),
    /// CXNN: `Vx := random byte & nn`.
    Random(u8, u8),
    /// DXYN: draw the `n`-row sprite at `memory[I..]` at `(Vx, Vy)`.
    Draw(u8, u8, u8),
    /// EX9E: skip the next instruction if key `Vx` is pressed.
    SkipIfKey(u8),
    /// EXA1: skip the next instruction if key `Vx` is not pressed.
    SkipIfNotKey(u8),
    /// FX07: `Vx := system clock`.
    ReadTimer(u8),
    /// FX15: `system clock := Vx`.
    SetTimer(u8),
    /// FX18: `sound clock := Vx`.
    SetSound(u8),
    /// FX1E: `I := I + Vx`, wrapped past 0xFFF, overflow flag in `VF`.
    AddIndex(u8),
    /// FX55: copy `V0..=Vx` into `memory[I..]`.
    StoreRegisters(u8),
    /// FX65: copy `memory[I..]` into `V0..=Vx`.
    LoadRegisters(u8),
}

/// What a 16-bit word decodes to: `None` exactly for unrecognized words.
/// The two zero-argument instructions 00E0 and 00EE are matched by full
/// 16-bit equality before the generic 0NNN fallback.
pub open spec fn spec_decode(w: u16) -> Option<Instr> {
    let op = w >> 12;
    let x = ((w >> 8) & 0xF) as u8;
    let y = ((w >> 4) & 0xF) as u8;
    let n = (w & 0xF) as u8;
    let nn = (w & 0xFF) as u8;
    let nnn = w & 0xFFF;
    if w == 0x00E0 {
        Some(Instr::ClearScreen)
    } else if w == 0x00EE {
        Some(Instr::Return)
    } else if op == 0x0 {
        Some(Instr::MachineRoutine(nnn))
    } else if op == 0x1 {
        Some(Instr::Jump(nnn))
    } else if op == 0x2 {
        Some(Instr::Call(nnn))
    } else if op == 0x3 {
        Some(Instr::SkipIfEqImm(x, nn))
    } else if op == 0x4 {
        Some(Instr::SkipIfNeImm(x, nn))
    } else if op == 0x5 {
        if n == 0x0 {
            Some(Instr::SkipIfEqReg(x, y))
        } else {
            None
        }
    } else if op == 0x6 {
        Some(Instr::SetImm(x, nn))
    } else if op == 0x7 {
        Some(Instr::AddImm(x, nn))
    } else if op == 0x8 {
        if n == 0x0 {
            Some(Instr::Copy(x, y))
        } else if n == 0x1 {
            Some(Instr::Or(x, y))
        } else if n == 0x2 {
            Some(Instr::And(x, y))
        } else if n == 0x3 {
            Some(Instr::Xor(x, y))
        } else if n == 0x4 {
            Some(Instr::AddReg(x, y))
        } else if n == 0x5 {
            Some(Instr::SubReg(x, y))
        } else if n == 0x6 {
            Some(Instr::ShiftRight(x, y))
        } else if n == 0x7 {
            Some(Instr::SubFrom(x, y))
        } else if n == 0xE {
            Some(Instr::ShiftLeft(x, y))
        } else {
            None
        }
    } else if op == 0x9 {
        if n == 0x0 {
            Some(Instr::SkipIfNeReg(x, y))
        } else {
            None
        }
    } else if op == 0xA {
        Some(Instr::SetIndex(nnn))
    } else if op == 0xC {
        Some(Instr::Random(x, nn))
    } else if op == 0xD {
        Some(Instr::Draw(x, y, n))
    } else if op == 0xE {
        if nn == 0x9E {
            Some(Instr::SkipIfKey(x))
        } else if nn == 0xA1 {
            Some(Instr::SkipIfNotKey(x))
        } else {
            None
        }
    } else if op == 0xF {
        if nn == 0x07 {
            Some(Instr::ReadTimer(x))
        } else if nn == 0x15 {
            Some(Instr::SetTimer(x))
        } else if nn == 0x18 {
            Some(Instr::SetSound(x))
        } else if nn == 0x1E {
            Some(Instr::AddIndex(x))
        } else if nn == 0x55 {
            Some(Instr::StoreRegisters(x))
        } else if nn == 0x65 {
            Some(Instr::LoadRegisters(x))
        } else {
            None
        }
    } else {
        None
    }
}

/// Field ranges of a decoded instruction: register indices fit in 4 bits,
/// addresses in 12 bits. Everything the decoder returns satisfies this
/// (`lemma_decode_fields_in_range`).
pub open spec fn instr_wf(i: Instr) -> bool {
    match i {
        Instr::ClearScreen => true,
        Instr::Return => true,
        Instr::MachineRoutine(nnn) => nnn < 4096,
        Instr::Jump(nnn) => nnn < 4096,
        Instr::Call(nnn) => nnn < 4096,
        Instr::SkipIfEqImm(x, _nn) => x < 16,
        Instr::SkipIfNeImm(x, _nn) => x < 16,
        Instr::SkipIfEqReg(x, y) => x < 16 && y < 16,
        Instr::SetImm(x, _nn) => x < 16,
        Instr::AddImm(x, _nn) => x < 16,
        Instr::Copy(x, y) => x < 16 && y < 16,
        Instr::Or(x, y) => x < 16 && y < 16,
        Instr::And(x, y) => x < 16 && y < 16,
        Instr::Xor(x, y) => x < 16 && y < 16,
        Instr::AddReg(x, y) => x < 16 && y < 16,
        Instr::SubReg(x, y) => x < 16 && y < 16,
        Instr::ShiftRight(x, y) => x < 16 && y < 16,
        Instr::SubFrom(x, y) => x < 16 && y < 16,
        Instr::ShiftLeft(x, y) => x < 16 && y < 16,
        Instr::SkipIfNeReg(x, y) => x < 16 && y < 16,
        Instr::SetIndex(nnn) => nnn < 4096,
        Instr::Random(x, _nn) => x < 16,
        Instr::Draw(x, y, n) => x < 16 && y < 16 && n < 16,
        Instr::SkipIfKey(x) => x < 16,
        Instr::SkipIfNotKey(x) => x < 16,
        Instr::ReadTimer(x) => x < 16,
        Instr::SetTimer(x) => x < 16,
        Instr::SetSound(x) => x < 16,
        Instr::AddIndex(x) => x < 16,
        Instr::StoreRegisters(x) => x < 16,
        Instr::LoadRegisters(x) => x < 16,
    }
}

/// Every instruction the decoder returns has its fields in range.
pub proof fn lemma_decode_fields_in_range(w: u16)
    ensures
        spec_decode(w) matches Some(i) ==> instr_wf(i),
{
    assert((((w >> 8) & 0xF) as u8) < 16) by (bit_vector);
    assert((((w >> 4) & 0xF) as u8) < 16) by (bit_vector);
    assert(((w & 0xF) as u8) < 16) by (bit_vector);
    assert((w & 0xFFF) < 4096) by (bit_vector);
}

/// Classify a 16-bit instruction word, or report an unrecognized word as
/// `None`. Total and deterministic: the same word always decodes identically.
pub fn parse_opcode(raw_opcode: u16) -> (r: Option<Instr>)
    ensures
        r == spec_decode(raw_opcode),
{
    let w = raw_opcode;
    let op = w >> 12;
    let x = ((w >> 8) & 0xF) as u8;
    let y = ((w >> 4) & 0xF) as u8;
    let n = (w & 0xF) as u8;
    let nn = (w & 0xFF) as u8;
    let nnn = w & 0xFFF;
    if w == 0x00E0 {
        Some(Instr::ClearScreen)
    } else if w == 0x00EE {
        Some(Instr::Return)
    } else if op == 0x0 {
        Some(Instr::MachineRoutine(nnn))
    } else if op == 0x1 {
        Some(Instr::Jump(nnn))
    } else if op == 0x2 {
        Some(Instr::Call(nnn))
    } else if op == 0x3 {
        Some(Instr::SkipIfEqImm(x, nn))
    } else if op == 0x4 {
        Some(Instr::SkipIfNeImm(x, nn))
    } else if op == 0x5 {
        if n == 0x0 {
            Some(Instr::SkipIfEqReg(x, y))
        } else {
            None
        }
    } else if op == 0x6 {
        Some(Instr::SetImm(x, nn))
    } else if op == 0x7 {
        Some(Instr::AddImm(x, nn))
    } else if op == 0x8 {
        if n == 0x0 {
            Some(Instr::Copy(x, y))
        } else if n == 0x1 {
            Some(Instr::Or(x, y))
        } else if n == 0x2 {
            Some(Instr::And(x, y))
        } else if n == 0x3 {
            Some(Instr::Xor(x, y))
        } else if n == 0x4 {
            Some(Instr::AddReg(x, y))
        } else if n == 0x5 {
            Some(Instr::SubReg(x, y))
        } else if n == 0x6 {
            Some(Instr::ShiftRight(x, y))
        } else if n == 0x7 {
            Some(Instr::SubFrom(x, y))
        } else if n == 0xE {
            Some(Instr::ShiftLeft(x, y))
        } else {
            None
        }
    } else if op == 0x9 {
        if n == 0x0 {
            Some(Instr::SkipIfNeReg(x, y))
        } else {
            None
        }
    } else if op == 0xA {
        Some(Instr::SetIndex(nnn))
    } else if op == 0xC {
        Some(Instr::Random(x, nn))
    } else if op == 0xD {
        Some(Instr::Draw(x, y, n))
    } else if op == 0xE {
        if nn == 0x9E {
            Some(Instr::SkipIfKey(x))
        } else if nn == 0xA1 {
            Some(Instr::SkipIfNotKey(x))
        } else {
            None
        }
    } else if op == 0xF {
        if nn == 0x07 {
            Some(Instr::ReadTimer(x))
        } else if nn == 0x15 {
            Some(Instr::SetTimer(x))
        } else if nn == 0x18 {
            Some(Instr::SetSound(x))
        } else if nn == 0x1E {
            Some(Instr::AddIndex(x))
        } else if nn == 0x55 {
            Some(Instr::StoreRegisters(x))
        } else if nn == 0x65 {
            Some(Instr::LoadRegisters(x))
        } else {
            None
        }
    } else {
        None
    }
}

} // verus!
