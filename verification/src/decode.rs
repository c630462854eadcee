//! Instruction decoding: turns the 2-byte big-endian word at the program
//! counter into a tagged [`OpCode`], rejecting words that name no
//! instruction.

use vstd::prelude::*;
use crate::type_defs::{Chip8Error, OpCode, N_MEMORY};

verus! {

/// The 16-bit instruction word formed from its two big-endian bytes.
pub open spec fn spec_word(hi: u8, lo: u8) -> u16 {
    ((hi as u16) << 8) | (lo as u16)
}

/// What decoding the word with bytes `hi`, `lo` yields: the populated
/// fields per leading-nibble group, or `None` for a word that names no
/// instruction (an unrecognized variant within its group).
pub open spec fn spec_decode(hi: u8, lo: u8) -> Option<OpCode> {
    let code = hi >> 4;
    let xn = (hi & 0x0F) as u16;
    let yn = (lo >> 4) as u16;
    let addr = (((hi & 0x0F) as u16) << 8) | (lo as u16);
    if code == 0x0 {
        if lo == 0xE0 || lo == 0xEE {
            Some(OpCode { code, x: None, y: None, variant: Some(lo) })
        } else {
            None
        }
    } else if code == 0x1 || code == 0x2 || code == 0xA || code == 0xB {
        Some(OpCode { code, x: Some(addr), y: None, variant: None })
    } else if code == 0x3 || code == 0x4 || code == 0x6 || code == 0x7 || code == 0xC {
        Some(OpCode { code, x: Some(xn), y: Some(lo as u16), variant: None })
    } else if code == 0x5 || code == 0x9 {
        if lo & 0x0F == 0 {
            Some(OpCode { code, x: Some(xn), y: Some(yn), variant: Some(0) })
        } else {
            None
        }
    } else if code == 0x8 {
        if lo & 0x0F <= 0x7 || lo & 0x0F == 0xE {
            Some(OpCode { code, x: Some(xn), y: Some(yn), variant: Some(lo & 0x0F) })
        } else {
            None
        }
    } else if code == 0xD {
        Some(OpCode { code, x: Some(xn), y: Some(yn), variant: Some(lo & 0x0F) })
    } else if code == 0xE {
        if lo == 0x9E || lo == 0xA1 {
            Some(OpCode { code, x: Some(xn), y: None, variant: Some(lo) })
        } else {
            None
        }
    } else if code == 0xF {
        if lo == 0x07 || lo == 0x0A || lo == 0x15 || lo == 0x18 || lo == 0x1E || lo == 0x29
            || lo == 0x33 || lo == 0x55 || lo == 0x65 {
            Some(OpCode { code, x: Some(xn), y: None, variant: Some(lo) })
        } else {
            None
        }
    } else {
        None
    }
}

/// Bounds on the populated fields of a decoded instruction: a 12-bit
/// address for the jump/call/index group, register indices below 16,
/// an 8-bit immediate, and a 4-bit variant where the variant is a nibble.
pub open spec fn op_fields_bounded(op: OpCode) -> bool {
    &&& (op.code == 0x1 || op.code == 0x2 || op.code == 0xA || op.code == 0xB)
        ==> (op.x matches Some(a) && a < 4096)
    &&& (op.code == 0x3 || op.code == 0x4 || op.code == 0x6 || op.code == 0x7 || op.code == 0xC)
        ==> (op.x matches Some(x) && x < 16) && (op.y matches Some(kk) && kk < 256)
    &&& (op.code == 0x5 || op.code == 0x8 || op.code == 0x9 || op.code == 0xD)
        ==> (op.x matches Some(x) && x < 16) && (op.y matches Some(y) && y < 16)
            && (op.variant matches Some(v) && v < 16)
    &&& (op.code == 0xE || op.code == 0xF) ==> (op.x matches Some(x) && x < 16)
}

/// Every successfully decoded instruction has bounded fields.
pub proof fn lemma_decode_bounded(hi: u8, lo: u8)
    ensures
        spec_decode(hi, lo) matches Some(op) ==> op_fields_bounded(op),
{
    assert((hi & 0x0F) < 16 && (lo >> 4) < 16 && (lo & 0x0F) < 16
        && ((((hi & 0x0F) as u16) << 8) | (lo as u16)) < 4096) by (bit_vector);
}

/// Decode the 2-byte word at `program_counter`. The second byte is read
/// with wrap-around addressing. Fails with `UnknownInstruction` exactly
/// when the word names no instruction.
pub fn get_op_code(memory: &Vec<u8>, program_counter: u16) -> (r: Result<OpCode, Chip8Error>)
    requires
        memory@.len() == N_MEMORY,
        program_counter < N_MEMORY,
    ensures
        ({
            let hi = memory@[program_counter as int];
            let lo = memory@[(program_counter + 1) % (N_MEMORY as int)];
            match r {
                Ok(op) => spec_decode(hi, lo) == Some(op) && op_fields_bounded(op),
                Err(e) => spec_decode(hi, lo) is None
                    && e == (Chip8Error::UnknownInstruction {
                        pc: program_counter,
                        word: spec_word(hi, lo),
                    }),
            }
        }),
{
    let hi: u8 = memory[program_counter as usize];
    let lo: u8 = memory[((program_counter as usize) + 1) % N_MEMORY];
    let code: u8 = hi >> 4;
    let xn: u16 = (hi & 0x0F) as u16;
    let yn: u16 = (lo >> 4) as u16;
    let addr: u16 = ((hi & 0x0F) as u16) << 8 | (lo as u16);
    proof {
        lemma_decode_bounded(hi, lo);
    }
    let decoded: Option<OpCode> = match code {
        0x0 => {
            if lo == 0xE0 || lo == 0xEE {
                Some(OpCode { code, x: None, y: None, variant: Some(lo) })
            } else {
                None
            }
        },
        0x1 | 0x2 | 0xA | 0xB => Some(OpCode { code, x: Some(addr), y: None, variant: None }),
        0x3 | 0x4 | 0x6 | 0x7 | 0xC => Some(
            OpCode { code, x: Some(xn), y: Some(lo as u16), variant: None },
        ),
        0x5 | 0x9 => {
            if lo & 0x0F == 0 {
                Some(OpCode { code, x: Some(xn), y: Some(yn), variant: Some(0) })
            } else {
                None
            }
        },
        0x8 => {
            if lo & 0x0F <= 0x7 || lo & 0x0F == 0xE {
                Some(OpCode { code, x: Some(xn), y: Some(yn), variant: Some(lo & 0x0F) })
            } else {
                None
            }
        },
        0xD => Some(OpCode { code, x: Some(xn), y: Some(yn), variant: Some(lo & 0x0F) }),
        0xE => {
            if lo == 0x9E || lo == 0xA1 {
                Some(OpCode { code, x: Some(xn), y: None, variant: Some(lo) })
            } else {
                None
            }
        },
        0xF => {
            if lo == 0x07 || lo == 0x0A || lo == 0x15 || lo == 0x18 || lo == 0x1E || lo == 0x29
                || lo == 0x33 || lo == 0x55 || lo == 0x65 {
                Some(OpCode { code, x: Some(xn), y: None, variant: Some(lo) })
            } else {
                None
            }
        },
        _ => None,
    };
    match decoded {
        Some(op) => Ok(op),
        None => Err(
            Chip8Error::UnknownInstruction {
                pc: program_counter,
                word: (hi as u16) << 8 | (lo as u16),
            },
        ),
    }
}

} // verus!
