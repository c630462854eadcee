//! One handler per instruction. Each handler mutates only the state pieces
//! it is given and returns the program-counter policy as an explicit
//! [`NextPc`] value; the stepping loop applies that policy exactly once.
//!
//! All 8-bit arithmetic wraps modulo 256, and VF (register 0xF) is written
//! last by every flag-producing handler, so the flag is never stale.

use vstd::prelude::*;
use crate::type_defs::{Chip8Error, FrameBuffer, NextPc, N_MEMORY, N_PIXELS, N_REGISTERS, N_STACK};
use crate::draw;

verus! {

/// 1 for a raised flag, 0 otherwise.
pub open spec fn flag(b: bool) -> u8 {
    if b {
        1u8
    } else {
        0u8
    }
}

/// 8-bit sum, wrapping modulo 256.
pub open spec fn wrap_add(a: u8, b: u8) -> u8 {
    ((a + b) % 256) as u8
}

/// 8-bit difference, wrapping modulo 256.
pub open spec fn wrap_sub(a: u8, b: u8) -> u8 {
    ((a + 256 - b) % 256) as u8
}

/// Whether an 8-bit sum carries out of the byte.
pub open spec fn carries(a: u8, b: u8) -> bool {
    a + b >= 256
}

/// 16-bit sum of the index register and a byte, wrapping modulo 2^16.
pub open spec fn wrap_add16(i: u16, v: u8) -> u16 {
    ((i + v) % 0x10000) as u16
}

/// Program-counter target that skips the next instruction (4 bytes past
/// the current one), with wrap-around addressing.
pub open spec fn skip_target(pc: u16) -> u16 {
    ((pc + 4) % (N_MEMORY as int)) as u16
}

/// Program-counter target of JP V0,addr: V0 + addr, wrapped into memory.
pub open spec fn jp_v0_target(v0: u8, address: u16) -> u16 {
    ((v0 + address) % (N_MEMORY as int)) as u16
}

/// Memory after the BCD digits of `v` (hundreds, tens, units) have been
/// stored at index, index+1, index+2, with wrap-around addressing.
pub open spec fn bcd_store(mem: Seq<u8>, index: u16, v: u8) -> Seq<u8> {
    mem.update(index as int % (N_MEMORY as int), v / 100).update(
        (index + 1) % (N_MEMORY as int),
        (v / 10) % 10,
    ).update((index + 2) % (N_MEMORY as int), v % 10)
}

/// Memory after V0..=V(k-1) have been stored at index, index+1, ...,
/// with wrap-around addressing.
pub open spec fn store_regs(mem: Seq<u8>, regs: Seq<u8>, index: u16, k: int) -> Seq<u8>
    decreases k,
{
    if k <= 0 {
        mem
    } else {
        store_regs(mem, regs, index, k - 1).update(
            (index + (k - 1)) % (N_MEMORY as int),
            regs[k - 1],
        )
    }
}

/// Registers after V0..=V(k-1) have been loaded from index, index+1, ...,
/// with wrap-around addressing.
pub open spec fn load_regs(regs: Seq<u8>, mem: Seq<u8>, index: u16, k: int) -> Seq<u8>
    decreases k,
{
    if k <= 0 {
        regs
    } else {
        load_regs(regs, mem, index, k - 1).update(
            k - 1,
            mem[(index + (k - 1)) % (N_MEMORY as int)],
        )
    }
}

/// CLS: clear the frame buffer.
pub fn cls(frame_buffer: &mut FrameBuffer)
    requires
        old(frame_buffer).wf(),
    ensures
        final(frame_buffer).wf(),
        forall|p: int| 0 <= p < N_PIXELS ==> !final(frame_buffer)@[p],
{
    frame_buffer.clear();
}

/// RET: pop the return address pushed by the matching CALL. Fatal if the
/// stack is empty; the stack pointer is untouched in that case.
pub fn ret(stack_pointer: &mut usize, stack: &Vec<u16>) -> (r: Result<NextPc, Chip8Error>)
    requires
        stack@.len() == N_STACK,
        *old(stack_pointer) <= N_STACK,
    ensures
        (match r {
            Ok(np) => *old(stack_pointer) > 0 && *final(stack_pointer) == *old(stack_pointer) - 1
                && np == NextPc::SetTo(stack@[*old(stack_pointer) - 1]),
            Err(e) => *old(stack_pointer) == 0 && *final(stack_pointer) == 0
                && e == Chip8Error::StackUnderflow,
        }),
{
    if *stack_pointer == 0 {
        Err(Chip8Error::StackUnderflow)
    } else {
        *stack_pointer = *stack_pointer - 1;
        Ok(NextPc::SetTo(stack[*stack_pointer]))
    }
}

/// JP addr: jump to the 12-bit address.
pub fn jp_addr(address: u16) -> (r: NextPc)
    ensures
        r == NextPc::SetTo(address),
{
    NextPc::SetTo(address)
}

/// CALL addr: push the address of the next instruction, then jump. Fatal
/// if the stack is full; nothing is mutated in that case.
pub fn call_addr(
    address: u16,
    program_counter: u16,
    stack_pointer: &mut usize,
    stack: &mut Vec<u16>,
) -> (r: Result<NextPc, Chip8Error>)
    requires
        old(stack)@.len() == N_STACK,
        *old(stack_pointer) <= N_STACK,
        program_counter < N_MEMORY,
    ensures
        final(stack)@.len() == N_STACK,
        (match r {
            Ok(np) => *old(stack_pointer) < N_STACK
                && *final(stack_pointer) == *old(stack_pointer) + 1
                && final(stack)@ == old(stack)@.update(
                    *old(stack_pointer) as int,
                    ((program_counter + 2) % (N_MEMORY as int)) as u16,
                )
                && np == NextPc::SetTo(address),
            Err(e) => *final(stack_pointer) == *old(stack_pointer)
                && final(stack)@ == old(stack)@
                && *old(stack_pointer) == N_STACK
                && e == Chip8Error::StackOverflow,
        }),
{
    if *stack_pointer == N_STACK {
        Err(Chip8Error::StackOverflow)
    } else {
        stack.set(*stack_pointer, (program_counter + 2) % (N_MEMORY as u16));
        *stack_pointer = *stack_pointer + 1;
        Ok(NextPc::SetTo(address))
    }
}

/// SE Vx,kk: skip the next instruction when Vx equals the immediate.
pub fn se(vx: usize, value: u8, registers: &Vec<u8>, program_counter: u16) -> (r: NextPc)
    requires
        registers@.len() == N_REGISTERS,
        vx < N_REGISTERS,
        program_counter < N_MEMORY,
    ensures
        r == (if registers@[vx as int] == value {
            NextPc::SetTo(skip_target(program_counter))
        } else {
            NextPc::Advance
        }),
{
    if registers[vx] == value {
        NextPc::SetTo((program_counter + 4) % (N_MEMORY as u16))
    } else {
        NextPc::Advance
    }
}

/// SNE Vx,kk: skip the next instruction when Vx differs from the immediate.
pub fn sne(vx: usize, value: u8, registers: &Vec<u8>, program_counter: u16) -> (r: NextPc)
    requires
        registers@.len() == N_REGISTERS,
        vx < N_REGISTERS,
        program_counter < N_MEMORY,
    ensures
        r == (if registers@[vx as int] != value {
            NextPc::SetTo(skip_target(program_counter))
        } else {
            NextPc::Advance
        }),
{
    if registers[vx] != value {
        NextPc::SetTo((program_counter + 4) % (N_MEMORY as u16))
    } else {
        NextPc::Advance
    }
}

/// SE Vx,Vy: skip the next instruction when the two registers are equal.
pub fn se_regs(vx: usize, vy: usize, registers: &Vec<u8>, program_counter: u16) -> (r: NextPc)
    requires
        registers@.len() == N_REGISTERS,
        vx < N_REGISTERS,
        vy < N_REGISTERS,
        program_counter < N_MEMORY,
    ensures
        r == (if registers@[vx as int] == registers@[vy as int] {
            NextPc::SetTo(skip_target(program_counter))
        } else {
            NextPc::Advance
        }),
{
    if registers[vx] == registers[vy] {
        NextPc::SetTo((program_counter + 4) % (N_MEMORY as u16))
    } else {
        NextPc::Advance
    }
}

/// SNE Vx,Vy: skip the next instruction when the two registers differ.
pub fn sne_regs(vx: usize, vy: usize, registers: &Vec<u8>, program_counter: u16) -> (r: NextPc)
    requires
        registers@.len() == N_REGISTERS,
        vx < N_REGISTERS,
        vy < N_REGISTERS,
        program_counter < N_MEMORY,
    ensures
        r == (if registers@[vx as int] != registers@[vy as int] {
            NextPc::SetTo(skip_target(program_counter))
        } else {
            NextPc::Advance
        }),
{
    if registers[vx] != registers[vy] {
        NextPc::SetTo((program_counter + 4) % (N_MEMORY as u16))
    } else {
        NextPc::Advance
    }
}

/// LD Vx,kk: load the immediate into Vx.
pub fn ld(vx: usize, value: u8, registers: &mut Vec<u8>)
    requires
        old(registers)@.len() == N_REGISTERS,
        vx < N_REGISTERS,
    ensures
        final(registers)@ == old(registers)@.update(vx as int, value),
{
    registers.set(vx, value);
}

/// ADD Vx,kk: add the immediate into Vx, wrapping; no flag is produced.
pub fn add(vx: usize, value: u8, registers: &mut Vec<u8>)
    requires
        old(registers)@.len() == N_REGISTERS,
        vx < N_REGISTERS,
    ensures
        final(registers)@ == old(registers)@.update(
            vx as int,
            wrap_add(old(registers)@[vx as int], value),
        ),
{
    let sum: u16 = registers[vx] as u16 + value as u16;
    registers.set(vx, (sum % 256) as u8);
}

/// LD Vx,Vy: copy Vy into Vx.
pub fn ld_regs(vx: usize, vy: usize, registers: &mut Vec<u8>)
    requires
        old(registers)@.len() == N_REGISTERS,
        vx < N_REGISTERS,
        vy < N_REGISTERS,
    ensures
        final(registers)@ == old(registers)@.update(vx as int, old(registers)@[vy as int]),
{
    let v: u8 = registers[vy];
    registers.set(vx, v);
}

/// OR Vx,Vy: bitwise or into Vx.
pub fn or(vx: usize, vy: usize, registers: &mut Vec<u8>)
    requires
        old(registers)@.len() == N_REGISTERS,
        vx < N_REGISTERS,
        vy < N_REGISTERS,
    ensures
        final(registers)@ == old(registers)@.update(
            vx as int,
            old(registers)@[vx as int] | old(registers)@[vy as int],
        ),
{
    let v: u8 = registers[vx] | registers[vy];
    registers.set(vx, v);
}

/// AND Vx,Vy: bitwise and into Vx.
pub fn and(vx: usize, vy: usize, registers: &mut Vec<u8>)
    requires
        old(registers)@.len() == N_REGISTERS,
        vx < N_REGISTERS,
        vy < N_REGISTERS,
    ensures
        final(registers)@ == old(registers)@.update(
            vx as int,
            old(registers)@[vx as int] & old(registers)@[vy as int],
        ),
{
    let v: u8 = registers[vx] & registers[vy];
    registers.set(vx, v);
}

/// XOR Vx,Vy: bitwise exclusive or into Vx.
pub fn xor(vx: usize, vy: usize, registers: &mut Vec<u8>)
    requires
        old(registers)@.len() == N_REGISTERS,
        vx < N_REGISTERS,
        vy < N_REGISTERS,
    ensures
        final(registers)@ == old(registers)@.update(
            vx as int,
            old(registers)@[vx as int] ^ old(registers)@[vy as int],
        ),
{
    let v: u8 = registers[vx] ^ registers[vy];
    registers.set(vx, v);
}

/// ADD Vx,Vy: wrapping sum into Vx; VF is then set to 1 on carry, else 0.
pub fn add_regs(vx: usize, vy: usize, registers: &mut Vec<u8>)
    requires
        old(registers)@.len() == N_REGISTERS,
        vx < N_REGISTERS,
        vy < N_REGISTERS,
    ensures
        final(registers)@ == old(registers)@.update(
            vx as int,
            wrap_add(old(registers)@[vx as int], old(registers)@[vy as int]),
        ).update(15, flag(carries(old(registers)@[vx as int], old(registers)@[vy as int]))),
{
    let a: u8 = registers[vx];
    let b: u8 = registers[vy];
    let sum: u16 = a as u16 + b as u16;
    registers.set(vx, (sum % 256) as u8);
    let f: u8 = if sum >= 256 {
        1
    } else {
        0
    };
    registers.set(0xF, f);
}

/// SUB Vx,Vy: wrapping difference Vx - Vy into Vx; VF is then set to 1
/// when there was no borrow (Vx >= Vy before the subtraction), else 0.
pub fn sub_regs(vx: usize, vy: usize, registers: &mut Vec<u8>)
    requires
        old(registers)@.len() == N_REGISTERS,
        vx < N_REGISTERS,
        vy < N_REGISTERS,
    ensures
        final(registers)@ == old(registers)@.update(
            vx as int,
            wrap_sub(old(registers)@[vx as int], old(registers)@[vy as int]),
        ).update(15, flag(old(registers)@[vx as int] >= old(registers)@[vy as int])),
{
    let a: u8 = registers[vx];
    let b: u8 = registers[vy];
    let diff: u16 = (a as u16 + 256 - b as u16) % 256;
    registers.set(vx, diff as u8);
    let f: u8 = if a >= b {
        1
    } else {
        0
    };
    registers.set(0xF, f);
}

/// SHR Vx: halve Vx; VF is then set to the pre-shift low bit (0 or 1).
pub fn shr(vx: usize, registers: &mut Vec<u8>)
    requires
        old(registers)@.len() == N_REGISTERS,
        vx < N_REGISTERS,
    ensures
        final(registers)@ == old(registers)@.update(
            vx as int,
            old(registers)@[vx as int] / 2,
        ).update(15, old(registers)@[vx as int] % 2),
{
    let a: u8 = registers[vx];
    registers.set(vx, a / 2);
    registers.set(0xF, a % 2);
}

/// SUBN Vx,Vy: wrapping difference Vy - Vx into Vx; VF is then set to 1
/// when there was no borrow (Vy >= Vx), else 0.
pub fn subn_regs(vx: usize, vy: usize, registers: &mut Vec<u8>)
    requires
        old(registers)@.len() == N_REGISTERS,
        vx < N_REGISTERS,
        vy < N_REGISTERS,
    ensures
        final(registers)@ == old(registers)@.update(
            vx as int,
            wrap_sub(old(registers)@[vy as int], old(registers)@[vx as int]),
        ).update(15, flag(old(registers)@[vy as int] >= old(registers)@[vx as int])),
{
    let a: u8 = registers[vx];
    let b: u8 = registers[vy];
    let diff: u16 = (b as u16 + 256 - a as u16) % 256;
    registers.set(vx, diff as u8);
    let f: u8 = if b >= a {
        1
    } else {
        0
    };
    registers.set(0xF, f);
}

/// SHL Vx: double Vx, wrapping; VF is then set to the pre-shift high bit
/// (0 or 1).
pub fn shl(vx: usize, registers: &mut Vec<u8>)
    requires
        old(registers)@.len() == N_REGISTERS,
        vx < N_REGISTERS,
    ensures
        final(registers)@ == old(registers)@.update(
            vx as int,
            wrap_add(old(registers)@[vx as int], old(registers)@[vx as int]),
        ).update(15, old(registers)@[vx as int] / 128),
{
    let a: u8 = registers[vx];
    let doubled: u16 = (a as u16 + a as u16) % 256;
    registers.set(vx, doubled as u8);
    registers.set(0xF, a / 128);
}

/// LD I,addr: load the 12-bit address into the index register.
pub fn ld_reg_index(address: u16, index_register: &mut u16)
    ensures
        *final(index_register) == address,
{
    *index_register = address;
}

/// JP V0,addr: jump to V0 + addr, wrapped into memory.
pub fn jp_v0(address: u16, registers: &Vec<u8>) -> (r: NextPc)
    requires
        registers@.len() == N_REGISTERS,
        address < N_MEMORY,
    ensures
        r == NextPc::SetTo(jp_v0_target(registers@[0], address)),
{
    NextPc::SetTo((registers[0] as u16 + address) % (N_MEMORY as u16))
}

/// Relies on rand::random::<u8>: a byte drawn from the thread-local
/// generator. Nothing is promised of its value.
#[verifier::external_body]
fn random_byte() -> u8 {
    rand::random::<u8>()
}

/// RND Vx,kk with the drawn byte supplied by the caller: Vx becomes
/// `byte & value`. This is the whole deterministic part of RND.
pub fn rnd_with(vx: usize, value: u8, byte: u8, registers: &mut Vec<u8>)
    requires
        old(registers)@.len() == N_REGISTERS,
        vx < N_REGISTERS,
    ensures
        final(registers)@ == old(registers)@.update(vx as int, byte & value),
{
    registers.set(vx, byte & value);
}

/// RND Vx,kk: draw a random byte and mask it with the immediate. Whatever
/// byte comes back, Vx ends up as that byte masked with `value`.
pub fn rnd(vx: usize, value: u8, registers: &mut Vec<u8>)
    requires
        old(registers)@.len() == N_REGISTERS,
        vx < N_REGISTERS,
    ensures
        exists|b: u8|
            final(registers)@ == old(registers)@.update(vx as int, #[trigger] (b & value)),
{
    let b: u8 = random_byte();
    rnd_with(vx, value, b, registers);
    proof {
        assert(registers@ == old(registers)@.update(vx as int, b & value));
    }
}

/// DRW Vx,Vy,n: xor-draw the n-row sprite at Memory[I..] at pixel origin
/// (Vx,Vy); each pixel's coordinates wrap individually. VF is then set to
/// 1 when any pixel was erased (set before and xored with a set sprite
/// bit), else 0.
pub fn drw(
    vx: usize,
    vy: usize,
    bytes_number: u8,
    registers: &mut Vec<u8>,
    index_register: u16,
    memory: &Vec<u8>,
    frame_buffer: &mut FrameBuffer,
)
    requires
        old(registers)@.len() == N_REGISTERS,
        vx < N_REGISTERS,
        vy < N_REGISTERS,
        bytes_number <= 15,
        memory@.len() == N_MEMORY,
        old(frame_buffer).wf(),
    ensures
        final(frame_buffer).wf(),
        final(frame_buffer)@ == draw::draw_fb(
            old(frame_buffer)@,
            memory@,
            index_register,
            old(registers)@[vx as int],
            old(registers)@[vy as int],
            bytes_number,
        ),
        final(registers)@ == old(registers)@.update(
            15,
            flag(draw::draw_collision(
                old(frame_buffer)@,
                memory@,
                index_register,
                old(registers)@[vx as int],
                old(registers)@[vy as int],
                bytes_number,
            )),
        ),
{
    let x0: u8 = registers[vx];
    let y0: u8 = registers[vy];
    let collision: bool = draw::draw_sprite(x0, y0, bytes_number, index_register, memory, frame_buffer);
    let f: u8 = if collision {
        1
    } else {
        0
    };
    registers.set(0xF, f);
}

/// SKP Vx: skip the next instruction when the current key equals Vx.
/// With no key known, the key is treated as not pressed.
pub fn skp(vx: usize, key: Option<u8>, registers: &Vec<u8>, program_counter: u16) -> (r: NextPc)
    requires
        registers@.len() == N_REGISTERS,
        vx < N_REGISTERS,
        program_counter < N_MEMORY,
    ensures
        r == (match key {
            Some(k) => if registers@[vx as int] == k {
                NextPc::SetTo(skip_target(program_counter))
            } else {
                NextPc::Advance
            },
            None => NextPc::Advance,
        }),
{
    match key {
        Some(k) => {
            if registers[vx] == k {
                NextPc::SetTo((program_counter + 4) % (N_MEMORY as u16))
            } else {
                NextPc::Advance
            }
        },
        None => NextPc::Advance,
    }
}

/// SKNP Vx: skip the next instruction when the current key differs from
/// Vx. With no key known, the key is treated as not pressed, so the skip
/// is taken.
pub fn sknp(vx: usize, key: Option<u8>, registers: &Vec<u8>, program_counter: u16) -> (r: NextPc)
    requires
        registers@.len() == N_REGISTERS,
        vx < N_REGISTERS,
        program_counter < N_MEMORY,
    ensures
        r == (match key {
            Some(k) => if registers@[vx as int] != k {
                NextPc::SetTo(skip_target(program_counter))
            } else {
                NextPc::Advance
            },
            None => NextPc::SetTo(skip_target(program_counter)),
        }),
{
    match key {
        Some(k) => {
            if registers[vx] != k {
                NextPc::SetTo((program_counter + 4) % (N_MEMORY as u16))
            } else {
                NextPc::Advance
            }
        },
        None => NextPc::SetTo((program_counter + 4) % (N_MEMORY as u16)),
    }
}

/// LD Vx,DT: load the delay timer into Vx.
pub fn ld_delay_to_reg(vx: usize, delay_timer: u8, registers: &mut Vec<u8>)
    requires
        old(registers)@.len() == N_REGISTERS,
        vx < N_REGISTERS,
    ensures
        final(registers)@ == old(registers)@.update(vx as int, delay_timer),
{
    registers.set(vx, delay_timer);
}

/// LD Vx,K: enter the wait-for-key state targeting Vx. Stepping is
/// suspended until a key value arrives.
pub fn ld_key(vx: usize, wait_for_key: &mut bool, key_register: &mut usize)
    requires
        vx < N_REGISTERS,
    ensures
        *final(wait_for_key) == true,
        *final(key_register) == vx,
{
    *wait_for_key = true;
    *key_register = vx;
}

/// LD DT,Vx: set the delay timer from Vx.
pub fn ld_reg_to_delay(vx: usize, delay_timer: &mut u8, registers: &Vec<u8>)
    requires
        registers@.len() == N_REGISTERS,
        vx < N_REGISTERS,
    ensures
        *final(delay_timer) == registers@[vx as int],
{
    *delay_timer = registers[vx];
}

/// LD ST,Vx: set the sound timer from Vx.
pub fn ld_reg_to_sound(vx: usize, sound_timer: &mut u8, registers: &Vec<u8>)
    requires
        registers@.len() == N_REGISTERS,
        vx < N_REGISTERS,
    ensures
        *final(sound_timer) == registers@[vx as int],
{
    *sound_timer = registers[vx];
}

/// ADD I,Vx: add Vx into the index register, wrapping modulo 2^16.
pub fn add_reg_index(vx: usize, index_register: &mut u16, registers: &Vec<u8>)
    requires
        registers@.len() == N_REGISTERS,
        vx < N_REGISTERS,
    ensures
        *final(index_register) == wrap_add16(*old(index_register), registers@[vx as int]),
{
    let sum: u32 = *index_register as u32 + registers[vx] as u32;
    *index_register = (sum % 0x10000) as u16;
}

/// LD F,Vx: point the index register at the built-in glyph sprite for the
/// value of Vx (5 bytes per glyph).
pub fn ld_sprite(vx: usize, registers: &Vec<u8>, index_register: &mut u16)
    requires
        registers@.len() == N_REGISTERS,
        vx < N_REGISTERS,
    ensures
        *final(index_register) == registers@[vx as int] * 5,
{
    *index_register = registers[vx] as u16 * 5;
}

/// LD B,Vx: store the BCD digits of Vx (hundreds, tens, units) at
/// Memory[I], Memory[I+1], Memory[I+2], with wrap-around addressing.
pub fn ld_bcd(vx: usize, registers: &Vec<u8>, index_register: u16, memory: &mut Vec<u8>)
    requires
        registers@.len() == N_REGISTERS,
        vx < N_REGISTERS,
        old(memory)@.len() == N_MEMORY,
    ensures
        final(memory)@ == bcd_store(old(memory)@, index_register, registers@[vx as int]),
{
    let v: u8 = registers[vx];
    memory.set((index_register as usize) % N_MEMORY, v / 100);
    memory.set((index_register as usize + 1) % N_MEMORY, (v / 10) % 10);
    memory.set((index_register as usize + 2) % N_MEMORY, v % 10);
}

/// LD [I],Vx: store V0..=Vx into memory starting at the index register,
/// with wrap-around addressing. The index register is not changed.
pub fn ld_regs_to_mem(vx: usize, registers: &Vec<u8>, index_register: u16, memory: &mut Vec<u8>)
    requires
        registers@.len() == N_REGISTERS,
        vx < N_REGISTERS,
        old(memory)@.len() == N_MEMORY,
    ensures
        final(memory)@ == store_regs(old(memory)@, registers@, index_register, vx + 1),
        final(memory)@.len() == N_MEMORY,
{
    let mut k: usize = 0;
    while k < vx + 1
        invariant
            registers@.len() == N_REGISTERS,
            vx < N_REGISTERS,
            k <= vx + 1,
            memory@.len() == N_MEMORY,
            memory@ == store_regs(old(memory)@, registers@, index_register, k as int),
        decreases vx + 1 - k,
    {
        memory.set((index_register as usize + k) % N_MEMORY, registers[k]);
        k = k + 1;
    }
}

/// LD Vx,[I]: load V0..=Vx from memory starting at the index register,
/// with wrap-around addressing. The index register is not changed.
pub fn ld_x_regs(vx: usize, registers: &mut Vec<u8>, index_register: u16, memory: &Vec<u8>)
    requires
        old(registers)@.len() == N_REGISTERS,
        vx < N_REGISTERS,
        memory@.len() == N_MEMORY,
    ensures
        final(registers)@ == load_regs(old(registers)@, memory@, index_register, vx + 1),
        final(registers)@.len() == N_REGISTERS,
{
    let mut k: usize = 0;
    while k < vx + 1
        invariant
            memory@.len() == N_MEMORY,
            vx < N_REGISTERS,
            k <= vx + 1,
            registers@.len() == N_REGISTERS,
            registers@ == load_regs(old(registers)@, memory@, index_register, k as int),
        decreases vx + 1 - k,
    {
        let b: u8 = memory[(index_register as usize + k) % N_MEMORY];
        registers.set(k, b);
        k = k + 1;
    }
}

} // verus!
