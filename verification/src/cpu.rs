//! The interpreter: a `Cpu` owning memory, registers, call stack, frame
//! buffer, timers and the wait-for-key state, with `tick` (one
//! fetch-decode-execute step) and `tick_timers` (one timer decrement).
//!
//! The whole state machine is specified by [`spec_step`]: a mathematical
//! transition function on [`CpuState`]. `tick` is proved to realize it.

use vstd::prelude::*;
use crate::decode;
use crate::decode::{spec_decode, spec_word};
use crate::draw;
use crate::ops;
use crate::type_defs::{
    Chip8Error, FrameBuffer, NextPc, OpCode, N_MEMORY, N_PIXELS, N_REGISTERS, N_STACK,
    PROGRAM_START,
};

verus! {

/// The mathematical state of the machine: what the contracts speak of.
/// `ret_stack` holds only the live return addresses; `waiting` is the
/// target register of a pending LD Vx,K, if any.
#[verifier::ext_equal]
pub ghost struct CpuState {
    pub regs: Seq<u8>,
    pub index: u16,
    pub pc: u16,
    pub ret_stack: Seq<u16>,
    pub mem: Seq<u8>,
    pub fb: Seq<bool>,
    pub delay: u8,
    pub sound: u8,
    pub waiting: Option<int>,
}

/// Structural bounds every reachable state satisfies.
pub open spec fn state_wf(s: CpuState) -> bool {
    &&& s.regs.len() == N_REGISTERS
    &&& s.mem.len() == N_MEMORY
    &&& s.fb.len() == N_PIXELS
    &&& s.pc < N_MEMORY
    &&& s.ret_stack.len() <= N_STACK
    &&& (forall|j: int| 0 <= j < s.ret_stack.len() ==> s.ret_stack[j] < N_MEMORY)
    &&& (s.waiting matches Some(t) ==> 0 <= t < N_REGISTERS)
}

/// A frame buffer with every pixel off.
pub open spec fn blank_fb() -> Seq<bool> {
    Seq::new(N_PIXELS as nat, |p: int| false)
}

/// The program counter advanced past one 2-byte instruction, with
/// wrap-around addressing.
pub open spec fn advance_pc(pc: u16) -> u16 {
    ((pc + 2) % (N_MEMORY as int)) as u16
}

/// The program counter after a handler's next-PC policy is applied.
pub open spec fn apply_pc(s: CpuState, np: NextPc) -> CpuState {
    match np {
        NextPc::Advance => CpuState { pc: advance_pc(s.pc), ..s },
        NextPc::SetTo(a) => CpuState { pc: a, ..s },
    }
}

/// The rows of the built-in glyph sprite for digit `d` (5 bytes each).
pub open spec fn glyph_rows(d: int) -> Seq<u8> {
    if d == 0 {
        seq![0xF0u8, 0x90, 0x90, 0x90, 0xF0]
    } else if d == 1 {
        seq![0x20u8, 0x60, 0x20, 0x20, 0x70]
    } else if d == 2 {
        seq![0xF0u8, 0x10, 0xF0, 0x80, 0xF0]
    } else if d == 3 {
        seq![0xF0u8, 0x10, 0xF0, 0x10, 0xF0]
    } else if d == 4 {
        seq![0x90u8, 0x90, 0xF0, 0x10, 0x10]
    } else if d == 5 {
        seq![0xF0u8, 0x80, 0xF0, 0x10, 0xF0]
    } else if d == 6 {
        seq![0xF0u8, 0x80, 0xF0, 0x90, 0xF0]
    } else if d == 7 {
        seq![0xF0u8, 0x10, 0x20, 0x40, 0x40]
    } else if d == 8 {
        seq![0xF0u8, 0x90, 0xF0, 0x90, 0xF0]
    } else if d == 9 {
        seq![0xF0u8, 0x90, 0xF0, 0x10, 0xF0]
    } else if d == 10 {
        seq![0xF0u8, 0x90, 0xF0, 0x90, 0x90]
    } else if d == 11 {
        seq![0xE0u8, 0x90, 0xE0, 0x90, 0xE0]
    } else if d == 12 {
        seq![0xF0u8, 0x80, 0x80, 0x80, 0xF0]
    } else if d == 13 {
        seq![0xE0u8, 0x90, 0x90, 0x90, 0xE0]
    } else if d == 14 {
        seq![0xF0u8, 0x80, 0xF0, 0x80, 0xF0]
    } else {
        seq![0xF0u8, 0x80, 0xF0, 0x80, 0x80]
    }
}

/// Byte `j` of glyph `d`.
pub open spec fn spec_glyph(d: int, j: int) -> u8 {
    glyph_rows(d)[j]
}

/// The state at construction: glyphs seeded at the bottom of memory, the
/// program counter at the program start, everything else zeroed.
pub open spec fn initial_state() -> CpuState {
    CpuState {
        regs: Seq::new(N_REGISTERS as nat, |i: int| 0u8),
        index: 0,
        pc: PROGRAM_START,
        ret_stack: Seq::empty(),
        mem: Seq::new(
            N_MEMORY as nat,
            |a: int|
                if a < 80 {
                    spec_glyph(a / 5, a % 5)
                } else {
                    0u8
                },
        ),
        fb: blank_fb(),
        delay: 0,
        sound: 0,
        waiting: None,
    }
}

/// One timer decrement, floored at 0.
pub open spec fn tick_timer(t: u8) -> u8 {
    if t > 0 {
        (t - 1) as u8
    } else {
        0u8
    }
}

/// A timer's value after `k` decrements.
pub open spec fn timer_after(t: u8, k: nat) -> u8
    decreases k,
{
    if k == 0 {
        t
    } else {
        tick_timer(timer_after(t, (k - 1) as nat))
    }
}

/// A timer decremented `k` times reaches `t - k` and then stays at 0: it
/// never goes negative and never wraps.
pub proof fn lemma_timer_floor(t: u8, k: nat)
    ensures
        timer_after(t, k) == (if k >= t {
            0u8
        } else {
            (t - k) as u8
        }),
    decreases k,
{
    if k > 0 {
        lemma_timer_floor(t, (k - 1) as nat);
    }
}

/// What executing the decoded instruction `op` does to the state. `key`
/// is the key value supplied with this step (read by SKP/SKNP) and `rb`
/// the byte the random generator returned (read by RND).
pub open spec fn spec_exec(s: CpuState, op: OpCode, key: Option<u8>, rb: u8) -> Result<
    CpuState,
    Chip8Error,
> {
    let x: int = op.x.unwrap() as int;
    let addr: u16 = op.x.unwrap();
    let y: int = op.y.unwrap() as int;
    let kk: u8 = op.y.unwrap() as u8;
    let v: u8 = op.variant.unwrap();
    let adv: u16 = advance_pc(s.pc);
    let skip: u16 = ops::skip_target(s.pc);
    if op.code == 0x0 {
        if v == 0xE0 {
            Ok(CpuState { fb: blank_fb(), pc: adv, ..s })
        } else {
            if s.ret_stack.len() == 0 {
                Err(Chip8Error::StackUnderflow)
            } else {
                Ok(CpuState { pc: s.ret_stack.last(), ret_stack: s.ret_stack.drop_last(), ..s })
            }
        }
    } else if op.code == 0x1 {
        Ok(CpuState { pc: addr, ..s })
    } else if op.code == 0x2 {
        if s.ret_stack.len() >= N_STACK {
            Err(Chip8Error::StackOverflow)
        } else {
            Ok(CpuState { pc: addr, ret_stack: s.ret_stack.push(adv), ..s })
        }
    } else if op.code == 0x3 {
        Ok(
            CpuState {
                pc: if s.regs[x] == kk {
                    skip
                } else {
                    adv
                },
                ..s
            },
        )
    } else if op.code == 0x4 {
        Ok(
            CpuState {
                pc: if s.regs[x] != kk {
                    skip
                } else {
                    adv
                },
                ..s
            },
        )
    } else if op.code == 0x5 {
        Ok(
            CpuState {
                pc: if s.regs[x] == s.regs[y] {
                    skip
                } else {
                    adv
                },
                ..s
            },
        )
    } else if op.code == 0x6 {
        Ok(CpuState { regs: s.regs.update(x, kk), pc: adv, ..s })
    } else if op.code == 0x7 {
        Ok(CpuState { regs: s.regs.update(x, ops::wrap_add(s.regs[x], kk)), pc: adv, ..s })
    } else if op.code == 0x8 {
        let rx: u8 = s.regs[x];
        let ry: u8 = s.regs[y];
        let regs2: Seq<u8> = if v == 0x0 {
            s.regs.update(x, ry)
        } else if v == 0x1 {
            s.regs.update(x, rx | ry)
        } else if v == 0x2 {
            s.regs.update(x, rx & ry)
        } else if v == 0x3 {
            s.regs.update(x, rx ^ ry)
        } else if v == 0x4 {
            s.regs.update(x, ops::wrap_add(rx, ry)).update(15, ops::flag(ops::carries(rx, ry)))
        } else if v == 0x5 {
            s.regs.update(x, ops::wrap_sub(rx, ry)).update(15, ops::flag(rx >= ry))
        } else if v == 0x6 {
            s.regs.update(x, rx / 2).update(15, rx % 2)
        } else if v == 0x7 {
            s.regs.update(x, ops::wrap_sub(ry, rx)).update(15, ops::flag(ry >= rx))
        } else {
            s.regs.update(x, ops::wrap_add(rx, rx)).update(15, rx / 128)
        };
        Ok(CpuState { regs: regs2, pc: adv, ..s })
    } else if op.code == 0x9 {
        Ok(
            CpuState {
                pc: if s.regs[x] != s.regs[y] {
                    skip
                } else {
                    adv
                },
                ..s
            },
        )
    } else if op.code == 0xA {
        Ok(CpuState { index: addr, pc: adv, ..s })
    } else if op.code == 0xB {
        Ok(CpuState { pc: ops::jp_v0_target(s.regs[0], addr), ..s })
    } else if op.code == 0xC {
        Ok(CpuState { regs: s.regs.update(x, rb & kk), pc: adv, ..s })
    } else if op.code == 0xD {
        Ok(
            CpuState {
                fb: draw::draw_fb(s.fb, s.mem, s.index, s.regs[x], s.regs[y], v),
                regs: s.regs.update(
                    15,
                    ops::flag(draw::draw_collision(s.fb, s.mem, s.index, s.regs[x], s.regs[y], v)),
                ),
                pc: adv,
                ..s
            },
        )
    } else if op.code == 0xE {
        if v == 0x9E {
            Ok(
                CpuState {
                    pc: (match key {
                        Some(k) => if s.regs[x] == k {
                            skip
                        } else {
                            adv
                        },
                        None => adv,
                    }),
                    ..s
                },
            )
        } else {
            Ok(
                CpuState {
                    pc: (match key {
                        Some(k) => if s.regs[x] != k {
                            skip
                        } else {
                            adv
                        },
                        None => skip,
                    }),
                    ..s
                },
            )
        }
    } else {
        if v == 0x07 {
            Ok(CpuState { regs: s.regs.update(x, s.delay), pc: adv, ..s })
        } else if v == 0x0A {
            Ok(CpuState { waiting: Some(x), pc: adv, ..s })
        } else if v == 0x15 {
            Ok(CpuState { delay: s.regs[x], pc: adv, ..s })
        } else if v == 0x18 {
            Ok(CpuState { sound: s.regs[x], pc: adv, ..s })
        } else if v == 0x1E {
            Ok(CpuState { index: ops::wrap_add16(s.index, s.regs[x]), pc: adv, ..s })
        } else if v == 0x29 {
            Ok(CpuState { index: (s.regs[x] * 5) as u16, pc: adv, ..s })
        } else if v == 0x33 {
            Ok(CpuState { mem: ops::bcd_store(s.mem, s.index, s.regs[x]), pc: adv, ..s })
        } else if v == 0x55 {
            Ok(CpuState { mem: ops::store_regs(s.mem, s.regs, s.index, x + 1), pc: adv, ..s })
        } else {
            Ok(CpuState { regs: ops::load_regs(s.regs, s.mem, s.index, x + 1), pc: adv, ..s })
        }
    }
}

/// One full step of the machine. While waiting for a key, the step only
/// commits an arriving key value (no decode, no program-counter change);
/// otherwise it decodes the word at the program counter and executes it.
pub open spec fn spec_step(s: CpuState, key: Option<u8>, rb: u8) -> Result<CpuState, Chip8Error> {
    match s.waiting {
        Some(t) => match key {
            None => Ok(s),
            Some(kv) => Ok(CpuState { regs: s.regs.update(t, kv), waiting: None, ..s }),
        },
        None => {
            let hi: u8 = s.mem[s.pc as int];
            let lo: u8 = s.mem[(s.pc + 1) % (N_MEMORY as int)];
            match spec_decode(hi, lo) {
                Some(op) => spec_exec(s, op, key, rb),
                None => Err(Chip8Error::UnknownInstruction { pc: s.pc, word: spec_word(hi, lo) }),
            }
        },
    }
}

/// While the machine waits for a key and none arrives, a step changes
/// nothing: no program-counter change, no register write.
pub proof fn lemma_wait_for_key_stalls(s: CpuState, rb: u8)
    requires
        s.waiting is Some,
    ensures
        spec_step(s, None, rb) == Ok::<CpuState, Chip8Error>(s),
{
}

/// When a key arrives during a wait, the step writes exactly that key
/// into the target register and clears the wait; nothing else changes,
/// so normal stepping resumes on the following step.
pub proof fn lemma_wait_for_key_commits(s: CpuState, k: u8, rb: u8)
    requires
        s.waiting is Some,
    ensures
        spec_step(s, Some(k), rb) == Ok::<CpuState, Chip8Error>(
            (CpuState { regs: s.regs.update(s.waiting.unwrap(), k), waiting: None, ..s }),
        ),
{
}

/// Byte `k` of the 80-byte glyph table (16 glyphs of 5 bytes).
fn glyph_byte(k: usize) -> (b: u8)
    requires
        k < 80,
    ensures
        b == spec_glyph(k as int / 5, k as int % 5),
{
    let bytes: [u8; 80] = [
        0xF0, 0x90, 0x90, 0x90, 0xF0,
        0x20, 0x60, 0x20, 0x20, 0x70,
        0xF0, 0x10, 0xF0, 0x80, 0xF0,
        0xF0, 0x10, 0xF0, 0x10, 0xF0,
        0x90, 0x90, 0xF0, 0x10, 0x10,
        0xF0, 0x80, 0xF0, 0x10, 0xF0,
        0xF0, 0x80, 0xF0, 0x90, 0xF0,
        0xF0, 0x10, 0x20, 0x40, 0x40,
        0xF0, 0x90, 0xF0, 0x90, 0xF0,
        0xF0, 0x90, 0xF0, 0x10, 0xF0,
        0xF0, 0x90, 0xF0, 0x90, 0x90,
        0xE0, 0x90, 0xE0, 0x90, 0xE0,
        0xF0, 0x80, 0x80, 0x80, 0xF0,
        0xE0, 0x90, 0x90, 0x90, 0xE0,
        0xF0, 0x80, 0xF0, 0x80, 0xF0,
        0xF0, 0x80, 0xF0, 0x80, 0x80,
    ];
    bytes[k]
}

/// The interpreter. Owns all machine state; external collaborators drive
/// it through `tick` and `tick_timers` and read snapshots back.
pub struct Cpu {
    index_register: u16,
    registers: Vec<u8>,
    stack_pointer: usize,
    stack: Vec<u16>,
    program_counter: u16,
    memory: Vec<u8>,
    frame_buffer: FrameBuffer,
    delay_timer: u8,
    sound_timer: u8,
    wait_for_key: bool,
    key_register: usize,
}

impl View for Cpu {
    type V = CpuState;

    closed spec fn view(&self) -> CpuState {
        CpuState {
            regs: self.registers@,
            index: self.index_register,
            pc: self.program_counter,
            ret_stack: self.stack@.take(self.stack_pointer as int),
            mem: self.memory@,
            fb: self.frame_buffer@,
            delay: self.delay_timer,
            sound: self.sound_timer,
            waiting: if self.wait_for_key {
                Some(self.key_register as int)
            } else {
                None
            },
        }
    }
}

impl Cpu {
    /// The internal invariant: constructors establish it, methods keep it.
    pub closed spec fn wf(&self) -> bool {
        &&& self.registers@.len() == N_REGISTERS
        &&& self.stack@.len() == N_STACK
        &&& self.stack_pointer <= N_STACK
        &&& self.memory@.len() == N_MEMORY
        &&& self.frame_buffer.wf()
        &&& self.program_counter < N_MEMORY
        &&& self.key_register < N_REGISTERS
        &&& (forall|j: int| 0 <= j < N_STACK ==> self.stack@[j] < N_MEMORY)
    }

    /// A well-formed interpreter is in a well-formed state.
    pub proof fn lemma_wf_state(&self)
        requires
            self.wf(),
        ensures
            state_wf(self@),
    {
    }

    /// A fresh machine: glyphs in low memory, program counter at the
    /// program start, registers, stack, timers and frame buffer zeroed.
    pub fn new() -> (r: Cpu)
        ensures
            r.wf(),
            r@ == initial_state(),
    {
        let mut memory: Vec<u8> = Vec::new();
        let mut i: usize = 0;
        while i < N_MEMORY
            invariant
                i <= N_MEMORY,
                memory@.len() == i,
                forall|a: int| 0 <= a < i ==> memory@[a] == 0u8,
            decreases N_MEMORY - i,
        {
            memory.push(0);
            i = i + 1;
        }
        let mut k: usize = 0;
        while k < 80
            invariant
                k <= 80,
                memory@.len() == N_MEMORY,
                forall|a: int| 0 <= a < k ==> memory@[a] == spec_glyph(a / 5, a % 5),
                forall|a: int| k <= a < N_MEMORY ==> memory@[a] == 0u8,
            decreases 80 - k,
        {
            let b: u8 = glyph_byte(k);
            memory.set(k, b);
            k = k + 1;
        }
        let mut registers: Vec<u8> = Vec::new();
        let mut i: usize = 0;
        while i < N_REGISTERS
            invariant
                i <= N_REGISTERS,
                registers@.len() == i,
                forall|a: int| 0 <= a < i ==> registers@[a] == 0u8,
            decreases N_REGISTERS - i,
        {
            registers.push(0);
            i = i + 1;
        }
        let mut stack: Vec<u16> = Vec::new();
        let mut i: usize = 0;
        while i < N_STACK
            invariant
                i <= N_STACK,
                stack@.len() == i,
                forall|a: int| 0 <= a < i ==> stack@[a] == 0u16,
            decreases N_STACK - i,
        {
            stack.push(0);
            i = i + 1;
        }
        let r = Cpu {
            index_register: 0,
            registers,
            stack_pointer: 0,
            stack,
            program_counter: PROGRAM_START,
            memory,
            frame_buffer: FrameBuffer::new(),
            delay_timer: 0,
            sound_timer: 0,
            wait_for_key: false,
            key_register: 0,
        };
        proof {
            assert(r@.regs =~= initial_state().regs);
            assert(r@.mem =~= initial_state().mem);
            assert(r@.ret_stack =~= initial_state().ret_stack);
            assert(r@.fb =~= initial_state().fb);
            assert(r@ =~= initial_state());
        }
        r
    }

    /// A read-only snapshot of the frame buffer, taken between steps.
    pub fn get_frame_buffer(&self) -> (r: FrameBuffer)
        requires
            self.wf(),
        ensures
            r.wf(),
            r@ == self@.fb,
    {
        self.frame_buffer.snapshot()
    }

    /// Decrement the delay timer, floored at 0.
    pub fn decrease_delay_timer(&mut self)
        requires
            old(self).wf(),
        ensures
            final(self).wf(),
            final(self)@ == (CpuState { delay: tick_timer(old(self)@.delay), ..old(self)@ }),
    {
        if self.delay_timer > 0 {
            self.delay_timer = self.delay_timer - 1;
        }
    }

    /// Whether the delay timer has run out.
    pub fn is_delay_timer_zero(&self) -> (r: bool)
        ensures
            r == (self@.delay == 0),
    {
        self.delay_timer == 0
    }

    /// Decrement the sound timer, floored at 0.
    pub fn decrease_sound_timer(&mut self)
        requires
            old(self).wf(),
        ensures
            final(self).wf(),
            final(self)@ == (CpuState { sound: tick_timer(old(self)@.sound), ..old(self)@ }),
    {
        if self.sound_timer > 0 {
            self.sound_timer = self.sound_timer - 1;
        }
    }

    /// Whether the sound timer has run out (the buzzer is silent).
    pub fn is_sound_timer_zero(&self) -> (r: bool)
        ensures
            r == (self@.sound == 0),
    {
        self.sound_timer == 0
    }

    /// One external cadence tick: decrement both timers, floored at 0.
    pub fn tick_timers(&mut self)
        requires
            old(self).wf(),
        ensures
            final(self).wf(),
            final(self)@ == (CpuState {
                delay: tick_timer(old(self)@.delay),
                sound: tick_timer(old(self)@.sound),
                ..old(self)@
            }),
    {
        self.decrease_delay_timer();
        self.decrease_sound_timer();
    }

    /// The program counter.
    pub fn get_program_counter(&self) -> (r: u16)
        ensures
            r == self@.pc,
    {
        self.program_counter
    }

    /// The index register.
    pub fn get_index_register(&self) -> (r: u16)
        ensures
            r == self@.index,
    {
        self.index_register
    }

    /// General register `i`.
    pub fn get_register(&self, i: usize) -> (r: u8)
        requires
            self.wf(),
            i < N_REGISTERS,
        ensures
            r == self@.regs[i as int],
    {
        self.registers[i]
    }

    /// Byte `a` of memory.
    pub fn get_memory(&self, a: usize) -> (r: u8)
        requires
            self.wf(),
            a < N_MEMORY,
        ensures
            r == self@.mem[a as int],
    {
        self.memory[a]
    }

    /// The delay timer's value.
    pub fn get_delay_timer(&self) -> (r: u8)
        ensures
            r == self@.delay,
    {
        self.delay_timer
    }

    /// The sound timer's value.
    pub fn get_sound_timer(&self) -> (r: u8)
        ensures
            r == self@.sound,
    {
        self.sound_timer
    }

    /// Whether the machine is suspended waiting for a key.
    pub fn is_waiting_for_key(&self) -> (r: bool)
        ensures
            r == (self@.waiting is Some),
    {
        self.wait_for_key
    }

    /// Load a program: copy `bytes` into memory from the program start,
    /// silently truncating whatever does not fit below the end of memory.
    /// Returns how many bytes were loaded, so the caller can detect
    /// truncation. Nothing but memory changes.
    pub fn load_rom(&mut self, bytes: &Vec<u8>) -> (loaded: usize)
        requires
            old(self).wf(),
        ensures
            final(self).wf(),
            loaded == (if bytes@.len() > N_MEMORY - PROGRAM_START {
                N_MEMORY - PROGRAM_START
            } else {
                bytes@.len() as int
            }),
            forall|a: int|
                PROGRAM_START <= a < PROGRAM_START + loaded ==> final(self)@.mem[a] == bytes@[a
                    - PROGRAM_START],
            forall|a: int|
                (0 <= a < PROGRAM_START || PROGRAM_START + loaded <= a < N_MEMORY)
                    ==> final(self)@.mem[a] == old(self)@.mem[a],
            final(self)@ == (CpuState { mem: final(self)@.mem, ..old(self)@ }),
    {
        let loaded: usize = if bytes.len() > N_MEMORY - (PROGRAM_START as usize) {
            N_MEMORY - (PROGRAM_START as usize)
        } else {
            bytes.len()
        };
        copy_into(&mut self.memory, bytes, loaded);
        loaded
    }

    /// One fetch-decode-execute step, with the currently-pressed key (or
    /// `None`). Realizes [`spec_step`] for some byte `rb` of the random
    /// generator; on a fatal error the state is left unchanged and the
    /// error says which instruction failed and why.
    pub fn tick(&mut self, key: Option<u8>) -> (r: Result<(), Chip8Error>)
        requires
            old(self).wf(),
            key matches Some(k) ==> k <= 0xF,
        ensures
            final(self).wf(),
            (match r {
                Ok(()) => exists|rb: u8|
                    #[trigger] spec_step(old(self)@, key, rb) == Ok::<CpuState, Chip8Error>(
                        final(self)@,
                    ),
                Err(e) => final(self)@ == old(self)@ && forall|rb: u8|
                    #[trigger] spec_step(old(self)@, key, rb) == Err::<CpuState, Chip8Error>(e),
            }),
    {
        let ghost pre: CpuState = self@;
        if self.wait_for_key {
            match key {
                Some(kv) => {
                    let kr: usize = self.key_register;
                    self.registers.set(kr, kv);
                    self.wait_for_key = false;
                    self.key_register = 0;
                    proof {
                        assert(spec_step(pre, key, 0u8) == Ok::<CpuState, Chip8Error>(self@));
                    }
                },
                None => {
                    proof {
                        assert(spec_step(pre, key, 0u8) == Ok::<CpuState, Chip8Error>(self@));
                    }
                },
            }
            return Ok(());
        }
        let op: OpCode = match decode::get_op_code(&self.memory, self.program_counter) {
            Ok(op) => op,
            Err(e) => {
                proof {
                    assert forall|rb: u8| spec_step(pre, key, rb) == Err::<CpuState, Chip8Error>(
                        e,
                    ) by {}
                }
                return Err(e);
            },
        };
        let ghost mut rbg: u8 = 0;
        let next: NextPc = match op {
            OpCode { code: 0x0, variant: Some(0xE0), .. } => {
                ops::cls(&mut self.frame_buffer);
                proof {
                    assert(self@.fb =~= blank_fb());
                    assert(spec_exec(pre, op, key, rbg) == Ok::<CpuState, Chip8Error>(
                        apply_pc(self@, NextPc::Advance),
                    ));
                }
                NextPc::Advance
            },
            OpCode { code: 0x0, variant: Some(0xEE), .. } => {
                match ops::ret(&mut self.stack_pointer, &self.stack) {
                    Ok(np) => {
                        proof {
                            assert(self@.ret_stack =~= pre.ret_stack.drop_last());
                            assert(np == NextPc::SetTo(pre.ret_stack.last()));
                            assert(spec_exec(pre, op, key, rbg) == Ok::<CpuState, Chip8Error>(
                                apply_pc(self@, np),
                            ));
                        }
                        np
                    },
                    Err(e) => {
                        proof {
                            assert(self@ == pre);
                            assert forall|rb: u8|
                                spec_step(pre, key, rb) == Err::<CpuState, Chip8Error>(e) by {}
                        }
                        return Err(e);
                    },
                }
            },
            OpCode { code: 0x1, x: Some(x), .. } => {
                let np: NextPc = ops::jp_addr(x);
                proof {
                    assert(spec_exec(pre, op, key, rbg) == Ok::<CpuState, Chip8Error>(
                        apply_pc(self@, np),
                    ));
                }
                np
            },
            OpCode { code: 0x2, x: Some(x), .. } => {
                match ops::call_addr(
                    x,
                    self.program_counter,
                    &mut self.stack_pointer,
                    &mut self.stack,
                ) {
                    Ok(np) => {
                        proof {
                            assert(self@.ret_stack =~= pre.ret_stack.push(advance_pc(pre.pc)));
                            assert(spec_exec(pre, op, key, rbg) == Ok::<CpuState, Chip8Error>(
                                apply_pc(self@, np),
                            ));
                        }
                        np
                    },
                    Err(e) => {
                        proof {
                            assert(self@.ret_stack =~= pre.ret_stack);
                            assert(self@ == pre);
                            assert(pre.ret_stack.len() == N_STACK);
                            assert forall|rb: u8|
                                spec_step(pre, key, rb) == Err::<CpuState, Chip8Error>(e) by {}
                        }
                        return Err(e);
                    },
                }
            },
            OpCode { code: 0x3, x: Some(x), y: Some(y), .. } => {
                let np: NextPc = ops::se(
                    x as usize,
                    y as u8,
                    &self.registers,
                    self.program_counter,
                );
                proof {
                    assert(spec_exec(pre, op, key, rbg) == Ok::<CpuState, Chip8Error>(
                        apply_pc(self@, np),
                    ));
                }
                np
            },
            OpCode { code: 0x4, x: Some(x), y: Some(y), .. } => {
                let np: NextPc = ops::sne(
                    x as usize,
                    y as u8,
                    &self.registers,
                    self.program_counter,
                );
                proof {
                    assert(spec_exec(pre, op, key, rbg) == Ok::<CpuState, Chip8Error>(
                        apply_pc(self@, np),
                    ));
                }
                np
            },
            OpCode { code: 0x5, x: Some(x), y: Some(y), .. } => {
                let np: NextPc = ops::se_regs(
                    x as usize,
                    y as usize,
                    &self.registers,
                    self.program_counter,
                );
                proof {
                    assert(spec_exec(pre, op, key, rbg) == Ok::<CpuState, Chip8Error>(
                        apply_pc(self@, np),
                    ));
                }
                np
            },
            OpCode { code: 0x6, x: Some(x), y: Some(y), .. } => {
                ops::ld(x as usize, y as u8, &mut self.registers);
                proof {
                    assert(spec_exec(pre, op, key, rbg) == Ok::<CpuState, Chip8Error>(
                        apply_pc(self@, NextPc::Advance),
                    ));
                }
                NextPc::Advance
            },
            OpCode { code: 0x7, x: Some(x), y: Some(y), .. } => {
                ops::add(x as usize, y as u8, &mut self.registers);
                proof {
                    assert(spec_exec(pre, op, key, rbg) == Ok::<CpuState, Chip8Error>(
                        apply_pc(self@, NextPc::Advance),
                    ));
                }
                NextPc::Advance
            },
            OpCode { code: 0x8, x: Some(x), y: Some(y), variant: Some(0x0) } => {
                ops::ld_regs(x as usize, y as usize, &mut self.registers);
                proof {
                    assert(spec_exec(pre, op, key, rbg) == Ok::<CpuState, Chip8Error>(
                        apply_pc(self@, NextPc::Advance),
                    ));
                }
                NextPc::Advance
            },
            OpCode { code: 0x8, x: Some(x), y: Some(y), variant: Some(0x1) } => {
                ops::or(x as usize, y as usize, &mut self.registers);
                proof {
                    assert(spec_exec(pre, op, key, rbg) == Ok::<CpuState, Chip8Error>(
                        apply_pc(self@, NextPc::Advance),
                    ));
                }
                NextPc::Advance
            },
            OpCode { code: 0x8, x: Some(x), y: Some(y), variant: Some(0x2) } => {
                ops::and(x as usize, y as usize, &mut self.registers);
                proof {
                    assert(spec_exec(pre, op, key, rbg) == Ok::<CpuState, Chip8Error>(
                        apply_pc(self@, NextPc::Advance),
                    ));
                }
                NextPc::Advance
            },
            OpCode { code: 0x8, x: Some(x), y: Some(y), variant: Some(0x3) } => {
                ops::xor(x as usize, y as usize, &mut self.registers);
                proof {
                    assert(spec_exec(pre, op, key, rbg) == Ok::<CpuState, Chip8Error>(
                        apply_pc(self@, NextPc::Advance),
                    ));
                }
                NextPc::Advance
            },
            OpCode { code: 0x8, x: Some(x), y: Some(y), variant: Some(0x4) } => {
                ops::add_regs(x as usize, y as usize, &mut self.registers);
                proof {
                    assert(spec_exec(pre, op, key, rbg) == Ok::<CpuState, Chip8Error>(
                        apply_pc(self@, NextPc::Advance),
                    ));
                }
                NextPc::Advance
            },
            OpCode { code: 0x8, x: Some(x), y: Some(y), variant: Some(0x5) } => {
                ops::sub_regs(x as usize, y as usize, &mut self.registers);
                proof {
                    assert(spec_exec(pre, op, key, rbg) == Ok::<CpuState, Chip8Error>(
                        apply_pc(self@, NextPc::Advance),
                    ));
                }
                NextPc::Advance
            },
            OpCode { code: 0x8, x: Some(x), variant: Some(0x6), .. } => {
                ops::shr(x as usize, &mut self.registers);
                proof {
                    assert(spec_exec(pre, op, key, rbg) == Ok::<CpuState, Chip8Error>(
                        apply_pc(self@, NextPc::Advance),
                    ));
                }
                NextPc::Advance
            },
            OpCode { code: 0x8, x: Some(x), y: Some(y), variant: Some(0x7) } => {
                ops::subn_regs(x as usize, y as usize, &mut self.registers);
                proof {
                    assert(spec_exec(pre, op, key, rbg) == Ok::<CpuState, Chip8Error>(
                        apply_pc(self@, NextPc::Advance),
                    ));
                }
                NextPc::Advance
            },
            OpCode { code: 0x8, x: Some(x), variant: Some(0xE), .. } => {
                ops::shl(x as usize, &mut self.registers);
                proof {
                    assert(spec_exec(pre, op, key, rbg) == Ok::<CpuState, Chip8Error>(
                        apply_pc(self@, NextPc::Advance),
                    ));
                }
                NextPc::Advance
            },
            OpCode { code: 0x9, x: Some(x), y: Some(y), .. } => {
                let np: NextPc = ops::sne_regs(
                    x as usize,
                    y as usize,
                    &self.registers,
                    self.program_counter,
                );
                proof {
                    assert(spec_exec(pre, op, key, rbg) == Ok::<CpuState, Chip8Error>(
                        apply_pc(self@, np),
                    ));
                }
                np
            },
            OpCode { code: 0xA, x: Some(x), .. } => {
                ops::ld_reg_index(x, &mut self.index_register);
                proof {
                    assert(spec_exec(pre, op, key, rbg) == Ok::<CpuState, Chip8Error>(
                        apply_pc(self@, NextPc::Advance),
                    ));
                }
                NextPc::Advance
            },
            OpCode { code: 0xB, x: Some(x), .. } => {
                let np: NextPc = ops::jp_v0(x, &self.registers);
                proof {
                    assert(spec_exec(pre, op, key, rbg) == Ok::<CpuState, Chip8Error>(
                        apply_pc(self@, np),
                    ));
                }
                np
            },
            OpCode { code: 0xC, x: Some(x), y: Some(y), .. } => {
                ops::rnd(x as usize, y as u8, &mut self.registers);
                proof {
                    rbg = choose|b: u8|
                        self.registers@ == pre.regs.update(x as int, #[trigger] (b & (y as u8)));
                    assert(spec_exec(pre, op, key, rbg) == Ok::<CpuState, Chip8Error>(
                        apply_pc(self@, NextPc::Advance),
                    ));
                }
                NextPc::Advance
            },
            OpCode { code: 0xD, x: Some(x), y: Some(y), variant: Some(n) } => {
                ops::drw(
                    x as usize,
                    y as usize,
                    n,
                    &mut self.registers,
                    self.index_register,
                    &self.memory,
                    &mut self.frame_buffer,
                );
                proof {
                    assert(spec_exec(pre, op, key, rbg) == Ok::<CpuState, Chip8Error>(
                        apply_pc(self@, NextPc::Advance),
                    ));
                }
                NextPc::Advance
            },
            OpCode { code: 0xE, x: Some(x), variant: Some(0x9E), .. } => {
                let np: NextPc = ops::skp(x as usize, key, &self.registers, self.program_counter);
                proof {
                    assert(spec_exec(pre, op, key, rbg) == Ok::<CpuState, Chip8Error>(
                        apply_pc(self@, np),
                    ));
                }
                np
            },
            OpCode { code: 0xE, x: Some(x), variant: Some(0xA1), .. } => {
                let np: NextPc = ops::sknp(x as usize, key, &self.registers, self.program_counter);
                proof {
                    assert(spec_exec(pre, op, key, rbg) == Ok::<CpuState, Chip8Error>(
                        apply_pc(self@, np),
                    ));
                }
                np
            },
            OpCode { code: 0xF, x: Some(x), variant: Some(0x07), .. } => {
                ops::ld_delay_to_reg(x as usize, self.delay_timer, &mut self.registers);
                proof {
                    assert(spec_exec(pre, op, key, rbg) == Ok::<CpuState, Chip8Error>(
                        apply_pc(self@, NextPc::Advance),
                    ));
                }
                NextPc::Advance
            },
            OpCode { code: 0xF, x: Some(x), variant: Some(0x0A), .. } => {
                ops::ld_key(x as usize, &mut self.wait_for_key, &mut self.key_register);
                proof {
                    assert(spec_exec(pre, op, key, rbg) == Ok::<CpuState, Chip8Error>(
                        apply_pc(self@, NextPc::Advance),
                    ));
                }
                NextPc::Advance
            },
            OpCode { code: 0xF, x: Some(x), variant: Some(0x15), .. } => {
                ops::ld_reg_to_delay(x as usize, &mut self.delay_timer, &self.registers);
                proof {
                    assert(spec_exec(pre, op, key, rbg) == Ok::<CpuState, Chip8Error>(
                        apply_pc(self@, NextPc::Advance),
                    ));
                }
                NextPc::Advance
            },
            OpCode { code: 0xF, x: Some(x), variant: Some(0x18), .. } => {
                ops::ld_reg_to_sound(x as usize, &mut self.sound_timer, &self.registers);
                proof {
                    assert(spec_exec(pre, op, key, rbg) == Ok::<CpuState, Chip8Error>(
                        apply_pc(self@, NextPc::Advance),
                    ));
                }
                NextPc::Advance
            },
            OpCode { code: 0xF, x: Some(x), variant: Some(0x1E), .. } => {
                ops::add_reg_index(x as usize, &mut self.index_register, &self.registers);
                proof {
                    assert(spec_exec(pre, op, key, rbg) == Ok::<CpuState, Chip8Error>(
                        apply_pc(self@, NextPc::Advance),
                    ));
                }
                NextPc::Advance
            },
            OpCode { code: 0xF, x: Some(x), variant: Some(0x29), .. } => {
                ops::ld_sprite(x as usize, &self.registers, &mut self.index_register);
                proof {
                    assert(spec_exec(pre, op, key, rbg) == Ok::<CpuState, Chip8Error>(
                        apply_pc(self@, NextPc::Advance),
                    ));
                }
                NextPc::Advance
            },
            OpCode { code: 0xF, x: Some(x), variant: Some(0x33), .. } => {
                ops::ld_bcd(x as usize, &self.registers, self.index_register, &mut self.memory);
                proof {
                    assert(spec_exec(pre, op, key, rbg) == Ok::<CpuState, Chip8Error>(
                        apply_pc(self@, NextPc::Advance),
                    ));
                }
                NextPc::Advance
            },
            OpCode { code: 0xF, x: Some(x), variant: Some(0x55), .. } => {
                ops::ld_regs_to_mem(
                    x as usize,
                    &self.registers,
                    self.index_register,
                    &mut self.memory,
                );
                proof {
                    assert(spec_exec(pre, op, key, rbg) == Ok::<CpuState, Chip8Error>(
                        apply_pc(self@, NextPc::Advance),
                    ));
                }
                NextPc::Advance
            },
            OpCode { code: 0xF, x: Some(x), variant: Some(0x65), .. } => {
                ops::ld_x_regs(
                    x as usize,
                    &mut self.registers,
                    self.index_register,
                    &self.memory,
                );
                proof {
                    assert(spec_exec(pre, op, key, rbg) == Ok::<CpuState, Chip8Error>(
                        apply_pc(self@, NextPc::Advance),
                    ));
                }
                NextPc::Advance
            },
            _ => {
                // Every instruction get_op_code can return is matched above,
                // so this arm is provably unreachable.
                proof {
                    assert(false);
                }
                NextPc::Advance
            },
        };
        match next {
            NextPc::Advance => {
                self.program_counter = (self.program_counter + 2) % (N_MEMORY as u16);
            },
            NextPc::SetTo(a) => {
                proof {
                    assert(spec_exec(pre, op, key, rbg) matches Ok(s2) && s2.pc == a);
                }
                self.program_counter = a;
            },
        }
        proof {
            assert(spec_step(pre, key, rbg) == spec_exec(pre, op, key, rbg));
            assert(spec_step(pre, key, rbg) == Ok::<CpuState, Chip8Error>(self@));
            assert(self.wf());
        }
        Ok(())
    }
}

/// Copy the first `count` bytes of `bytes` into memory at the program
/// start; the rest of memory is untouched.
fn copy_into(memory: &mut Vec<u8>, bytes: &Vec<u8>, count: usize)
    requires
        old(memory)@.len() == N_MEMORY,
        count <= bytes@.len(),
        count <= N_MEMORY - PROGRAM_START,
    ensures
        final(memory)@.len() == N_MEMORY,
        forall|a: int|
            PROGRAM_START <= a < PROGRAM_START + count ==> final(memory)@[a] == bytes@[a
                - PROGRAM_START],
        forall|a: int|
            (0 <= a < PROGRAM_START || PROGRAM_START + count <= a < N_MEMORY)
                ==> final(memory)@[a] == old(memory)@[a],
{
    let mut i: usize = 0;
    while i < count
        invariant
            memory@.len() == N_MEMORY,
            count <= bytes@.len(),
            count <= N_MEMORY - PROGRAM_START,
            i <= count,
            forall|a: int|
                PROGRAM_START <= a < PROGRAM_START + i ==> memory@[a] == bytes@[a - PROGRAM_START],
            forall|a: int|
                (0 <= a < PROGRAM_START || PROGRAM_START + i <= a < N_MEMORY)
                    ==> memory@[a] == old(memory)@[a],
        decreases count - i,
    {
        let b: u8 = bytes[i];
        memory.set((PROGRAM_START as usize) + i, b);
        i = i + 1;
    }
}

} // verus!
