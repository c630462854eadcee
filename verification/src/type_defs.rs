//! Core data types shared by the decoder, the instruction handlers and the
//! interpreter: sizes of the machine, the decoded instruction word, the
//! next-program-counter policy, the fatal errors and the frame buffer.

use vstd::prelude::*;

verus! {

/// Number of general-purpose registers (V0 through VF).
pub const N_REGISTERS: usize = 16;
/// Capacity of the call stack.
pub const N_STACK: usize = 32;
/// Width of the frame buffer, in pixels.
pub const N_FRAMEBUFFER_WIDTH: usize = 64;
/// Height of the frame buffer, in pixels.
pub const N_FRAMEBUFFER_HEIGHT: usize = 32;
/// Total number of pixels in the frame buffer.
pub const N_PIXELS: usize = 2048;
/// Size of the flat byte-addressable memory.
pub const N_MEMORY: usize = 4096;
/// Number of built-in glyph sprites seeded at the bottom of memory.
pub const N_SPRITES: usize = 16;
/// Address at which loaded programs begin.
pub const PROGRAM_START: u16 = 0x200;

/// A fatal interpreter error. No error is retried: each one stops execution
/// and is surfaced to the external control loop.
#[derive(Clone, Copy, Debug, PartialEq, Eq, Structural)]
pub enum Chip8Error {
    /// The two-byte word at `pc` does not decode to any instruction.
    UnknownInstruction { pc: u16, word: u16 },
    /// A CALL was executed while the call stack was full.
    StackOverflow,
    /// A RET was executed while the call stack was empty.
    StackUnderflow,
}

/// The program-counter policy an instruction handler returns: either the
/// default advance past the two-byte instruction, or an explicit target.
#[derive(Clone, Copy, Debug, PartialEq, Eq, Structural)]
pub enum NextPc {
    /// Advance the program counter by 2 (one instruction).
    Advance,
    /// Set the program counter to this address.
    SetTo(u16),
}

/// A decoded instruction word. `code` is the leading nibble; which of the
/// remaining fields are populated depends on the instruction group:
/// `x` holds a register index or a 12-bit address, `y` holds a register
/// index or an 8-bit immediate, and `variant` selects within a group.
#[derive(Clone, Copy, Debug, PartialEq, Eq)]
pub struct OpCode {
    pub code: u8,
    pub x: Option<u16>,
    pub y: Option<u16>,
    pub variant: Option<u8>,
}

/// The 64x32 monochrome pixel grid, stored flat in column-major order:
/// pixel (x, y) lives at index `x * 32 + y` of the view.
pub struct FrameBuffer {
    grid: Vec<bool>,
}

impl View for FrameBuffer {
    type V = Seq<bool>;

    closed spec fn view(&self) -> Seq<bool> {
        self.grid@
    }
}

/// Flat index of pixel (x, y) in the frame buffer view.
pub open spec fn pixel_index(x: int, y: int) -> int {
    x * 32 + y
}

impl FrameBuffer {
    /// The structural invariant: exactly one cell per pixel.
    pub open spec fn wf(&self) -> bool {
        self@.len() == N_PIXELS
    }

    /// A frame buffer with every pixel off.
    pub fn new() -> (r: FrameBuffer)
        ensures
            r.wf(),
            forall|p: int| 0 <= p < N_PIXELS ==> !r@[p],
    {
        let mut grid: Vec<bool> = Vec::new();
        let mut i: usize = 0;
        while i < N_PIXELS
            invariant
                i <= N_PIXELS,
                grid@.len() == i,
                forall|p: int| 0 <= p < i ==> !grid@[p],
            decreases N_PIXELS - i,
        {
            grid.push(false);
            i = i + 1;
        }
        FrameBuffer { grid }
    }

    /// Read pixel (x, y).
    pub fn get(&self, x: usize, y: usize) -> (r: bool)
        requires
            self.wf(),
            x < N_FRAMEBUFFER_WIDTH,
            y < N_FRAMEBUFFER_HEIGHT,
        ensures
            r == self@[pixel_index(x as int, y as int)],
    {
        self.grid[x * 32 + y]
    }

    /// Write pixel (x, y).
    pub fn set(&mut self, x: usize, y: usize, v: bool)
        requires
            old(self).wf(),
            x < N_FRAMEBUFFER_WIDTH,
            y < N_FRAMEBUFFER_HEIGHT,
        ensures
            final(self).wf(),
            final(self)@ == old(self)@.update(pixel_index(x as int, y as int), v),
    {
        self.grid.set(x * 32 + y, v);
    }

    /// Turn every pixel off.
    pub fn clear(&mut self)
        requires
            old(self).wf(),
        ensures
            final(self).wf(),
            forall|p: int| 0 <= p < N_PIXELS ==> !final(self)@[p],
    {
        let mut i: usize = 0;
        while i < N_PIXELS
            invariant
                i <= N_PIXELS,
                self.grid@.len() == N_PIXELS,
                forall|p: int| 0 <= p < i ==> !self.grid@[p],
            decreases N_PIXELS - i,
        {
            self.grid.set(i, false);
            i = i + 1;
        }
    }

    /// An exact copy of the frame buffer, for read-only snapshots.
    pub fn snapshot(&self) -> (r: FrameBuffer)
        requires
            self.wf(),
        ensures
            r.wf(),
            r@ == self@,
    {
        let mut grid: Vec<bool> = Vec::new();
        let mut i: usize = 0;
        while i < N_PIXELS
            invariant
                i <= N_PIXELS,
                self.grid@.len() == N_PIXELS,
                grid@.len() == i,
                forall|p: int| 0 <= p < i ==> grid@[p] == self.grid@[p],
            decreases N_PIXELS - i,
        {
            grid.push(self.grid[i]);
            i = i + 1;
        }
        let r = FrameBuffer { grid };
        assert(r@ =~= self@);
        r
    }
}

} // verus!
