//! The boot-stage text logger: cursor movement and character placement
//! in the 80×25 VGA text buffer.  The buffer is held as an owned byte
//! array here; the surrounding layer copies it to (or aliases it with)
//! the memory-mapped screen at the fixed VGA address.

use vstd::prelude::*;

verus! {

/// The physical address of the memory-mapped VGA text buffer.
pub const VGA_BUFFER_START_ADDR: usize = 0xb8000;

/// The size of the text buffer in bytes: two bytes per character cell.
pub const VGA_BUFFER_SIZE: usize = 80 * 25 * 2;

/// Rows of the text mode screen.
pub const VGA_TEXT_MODE_HEIGHT: usize = 25;

/// Columns of the text mode screen.
pub const VGA_TEXT_MODE_WIDTH: usize = 80;

/// The attribute byte written beside every character: green on black.
pub const GREEN_CHAR_ATTR: u8 = 0x0a;

/// An all-blank screen buffer.
pub open spec fn blank_screen() -> Seq<u8> {
    Seq::new(VGA_BUFFER_SIZE as nat, |i: int| 0u8)
}

/// Writes characters into the VGA text buffer, tracking the cursor.
pub struct Logger {
    /// The two-bytes-per-cell text buffer contents.
    pub vga_buffer: Vec<u8>,
    /// The byte offset of the cursor within its row (two per column).
    pub x: usize,
    /// The cursor row.
    pub y: usize,
}

impl Logger {
    /// The buffer always spans the whole screen and the cursor stays
    /// inside it.
    pub open spec fn wf(&self) -> bool {
        &&& self.vga_buffer@.len() == VGA_BUFFER_SIZE
        &&& self.x <= 2 * VGA_TEXT_MODE_WIDTH
        &&& self.x % 2 == 0
        &&& self.y < VGA_TEXT_MODE_HEIGHT
    }

    /// A fresh logger over a blank screen, cursor at the top left.
    pub fn new() -> (r: Logger)
        ensures
            r.wf(),
            r.vga_buffer@ == blank_screen(),
            r.x == 0,
            r.y == 0,
    {
        let mut vga_buffer: Vec<u8> = Vec::new();
        let mut i: usize = 0;
        while i < VGA_BUFFER_SIZE
            invariant
                0 <= i <= VGA_BUFFER_SIZE,
                vga_buffer@.len() == i,
                forall|j: int| 0 <= j < i ==> vga_buffer@[j] == 0,
            decreases VGA_BUFFER_SIZE - i,
        {
            vga_buffer.push(0);
            i = i + 1;
        }
        proof {
            assert(vga_buffer@ =~= blank_screen());
        }
        Logger { vga_buffer, x: 0, y: 0 }
    }

    /// Moves the cursor back to the start of its row.
    pub fn carriage_return(&mut self)
        requires
            old(self).wf(),
        ensures
            final(self).wf(),
            final(self).x == 0,
            final(self).y == old(self).y,
            final(self).vga_buffer@ == old(self).vga_buffer@,
    {
        self.x = 0;
    }

    /// Blanks the screen and homes the cursor.
    pub fn clear(&mut self)
        requires
            old(self).vga_buffer@.len() == VGA_BUFFER_SIZE,
        ensures
            final(self).wf(),
            final(self).x == 0,
            final(self).y == 0,
            final(self).vga_buffer@ == blank_screen(),
    {
        self.x = 0;
        self.y = 0;
        let mut i: usize = 0;
        while i < VGA_BUFFER_SIZE
            invariant
                0 <= i <= VGA_BUFFER_SIZE,
                self.vga_buffer@.len() == VGA_BUFFER_SIZE,
                self.x == 0,
                self.y == 0,
                forall|j: int| 0 <= j < i ==> self.vga_buffer@[j] == 0,
            decreases VGA_BUFFER_SIZE - i,
        {
            self.vga_buffer.set(i, 0);
            i = i + 1;
        }
        proof {
            assert(self.vga_buffer@ =~= blank_screen());
        }
    }

    /// Moves the cursor to the start of the next row, blanking the
    /// screen when it runs off the bottom.
    pub fn newline(&mut self)
        requires
            old(self).wf(),
        ensures
            final(self).wf(),
            final(self).x == 0,
            if old(self).y + 1 < VGA_TEXT_MODE_HEIGHT {
                final(self).y == old(self).y + 1 && final(self).vga_buffer@
                    == old(self).vga_buffer@
            } else {
                final(self).y == 0 && final(self).vga_buffer@ == blank_screen()
            },
    {
        self.carriage_return();
        self.y = self.y + 1;
        if self.y >= VGA_TEXT_MODE_HEIGHT {
            self.clear();
        }
    }

    /// Writes one character at the cursor: newline and carriage-return
    /// bytes move the cursor; anything else is placed in the current
    /// cell with the green attribute, wrapping to a fresh row (and
    /// possibly a fresh screen) when the row is full.
    pub fn write_char(&mut self, ch: u8)
        requires
            old(self).wf(),
        ensures
            final(self).wf(),
            ch == 0x0a ==> final(self).vga_buffer@ == (if old(self).y + 1 < 25 {
                old(self).vga_buffer@
            } else {
                blank_screen()
            }) && final(self).x == 0,
            ch == 0x0d ==> final(self).x == 0 && final(self).y == old(self).y
                && final(self).vga_buffer@ == old(self).vga_buffer@,
            ch != 0x0a && ch != 0x0d ==> ({
                let wrapped = old(self).x >= 2 * VGA_TEXT_MODE_WIDTH;
                let cleared = wrapped && old(self).y + 1 >= VGA_TEXT_MODE_HEIGHT;
                let base = if cleared {
                    blank_screen()
                } else {
                    old(self).vga_buffer@
                };
                let x0: int = if wrapped {
                    0
                } else {
                    old(self).x as int
                };
                let y0: int = if !wrapped {
                    old(self).y as int
                } else if cleared {
                    0
                } else {
                    old(self).y + 1
                };
                let pos = y0 * (2 * VGA_TEXT_MODE_WIDTH) + x0;
                &&& final(self).vga_buffer@ == base.update(pos, ch).update(
                    pos + 1,
                    GREEN_CHAR_ATTR,
                )
                &&& final(self).x == x0 + 2
                &&& final(self).y == y0
            }),
    {
        if ch == 0x0a {
            self.newline();
        } else if ch == 0x0d {
            self.carriage_return();
        } else {
            if self.x >= 2 * VGA_TEXT_MODE_WIDTH {
                self.newline();
            }
            let pos = self.y * (2 * VGA_TEXT_MODE_WIDTH) + self.x;
            self.vga_buffer.set(pos, ch);
            self.vga_buffer.set(pos + 1, GREEN_CHAR_ATTR);
            self.x = self.x + 2;
        }
    }
}

} // verus!
