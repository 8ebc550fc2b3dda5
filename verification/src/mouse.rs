//! The mouse pointer: saving the pixels it covers, erasing its old
//! position and drawing its arrow.  The PS/2 controller that feeds it
//! coordinates is programmed outside this crate.

use vstd::prelude::*;

verus! {

use crate::framebuffer::Framebuffer;
use crate::framebuffer::COORD_LIMIT;
use crate::framebuffer::WHITE;

/// The pointer: its position, the previous one, and the 16-by-16 patch of
/// background it covers.
pub struct Mouse {
    pub x: isize,
    pub y: isize,
    pub prev_x: isize,
    pub prev_y: isize,
    pub width: usize,
    pub height: usize,
    pub saved_bg: Vec<u32>,
}

impl Mouse {
    pub open spec fn wf(self) -> bool {
        &&& self.width == 16
        &&& self.height == 16
        &&& self.saved_bg@.len() == 256
        &&& -COORD_LIMIT <= self.x <= COORD_LIMIT
        &&& -COORD_LIMIT <= self.y <= COORD_LIMIT
        &&& -COORD_LIMIT <= self.prev_x <= COORD_LIMIT
        &&& -COORD_LIMIT <= self.prev_y <= COORD_LIMIT
    }

    /// A pointer parked at the classic start position.
    pub fn new() -> (r: Mouse)
        ensures
            r.wf(),
            r.x == 100,
            r.y == 100,
    {
        let mut saved_bg: Vec<u32> = Vec::new();
        let mut i: usize = 0;
        while i < 256
            invariant
                i <= 256,
                saved_bg@.len() == i,
            decreases 256 - i,
        {
            saved_bg.push(0u32);
            i = i + 1;
        }
        Mouse { x: 100, y: 100, prev_x: 100, prev_y: 100, width: 16, height: 16, saved_bg }
    }

    /// Paint the saved background back over the pointer's previous
    /// position.
    pub fn erase(&mut self, fb: &mut Framebuffer)
        requires
            old(self).wf(),
            old(fb).wf(),
        ensures
            final(self).wf(),
            *final(self) == *old(self),
            final(fb).wf(),
            final(fb).same_geometry(*old(fb)),
    {
        let mut yy: usize = 0;
        while yy < 16
            invariant
                yy <= 16,
                self.wf(),
                *self == *old(self),
                fb.wf(),
                fb.same_geometry(*old(fb)),
            decreases 16 - yy,
        {
            let mut xx: usize = 0;
            while xx < 16
                invariant
                    xx <= 16,
                    yy < 16,
                    self.wf(),
                    *self == *old(self),
                    fb.wf(),
                    fb.same_geometry(*old(fb)),
                decreases 16 - xx,
            {
                let color = self.saved_bg[yy * 16 + xx];
                fb.put_pixel_safe(self.prev_x + xx as isize, self.prev_y + yy as isize, color);
                xx = xx + 1;
            }
            yy = yy + 1;
        }
    }

    /// Save the background under the pointer, draw its arrow, and record
    /// the position for the next erase.
    pub fn draw(&mut self, fb: &mut Framebuffer)
        requires
            old(self).wf(),
            old(fb).wf(),
        ensures
            final(self).wf(),
            final(self).x == old(self).x,
            final(self).y == old(self).y,
            final(self).prev_x == old(self).x,
            final(self).prev_y == old(self).y,
            final(fb).wf(),
            final(fb).same_geometry(*old(fb)),
    {
        let mut yy: usize = 0;
        while yy < 16
            invariant
                yy <= 16,
                self.wf(),
                self.x == old(self).x,
                self.y == old(self).y,
                self.prev_x == old(self).prev_x,
                self.prev_y == old(self).prev_y,
                fb.wf(),
                fb.same_geometry(*old(fb)),
            decreases 16 - yy,
        {
            let mut xx: usize = 0;
            while xx < 16
                invariant
                    xx <= 16,
                    yy < 16,
                    self.wf(),
                    self.x == old(self).x,
                    self.y == old(self).y,
                    self.prev_x == old(self).prev_x,
                    self.prev_y == old(self).prev_y,
                    fb.wf(),
                    fb.same_geometry(*old(fb)),
                decreases 16 - xx,
            {
                let color = fb.get_pixel(self.x + xx as isize, self.y + yy as isize);
                self.saved_bg[yy * 16 + xx] = color;
                xx = xx + 1;
            }
            yy = yy + 1;
        }
        if -4086 <= self.x && self.x <= 4086 && -4086 <= self.y && self.y <= 4086 {
            fb.fill_triangle(self.x, self.y, self.x, self.y + 10, self.x + 10, self.y + 5, WHITE);
        }
        self.prev_x = self.x;
        self.prev_y = self.y;
    }
}

} // verus!
