//! Drawing into a pixel buffer: the back buffer the kernel paints before
//! the dirty rectangles are blitted to the hardware framebuffer.  The blit
//! itself crosses into device memory and stays outside this crate; here
//! the buffer is owned bytes, four per pixel (blue, green, red, alpha).

use vstd::prelude::*;

verus! {


pub const MAX_DIRTY: usize = 256;

pub const BLACK: u32 = 0xFF000000;

pub const WHITE: u32 = 0xFFFFFFFF;

pub const RED: u32 = 0xFFFF0000;

pub const GREEN: u32 = 0xFF00FF00;

pub const BLUE: u32 = 0xFF0000FF;

pub const YELLOW: u32 = 0xFFFFFF00;

pub const CYAN: u32 = 0xFF00FFFF;

pub const MAGENTA: u32 = 0xFFFF00FF;

pub const ORANGE: u32 = 0xFFFF8000;

pub const PURPLE: u32 = 0xFF800080;

pub const GRAY: u32 = 0xFF808080;

pub const LIGHT_GRAY: u32 = 0xFFD3D3D3;

pub const DARK_GRAY: u32 = 0xFF404040;

pub const BROWN: u32 = 0xFF8B4513;

pub const PINK: u32 = 0xFFFFC0CB;

/// The bound on screen dimensions and drawing coordinates; keeps every
/// offset computation within the machine's integers.
pub const COORD_LIMIT: isize = 0x10_0000;

/// A glyph bitmap font: 16 rows of 8 pixels per glyph, one glyph per byte
/// value.
pub struct Font {
    pub glyphs: Vec<Vec<u8>>,
    pub glyph_height: usize,
}

impl Font {
    pub open spec fn wf(self) -> bool {
        &&& self.glyphs@.len() == 256
        &&& self.glyph_height == 16
        &&& forall|k: int| 0 <= k < 256 ==> (#[trigger] self.glyphs@[k])@.len() == 16
    }

    /// A font whose glyph rows are all taken from `data`, 16 bytes per
    /// glyph in byte order; missing bytes read as zero.
    pub fn load_from_bytes(data: &Vec<u8>, glyph_height: usize) -> (r: Font)
        requires
            glyph_height == 16,
        ensures
            r.wf(),
    {
        let mut glyphs: Vec<Vec<u8>> = Vec::new();
        let mut g: usize = 0;
        while g < 256
            invariant
                g <= 256,
                glyphs@.len() == g,
                forall|k: int| 0 <= k < g ==> (#[trigger] glyphs@[k])@.len() == 16,
            decreases 256 - g,
        {
            let mut rows: Vec<u8> = Vec::new();
            let mut i: usize = 0;
            while i < 16
                invariant
                    i <= 16,
                    g < 256,
                    rows@.len() == i,
                decreases 16 - i,
            {
                let idx = g * 16 + i;
                if idx < data.len() {
                    rows.push(data[idx]);
                } else {
                    rows.push(0u8);
                }
                i = i + 1;
            }
            glyphs.push(rows);
            g = g + 1;
        }
        Font { glyphs, glyph_height }
    }

    /// The 16 bitmap rows of a byte's glyph.
    pub fn get_char_bitmap(&self, c: u8) -> (r: &Vec<u8>)
        requires
            self.wf(),
        ensures
            r@ == self.glyphs@[c as int]@,
            r@.len() == 16,
    {
        &self.glyphs[c as usize]
    }
}

/// A dirty region: what must be blitted to the device on the next frame.
#[derive(Debug, Clone, Copy, PartialEq, Eq, Structural)]
pub struct DirtyRect {
    pub x: isize,
    pub y: isize,
    pub w: isize,
    pub h: isize,
}

/// The colour of the pixel at `(x, y)`: four little-endian bytes starting
/// at `y * pitch + x * 4`.
pub open spec fn spec_pixel(buf: Seq<u8>, pitch: int, x: int, y: int) -> u32 {
    let off = y * pitch + x * 4;
    ((buf[off] as int) + (buf[off + 1] as int) * 0x100 + (buf[off + 2] as int) * 0x1_0000 + (
    buf[off + 3] as int) * 0x100_0000) as u32
}

/// The owned back buffer and its geometry.
pub struct Framebuffer {
    pub width: usize,
    pub height: usize,
    pub pitch: usize,
    pub bpp: usize,
    pub double_buf: Vec<u8>,
    pub font: Font,
    pub dirty: Vec<DirtyRect>,
    pub dirty_count: usize,
}

impl Framebuffer {
    pub open spec fn wf(self) -> bool {
        &&& self.pitch == self.width * 4
        &&& self.double_buf@.len() == self.height * self.pitch
        &&& self.width <= 4096
        &&& self.height <= 4096
        &&& self.dirty_count == self.dirty@.len()
        &&& self.dirty@.len() <= MAX_DIRTY
        &&& self.font.wf()
    }

    /// The drawing geometry: everything but the pixels and dirty list.
    pub open spec fn same_geometry(self, other: Self) -> bool {
        &&& self.width == other.width
        &&& self.height == other.height
        &&& self.pitch == other.pitch
        &&& self.bpp == other.bpp
        &&& self.double_buf@.len() == other.double_buf@.len()
    }

    /// A black framebuffer of the given size.
    pub fn new(width: usize, height: usize, font: Font) -> (r: Framebuffer)
        requires
            width <= 4096,
            height <= 4096,
            font.wf(),
        ensures
            r.wf(),
            r.width == width,
            r.height == height,
            r.pitch == width * 4,
    {
        let pitch = width * 4;
        proof {
            assert(height as int * pitch as int <= 4096 * 16384) by (nonlinear_arith)
                requires
                    height <= 4096,
                    pitch <= 16384,
            ;
        }
        let total = height * pitch;
        let mut double_buf: Vec<u8> = Vec::new();
        let mut i: usize = 0;
        while i < total
            invariant
                i <= total,
                double_buf@.len() == i,
            decreases total - i,
        {
            double_buf.push(0u8);
            i = i + 1;
        }
        Framebuffer {
            width,
            height,
            pitch,
            bpp: 32,
            double_buf,
            font,
            dirty: Vec::new(),
            dirty_count: 0,
        }
    }

    /// The byte offset of an in-bounds pixel stays within the buffer.
    proof fn lemma_offset(self, x: int, y: int)
        requires
            self.wf(),
            0 <= x < self.width,
            0 <= y < self.height,
        ensures
            0 <= y * self.pitch + x * 4,
            y * self.pitch + x * 4 + 4 <= self.double_buf@.len(),
    {
        let p = self.pitch as int;
        assert(y * p + x * 4 + 4 <= self.height * p) by (nonlinear_arith)
            requires
                0 <= x,
                0 <= y,
                y <= self.height - 1,
                x <= self.width - 1,
                p == self.width * 4,
                self.width >= x + 1,
        ;
        assert(y * p >= 0 && x * 4 >= 0) by (nonlinear_arith)
            requires
                y >= 0,
                x >= 0,
                p >= 0,
        ;
    }

    /// Store `color` at pixel `(x, y)`; out-of-range coordinates are
    /// ignored.
    pub fn put_pixel(&mut self, x: usize, y: usize, color: u32)
        requires
            old(self).wf(),
        ensures
            final(self).wf(),
            final(self).same_geometry(*old(self)),
            final(self).dirty == old(self).dirty,
            final(self).dirty_count == old(self).dirty_count,
            x < old(self).width && y < old(self).height ==> spec_pixel(
                final(self).double_buf@,
                final(self).pitch as int,
                x as int,
                y as int,
            ) == color,
            !(x < old(self).width && y < old(self).height) ==> final(self).double_buf
                == old(self).double_buf,
            forall|i: int|
                0 <= i < old(self).double_buf@.len() && !(y * old(self).pitch + x * 4 <= i < y
                    * old(self).pitch + x * 4 + 4) ==> final(self).double_buf@[i] == old(
                    self,
                ).double_buf@[i],
    {
        if x >= self.width || y >= self.height {
            return;
        }
        proof {
            self.lemma_offset(x as int, y as int);
        }
        let _n = self.double_buf.len();
        let offset = y * self.pitch + x * 4;
        self.double_buf[offset] = (color & 0xFF) as u8;
        self.double_buf[offset + 1] = ((color >> 8) & 0xFF) as u8;
        self.double_buf[offset + 2] = ((color >> 16) & 0xFF) as u8;
        self.double_buf[offset + 3] = ((color >> 24) & 0xFF) as u8;
        proof {
            lemma_pixel_bytes(color);
        }
    }

    /// The colour at `(x, y)`, or zero outside the screen.
    pub fn get_pixel(&self, x: isize, y: isize) -> (r: u32)
        requires
            self.wf(),
        ensures
            r == (if 0 <= x < self.width && 0 <= y < self.height {
                spec_pixel(self.double_buf@, self.pitch as int, x as int, y as int)
            } else {
                0u32
            }),
    {
        if x < 0 || y < 0 || x as usize >= self.width || y as usize >= self.height {
            return 0;
        }
        proof {
            self.lemma_offset(x as int, y as int);
        }
        let _n = self.double_buf.len();
        let offset = y as usize * self.pitch + x as usize * 4;
        let b = self.double_buf[offset] as u32;
        let g = self.double_buf[offset + 1] as u32;
        let r = self.double_buf[offset + 2] as u32;
        let a = self.double_buf[offset + 3] as u32;
        b + g * 0x100 + r * 0x1_0000 + a * 0x100_0000
    }

    /// Store `color` at signed coordinates, ignoring anything off screen.
    pub fn put_pixel_safe(&mut self, x: isize, y: isize, color: u32)
        requires
            old(self).wf(),
        ensures
            final(self).wf(),
            final(self).same_geometry(*old(self)),
            final(self).dirty == old(self).dirty,
            final(self).dirty_count == old(self).dirty_count,
            0 <= x < old(self).width && 0 <= y < old(self).height ==> spec_pixel(
                final(self).double_buf@,
                final(self).pitch as int,
                x as int,
                y as int,
            ) == color,
            !(0 <= x < old(self).width && 0 <= y < old(self).height) ==> final(self).double_buf
                == old(self).double_buf,
    {
        if x >= 0 && y >= 0 && (x as usize) < self.width && (y as usize) < self.height {
            self.put_pixel(x as usize, y as usize, color);
        }
    }

    /// Remember a region for the next blit; a full dirty list or an empty
    /// region is silently dropped.
    pub fn mark_dirty(&mut self, x: isize, y: isize, w: isize, h: isize)
        requires
            old(self).wf(),
        ensures
            final(self).wf(),
            final(self).same_geometry(*old(self)),
            final(self).double_buf == old(self).double_buf,
            old(self).dirty@.len() >= MAX_DIRTY || w <= 0 || h <= 0 ==> final(self).dirty
                == old(self).dirty,
            old(self).dirty@.len() < MAX_DIRTY && w > 0 && h > 0 ==> final(self).dirty@ == old(
                self,
            ).dirty@.push((DirtyRect { x, y, w, h })),
    {
        if self.dirty_count >= MAX_DIRTY {
            return;
        }
        if w <= 0 || h <= 0 {
            return;
        }
        self.dirty.push(DirtyRect { x, y, w, h });
        self.dirty_count = self.dirty_count + 1;
    }

    /// Hand out the dirty regions and reset the list; the caller blits
    /// them to the device.
    pub fn take_dirty(&mut self) -> (r: Vec<DirtyRect>)
        requires
            old(self).wf(),
        ensures
            final(self).wf(),
            final(self).same_geometry(*old(self)),
            final(self).double_buf == old(self).double_buf,
            r@ == old(self).dirty@,
            final(self).dirty@.len() == 0,
    {
        let mut out: Vec<DirtyRect> = Vec::new();
        core::mem::swap(&mut out, &mut self.dirty);
        self.dirty_count = 0;
        out
    }
}

/// A colour split into its four bytes recombines to itself.
proof fn lemma_pixel_bytes(c: u32)
    ensures
        (c & 0xff) as u8 as int + ((c >> 8) & 0xff) as u8 as int * 0x100 + ((c >> 16)
            & 0xff) as u8 as int * 0x1_0000 + ((c >> 24) & 0xff) as u8 as int * 0x100_0000 == c,
{
    assert((c & 0xff) as u8 as u64 + ((c >> 8) & 0xff) as u8 as u64 * 0x100 + ((c >> 16)
        & 0xff) as u8 as u64 * 0x1_0000 + ((c >> 24) & 0xff) as u8 as u64 * 0x100_0000
        == c as u64) by (bit_vector);
}

impl Framebuffer {
    /// Fill the on-screen part of a rectangle with `color`.
    pub fn fill_rect(&mut self, x: isize, y: isize, w: isize, h: isize, color: u32)
        requires
            old(self).wf(),
            -COORD_LIMIT <= x <= COORD_LIMIT,
            -COORD_LIMIT <= y <= COORD_LIMIT,
            -COORD_LIMIT <= w <= COORD_LIMIT,
            -COORD_LIMIT <= h <= COORD_LIMIT,
        ensures
            final(self).wf(),
            final(self).same_geometry(*old(self)),
    {
        let xend = if x + w < self.width as isize {
            x + w
        } else {
            self.width as isize
        };
        let yend = if y + h < self.height as isize {
            y + h
        } else {
            self.height as isize
        };
        let mut yy = y;
        while yy < yend
            invariant
                self.wf(),
                self.same_geometry(*old(self)),
                yend <= self.height as isize <= 4096,
                -COORD_LIMIT <= x <= COORD_LIMIT,
                -COORD_LIMIT <= yy,
                xend <= self.width as isize,
            decreases yend - yy,
        {
            let mut xx = x;
            while xx < xend
                invariant
                    self.wf(),
                    self.same_geometry(*old(self)),
                    -COORD_LIMIT <= xx,
                    xend <= self.width as isize <= 4096,
                decreases xend - xx,
            {
                self.put_pixel_safe(xx, yy, color);
                xx = xx + 1;
            }
            yy = yy + 1;
        }
        self.mark_dirty(x, y, w, h);
    }

    /// Draw a one-pixel line between two points, clipped to the screen.
    pub fn draw_line(&mut self, x0: isize, y0: isize, x1: isize, y1: isize, color: u32)
        requires
            old(self).wf(),
            -COORD_LIMIT <= x0 <= COORD_LIMIT,
            -COORD_LIMIT <= y0 <= COORD_LIMIT,
            -COORD_LIMIT <= x1 <= COORD_LIMIT,
            -COORD_LIMIT <= y1 <= COORD_LIMIT,
        ensures
            final(self).wf(),
            final(self).same_geometry(*old(self)),
    {
        let mut x0 = x0;
        let mut y0 = y0;
        let dx = if x1 >= x0 {
            x1 - x0
        } else {
            x0 - x1
        };
        let dy = if y1 >= y0 {
            y0 - y1
        } else {
            y1 - y0
        };
        let sx: isize = if x0 < x1 {
            1
        } else {
            -1
        };
        let sy: isize = if y0 < y1 {
            1
        } else {
            -1
        };
        let mut err = dx + dy;
        let min_x = if x0 < x1 {
            x0
        } else {
            x1
        };
        let min_y = if y0 < y1 {
            y0
        } else {
            y1
        };
        let max_x = if x0 < x1 {
            x1
        } else {
            x0
        };
        let max_y = if y0 < y1 {
            y1
        } else {
            y0
        };
        let mut fuel = dx - dy + 1;
        let mut done = false;
        while !done && fuel > 0
            invariant
                self.wf(),
                self.same_geometry(*old(self)),
                -3 * COORD_LIMIT <= x0 <= 3 * COORD_LIMIT,
                -3 * COORD_LIMIT <= y0 <= 3 * COORD_LIMIT,
                0 <= dx <= 2 * COORD_LIMIT,
                -2 * COORD_LIMIT <= dy <= 0,
                -4 * COORD_LIMIT <= err <= 4 * COORD_LIMIT,
                -1 <= sx <= 1,
                -1 <= sy <= 1,
                fuel <= 4 * COORD_LIMIT + 1,
            decreases fuel,
        {
            if x0 >= 0 && y0 >= 0 {
                self.put_pixel_safe(x0, y0, color);
            }
            if x0 == x1 && y0 == y1 {
                done = true;
            } else {
                let e2 = 2 * err;
                if e2 >= dy {
                    if err + dy >= -4 * COORD_LIMIT {
                        err = err + dy;
                    } else {
                        done = true;
                    }
                    if -3 * COORD_LIMIT < x0 && x0 < 3 * COORD_LIMIT {
                        x0 = x0 + sx;
                    }
                }
                if e2 <= dx {
                    if err + dx <= 4 * COORD_LIMIT {
                        err = err + dx;
                    } else {
                        done = true;
                    }
                    if -3 * COORD_LIMIT < y0 && y0 < 3 * COORD_LIMIT {
                        y0 = y0 + sy;
                    }
                }
            }
            fuel = fuel - 1;
        }
        self.mark_dirty(min_x, min_y, max_x - min_x + 1, max_y - min_y + 1);
    }

    /// Draw the one-pixel border of a rectangle.
    pub fn draw_rect(&mut self, x: isize, y: isize, w: isize, h: isize, color: u32)
        requires
            old(self).wf(),
            -0x8_0000 < x < 0x8_0000,
            -0x8_0000 < y < 0x8_0000,
            0 <= w < 0x8_0000,
            0 <= h < 0x8_0000,
        ensures
            final(self).wf(),
            final(self).same_geometry(*old(self)),
    {
        self.draw_line(x, y, x + w - 1, y, color);
        self.draw_line(x, y + h - 1, x + w - 1, y + h - 1, color);
        self.draw_line(x, y, x, y + h - 1, color);
        self.draw_line(x + w - 1, y, x + w - 1, y + h - 1, color);
        self.mark_dirty(x, y, w, h);
    }

    /// Draw the outline of a circle around `(cx, cy)`.
    pub fn draw_circle(&mut self, cx: isize, cy: isize, r: isize, color: u32)
        requires
            old(self).wf(),
            -COORD_LIMIT <= cx <= COORD_LIMIT,
            -COORD_LIMIT <= cy <= COORD_LIMIT,
            0 <= r <= COORD_LIMIT,
        ensures
            final(self).wf(),
            final(self).same_geometry(*old(self)),
    {
        let mut x: isize = 0;
        let mut y: isize = r;
        let mut d: isize = 3 - 2 * r;
        while y >= x
            invariant
                self.wf(),
                self.same_geometry(*old(self)),
                0 <= x,
                x <= r + 1,
                y <= r <= COORD_LIMIT,
                -COORD_LIMIT <= cx <= COORD_LIMIT,
                -COORD_LIMIT <= cy <= COORD_LIMIT,
                d <= 10 * COORD_LIMIT,
                d >= -10 * COORD_LIMIT,
            decreases r + 1 - x,
        {
            self.put_pixel_safe(cx + x, cy + y, color);
            self.put_pixel_safe(cx - x, cy + y, color);
            self.put_pixel_safe(cx + x, cy - y, color);
            self.put_pixel_safe(cx - x, cy - y, color);
            self.put_pixel_safe(cx + y, cy + x, color);
            self.put_pixel_safe(cx - y, cy + x, color);
            self.put_pixel_safe(cx + y, cy - x, color);
            self.put_pixel_safe(cx - y, cy - x, color);
            if d < 0 {
                if d + 4 * x + 6 <= 10 * COORD_LIMIT {
                    d = d + 4 * x + 6;
                }
            } else {
                if -10 * COORD_LIMIT <= d + 4 * (x - y) + 10 && d + 4 * (x - y) + 10 <= 10
                    * COORD_LIMIT {
                    d = d + 4 * (x - y) + 10;
                }
                y = y - 1;
            }
            x = x + 1;
        }
        self.mark_dirty(cx - r, cy - r, 2 * r + 1, 2 * r + 1);
    }

    /// Fill a circle around `(cx, cy)`.
    pub fn fill_circle(&mut self, cx: isize, cy: isize, r: isize, color: u32)
        requires
            old(self).wf(),
            -COORD_LIMIT <= cx <= COORD_LIMIT,
            -COORD_LIMIT <= cy <= COORD_LIMIT,
            0 <= r <= 4096,
        ensures
            final(self).wf(),
            final(self).same_geometry(*old(self)),
    {
        let mut y = -r;
        while y <= r
            invariant
                self.wf(),
                self.same_geometry(*old(self)),
                -COORD_LIMIT <= cx <= COORD_LIMIT,
                -COORD_LIMIT <= cy <= COORD_LIMIT,
                0 <= r <= 4096,
                -4096 <= y,
            decreases r - y + 1,
        {
            let mut x = -r;
            while x <= r
                invariant
                    self.wf(),
                    self.same_geometry(*old(self)),
                    -COORD_LIMIT <= cx <= COORD_LIMIT,
                    -COORD_LIMIT <= cy <= COORD_LIMIT,
                    0 <= r <= 4096,
                    -4096 <= x,
                    -4096 <= y <= 4096,
                decreases r - x + 1,
            {
                proof {
                    assert(-0x100_0000 <= x * x <= 0x100_0000 && -0x100_0000 <= y * y
                        <= 0x100_0000 && -0x100_0000 <= r * r <= 0x100_0000) by (nonlinear_arith)
                        requires
                            -4096 <= x <= 4096,
                            -4096 <= y <= 4096,
                            0 <= r <= 4096,
                    ;
                }
                if x * x + y * y <= r * r {
                    self.put_pixel_safe(cx + x, cy + y, color);
                }
                x = x + 1;
            }
            y = y + 1;
        }
        self.mark_dirty(cx - r, cy - r, 2 * r + 1, 2 * r + 1);
    }

    /// Draw the outline of a triangle.
    pub fn draw_triangle(
        &mut self,
        x0: isize,
        y0: isize,
        x1: isize,
        y1: isize,
        x2: isize,
        y2: isize,
        color: u32,
    )
        requires
            old(self).wf(),
            -COORD_LIMIT <= x0 <= COORD_LIMIT,
            -COORD_LIMIT <= y0 <= COORD_LIMIT,
            -COORD_LIMIT <= x1 <= COORD_LIMIT,
            -COORD_LIMIT <= y1 <= COORD_LIMIT,
            -COORD_LIMIT <= x2 <= COORD_LIMIT,
            -COORD_LIMIT <= y2 <= COORD_LIMIT,
        ensures
            final(self).wf(),
            final(self).same_geometry(*old(self)),
    {
        self.draw_line(x0, y0, x1, y1, color);
        self.draw_line(x1, y1, x2, y2, color);
        self.draw_line(x2, y2, x0, y0, color);
        let min_x = min3(x0, x1, x2);
        let max_x = max3(x0, x1, x2);
        let min_y = min3(y0, y1, y2);
        let max_y = max3(y0, y1, y2);
        self.mark_dirty(min_x, min_y, max_x - min_x + 1, max_y - min_y + 1);
    }

    /// Fill a triangle: every pixel of the bounding box whose barycentric
    /// signs agree with the triangle is painted.
    pub fn fill_triangle(
        &mut self,
        x0: isize,
        y0: isize,
        x1: isize,
        y1: isize,
        x2: isize,
        y2: isize,
        color: u32,
    )
        requires
            old(self).wf(),
            -4096 <= x0 <= 4096,
            -4096 <= y0 <= 4096,
            -4096 <= x1 <= 4096,
            -4096 <= y1 <= 4096,
            -4096 <= x2 <= 4096,
            -4096 <= y2 <= 4096,
        ensures
            final(self).wf(),
            final(self).same_geometry(*old(self)),
    {
        let min_x = min3(x0, x1, x2);
        let max_x = max3(x0, x1, x2);
        let min_y = min3(y0, y1, y2);
        let max_y = max3(y0, y1, y2);
        proof {
            lemma_bary_bounds(x0, y0, x1, y1, x2, y2, x0 as int, y0 as int);
        }
        let den = (y1 - y2) * (x0 - x2) + (x2 - x1) * (y0 - y2);
        let mut y = min_y;
        while y <= max_y
            invariant
                self.wf(),
                self.same_geometry(*old(self)),
                -4096 <= min_x <= 4096,
                -4096 <= max_x <= 4096,
                -4096 <= y,
                max_y <= 4096,
                -4096 <= x0 <= 4096,
                -4096 <= y0 <= 4096,
                -4096 <= x1 <= 4096,
                -4096 <= y1 <= 4096,
                -4096 <= x2 <= 4096,
                -4096 <= y2 <= 4096,
                -0x1000_0000 <= den <= 0x1000_0000,
            decreases max_y - y + 1,
        {
            let mut x = min_x;
            while x <= max_x
                invariant
                    self.wf(),
                    self.same_geometry(*old(self)),
                    -4096 <= x,
                    max_x <= 4096,
                    -4096 <= y <= 4096,
                    -4096 <= x0 <= 4096,
                    -4096 <= y0 <= 4096,
                    -4096 <= x1 <= 4096,
                    -4096 <= y1 <= 4096,
                    -4096 <= x2 <= 4096,
                    -4096 <= y2 <= 4096,
                    -0x1000_0000 <= den <= 0x1000_0000,
                decreases max_x - x + 1,
            {
                proof {
                    lemma_bary_bounds(x0, y0, x1, y1, x2, y2, x as int, y as int);
                }
                let n1 = (y1 - y2) * (x - x2) + (x2 - x1) * (y - y2);
                let n2 = (y2 - y0) * (x - x2) + (x0 - x2) * (y - y2);
                let n3 = den - n1 - n2;
                let s1 = bary_nonneg(n1, den);
                let s2 = bary_nonneg(n2, den);
                let s3 = bary_nonneg(n3, den);
                if s1 && s2 && s3 {
                    if x >= 0 && y >= 0 {
                        self.put_pixel_safe(x, y, color);
                    }
                }
                x = x + 1;
            }
            y = y + 1;
        }
        self.mark_dirty(min_x, min_y, max_x - min_x + 1, max_y - min_y + 1);
    }

    /// Draw one glyph at `(x, y)`.
    pub fn draw_char(&mut self, x: isize, y: isize, c: u8, color: u32)
        requires
            old(self).wf(),
            -COORD_LIMIT <= x <= COORD_LIMIT,
            -COORD_LIMIT <= y <= COORD_LIMIT,
        ensures
            final(self).wf(),
            final(self).same_geometry(*old(self)),
    {
        let mut row: usize = 0;
        while row < 16
            invariant
                row <= 16,
                self.wf(),
                self.same_geometry(*old(self)),
                -COORD_LIMIT <= x <= COORD_LIMIT,
                -COORD_LIMIT <= y <= COORD_LIMIT,
            decreases 16 - row,
        {
            let bits = self.font.glyphs[c as usize][row];
            let mut col: usize = 0;
            while col < 8
                invariant
                    col <= 8,
                    row < 16,
                    self.wf(),
                    self.same_geometry(*old(self)),
                    -COORD_LIMIT <= x <= COORD_LIMIT,
                    -COORD_LIMIT <= y <= COORD_LIMIT,
                decreases 8 - col,
            {
                if (bits >> ((7 - col) as u8)) & 1 != 0 {
                    self.put_pixel_safe(x + col as isize, y + row as isize, color);
                }
                col = col + 1;
            }
            row = row + 1;
        }
        self.mark_dirty(x, y, 8, 16);
    }

    /// Draw a byte string, 8 pixels per glyph, breaking lines at newline
    /// bytes.
    pub fn draw_string(&mut self, x: isize, y: isize, text: &str, color: u32)
        requires
            old(self).wf(),
            -COORD_LIMIT <= x <= COORD_LIMIT,
            -COORD_LIMIT <= y <= COORD_LIMIT,
        ensures
            final(self).wf(),
            final(self).same_geometry(*old(self)),
    {
        let bytes = text.as_bytes();
        let n = if bytes.len() < 4096 {
            bytes.len()
        } else {
            4096
        };
        let mut cx = x;
        let mut cy = y;
        let mut i: usize = 0;
        while i < n
            invariant
                i <= n,
                n <= bytes@.len(),
                n <= 4096,
                self.wf(),
                self.same_geometry(*old(self)),
                -COORD_LIMIT <= cx <= COORD_LIMIT + 8 * (i as int),
                -COORD_LIMIT <= cy <= COORD_LIMIT + 16 * (i as int),
            decreases n - i,
        {
            let c = bytes[i];
            if c == 10u8 {
                cy = cy + 16;
                cx = 0;
            } else {
                if cx <= COORD_LIMIT && cy <= COORD_LIMIT {
                    self.draw_char(cx, cy, c, color);
                }
                cx = cx + 8;
            }
            i = i + 1;
        }
    }

    /// Paint the whole screen with one colour.
    pub fn fill_screen(&mut self, color: u32)
        requires
            old(self).wf(),
        ensures
            final(self).wf(),
            final(self).same_geometry(*old(self)),
    {
        let w = self.width as isize;
        let h = self.height as isize;
        self.fill_rect(0, 0, w, h, color);
    }
}

/// The barycentric products of bounded coordinates stay bounded.
proof fn lemma_bary_bounds(
    x0: isize,
    y0: isize,
    x1: isize,
    y1: isize,
    x2: isize,
    y2: isize,
    x: int,
    y: int,
)
    requires
        -4096 <= x0 <= 4096,
        -4096 <= y0 <= 4096,
        -4096 <= x1 <= 4096,
        -4096 <= y1 <= 4096,
        -4096 <= x2 <= 4096,
        -4096 <= y2 <= 4096,
        -4096 <= x <= 4096,
        -4096 <= y <= 4096,
    ensures
        -0x800_0000 <= (y1 - y2) * (x - x2) <= 0x800_0000,
        -0x800_0000 <= (x2 - x1) * (y - y2) <= 0x800_0000,
        -0x800_0000 <= (y2 - y0) * (x - x2) <= 0x800_0000,
        -0x800_0000 <= (x0 - x2) * (y - y2) <= 0x800_0000,
        -0x800_0000 <= (y1 - y2) * (x0 - x2) <= 0x800_0000,
        -0x800_0000 <= (x2 - x1) * (y0 - y2) <= 0x800_0000,
{
    assert(forall|a: int, b: int|
        -8192 <= a <= 8192 && -8192 <= b <= 8192 ==> -0x800_0000 <= #[trigger] (a * b)
            <= 0x800_0000) by (nonlinear_arith);
}

/// Whether a barycentric coordinate `num / den` is non-negative under the
/// floating-point sign rules the rasteriser follows: the quotient's sign
/// for a non-zero divisor, positive infinity for a positive numerator over
/// zero, and never for zero over zero.
pub fn bary_nonneg(num: isize, den: isize) -> (r: bool)
    ensures
        r == (if den > 0 {
            num >= 0
        } else if den < 0 {
            num <= 0
        } else {
            num > 0
        }),
{
    if den > 0 {
        num >= 0
    } else if den < 0 {
        num <= 0
    } else {
        num > 0
    }
}

/// The smallest of three values.
pub fn min3(a: isize, b: isize, c: isize) -> (r: isize)
    ensures
        r <= a && r <= b && r <= c,
        r == a || r == b || r == c,
{
    let m = if a < b {
        a
    } else {
        b
    };
    if m < c {
        m
    } else {
        c
    }
}

/// The largest of three values.
pub fn max3(a: isize, b: isize, c: isize) -> (r: isize)
    ensures
        r >= a && r >= b && r >= c,
        r == a || r == b || r == c,
{
    let m = if a > b {
        a
    } else {
        b
    };
    if m > c {
        m
    } else {
        c
    }
}

/// Writes text into a framebuffer it owns, tracking the cursor.
pub struct FramebufferWriter {
    pub fb: Option<Framebuffer>,
    pub x: isize,
    pub y: isize,
    pub color: u32,
}

impl FramebufferWriter {
    pub open spec fn wf(self) -> bool {
        match self.fb {
            Some(f) => f.wf() && 0 <= self.x <= COORD_LIMIT && 0 <= self.y <= COORD_LIMIT,
            None => true,
        }
    }

    /// A writer with no framebuffer yet, writing white at the origin.
    pub fn new() -> (r: FramebufferWriter)
        ensures
            r.wf(),
            r.fb is None,
            r.x == 0,
            r.y == 0,
            r.color == WHITE,
    {
        FramebufferWriter { fb: None, x: 0, y: 0, color: WHITE }
    }

    /// Hand the writer its framebuffer.
    pub fn set_framebuffer(&mut self, fb: Framebuffer)
        requires
            old(self).wf(),
            fb.wf(),
            0 <= old(self).x <= COORD_LIMIT,
            0 <= old(self).y <= COORD_LIMIT,
        ensures
            final(self).wf(),
            final(self).fb == Some(fb),
            final(self).x == old(self).x,
            final(self).y == old(self).y,
            final(self).color == old(self).color,
    {
        self.fb = Some(fb);
    }

    /// Change the text colour.
    pub fn set_color(&mut self, color: u32)
        requires
            old(self).wf(),
        ensures
            final(self).wf(),
            final(self).color == color,
            final(self).fb == old(self).fb,
            final(self).x == old(self).x,
            final(self).y == old(self).y,
    {
        self.color = color;
    }

    /// Step the cursor back one glyph and blank its cell; at the start of
    /// a line the cursor wraps to the end of the previous one.
    pub fn rm_char(&mut self)
        requires
            old(self).wf(),
        ensures
            final(self).wf(),
    {
        let mut fb_opt = self.fb.take();
        match fb_opt {
            Some(mut fb) => {
                let mut x = self.x - 8;
                let mut y = self.y;
                if x < 0 {
                    if fb.width >= 8 {
                        x = (fb.width - 8) as isize;
                    } else {
                        x = 0;
                    }
                    y = y - 16;
                    if y < 0 {
                        y = 0;
                    }
                }
                fb.fill_rect(x, y, 8, 16, BLACK);
                self.x = x;
                self.y = y;
                self.fb = Some(fb);
            },
            None => {
                self.fb = None;
            },
        }
    }

    /// Blank the whole screen and home the cursor.
    pub fn clear(&mut self)
        requires
            old(self).wf(),
        ensures
            final(self).wf(),
            final(self).fb is Some ==> final(self).x == 0 && final(self).y == 0,
    {
        let mut fb_opt = self.fb.take();
        match fb_opt {
            Some(mut fb) => {
                fb.fill_screen(BLACK);
                self.x = 0;
                self.y = 0;
                self.fb = Some(fb);
            },
            None => {
                self.fb = None;
            },
        }
    }
}

} // verus!
