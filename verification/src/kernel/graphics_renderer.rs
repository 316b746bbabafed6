//! Colours, pixels and the frame buffer that the kernel draws to.
use vstd::prelude::*;

verus! {

/// A colour: red, green and blue.
#[derive(Debug, Clone, Copy, PartialEq, Eq, Structural)]
pub struct Color(pub u8, pub u8, pub u8);

impl Color {
    /// The colour with the hex code `hex_code`: red in bits 16 to 23, green
    /// in bits 8 to 15, blue in bits 0 to 7.
    pub fn new(hex_code: u32) -> (r: Color)
        ensures
            r.0 == hex_code / 0x1_0000 % 0x100,
            r.1 == hex_code / 0x100 % 0x100,
            r.2 == hex_code % 0x100,
    {
        assert((hex_code >> 16) & 0xFF == hex_code / 0x1_0000 % 0x100 && (hex_code >> 8) & 0xFF
            == hex_code / 0x100 % 0x100 && hex_code & 0xFF == hex_code % 0x100) by (bit_vector);
        Color(
            ((hex_code >> 16) & 0xFF) as u8,
            ((hex_code >> 8) & 0xFF) as u8,
            (hex_code & 0xFF) as u8,
        )
    }

    pub fn red(&self) -> (r: u8)
        ensures
            r == self.0,
    {
        self.0
    }

    pub fn green(&self) -> (r: u8)
        ensures
            r == self.1,
    {
        self.1
    }

    pub fn blue(&self) -> (r: u8)
        ensures
            r == self.2,
    {
        self.2
    }

    /// The colour at half the brightness: each part halved.
    pub fn halved(&self) -> (r: Color)
        ensures
            r.0 == self.0 / 2,
            r.1 == self.1 / 2,
            r.2 == self.2 / 2,
    {
        Color(self.0 / 2, self.1 / 2, self.2 / 2)
    }
}

/// A pixel of the frame buffer: blue in the low byte, then green, then
/// red, the high byte unused.
#[derive(Debug, Clone, Copy, PartialEq, Eq, Structural)]
pub struct BgrPixel(pub u32);

impl BgrPixel {
    pub fn new(color: Color) -> (r: BgrPixel)
        ensures
            r.0 == color.0 * 0x1_0000 + color.1 * 0x100 + color.2,
    {
        let red = color.red();
        let green = color.green();
        let blue = color.blue();
        assert((red as u32) << 16 | (green as u32) << 8 | (blue as u32) == red * 0x1_0000 + green
            * 0x100 + blue) by (bit_vector);
        BgrPixel((red as u32) << 16 | (green as u32) << 8 | blue as u32)
    }
}

/// The place in the pixel buffer that a write to column `x` of line `y`
/// goes to: a column beyond the width goes to the last column; a line
/// number that is not below the width goes to the last line.
pub open spec fn clamped_place(x: int, y: int, width: int, height: int, stride: int) -> int {
    let column = if x >= width {
        width - 1
    } else {
        x
    };
    let line = if y >= width {
        height - 1
    } else {
        y
    };
    line * stride + column
}

/// Pixel `index` is the place of a write to one of the first `lines` lines.
pub open spec fn in_lines(index: int, lines: int, width: int, height: int, stride: int) -> bool {
    exists|x: int, y: int|
        0 <= x < width && 0 <= y < lines && index == #[trigger] clamped_place(
            x,
            y,
            width,
            height,
            stride,
        )
}

/// The frame buffer: `height` lines of `width` pixels, each line `stride`
/// pixels apart in the pixel buffer.
#[derive(Debug)]
pub struct FrameBuffer {
    pub width: usize,
    pub height: usize,
    pub pixels: Vec<BgrPixel>,
    pub stride: usize,
}

impl FrameBuffer {
    /// The buffer has a pixel, and every write that names a pixel of the
    /// buffer, or is clamped to one, has its place in the pixel buffer.
    pub open spec fn wf(&self) -> bool {
        &&& self.width >= 1
        &&& self.height >= 1
        &&& forall|x: int, y: int|
            0 <= x < self.width && 0 <= y < self.height ==> 0 <= #[trigger] clamped_place(
                x,
                y,
                self.width as int,
                self.height as int,
                self.stride as int,
            ) < self.pixels@.len()
    }

    /// A frame buffer over `pixels`.
    pub fn new(width: usize, height: usize, stride: usize, pixels: Vec<BgrPixel>) -> (r: FrameBuffer)
        ensures
            r.width == width,
            r.height == height,
            r.stride == stride,
            r.pixels == pixels,
    {
        FrameBuffer { width, height, pixels, stride }
    }

    /// Whether the frame buffer is well formed.
    pub fn is_well_formed(&self) -> (r: bool)
        ensures
            r == self.wf(),
    {
        if self.width < 1 || self.height < 1 {
            return false;
        }
        let length = self.pixels.len();
        let lines = match (self.height - 1).checked_mul(self.stride) {
            Some(lines) => lines,
            None => {
                proof {
                    assert(clamped_place(
                        0,
                        self.height - 1,
                        self.width as int,
                        self.height as int,
                        self.stride as int,
                    ) == (self.height - 1) * self.stride);
                }
                return false;
            },
        };
        let last = match lines.checked_add(self.width - 1) {
            Some(last) => last,
            None => {
                proof {
                    assert(clamped_place(
                        self.width - 1,
                        self.height - 1,
                        self.width as int,
                        self.height as int,
                        self.stride as int,
                    ) == (self.height - 1) * self.stride + self.width - 1);
                }
                return false;
            },
        };
        let r = last < length;
        proof {
            let width = self.width as int;
            let height = self.height as int;
            let stride = self.stride as int;
            if r {
                assert forall|x: int, y: int| 0 <= x < width && 0 <= y < height implies 0
                    <= #[trigger] clamped_place(x, y, width, height, stride)
                    < self.pixels@.len() by {
                    let line = if y >= width {
                        height - 1
                    } else {
                        y
                    };
                    assert(line * stride <= (height - 1) * stride) by (nonlinear_arith)
                        requires
                            0 <= line <= height - 1,
                            stride >= 0,
                    ;
                    assert(0 <= line * stride) by (nonlinear_arith)
                        requires
                            0 <= line,
                            stride >= 0,
                    ;
                }
            } else {
                assert(clamped_place(width - 1, height - 1, width, height, stride) == last);
            }
        }
        r
    }

    /// Sets every pixel of every line to `color` (for a buffer that is
    /// taller than wide, the lines from the width on all count as the last
    /// line) and leaves what lies between the lines as it was.
    pub fn fill(&mut self, color: Color)
        requires
            old(self).wf(),
        ensures
            final(self).wf(),
            final(self).width == old(self).width,
            final(self).height == old(self).height,
            final(self).stride == old(self).stride,
            final(self).pixels@.len() == old(self).pixels@.len(),
            forall|i: int|
                0 <= i < final(self).pixels@.len() ==> #[trigger] final(self).pixels@[i]
                    == if in_lines(
                    i,
                    old(self).height as int,
                    old(self).width as int,
                    old(self).height as int,
                    old(self).stride as int,
                ) {
                    BgrPixel((color.0 * 0x1_0000 + color.1 * 0x100 + color.2) as u32)
                } else {
                    old(self).pixels@[i]
                },
    {
        let ghost width = self.width as int;
        let ghost height = self.height as int;
        let ghost stride = self.stride as int;
        let ghost paint = BgrPixel((color.0 * 0x1_0000 + color.1 * 0x100 + color.2) as u32);
        let mut y: usize = 0;
        while y < self.height
            invariant
                y <= self.height,
                self.wf(),
                self.width == width,
                self.height == height,
                self.stride == stride,
                self.pixels@.len() == old(self).pixels@.len(),
                paint == BgrPixel((color.0 * 0x1_0000 + color.1 * 0x100 + color.2) as u32),
                forall|i: int|
                    0 <= i < self.pixels@.len() ==> #[trigger] self.pixels@[i] == if in_lines(
                        i,
                        y as int,
                        width,
                        height,
                        stride,
                    ) {
                        paint
                    } else {
                        old(self).pixels@[i]
                    },
            decreases self.height - y,
        {
            let ghost line_start = self.pixels@;
            let mut x: usize = 0;
            while x < self.width
                invariant
                    x <= self.width,
                    y < self.height,
                    self.wf(),
                    self.width == width,
                    self.height == height,
                    self.stride == stride,
                    self.pixels@.len() == old(self).pixels@.len(),
                    line_start.len() == self.pixels@.len(),
                    paint == BgrPixel((color.0 * 0x1_0000 + color.1 * 0x100 + color.2) as u32),
                    forall|i: int|
                        0 <= i < self.pixels@.len() ==> #[trigger] self.pixels@[i] == if exists|
                            c: int,
                        |
                            0 <= c < x && i == #[trigger] clamped_place(
                                c,
                                y as int,
                                width,
                                height,
                                stride,
                            ) {
                            paint
                        } else {
                            line_start[i]
                        },
                decreases self.width - x,
            {
                let ghost before = self.pixels@;
                let ghost place = clamped_place(x as int, y as int, width, height, stride);
                self.set_pixel(x, y, color);
                proof {
                    assert forall|i: int| 0 <= i < self.pixels@.len() implies #[trigger] self.pixels@[i]
                        == if exists|c: int|
                        0 <= c < x + 1 && i == #[trigger] clamped_place(
                            c,
                            y as int,
                            width,
                            height,
                            stride,
                        ) {
                        paint
                    } else {
                        line_start[i]
                    } by {
                        if i == place {
                            assert(0 <= x < x + 1 && i == clamped_place(
                                x as int,
                                y as int,
                                width,
                                height,
                                stride,
                            ));
                        } else {
                            assert(self.pixels@[i] == before[i]);
                            if exists|c: int|
                                0 <= c < x + 1 && i == #[trigger] clamped_place(
                                    c,
                                    y as int,
                                    width,
                                    height,
                                    stride,
                                ) {
                                let c = choose|c: int|
                                    0 <= c < x + 1 && i == #[trigger] clamped_place(
                                        c,
                                        y as int,
                                        width,
                                        height,
                                        stride,
                                    );
                                assert(c != x);
                                assert(0 <= c < x && i == clamped_place(
                                    c,
                                    y as int,
                                    width,
                                    height,
                                    stride,
                                ));
                            }
                        }
                    }
                }
                x += 1;
            }
            proof {
                assert forall|i: int| 0 <= i < self.pixels@.len() implies #[trigger] self.pixels@[i]
                    == if in_lines(i, y + 1, width, height, stride) {
                    paint
                } else {
                    old(self).pixels@[i]
                } by {
                    let in_line = exists|c: int|
                        0 <= c < width && i == #[trigger] clamped_place(
                            c,
                            y as int,
                            width,
                            height,
                            stride,
                        );
                    if in_line {
                        let c = choose|c: int|
                            0 <= c < width && i == #[trigger] clamped_place(
                                c,
                                y as int,
                                width,
                                height,
                                stride,
                            );
                        assert(0 <= c < width && 0 <= y < y + 1 && i == clamped_place(
                            c,
                            y as int,
                            width,
                            height,
                            stride,
                        ));
                    } else if in_lines(i, y + 1, width, height, stride) {
                        let (c, l) = choose|c: int, l: int|
                            0 <= c < width && 0 <= l < y + 1 && i == #[trigger] clamped_place(
                                c,
                                l,
                                width,
                                height,
                                stride,
                            );
                        assert(l != y);
                        assert(0 <= c < width && 0 <= l < y && i == clamped_place(
                            c,
                            l,
                            width,
                            height,
                            stride,
                        ));
                    } else if in_lines(i, y as int, width, height, stride) {
                        let (c, l) = choose|c: int, l: int|
                            0 <= c < width && 0 <= l < y && i == #[trigger] clamped_place(
                                c,
                                l,
                                width,
                                height,
                                stride,
                            );
                        assert(0 <= c < width && 0 <= l < y + 1 && i == clamped_place(
                            c,
                            l,
                            width,
                            height,
                            stride,
                        ));
                    }
                }
            }
            y += 1;
        }
    }

    /// Sets the pixel in column `x` of line `y` to `color`. A column
    /// beyond the width is taken for the last column; a line number that
    /// is not below the width is taken for the last line.
    pub fn set_pixel(&mut self, x: usize, y: usize, color: Color)
        requires
            old(self).width >= 1,
            old(self).height >= 1,
            0 <= clamped_place(
                x as int,
                y as int,
                old(self).width as int,
                old(self).height as int,
                old(self).stride as int,
            ) < old(self).pixels@.len(),
        ensures
            final(self).width == old(self).width,
            final(self).height == old(self).height,
            final(self).stride == old(self).stride,
            final(self).pixels@ == old(self).pixels@.update(
                clamped_place(
                    x as int,
                    y as int,
                    old(self).width as int,
                    old(self).height as int,
                    old(self).stride as int,
                ),
                BgrPixel((color.0 * 0x1_0000 + color.1 * 0x100 + color.2) as u32),
            ),
    {
        let x = if x >= self.width {
            self.width - 1
        } else {
            x
        };
        let y = if y >= self.width {
            self.height - 1
        } else {
            y
        };
        let length = self.pixels.len();
        assert(y * self.stride <= y * self.stride + x);
        assert(y * self.stride + x < length);
        let pixel_index = y * self.stride + x;
        self.pixels[pixel_index] = BgrPixel::new(color);
    }

    pub fn get_resolution(&self) -> (r: (usize, usize))
        ensures
            r == (self.width, self.height),
    {
        (self.width, self.height)
    }
}

} // verus!
