//! The frame buffer that the firmware hands over, as the bootloader
//! records it.
use crate::memory::address::{lemma_physical_frame, PhysicalAddress};
use vstd::prelude::*;

verus! {

/// A frame buffer of 32-bit pixels: `height` lines of `width` pixels, each
/// line `pixels_per_scan_line` pixels apart.
#[derive(Debug)]
pub struct FrameBuffer {
    pub base_address: PhysicalAddress,
    pub buffer_size: usize,
    pub width: u32,
    pub height: u32,
    pub pixels_per_scan_line: u32,
}

#[derive(Debug, PartialEq, Eq, Structural, Clone, Copy)]
pub enum FrameBufferError {
    SizeTooSmall { required: usize, available: usize },
}

/// The place of the pixel in column `x` of line `y` in a buffer whose lines
/// are `stride` pixels apart.
pub open spec fn pixel_index(x: int, y: int, stride: int) -> int {
    y * stride + x
}

/// Pixel `index` of the buffer lies in one of the first `columns` columns
/// of one of the first `lines` lines.
pub open spec fn in_columns(index: int, columns: int, lines: int, stride: int) -> bool {
    exists|x: int, y: int|
        0 <= x < columns && 0 <= y < lines && index == #[trigger] pixel_index(x, y, stride)
}

impl FrameBuffer {
    /// The buffer holds every pixel of every line.
    pub open spec fn fits(&self, length: int) -> bool {
        &&& self.height * self.pixels_per_scan_line + self.width <= u32::MAX
        &&& forall|x: int, y: int|
            0 <= x < self.width && 0 <= y < self.height ==> 0 <= #[trigger] pixel_index(
                x,
                y,
                self.pixels_per_scan_line as int,
            ) < length
    }

    /// A frame buffer of `buffer_size` bytes at `base_address`. Fails where
    /// that is less than four bytes for each pixel of each line.
    pub fn new(
        base_address: PhysicalAddress,
        buffer_size: usize,
        width: u32,
        height: u32,
        pixels_per_scan_line: u32,
    ) -> (r: Result<FrameBuffer, FrameBufferError>)
        requires
            pixels_per_scan_line * height * 4 <= usize::MAX,
        ensures
            match r {
                Ok(buffer) => {
                    &&& buffer_size >= pixels_per_scan_line * height * 4
                    &&& buffer.base_address == base_address
                    &&& buffer.buffer_size == buffer_size
                    &&& buffer.width == width
                    &&& buffer.height == height
                    &&& buffer.pixels_per_scan_line == pixels_per_scan_line
                },
                Err(e) => {
                    &&& buffer_size < pixels_per_scan_line * height * 4
                    &&& e == (FrameBufferError::SizeTooSmall {
                        required: (pixels_per_scan_line * height * 4) as usize,
                        available: buffer_size,
                    })
                },
            },
    {
        assert(pixels_per_scan_line * height <= pixels_per_scan_line * height * 4)
            by (nonlinear_arith)
            requires
                pixels_per_scan_line >= 0,
                height >= 0,
        ;
        let required_size = pixels_per_scan_line as usize * height as usize * 4;
        if buffer_size < required_size {
            return Err(
                FrameBufferError::SizeTooSmall { required: required_size, available: buffer_size },
            );
        }
        Ok(FrameBuffer { base_address, buffer_size, width, height, pixels_per_scan_line })
    }

    /// Whether a pixel buffer of `length` pixels holds every pixel of every
    /// line.
    pub fn can_fill(&self, length: usize) -> (r: bool)
        ensures
            r == self.fits(length as int),
    {
        let width = self.width as u64;
        let height = self.height as u64;
        let stride = self.pixels_per_scan_line as u64;
        assert(height * stride <= 0xFFFF_FFFF * 0xFFFF_FFFF) by (nonlinear_arith)
            requires
                height <= 0xFFFF_FFFF,
                stride <= 0xFFFF_FFFF,
        ;
        if height * stride + width > u32::MAX as u64 {
            return false;
        }
        if width == 0 || height == 0 {
            return true;
        }
        assert((height - 1) * stride <= height * stride) by (nonlinear_arith)
            requires
                height >= 1,
                stride >= 0,
        ;
        let last: u64 = (height - 1) * stride + (width - 1);
        let r = last < length as u64;
        proof {
            if r {
                assert forall|x: int, y: int| 0 <= x < self.width && 0 <= y < self.height implies 0
                    <= #[trigger] pixel_index(x, y, self.pixels_per_scan_line as int)
                    < length by {
                    assert(y * stride <= (height - 1) * stride) by (nonlinear_arith)
                        requires
                            0 <= y <= height - 1,
                            stride >= 0,
                    ;
                    assert(0 <= y * stride) by (nonlinear_arith)
                        requires
                            0 <= y,
                            stride >= 0,
                    ;
                }
            } else {
                assert(pixel_index(width - 1, height - 1, self.pixels_per_scan_line as int)
                    == last);
            }
        }
        r
    }

    /// Sets every pixel of every line of `pixels` to `color` and leaves
    /// what lies between the lines as it was.
    pub fn fill(&self, pixels: &mut [u32], color: u32)
        requires
            self.fits(old(pixels)@.len() as int),
        ensures
            final(pixels)@.len() == old(pixels)@.len(),
            forall|i: int|
                0 <= i < final(pixels)@.len() ==> #[trigger] final(pixels)@[i] == if in_columns(
                    i,
                    self.width as int,
                    self.height as int,
                    self.pixels_per_scan_line as int,
                ) {
                    color
                } else {
                    old(pixels)@[i]
                },
    {
        let ghost stride = self.pixels_per_scan_line as int;
        let ghost lines = self.height as int;
        let mut x_pos: u32 = 0;
        while x_pos < self.width
            invariant
                x_pos <= self.width,
                stride == self.pixels_per_scan_line,
                lines == self.height,
                pixels@.len() == old(pixels)@.len(),
                self.fits(pixels@.len() as int),
                forall|i: int|
                    0 <= i < pixels@.len() ==> #[trigger] pixels@[i] == if in_columns(
                        i,
                        x_pos as int,
                        lines,
                        stride,
                    ) {
                        color
                    } else {
                        old(pixels)@[i]
                    },
            decreases self.width - x_pos,
        {
            let ghost column_start = pixels@;
            let mut y_pos: u32 = 0;
            while y_pos < self.height
                invariant
                    x_pos < self.width,
                    y_pos <= self.height,
                    stride == self.pixels_per_scan_line,
                    lines == self.height,
                    pixels@.len() == old(pixels)@.len(),
                    column_start.len() == pixels@.len(),
                    self.fits(pixels@.len() as int),
                    forall|i: int|
                        0 <= i < pixels@.len() ==> #[trigger] pixels@[i] == if exists|y: int|
                            0 <= y < y_pos && i == #[trigger] pixel_index(x_pos as int, y, stride) {
                            color
                        } else {
                            column_start[i]
                        },
                decreases self.height - y_pos,
            {
                let ghost before = pixels@;
                assert(y_pos * self.pixels_per_scan_line <= self.height * self.pixels_per_scan_line)
                    by (nonlinear_arith)
                    requires
                        y_pos <= self.height,
                        self.pixels_per_scan_line >= 0,
                ;
                let place: u32 = y_pos * self.pixels_per_scan_line + x_pos;
                assert(place == pixel_index(x_pos as int, y_pos as int, stride));
                pixels[place as usize] = color;
                proof {
                    assert forall|i: int| 0 <= i < pixels@.len() implies #[trigger] pixels@[i]
                        == if exists|y: int|
                        0 <= y < y_pos + 1 && i == #[trigger] pixel_index(x_pos as int, y, stride) {
                        color
                    } else {
                        column_start[i]
                    } by {
                        if i == place {
                            assert(0 <= y_pos < y_pos + 1 && i == pixel_index(
                                x_pos as int,
                                y_pos as int,
                                stride,
                            ));
                        } else {
                            assert(pixels@[i] == before[i]);
                            if exists|y: int|
                                0 <= y < y_pos + 1 && i == #[trigger] pixel_index(
                                    x_pos as int,
                                    y,
                                    stride,
                                ) {
                                let y = choose|y: int|
                                    0 <= y < y_pos + 1 && i == #[trigger] pixel_index(
                                        x_pos as int,
                                        y,
                                        stride,
                                    );
                                assert(y != y_pos);
                                assert(0 <= y < y_pos && i == pixel_index(x_pos as int, y, stride));
                            }
                        }
                    }
                }
                y_pos += 1;
            }
            proof {
                assert forall|i: int| 0 <= i < pixels@.len() implies #[trigger] pixels@[i]
                    == if in_columns(i, x_pos + 1, lines, stride) {
                    color
                } else {
                    old(pixels)@[i]
                } by {
                    let in_column = exists|y: int|
                        0 <= y < lines && i == #[trigger] pixel_index(x_pos as int, y, stride);
                    if in_column {
                        let y = choose|y: int|
                            0 <= y < lines && i == #[trigger] pixel_index(x_pos as int, y, stride);
                        assert(0 <= x_pos < x_pos + 1 && 0 <= y < lines && i == pixel_index(
                            x_pos as int,
                            y,
                            stride,
                        ));
                    } else if in_columns(i, x_pos + 1, lines, stride) {
                        let (x, y) = choose|x: int, y: int|
                            0 <= x < x_pos + 1 && 0 <= y < lines && i == #[trigger] pixel_index(
                                x,
                                y,
                                stride,
                            );
                        assert(x != x_pos);
                        assert(0 <= x < x_pos && 0 <= y < lines && i == pixel_index(x, y, stride));
                    } else if in_columns(i, x_pos as int, lines, stride) {
                        let (x, y) = choose|x: int, y: int|
                            0 <= x < x_pos && 0 <= y < lines && i == #[trigger] pixel_index(
                                x,
                                y,
                                stride,
                            );
                        assert(0 <= x < x_pos + 1 && 0 <= y < lines && i == pixel_index(
                            x,
                            y,
                            stride,
                        ));
                    }
                }
            }
            x_pos += 1;
        }
    }
}

impl Default for FrameBuffer {
    /// A frame buffer of no pixels.
    fn default() -> (r: Self)
        ensures
            r.base_address.value() == 0,
            r.buffer_size == 0,
            r.width == 0,
            r.height == 0,
            r.pixels_per_scan_line == 0,
    {
        proof {
            lemma_physical_frame(0);
        }
        FrameBuffer {
            base_address: PhysicalAddress::new(0),
            buffer_size: 0,
            width: 0,
            height: 0,
            pixels_per_scan_line: 0,
        }
    }
}

} // verus!
