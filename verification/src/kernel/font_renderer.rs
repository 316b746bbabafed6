//! Glyphs of a PC Screen Font drawn to the frame buffer.
use crate::kernel::errors::{Error, ErrorStatus};
use crate::kernel::graphics_renderer::{clamped_place, BgrPixel, Color, FrameBuffer};
use vstd::prelude::*;

verus! {

/// Where the glyphs start in the font file: behind the header of four
/// bytes.
pub const GLYPH_START_OFFSET: usize = 4;

/// The font file starts with the bytes 36 04.
pub fn is_valid_font_header(font_data: &[u8]) -> (r: bool)
    requires
        font_data@.len() >= 2,
    ensures
        r == (font_data@[0] == 0x36 && font_data@[1] == 0x04),
{
    (font_data[0] == 0x36) && (font_data[1] == 0x04)
}

/// The pixel that stands for `color`.
pub open spec fn pixel_of(color: Color) -> BgrPixel {
    BgrPixel((color.0 * 0x1_0000 + color.1 * 0x100 + color.2) as u32)
}

/// What a glyph is drawn with and where: the row bytes of the glyph, the
/// two colours, the scale, the top left corner and the shape of the frame
/// buffer.
pub struct GlyphDrawing {
    pub rows: Seq<u8>,
    pub foreground: Color,
    pub background: Color,
    pub scale: int,
    pub x: int,
    pub y: int,
    pub width: int,
    pub height: int,
    pub stride: int,
}

impl GlyphDrawing {
    /// The colour of column `col` of row `row` of the glyph: the foreground
    /// where the bit of the row byte is set, counted from the most
    /// significant, else the background.
    pub open spec fn color_at(self, row: int, col: int) -> Color {
        if bit_set(self.rows[row], col) {
            self.foreground
        } else {
            self.background
        }
    }

    /// Where the pixel `px` across and `py` down in the square of column
    /// `col` of row `row` goes in the pixel buffer.
    pub open spec fn place(self, row: int, col: int, py: int, px: int) -> int {
        clamped_place(
            self.x + col * self.scale + px,
            self.y + row * self.scale + py,
            self.width,
            self.height,
            self.stride,
        )
    }

    /// The pixels after the first `count` pixels of line `py` of a square
    /// are drawn.
    pub open spec fn line_drawn(self, pixels: Seq<BgrPixel>, row: int, col: int, py: int, count: int)
        -> Seq<BgrPixel>
        decreases count,
    {
        if count <= 0 {
            pixels
        } else {
            self.line_drawn(pixels, row, col, py, count - 1).update(
                self.place(row, col, py, count - 1),
                pixel_of(self.color_at(row, col)),
            )
        }
    }

    /// The pixels after the first `count` lines of a square are drawn.
    pub open spec fn square_drawn(self, pixels: Seq<BgrPixel>, row: int, col: int, count: int)
        -> Seq<BgrPixel>
        decreases count,
    {
        if count <= 0 {
            pixels
        } else {
            self.line_drawn(
                self.square_drawn(pixels, row, col, count - 1),
                row,
                col,
                count - 1,
                self.scale,
            )
        }
    }

    /// The pixels after the squares of the first `count` columns of a row
    /// are drawn.
    pub open spec fn row_drawn(self, pixels: Seq<BgrPixel>, row: int, count: int) -> Seq<BgrPixel>
        decreases count,
    {
        if count <= 0 {
            pixels
        } else {
            self.square_drawn(
                self.row_drawn(pixels, row, count - 1),
                row,
                count - 1,
                self.scale,
            )
        }
    }

    /// The pixels after the first `count` rows of the glyph are drawn.
    pub open spec fn glyph_drawn(self, pixels: Seq<BgrPixel>, count: int) -> Seq<BgrPixel>
        decreases count,
    {
        if count <= 0 {
            pixels
        } else {
            self.row_drawn(self.glyph_drawn(pixels, count - 1), count - 1, 8)
        }
    }

    /// Every pixel of the glyph has its place in a pixel buffer of
    /// `length` pixels.
    pub open spec fn fits(self, length: int) -> bool {
        forall|row: int, col: int, py: int, px: int|
            0 <= row < self.rows.len() && 0 <= col < 8 && 0 <= py < self.scale && 0 <= px
                < self.scale ==> 0 <= #[trigger] self.place(row, col, py, px) < length
    }
}

/// Two to the power of `exponent`, for exponents up to 7.
pub open spec fn pow2_of(exponent: nat) -> int {
    if exponent == 0 {
        1
    } else if exponent == 1 {
        2
    } else if exponent == 2 {
        4
    } else if exponent == 3 {
        8
    } else if exponent == 4 {
        16
    } else if exponent == 5 {
        32
    } else if exponent == 6 {
        64
    } else {
        128
    }
}

/// Bit `col` of `byte`, counted from the most significant, is set.
pub open spec fn bit_set(byte: u8, col: int) -> bool {
    (byte as int) / pow2_of((7 - col) as nat) % 2 == 1
}

proof fn lemma_glyph_bit(byte: u8, shift: u8)
    requires
        shift < 8,
    ensures
        (byte & (1u8 << shift) != 0) == bit_set(byte, 7 - shift),
{
    assert((byte & (1u8 << shift) != 0) == ((byte >> shift) & 1 == 1)) by (bit_vector)
        requires
            shift < 8,
    ;
    assert((byte >> 0u8) & 1 == byte / 1 % 2 && (byte >> 1u8) & 1 == byte / 2 % 2 && (byte >> 2u8)
        & 1 == byte / 4 % 2 && (byte >> 3u8) & 1 == byte / 8 % 2 && (byte >> 4u8) & 1 == byte / 16
        % 2 && (byte >> 5u8) & 1 == byte / 32 % 2 && (byte >> 6u8) & 1 == byte / 64 % 2 && (byte
        >> 7u8) & 1 == byte / 128 % 2) by (bit_vector);
}

/// Draws the glyphs of a font to a frame buffer, each pixel of a glyph as
/// a square of `scale` by `scale` pixels.
#[derive(Debug)]
pub struct FontRenderer {
    font_data: Vec<u8>,
    glyph_height: usize,
    foreground_color: Color,
    background_color: Color,
    scale: usize,
    frame_buffer: FrameBuffer,
}

impl FontRenderer {
    /// The bytes of the font file.
    pub closed spec fn font(&self) -> Seq<u8> {
        self.font_data@
    }

    /// The number of rows of a glyph.
    pub closed spec fn rows(&self) -> nat {
        self.glyph_height as nat
    }

    /// The side of the square that stands for one pixel of a glyph.
    pub closed spec fn scaling(&self) -> nat {
        self.scale as nat
    }

    /// The colour of the pixels of a glyph that are set.
    pub closed spec fn foreground(&self) -> Color {
        self.foreground_color
    }

    /// The colour of the pixels of a glyph that are not set.
    pub closed spec fn background(&self) -> Color {
        self.background_color
    }

    /// The frame buffer that the glyphs are drawn to.
    pub closed spec fn buffer(&self) -> FrameBuffer {
        self.frame_buffer
    }

    /// The drawing of glyph `glyph` with its top left corner at column `x`
    /// of line `y`.
    pub open spec fn drawing(&self, glyph: u8, x: int, y: int) -> GlyphDrawing {
        GlyphDrawing {
            rows: self.font().subrange(glyph * self.rows() + 4, glyph * self.rows() + 4 + self.rows()),
            foreground: self.foreground(),
            background: self.background(),
            scale: self.scaling() as int,
            x,
            y,
            width: self.buffer().width as int,
            height: self.buffer().height as int,
            stride: self.buffer().stride as int,
        }
    }

    /// A renderer for the font in `font_data` that draws to `frame_buffer`
    /// in green on black at twice the size. Fails where the file is
    /// shorter than its header or does not start with the bytes 36 04.
    pub fn create(font_data: Vec<u8>, frame_buffer: FrameBuffer) -> (r: Result<FontRenderer, Error>)
        ensures
            match r {
                Ok(renderer) => {
                    &&& font_data@.len() >= 4
                    &&& font_data@[0] == 0x36
                    &&& font_data@[1] == 0x04
                    &&& renderer.font() == font_data@
                    &&& renderer.rows() == font_data@[3]
                    &&& renderer.scaling() == 2
                    &&& renderer.foreground() == Color(0, 0xB0, 0)
                    &&& renderer.background() == Color(0, 0, 0)
                    &&& renderer.buffer() == frame_buffer
                },
                Err(e) => {
                    &&& e.kind() == ErrorStatus::InvalidFileFormat
                    &&& font_data@.len() < 4 || font_data@[0] != 0x36 || font_data@[1] != 0x04
                },
            },
    {
        if font_data.len() < GLYPH_START_OFFSET || !is_valid_font_header(font_data.as_slice()) {
            return Err(Error::new(ErrorStatus::InvalidFileFormat));
        }
        let glyph_height = font_data[3] as usize;
        Ok(
            FontRenderer {
                font_data,
                glyph_height,
                foreground_color: Color::new(0x00B000),
                background_color: Color::new(0x000000),
                scale: 2,
                frame_buffer,
            },
        )
    }

    pub fn get_graphics_renderer(&self) -> (r: &FrameBuffer)
        ensures
            *r == self.buffer(),
    {
        &self.frame_buffer
    }

    /// Draws glyph `glyph` with its top left corner at column `x` of line
    /// `y`: row after row, column after column, each pixel of the glyph as
    /// a square in the colour that its bit selects.
    pub fn draw_glyph(&mut self, glyph: u8, x: usize, y: usize)
        requires
            old(self).buffer().width >= 1,
            old(self).buffer().height >= 1,
            glyph * old(self).rows() + 4 + old(self).rows() <= old(self).font().len(),
            x + 8 * old(self).scaling() <= usize::MAX,
            y + old(self).rows() * old(self).scaling() <= usize::MAX,
            old(self).drawing(glyph, x as int, y as int).fits(
                old(self).buffer().pixels@.len() as int,
            ),
        ensures
            final(self).font() == old(self).font(),
            final(self).rows() == old(self).rows(),
            final(self).scaling() == old(self).scaling(),
            final(self).foreground() == old(self).foreground(),
            final(self).background() == old(self).background(),
            final(self).buffer().width == old(self).buffer().width,
            final(self).buffer().height == old(self).buffer().height,
            final(self).buffer().stride == old(self).buffer().stride,
            final(self).buffer().pixels@.len() == old(self).buffer().pixels@.len(),
            final(self).buffer().pixels@ == old(self).drawing(glyph, x as int, y as int).glyph_drawn(
                old(self).buffer().pixels@,
                old(self).rows() as int,
            ),
    {
        let ghost d = self.drawing(glyph, x as int, y as int);
        let ghost given = self.frame_buffer.pixels@;
        let available = self.font_data.len();
        assert(glyph * self.glyph_height + 4 + self.glyph_height <= available);
        let glyph_start = (glyph as usize) * self.glyph_height + GLYPH_START_OFFSET;
        let mut row: usize = 0;
        while row < self.glyph_height
            invariant
                row <= self.glyph_height,
                d == old(self).drawing(glyph, x as int, y as int),
                d.fits(self.frame_buffer.pixels@.len() as int),
                d.rows.len() == self.glyph_height,
                glyph_start + self.glyph_height <= self.font_data@.len(),
                self.font_data@.len() <= usize::MAX,
                glyph_start == glyph * self.glyph_height + 4,
                x + 8 * self.scale <= usize::MAX,
                y + self.glyph_height * self.scale <= usize::MAX,
                self.font_data == old(self).font_data,
                self.glyph_height == old(self).glyph_height,
                self.scale == old(self).scale,
                self.foreground_color == old(self).foreground_color,
                self.background_color == old(self).background_color,
                self.frame_buffer.width == old(self).frame_buffer.width,
                self.frame_buffer.height == old(self).frame_buffer.height,
                self.frame_buffer.stride == old(self).frame_buffer.stride,
                self.frame_buffer.width >= 1,
                self.frame_buffer.height >= 1,
                self.frame_buffer.pixels@.len() == given.len(),
                given == old(self).frame_buffer.pixels@,
                self.frame_buffer.pixels@ == d.glyph_drawn(given, row as int),
            decreases self.glyph_height - row,
        {
            let byte = self.font_data[glyph_start + row];
            let ghost row_start = self.frame_buffer.pixels@;
            assert(byte == d.rows[row as int]);
            let mut col: usize = 0;
            while col < 8
                invariant
                    col <= 8,
                    row < self.glyph_height,
                    byte == d.rows[row as int],
                    d == old(self).drawing(glyph, x as int, y as int),
                    d.fits(self.frame_buffer.pixels@.len() as int),
                    d.rows.len() == self.glyph_height,
                    x + 8 * self.scale <= usize::MAX,
                    y + self.glyph_height * self.scale <= usize::MAX,
                    self.font_data == old(self).font_data,
                    self.glyph_height == old(self).glyph_height,
                    self.scale == old(self).scale,
                    self.foreground_color == old(self).foreground_color,
                    self.background_color == old(self).background_color,
                    self.frame_buffer.width == old(self).frame_buffer.width,
                    self.frame_buffer.height == old(self).frame_buffer.height,
                    self.frame_buffer.stride == old(self).frame_buffer.stride,
                    self.frame_buffer.width >= 1,
                    self.frame_buffer.height >= 1,
                    self.frame_buffer.pixels@.len() == given.len(),
                    self.frame_buffer.pixels@ == d.row_drawn(row_start, row as int, col as int),
                decreases 8 - col,
            {
                proof {
                    lemma_glyph_bit(byte, (7 - col) as u8);
                }
                let fill_pixel = byte & (1u8 << ((7 - col) as u8)) != 0;
                let color = if fill_pixel {
                    self.foreground_color
                } else {
                    self.background_color
                };
                assert(color == d.color_at(row as int, col as int));
                let ghost square_start = self.frame_buffer.pixels@;
                assert(col * self.scale <= 7 * self.scale) by (nonlinear_arith)
                    requires
                        col <= 7,
                        self.scale >= 0,
                ;
                assert(row * self.scale + self.scale <= self.glyph_height * self.scale)
                    by (nonlinear_arith)
                    requires
                        row < self.glyph_height,
                        self.scale >= 0,
                ;
                let mut py: usize = 0;
                while py < self.scale
                    invariant
                        py <= self.scale,
                        col < 8,
                        row < self.glyph_height,
                        color == d.color_at(row as int, col as int),
                        d == old(self).drawing(glyph, x as int, y as int),
                        d.fits(self.frame_buffer.pixels@.len() as int),
                        d.rows.len() == self.glyph_height,
                        x + 8 * self.scale <= usize::MAX,
                        y + self.glyph_height * self.scale <= usize::MAX,
                        col * self.scale <= 7 * self.scale,
                        row * self.scale + self.scale <= self.glyph_height * self.scale,
                        self.font_data == old(self).font_data,
                        self.glyph_height == old(self).glyph_height,
                        self.scale == old(self).scale,
                        self.foreground_color == old(self).foreground_color,
                        self.background_color == old(self).background_color,
                        self.frame_buffer.width == old(self).frame_buffer.width,
                        self.frame_buffer.height == old(self).frame_buffer.height,
                        self.frame_buffer.stride == old(self).frame_buffer.stride,
                        self.frame_buffer.width >= 1,
                        self.frame_buffer.height >= 1,
                        self.frame_buffer.pixels@.len() == given.len(),
                        self.frame_buffer.pixels@ == d.square_drawn(
                            square_start,
                            row as int,
                            col as int,
                            py as int,
                        ),
                    decreases self.scale - py,
                {
                    let ghost line_start = self.frame_buffer.pixels@;
                    let mut px: usize = 0;
                    while px < self.scale
                        invariant
                            px <= self.scale,
                            py < self.scale,
                            col < 8,
                            row < self.glyph_height,
                            color == d.color_at(row as int, col as int),
                            d == old(self).drawing(glyph, x as int, y as int),
                            d.fits(self.frame_buffer.pixels@.len() as int),
                            d.rows.len() == self.glyph_height,
                            x + 8 * self.scale <= usize::MAX,
                            y + self.glyph_height * self.scale <= usize::MAX,
                            col * self.scale <= 7 * self.scale,
                            row * self.scale + self.scale <= self.glyph_height * self.scale,
                            self.font_data == old(self).font_data,
                            self.glyph_height == old(self).glyph_height,
                            self.scale == old(self).scale,
                            self.foreground_color == old(self).foreground_color,
                            self.background_color == old(self).background_color,
                            self.frame_buffer.width == old(self).frame_buffer.width,
                            self.frame_buffer.height == old(self).frame_buffer.height,
                            self.frame_buffer.stride == old(self).frame_buffer.stride,
                            self.frame_buffer.width >= 1,
                            self.frame_buffer.height >= 1,
                            self.frame_buffer.pixels@.len() == given.len(),
                            self.frame_buffer.pixels@ == d.line_drawn(
                                line_start,
                                row as int,
                                col as int,
                                py as int,
                                px as int,
                            ),
                        decreases self.scale - px,
                    {
                        assert(0 <= d.place(row as int, col as int, py as int, px as int)
                            < self.frame_buffer.pixels@.len());
                        self.frame_buffer.set_pixel(
                            x + col * self.scale + px,
                            y + row * self.scale + py,
                            color,
                        );
                        px += 1;
                    }
                    py += 1;
                }
                col += 1;
            }
            row += 1;
        }
    }

    /// The number of bytes of the font file.
    pub fn font_size(&self) -> (r: usize)
        ensures
            r == self.font().len(),
    {
        self.font_data.len()
    }

    /// The number of rows of a glyph.
    pub fn glyph_rows(&self) -> (r: usize)
        ensures
            r == self.rows(),
    {
        self.glyph_height
    }

    /// The side of the square that stands for one pixel of a glyph.
    pub fn get_scale(&self) -> (r: usize)
        ensures
            r == self.scaling(),
    {
        self.scale
    }

    /// The width of a glyph on the screen.
    pub fn get_glyph_width(&self) -> (r: usize)
        requires
            8 * self.scaling() <= usize::MAX,
        ensures
            r == 8 * self.scaling(),
    {
        8 * self.scale
    }

    /// The height of a glyph on the screen.
    pub fn get_glyph_height(&self) -> (r: usize)
        requires
            self.rows() * self.scaling() <= usize::MAX,
        ensures
            r == self.rows() * self.scaling(),
    {
        self.glyph_height * self.scale
    }

    pub fn set_colors(&mut self, foreground: Color, background: Color)
        ensures
            final(self).foreground() == foreground,
            final(self).background() == background,
            final(self).font() == old(self).font(),
            final(self).rows() == old(self).rows(),
            final(self).scaling() == old(self).scaling(),
            final(self).buffer() == old(self).buffer(),
    {
        self.foreground_color = foreground;
        self.background_color = background;
    }
}

} // verus!
