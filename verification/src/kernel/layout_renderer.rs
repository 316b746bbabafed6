//! Text laid out in cells on the frame buffer.
use crate::kernel::font_renderer::{FontRenderer, GlyphDrawing};
use crate::kernel::graphics_renderer::{clamped_place, BgrPixel, Color};
use vstd::prelude::*;
use vstd::string::StringSliceAdditionalSpecFns;

verus! {

/// Where the next character goes, and what the screen shows.
pub struct LayoutState {
    pub x: int,
    pub y: int,
    pub pixels: Seq<BgrPixel>,
}

/// Lays characters out in cells of one glyph each, left to right and top
/// to bottom, and starts again at the top when the screen is full.
#[derive(Debug)]
pub struct LayoutRenderer {
    font_renderer: FontRenderer,
    cols: usize,
    rows: usize,
    cell_width: usize,
    cell_height: usize,
    x: usize,
    y: usize,
}

/// The byte that is printed for `byte`: the byte itself where it is
/// printable ASCII, a line feed or a carriage return, else the glyph 4.
pub open spec fn printable(byte: u8) -> u8 {
    if (0x20 <= byte <= 0x7e) || byte == 0x0A || byte == 0x0D {
        byte
    } else {
        0x04
    }
}

impl LayoutRenderer {
    /// The renderer that draws the glyphs.
    pub closed spec fn font_renderer(&self) -> FontRenderer {
        self.font_renderer
    }

    /// The number of cells in a line.
    pub closed spec fn columns(&self) -> int {
        self.cols as int
    }

    /// The number of lines of cells.
    pub closed spec fn lines(&self) -> int {
        self.rows as int
    }

    /// The width of a cell in pixels.
    pub closed spec fn cell_w(&self) -> int {
        self.cell_width as int
    }

    /// The height of a cell in pixels.
    pub closed spec fn cell_h(&self) -> int {
        self.cell_height as int
    }

    /// The cursor and the pixels of the screen.
    pub closed spec fn state(&self) -> LayoutState {
        LayoutState {
            x: self.x as int,
            y: self.y as int,
            pixels: self.font_renderer.buffer().pixels@,
        }
    }

    /// The drawing of glyph `glyph` in the cell in column `x` of line `y`.
    pub open spec fn cell_drawing(&self, glyph: u8, x: int, y: int) -> GlyphDrawing {
        self.font_renderer().drawing(glyph, x * self.cell_w(), y * self.cell_h())
    }

    /// The state after the cursor moves to the start of the next line, or
    /// of the first line where there is no next.
    pub open spec fn after_newline(&self, s: LayoutState) -> LayoutState {
        LayoutState {
            x: 0,
            y: if s.y + 1 >= self.lines() {
                0
            } else {
                s.y + 1
            },
            pixels: s.pixels,
        }
    }

    /// The state after `byte` is printed: a line feed moves the cursor to
    /// the next line, a carriage return to the start of the line; any other
    /// byte is drawn as a glyph in the cursor's cell, on the next line
    /// where the line is full, and moves the cursor one cell on.
    pub open spec fn after_char(&self, s: LayoutState, byte: u8) -> LayoutState {
        if byte == 0x0A {
            self.after_newline(s)
        } else if byte == 0x0D {
            LayoutState { x: 0, y: s.y, pixels: s.pixels }
        } else {
            let at = if s.x >= self.columns() {
                self.after_newline(s)
            } else {
                s
            };
            LayoutState {
                x: at.x + 1,
                y: at.y,
                pixels: self.cell_drawing(byte, at.x, at.y).glyph_drawn(
                    at.pixels,
                    self.font_renderer().rows() as int,
                ),
            }
        }
    }

    /// The state after the first `count` bytes of `bytes` are printed, each
    /// as the byte that is printed for it.
    pub open spec fn after_bytes(&self, s: LayoutState, bytes: Seq<u8>, count: int) -> LayoutState
        decreases count,
    {
        if count <= 0 {
            s
        } else {
            self.after_char(self.after_bytes(s, bytes, count - 1), printable(bytes[count - 1]))
        }
    }

    /// The cursor lies on the screen, the font has all 256 glyphs, and a
    /// glyph can be drawn in every cell.
    pub open spec fn wf(&self) -> bool {
        &&& self.font_renderer().buffer().width >= 1
        &&& self.font_renderer().buffer().height >= 1
        &&& 256 * self.font_renderer().rows() + 4 <= self.font_renderer().font().len()
        &&& self.cell_w() == 8 * self.font_renderer().scaling()
        &&& self.cell_h() == self.font_renderer().rows() * self.font_renderer().scaling()
        &&& 0 <= self.state().x
        &&& (self.state().x <= self.columns() || self.state().x <= 1)
        &&& 0 <= self.state().y
        &&& (self.state().y < self.lines() || self.state().y == 0)
        &&& (self.columns() + 2) * self.cell_w() <= usize::MAX
        &&& (self.lines() + 2) * self.cell_h() <= usize::MAX
        &&& forall|glyph: u8, x: int, y: int|
            0 <= x && (x < self.columns() || x == 0) && 0 <= y && (y < self.lines() || y == 0) ==> (
            #[trigger] self.cell_drawing(glyph, x, y)).fits(
                self.font_renderer().buffer().pixels@.len() as int,
            )
    }

    /// What `can_print` tests: the frame buffer is well formed; scale and
    /// glyph rows lie between 1 and 256, columns and lines between 1 and
    /// 4096; a cell is as large as a scaled glyph; the font has all 256
    /// glyphs; the cursor lies on the screen; and the cells lie on the
    /// screen and above the line whose number is the width.
    pub open spec fn within_limits(&self) -> bool {
        &&& self.font_renderer().buffer().wf()
        &&& 1 <= self.font_renderer().scaling() <= 0x100
        &&& 1 <= self.font_renderer().rows() <= 0x100
        &&& 1 <= self.columns() <= 0x1000
        &&& 1 <= self.lines() <= 0x1000
        &&& self.cell_w() == 8 * self.font_renderer().scaling()
        &&& self.cell_h() == self.font_renderer().rows() * self.font_renderer().scaling()
        &&& 256 * self.font_renderer().rows() + 4 <= self.font_renderer().font().len()
        &&& self.state().x <= self.columns()
        &&& self.state().y < self.lines()
        &&& self.columns() * self.cell_w() <= self.font_renderer().buffer().width
        &&& self.lines() * self.cell_h() <= self.font_renderer().buffer().height
        &&& self.lines() * self.cell_h() <= self.font_renderer().buffer().width
    }

    /// Whether the layout is within the limits of `within_limits`, which
    /// suffice for it to be well formed.
    pub fn can_print(&self) -> (r: bool)
        ensures
            r == self.within_limits(),
            r ==> self.wf(),
    {
        let buffer = self.font_renderer.get_graphics_renderer();
        if !buffer.is_well_formed() {
            return false;
        }
        let scale = self.font_renderer.get_scale();
        let glyph_rows = self.font_renderer.glyph_rows();
        if scale < 1 || scale > 0x100 || glyph_rows < 1 || glyph_rows > 0x100 {
            return false;
        }
        if self.cols < 1 || self.rows < 1 || self.cols > 0x1000 || self.rows > 0x1000 {
            return false;
        }
        assert(glyph_rows * scale <= 0x100 * 0x100) by (nonlinear_arith)
            requires
                glyph_rows <= 0x100,
                scale <= 0x100,
        ;
        if self.cell_width != 8 * scale || self.cell_height != glyph_rows * scale {
            return false;
        }
        if self.font_renderer.font_size() < 256 * glyph_rows + 4 {
            return false;
        }
        if self.x > self.cols || self.y >= self.rows {
            return false;
        }
        assert(self.cols * self.cell_width <= 0x1000 * 0x800 && self.rows * self.cell_height
            <= 0x1000 * 0x1_0000 && (self.cols + 2) * self.cell_width <= 0x1002 * 0x800 && (
        self.rows + 2) * self.cell_height <= 0x1002 * 0x1_0000) by (nonlinear_arith)
            requires
                self.cols <= 0x1000,
                self.rows <= 0x1000,
                self.cell_width <= 0x800,
                self.cell_height <= 0x1_0000,
        ;
        let across = self.cols * self.cell_width;
        let down = self.rows * self.cell_height;
        if across > buffer.width || down > buffer.height || down > buffer.width {
            return false;
        }
        proof {
            let length = self.font_renderer().buffer().pixels@.len() as int;
            let width = buffer.width as int;
            let height = buffer.height as int;
            let stride = buffer.stride as int;
            assert forall|glyph: u8, x: int, y: int|
                0 <= x && (x < self.columns() || x == 0) && 0 <= y && (y < self.lines() || y
                    == 0) implies (#[trigger] self.cell_drawing(glyph, x, y)).fits(length) by {
                let d = self.cell_drawing(glyph, x, y);
                assert(glyph * self.font_renderer().rows() <= 255 * self.font_renderer().rows())
                    by (nonlinear_arith)
                    requires
                        glyph <= 255,
                        self.font_renderer().rows() >= 0,
                ;
                assert(d.rows.len() == self.font_renderer().rows());
                assert(d.rows.len() * d.scale == self.cell_h());
                assert forall|row: int, col: int, py: int, px: int|
                    0 <= row < d.rows.len() && 0 <= col < 8 && 0 <= py < d.scale && 0 <= px
                        < d.scale implies 0 <= #[trigger] d.place(row, col, py, px) < length by {
                    let column = d.x + col * d.scale + px;
                    let line = d.y + row * d.scale + py;
                    assert(0 <= col * d.scale + px < 8 * d.scale) by (nonlinear_arith)
                        requires
                            0 <= col < 8,
                            0 <= px < d.scale,
                    ;
                    assert(0 <= row * d.scale + py < d.rows.len() * d.scale) by (nonlinear_arith)
                        requires
                            0 <= row < d.rows.len(),
                            0 <= py < d.scale,
                    ;
                    assert(0 <= x * self.cell_w() && x * self.cell_w() + self.cell_w()
                        <= self.columns() * self.cell_w()) by (nonlinear_arith)
                        requires
                            0 <= x < self.columns(),
                            self.cell_w() >= 0,
                    ;
                    assert(0 <= y * self.cell_h() && y * self.cell_h() + self.cell_h()
                        <= self.lines() * self.cell_h()) by (nonlinear_arith)
                        requires
                            0 <= y < self.lines(),
                            self.cell_h() >= 0,
                    ;
                    assert(0 <= column < width);
                    assert(0 <= line < height && line < width);
                    assert(d.place(row, col, py, px) == clamped_place(
                        column,
                        line,
                        width,
                        height,
                        stride,
                    ));
                }
            }
        }
        true
    }

    /// The column and the line of the cell that the next character goes
    /// to.
    pub fn get_cursor(&self) -> (r: (usize, usize))
        ensures
            r.0 == self.state().x,
            r.1 == self.state().y,
    {
        (self.x, self.y)
    }

    /// The number of cells in a line and the number of lines.
    pub fn get_size(&self) -> (r: (usize, usize))
        ensures
            r.0 == self.columns(),
            r.1 == self.lines(),
    {
        (self.cols, self.rows)
    }

    /// The renderer that draws the glyphs.
    pub fn get_font_renderer(&self) -> (r: &FontRenderer)
        ensures
            *r == self.font_renderer(),
    {
        &self.font_renderer
    }

    /// A layout for the screen that `font_renderer` draws to, with as many
    /// cells as fit and the cursor in the top left cell.
    pub fn new(font_renderer: FontRenderer) -> (r: LayoutRenderer)
        requires
            font_renderer.scaling() >= 1,
            font_renderer.rows() >= 1,
            8 * font_renderer.scaling() <= usize::MAX,
            font_renderer.rows() * font_renderer.scaling() <= usize::MAX,
        ensures
            r.font_renderer() == font_renderer,
            r.cell_w() == 8 * font_renderer.scaling(),
            r.cell_h() == font_renderer.rows() * font_renderer.scaling(),
            r.columns() == font_renderer.buffer().width as int / r.cell_w(),
            r.lines() == font_renderer.buffer().height as int / r.cell_h(),
            r.state() == (LayoutState { x: 0, y: 0, pixels: font_renderer.buffer().pixels@ }),
    {
        let (width, height) = font_renderer.get_graphics_renderer().get_resolution();
        let cell_width = font_renderer.get_glyph_width();
        let cell_height = font_renderer.get_glyph_height();
        assert(cell_height >= 1) by (nonlinear_arith)
            requires
                cell_height == font_renderer.rows() * font_renderer.scaling(),
                font_renderer.rows() >= 1,
                font_renderer.scaling() >= 1,
        ;
        let cols = width / cell_width;
        let rows = height / cell_height;
        LayoutRenderer { font_renderer, cols, rows, cell_width, cell_height, x: 0, y: 0 }
    }

    /// Prints one byte: see `after_char`.
    pub fn print_char(&mut self, char: u8)
        requires
            old(self).wf(),
        ensures
            final(self).wf(),
            final(self).state() == old(self).after_char(old(self).state(), char),
            final(self).columns() == old(self).columns(),
            final(self).lines() == old(self).lines(),
            final(self).cell_w() == old(self).cell_w(),
            final(self).cell_h() == old(self).cell_h(),
            final(self).font_renderer().font() == old(self).font_renderer().font(),
            final(self).font_renderer().rows() == old(self).font_renderer().rows(),
            final(self).font_renderer().scaling() == old(self).font_renderer().scaling(),
            final(self).font_renderer().foreground() == old(self).font_renderer().foreground(),
            final(self).font_renderer().background() == old(self).font_renderer().background(),
            final(self).font_renderer().buffer().width == old(self).font_renderer().buffer().width,
            final(self).font_renderer().buffer().height == old(
                self,
            ).font_renderer().buffer().height,
            final(self).font_renderer().buffer().stride == old(
                self,
            ).font_renderer().buffer().stride,
            forall|glyph: u8, x: int, y: int|
                #[trigger] final(self).cell_drawing(glyph, x, y) == old(self).cell_drawing(
                    glyph,
                    x,
                    y,
                ),
    {
        if char == 0x0A {
            self.newline();
        } else if char == 0x0D {
            self.x = 0;
        } else {
            if self.x >= self.cols {
                self.newline()
            }
            let ghost d = self.cell_drawing(char, self.x as int, self.y as int);
            proof {
                assert(d.fits(self.font_renderer.buffer().pixels@.len() as int));
                assert(char * self.font_renderer.rows() <= 255 * self.font_renderer.rows())
                    by (nonlinear_arith)
                    requires
                        char <= 255,
                        self.font_renderer.rows() >= 0,
                ;
                assert(self.x * self.cell_width <= (self.cols + 1) * self.cell_width)
                    by (nonlinear_arith)
                    requires
                        self.x <= self.cols + 1,
                        self.cell_width >= 0,
                ;
                assert(self.y * self.cell_height <= (self.rows + 1) * self.cell_height)
                    by (nonlinear_arith)
                    requires
                        self.y <= self.rows + 1,
                        self.cell_height >= 0,
                ;
                assert((self.cols + 2) * self.cell_width == (self.cols + 1) * self.cell_width
                    + self.cell_width) by (nonlinear_arith);
                assert((self.rows + 2) * self.cell_height == (self.rows + 1) * self.cell_height
                    + self.cell_height) by (nonlinear_arith);
            }
            self.font_renderer.draw_glyph(
                char,
                self.x * self.cell_width,
                self.y * self.cell_height,
            );
            self.x += 1;
        }
        proof {
            assert forall|glyph: u8, x: int, y: int|
                #[trigger] self.cell_drawing(glyph, x, y) == old(self).cell_drawing(
                    glyph,
                    x,
                    y,
                ) by {}
            assert forall|glyph: u8, x: int, y: int|
                0 <= x && (x < self.columns() || x == 0) && 0 <= y && (y < self.lines() || y
                    == 0) implies (#[trigger] self.cell_drawing(glyph, x, y)).fits(
                self.font_renderer().buffer().pixels@.len() as int,
            ) by {
                assert(old(self).cell_drawing(glyph, x, y).fits(
                    old(self).font_renderer().buffer().pixels@.len() as int,
                ));
            }
        }
    }

    /// Sets the colours that glyphs are drawn in from now on.
    pub fn set_colors(&mut self, foreground: Color, background: Color)
        requires
            old(self).wf(),
        ensures
            final(self).wf(),
            final(self).state() == old(self).state(),
            final(self).columns() == old(self).columns(),
            final(self).lines() == old(self).lines(),
            final(self).cell_w() == old(self).cell_w(),
            final(self).cell_h() == old(self).cell_h(),
            final(self).font_renderer().foreground() == foreground,
            final(self).font_renderer().background() == background,
            final(self).font_renderer().font() == old(self).font_renderer().font(),
            final(self).font_renderer().rows() == old(self).font_renderer().rows(),
            final(self).font_renderer().scaling() == old(self).font_renderer().scaling(),
            final(self).font_renderer().buffer() == old(self).font_renderer().buffer(),
    {
        self.font_renderer.set_colors(foreground, background);
        proof {
            assert forall|glyph: u8, x: int, y: int|
                0 <= x && (x < self.columns() || x == 0) && 0 <= y && (y < self.lines() || y
                    == 0) implies (#[trigger] self.cell_drawing(glyph, x, y)).fits(
                self.font_renderer().buffer().pixels@.len() as int,
            ) by {
                let before = old(self).cell_drawing(glyph, x, y);
                let after = self.cell_drawing(glyph, x, y);
                assert(before.fits(old(self).font_renderer().buffer().pixels@.len() as int));
                assert forall|row: int, col: int, py: int, px: int|
                    0 <= row < after.rows.len() && 0 <= col < 8 && 0 <= py < after.scale && 0 <= px
                        < after.scale implies 0 <= #[trigger] after.place(row, col, py, px)
                    < self.font_renderer().buffer().pixels@.len() by {
                    assert(after.place(row, col, py, px) == before.place(row, col, py, px));
                }
            }
        }
    }

    /// Prints the bytes of `s`, each as the byte that is printed for it.
    pub fn print_string(&mut self, s: &str)
        requires
            old(self).wf(),
        ensures
            final(self).wf(),
            final(self).state() == old(self).after_bytes(
                old(self).state(),
                s.spec_bytes(),
                s.spec_bytes().len() as int,
            ),
    {
        let bytes = s.as_bytes();
        let count = bytes.len();
        let mut index: usize = 0;
        while index < count
            invariant
                index <= count,
                count == bytes@.len(),
                bytes@ == s.spec_bytes(),
                self.wf(),
                self.columns() == old(self).columns(),
                self.lines() == old(self).lines(),
                self.font_renderer().rows() == old(self).font_renderer().rows(),
                forall|glyph: u8, x: int, y: int|
                    #[trigger] self.cell_drawing(glyph, x, y) == old(self).cell_drawing(
                        glyph,
                        x,
                        y,
                    ),
                self.state() == old(self).after_bytes(old(self).state(), bytes@, index as int),
            decreases count - index,
        {
            let byte = bytes[index];
            if (0x20 <= byte && byte <= 0x7e) || byte == 0x0A || byte == 0x0D {
                self.print_char(byte);
            } else {
                self.print_char(0x04);
            }
            index += 1;
        }
    }

    /// Moves the cursor to the start of the next line, or of the first
    /// line where there is no next.
    pub fn newline(&mut self)
        requires
            old(self).wf(),
        ensures
            final(self).wf(),
            final(self).state() == old(self).after_newline(old(self).state()),
            final(self).font_renderer() == old(self).font_renderer(),
            final(self).columns() == old(self).columns(),
            final(self).lines() == old(self).lines(),
            final(self).cell_w() == old(self).cell_w(),
            final(self).cell_h() == old(self).cell_h(),
    {
        self.x = 0;
        self.y += 1;
        if self.y >= self.rows {
            self.y = 0;
        }
        proof {
            assert forall|glyph: u8, x: int, y: int|
                0 <= x && (x < self.columns() || x == 0) && 0 <= y && (y < self.lines() || y
                    == 0) implies (#[trigger] self.cell_drawing(glyph, x, y)).fits(
                self.font_renderer().buffer().pixels@.len() as int,
            ) by {
                assert(old(self).cell_drawing(glyph, x, y).fits(
                    old(self).font_renderer().buffer().pixels@.len() as int,
                ));
            }
        }
    }
}

} // verus!
