use bootstack::kernel::boot_data::PixelFormat;
use bootstack::kernel::errors::{Error, ErrorStatus};
use bootstack::kernel::font_renderer::{is_valid_font_header, FontRenderer};
use bootstack::kernel::graphics_renderer::{BgrPixel, Color, FrameBuffer};
use bootstack::kernel::layout_renderer::LayoutRenderer;
use bootstack::kernel::logger::LogLevel;

fn screen(width: usize, height: usize) -> FrameBuffer {
    FrameBuffer::new(width, height, width, vec![BgrPixel(0x0101_0101); width * height])
}

fn font(height: u8) -> Vec<u8> {
    let mut data = vec![0x36, 0x04, 0, height];
    for glyph in 0..256usize {
        for row in 0..height as usize {
            data.push(if glyph == b'A' as usize { 0x80 >> (row % 8) } else { glyph as u8 });
        }
    }
    data
}

#[test]
fn colours_and_pixels() {
    let color = Color::new(0x12_3456);
    assert_eq!((color.red(), color.green(), color.blue()), (0x12, 0x34, 0x56));
    assert_eq!(Color::new(0xFF00_B000), Color(0, 0xB0, 0));
    assert_eq!(BgrPixel::new(color), BgrPixel(0x0012_3456));
    assert_eq!(Color(0xFF, 0x01, 0x80).halved(), Color(0x7F, 0, 0x40));
    assert_eq!(Error::new(ErrorStatus::InvalidFileFormat).status(), ErrorStatus::InvalidFileFormat);
    assert_ne!(PixelFormat::Bgr, PixelFormat::Rgb);
}

#[test]
fn set_pixel_clamps_and_fill_paints_every_line() {
    assert!(!FrameBuffer::new(3, 2, 4, vec![BgrPixel(7); 6]).is_well_formed());
    assert!(!FrameBuffer::new(0, 2, 4, vec![BgrPixel(7); 8]).is_well_formed());
    let mut buffer = FrameBuffer::new(3, 2, 4, vec![BgrPixel(7); 8]);
    assert!(buffer.is_well_formed());
    buffer.set_pixel(1, 1, Color::new(0xAA));
    assert_eq!(buffer.pixels[5], BgrPixel(0xAA));
    buffer.set_pixel(9, 0, Color::new(0xBB));
    assert_eq!(buffer.pixels[2], BgrPixel(0xBB));
    // a line number that is not below the width goes to the last line
    buffer.set_pixel(0, 3, Color::new(0xCC));
    assert_eq!(buffer.pixels[4], BgrPixel(0xCC));
    buffer.fill(Color::new(0x010203));
    let p = BgrPixel(0x010203);
    assert_eq!(buffer.pixels, vec![p, p, p, BgrPixel(7), p, p, p, BgrPixel(7)]);
    assert_eq!(buffer.get_resolution(), (3, 2));
}

#[test]
fn a_font_needs_its_header() {
    assert!(is_valid_font_header(&[0x36, 0x04]));
    assert!(!is_valid_font_header(&[0x36, 0x05]));
    assert!(!is_valid_font_header(&[0x37, 0x04]));
    let short = FontRenderer::create(vec![0x36, 0x04, 0], screen(4, 4));
    assert_eq!(short.unwrap_err(), Error::new(ErrorStatus::InvalidFileFormat));
    let wrong = FontRenderer::create(vec![0x72, 0xB5, 0x4A, 0x86], screen(4, 4));
    assert_eq!(wrong.unwrap_err().status(), ErrorStatus::InvalidFileFormat);
    let renderer = FontRenderer::create(font(16), screen(64, 64)).unwrap();
    assert_eq!(renderer.get_glyph_width(), 16);
    assert_eq!(renderer.get_glyph_height(), 32);
    assert_eq!(renderer.get_graphics_renderer().get_resolution(), (64, 64));
}

#[test]
fn a_glyph_is_drawn_bit_by_bit_at_twice_the_size() {
    let mut renderer = FontRenderer::create(font(2), screen(32, 32)).unwrap();
    renderer.set_colors(Color::new(0xFFFFFF), Color::new(0x000080));
    // glyph 'A': row 0 is 1000_0000, row 1 is 0100_0000
    renderer.draw_glyph(b'A', 4, 8);
    let on = BgrPixel(0xFFFFFF);
    let off = BgrPixel(0x000080);
    let untouched = BgrPixel(0x0101_0101);
    let pixels = &renderer.get_graphics_renderer().pixels;
    let at = |x: usize, y: usize| pixels[y * 32 + x];
    for y in 8..10 {
        assert_eq!((at(4, y), at(5, y), at(6, y), at(7, y)), (on, on, off, off));
        assert_eq!(at(19, y), off);
    }
    for y in 10..12 {
        assert_eq!((at(4, y), at(5, y), at(6, y), at(7, y), at(8, y)), (off, off, on, on, off));
    }
    assert_eq!(at(3, 8), untouched);
    assert_eq!(at(20, 8), untouched);
    assert_eq!(at(4, 7), untouched);
    assert_eq!(at(4, 12), untouched);
}

#[test]
fn text_moves_the_cursor_cell_by_cell() {
    let mut renderer = FontRenderer::create(font(4), screen(48, 24)).unwrap();
    renderer.set_colors(Color::new(0xFFFFFF), Color::new(0));
    let mut layout = LayoutRenderer::new(renderer);
    // three cells of 16 pixels in a line, three lines of 8 pixels
    assert_eq!(layout.get_size(), (3, 3));
    assert!(layout.can_print());
    assert_eq!(layout.get_cursor(), (0, 0));
    layout.print_string("AAAA");
    assert_eq!(layout.get_cursor(), (1, 1));
    layout.print_char(b'\r');
    assert_eq!(layout.get_cursor(), (0, 1));
    layout.print_char(b'A');
    layout.print_string("\nA\n\nA");
    assert_eq!(layout.get_cursor(), (1, 1));
    layout.newline();
    assert_eq!(layout.get_cursor(), (0, 2));
    // a byte that cannot be printed is shown as glyph 4
    layout.print_string("\u{7f}");
    assert_eq!(layout.get_cursor(), (1, 2));
    let on = BgrPixel(0xFFFFFF);
    let off = BgrPixel(0);
    let pixels = &layout.get_font_renderer().get_graphics_renderer().pixels;
    let at = |x: usize, y: usize| pixels[y * 48 + x];
    // 'A' in the first cell of the first line: rows 1000_0000, 0100_0000, ...
    assert_eq!((at(0, 0), at(1, 1), at(2, 0), at(2, 2), at(3, 3)), (on, on, off, on, on));
    // glyph 4 in the first cell of the last line: every row is 0000_0100
    assert_eq!((at(9, 16), at(10, 16), at(11, 23), at(12, 16)), (off, on, on, off));
    // the third cell of the last line was never drawn
    assert_eq!(at(40, 20), BgrPixel(0x0101_0101));
}

#[test]
fn log_levels() {
    assert_eq!(LogLevel::Debug.get_prefix(), "D");
    assert_eq!(LogLevel::Info.get_prefix(), "I");
    assert_eq!(LogLevel::Warn.get_prefix(), "W");
    assert_eq!(LogLevel::Error.get_prefix(), "E");
    assert_eq!(LogLevel::Critical.get_prefix(), "C");
    assert_eq!(LogLevel::Debug.get_serial_color(), "\x1b[2;37m");
    assert_eq!(LogLevel::Critical.get_serial_color(), "\x1b[1;37;41m");
    assert_eq!(LogLevel::Debug.get_display_color(), (Color(0, 0x7F, 0), Color(0, 0, 0)));
    assert_eq!(LogLevel::Info.get_display_color(), (Color(0, 0xFF, 0), Color(0, 0, 0)));
    assert_eq!(LogLevel::Warn.get_display_color().0, Color(0xCC, 0xCC, 0));
    assert_eq!(LogLevel::Error.get_display_color().0, Color(0xCC, 0, 0));
    assert_eq!(
        LogLevel::Critical.get_display_color(),
        (Color(0xFF, 0xFF, 0xFF), Color(0xBB, 0, 0))
    );
    assert!(LogLevel::Warn.at_least(LogLevel::Info));
    assert!(LogLevel::Warn.at_least(LogLevel::Warn));
    assert!(!LogLevel::Warn.at_least(LogLevel::Error));
    assert_eq!(LogLevel::Critical.number(), 4);
}

#[test]
fn a_layout_can_print_within_its_limits_only() {
    // cells are 16 pixels wide and 8 high
    let fits = LayoutRenderer::new(FontRenderer::create(font(4), screen(48, 24)).unwrap());
    assert!(fits.can_print());
    // no cell fits in the width
    let narrow = LayoutRenderer::new(FontRenderer::create(font(4), screen(8, 24)).unwrap());
    assert_eq!(narrow.get_size(), (0, 3));
    assert!(!narrow.can_print());
    // no line of cells fits in the height
    let flat = LayoutRenderer::new(FontRenderer::create(font(4), screen(48, 4)).unwrap());
    assert_eq!(flat.get_size(), (3, 0));
    assert!(!flat.can_print());
    // the lines of cells reach further down than the screen is wide
    let tall = LayoutRenderer::new(FontRenderer::create(font(4), screen(16, 24)).unwrap());
    assert_eq!(tall.get_size(), (1, 3));
    assert!(!tall.can_print());
}
