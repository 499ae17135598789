use microface::color::{Rgb565, Rgb888};
use microface::render::bitmap::BitmapTarget;
use microface::fonts::blend::{blend, blend_over_black, build_palette};
use microface::fonts::draw::DrawOp;
use microface::fonts::pack::{check_bpp, pack_pixels};
use microface::fonts::style::{Baseline, MicroFontStyle};
use microface::fonts::MicroFont;
use microface::geometry::{Point, Rectangle, Size};

fn font(bpp: u8, data: Vec<u8>) -> MicroFont {
    MicroFont {
        data,
        char_width: 2,
        char_height: 2,
        cols_per_row: 16,
        strip_width: 32,
        first_char: b'A',
        last_char: b'B',
        bpp,
        widths: None,
        bboxes: vec![],
        kerning: None,
    }
}

/// Glyph 'A' has full coverage at its top-left pixel and half below it;
/// glyph 'B' is blank.
fn tiny_font() -> MicroFont {
    let mut data = vec![0u8; 64];
    data[0] = 0xFF;
    data[32] = 0x80;
    font(8, data)
}

#[test]
fn advance_widths_come_from_the_table_or_the_cell() {
    let mut f = tiny_font();
    assert_eq!(f.advance_width(1), 2);
    f.widths = Some(vec![3, 4]);
    assert_eq!(f.advance_width(0), 3);
    assert_eq!(f.advance_width(1), 4);
}

#[test]
fn bounding_boxes_fall_back_to_the_whole_cell() {
    let mut f = tiny_font();
    assert_eq!(f.glyph_bbox(0), (0, 0, 2, 2));
    f.bboxes = vec![1, 0, 1, 2, 0, 1, 2, 1];
    assert_eq!(f.glyph_bbox(0), (1, 0, 1, 2));
    assert_eq!(f.glyph_bbox(1), (0, 1, 2, 1));
    assert_eq!(f.glyph_bbox(2), (0, 0, 2, 2));
}

#[test]
fn kerning_takes_the_first_matching_pair_as_a_signed_byte() {
    let mut f = tiny_font();
    assert_eq!(f.kern(0, 1), 0);
    f.kerning = Some(vec![0, 1, 0xFE, 1, 0, 3, 0, 1, 5]);
    assert_eq!(f.kern(0, 1), -2);
    assert_eq!(f.kern(1, 0), 3);
    assert_eq!(f.kern(1, 1), 0);
    assert_eq!(f.kern(256, 1), -2);
}

#[test]
fn alpha_reads_at_every_depth() {
    let f8 = font(8, vec![0xAB]);
    assert_eq!(f8.read_alpha(0), 0xAB);
    assert_eq!(f8.read_alpha_index(0), 0xA);
    let f4 = font(4, vec![0x3C]);
    assert_eq!(f4.read_alpha(0), 3 * 17);
    assert_eq!(f4.read_alpha(1), 12 * 17);
    assert_eq!(f4.read_alpha_index(1), 12);
    let f2 = font(2, vec![0b11_01_10_00]);
    assert_eq!(f2.read_alpha(0), 255);
    assert_eq!(f2.read_alpha(1), 85);
    assert_eq!(f2.read_alpha_index(2), 10);
    assert_eq!(f2.read_alpha_index(3), 0);
    let f1 = font(1, vec![0b1010_0000]);
    assert_eq!(f1.read_alpha(0), 255);
    assert_eq!(f1.read_alpha(1), 0);
    assert_eq!(f1.read_alpha_index(2), 15);
    let f3 = font(3, vec![0xFF]);
    assert_eq!(f3.read_alpha(0), 0);
    assert_eq!(f3.read_alpha_index(0), 0);
}

#[test]
fn full_alpha_is_seventeen_times_the_index_below_eight_bits() {
    for bpp in [1u8, 2, 4] {
        let f = font(bpp, vec![0x5A, 0xC3]);
        for p in 0..(16 / bpp as usize) {
            assert_eq!(f.read_alpha(p), 17 * f.read_alpha_index(p) as u32);
        }
    }
}

#[test]
fn packing_quantizes_and_puts_the_first_pixel_high() {
    assert_eq!(pack_pixels(&[255, 0, 17, 34], 4), vec![0xF0, 0x12]);
    assert_eq!(pack_pixels(&[255, 0, 128, 85, 200], 2), vec![0b11_00_10_01, 0b10_00_00_00]);
    assert_eq!(pack_pixels(&[255, 127, 128, 0, 0, 0, 0, 255, 255], 1), vec![0b1010_0001, 0b1000_0000]);
    assert_eq!(pack_pixels(&[1, 2, 3], 8), vec![1, 2, 3]);
    assert_eq!(pack_pixels(&[], 4), Vec::<u8>::new());
}

#[test]
fn packed_pixels_read_back_quantized() {
    let raw: Vec<u8> = (0..40u32).map(|i| (i * 37 % 256) as u8).collect();
    for bpp in [1u8, 2, 4, 8] {
        let packed = pack_pixels(&raw, bpp);
        let f = font(bpp, packed);
        let max = (1u32 << bpp) - 1;
        for (p, v) in raw.iter().enumerate() {
            let q = (*v as u32 * max + 127) / 255;
            let expected = if bpp == 8 { *v as u32 } else { q * (255 / max) };
            assert_eq!(f.read_alpha(p), expected);
        }
    }
}

#[test]
fn only_the_four_depths_are_accepted() {
    assert!(check_bpp(1) && check_bpp(2) && check_bpp(4) && check_bpp(8));
    assert!(!check_bpp(0) && !check_bpp(3) && !check_bpp(16));
}

#[test]
fn color_conversions_round_each_channel() {
    // widening, seen through a framebuffer (stored as B, G, R)
    let mut t = BitmapTarget::new(2, 1);
    t.draw_iter(&vec![(Point::new(0, 0), Rgb565::new(31, 63, 31)), (Point::new(1, 0), Rgb565::new(16, 32, 16))]);
    let b = t.bmp_bytes();
    assert_eq!(&b[54..60], &[255, 255, 255, 132, 130, 132]);
    // narrowing, seen through the fully opaque palette entry
    let pal = build_palette(Rgb888::new(128, 128, 128), None);
    assert_eq!(pal[15], Rgb565::new(16, 32, 16));
    assert_eq!(Rgb565::new(255, 255, 255), Rgb565::new(31, 63, 31));
    let c = Rgb565::new(3, 4, 5);
    assert_eq!((c.r(), c.g(), c.b()), (3, 4, 5));
}

#[test]
fn blending_uses_the_fast_divide() {
    let white = Rgb888::new(255, 255, 255);
    assert_eq!(blend(Rgb888::new(200, 100, 0), Rgb888::new(0, 0, 0), 255), Rgb888::new(199, 100, 0));
    assert_eq!(blend(Rgb888::new(100, 100, 100), Rgb888::new(50, 50, 50), 128), Rgb888::new(75, 75, 75));
    assert_eq!(blend_over_black(white, 0), Rgb888::new(0, 0, 0));
    assert_eq!(blend_over_black(white, 17), Rgb888::new(17, 17, 17));
    for a in [0u8, 1, 77, 200, 255] {
        assert_eq!(blend_over_black(Rgb888::new(9, 180, 255), a), blend(Rgb888::new(9, 180, 255), Rgb888::new(0, 0, 0), a));
    }
}

#[test]
fn palettes_run_from_background_to_foreground() {
    let pal = build_palette(Rgb888::new(255, 255, 255), None);
    assert_eq!(pal.len(), 16);
    assert_eq!(pal[0], Rgb565::new(0, 0, 0));
    assert_eq!(pal[1], Rgb565::new(2, 4, 2));
    assert_eq!(pal[8], Rgb565::new(16, 33, 16));
    assert_eq!(pal[15], Rgb565::new(31, 63, 31));
    let over_red = build_palette(Rgb888::new(0, 0, 0), Some(Rgb888::new(255, 0, 0)));
    assert_eq!(over_red[0], Rgb565::new(31, 0, 0));
    assert_eq!(over_red[15], Rgb565::new(0, 0, 0));
}

#[test]
fn styles_scale_and_place_the_baseline() {
    let f = tiny_font();
    let white = Rgb565::new(31, 63, 31);
    let s = MicroFontStyle::new(&f, white);
    assert_eq!(s.scale, 1);
    assert!(s.background_color.is_none());
    assert_eq!(s.scaled(0).scale, 1);
    let s3 = s.scaled(3);
    assert_eq!(s3.effective_height(), 6);
    assert_eq!(s3.line_height(), 6);
    assert_eq!(s3.baseline_offset(Baseline::Top), 0);
    assert_eq!(s3.baseline_offset(Baseline::Bottom), 5);
    assert_eq!(s3.baseline_offset(Baseline::Middle), 2);
    assert_eq!(s3.baseline_offset(Baseline::Alphabetic), 4);
    let b = MicroFontStyle::with_background(&f, white, Rgb565::new(0, 0, 0));
    assert_eq!(b.background_color, Some(Rgb565::new(0, 0, 0)));
    let mut c = b;
    c.set_text_color(None);
    c.set_background_color(None);
    assert!(c.text_color.is_none() && c.background_color.is_none());
}

#[test]
fn string_width_adds_advances_and_kerning() {
    let mut f = tiny_font();
    f.widths = Some(vec![3, 4]);
    f.kerning = Some(vec![0, 1, 0xFF]);
    let s = MicroFontStyle::new(&f, Rgb565::new(31, 63, 31));
    assert_eq!(s.string_width(""), 0);
    assert_eq!(s.string_width("AB"), 6);
    assert_eq!(s.string_width("AzB"), 9);
    assert_eq!(s.scaled(2).string_width("AB"), 12);
    let m = s.measure_string("AB", Point::new(10, 20), Baseline::Bottom);
    assert_eq!(m.bounding_box, Rectangle::new(Point::new(10, 19), Size::new(6, 2)));
    assert_eq!(m.next_position, Point::new(16, 20));
}

#[test]
fn kerning_never_takes_the_width_below_zero() {
    let mut f = tiny_font();
    f.widths = Some(vec![1, 1]);
    f.kerning = Some(vec![0, 0, 0x80]);
    let s = MicroFontStyle::new(&f, Rgb565::new(31, 63, 31));
    assert_eq!(s.string_width("AA"), 1);
}

#[test]
fn drawing_without_background_sets_visible_pixels_only() {
    let f = tiny_font();
    let s = MicroFontStyle::new(&f, Rgb565::new(31, 63, 31));
    let (ops, next) = s.draw_string("A", Point::new(10, 20), Baseline::Top);
    assert_eq!(next, Point::new(12, 20));
    assert_eq!(ops.len(), 2);
    match &ops[0] {
        DrawOp::Pixel { point, color } => {
            assert_eq!(*point, Point::new(10, 20));
            assert_eq!(*color, Rgb565::new(31, 63, 31));
        }
        _ => panic!("expected a pixel"),
    }
    match &ops[1] {
        DrawOp::Pixel { point, color } => {
            assert_eq!(*point, Point::new(10, 21));
            assert_eq!(*color, Rgb565::new(16, 33, 16));
        }
        _ => panic!("expected a pixel"),
    }
    let (ops, next) = s.draw_string("AzB", Point::new(10, 20), Baseline::Top);
    assert_eq!(ops.len(), 2);
    assert_eq!(next, Point::new(16, 20));
    assert_eq!(next.x - 10, s.string_width("AzB") as i32);
}

#[test]
fn scaled_pixels_become_squares() {
    let f = tiny_font();
    let s = MicroFontStyle::new(&f, Rgb565::new(31, 63, 31)).scaled(3);
    let (ops, next) = s.draw_string("A", Point::new(0, 6), Baseline::Bottom);
    assert_eq!(next, Point::new(6, 6));
    match &ops[1] {
        DrawOp::FillSolid { area, .. } => assert_eq!(*area, Rectangle::new(Point::new(0, 4), Size::new(3, 3))),
        _ => panic!("expected a square"),
    }
}

#[test]
fn drawing_over_a_background_fills_then_streams_the_glyph() {
    let f = tiny_font();
    let black = Rgb565::new(0, 0, 0);
    let s = MicroFontStyle::with_background(&f, Rgb565::new(31, 63, 31), black).scaled(2);
    let (ops, next) = s.draw_string("Az", Point::new(10, 20), Baseline::Top);
    assert_eq!(next, Point::new(18, 20));
    assert_eq!(ops.len(), 3);
    match &ops[0] {
        DrawOp::FillSolid { area, color } => {
            assert_eq!(*area, Rectangle::new(Point::new(10, 20), Size::new(4, 4)));
            assert_eq!(*color, black);
        }
        _ => panic!("expected the advance box"),
    }
    match &ops[1] {
        DrawOp::FillContiguous { area, colors } => {
            assert_eq!(*area, Rectangle::new(Point::new(10, 20), Size::new(4, 4)));
            let w = Rgb565::new(31, 63, 31);
            let h = Rgb565::new(16, 33, 16);
            assert_eq!(
                colors,
                &vec![w, w, black, black, w, w, black, black, h, h, black, black, h, h, black, black]
            );
        }
        _ => panic!("expected the glyph"),
    }
    match &ops[2] {
        DrawOp::FillSolid { area, .. } => assert_eq!(*area, Rectangle::new(Point::new(14, 20), Size::new(4, 4))),
        _ => panic!("expected the missing glyph's cell"),
    }
}

#[test]
fn no_text_color_paints_only_the_background() {
    let f = tiny_font();
    let mut s = MicroFontStyle::with_background(&f, Rgb565::new(31, 63, 31), Rgb565::new(1, 2, 3));
    s.set_text_color(None);
    let (ops, _) = s.draw_string("AB", Point::new(0, 0), Baseline::Top);
    assert_eq!(ops.len(), 2);
    let (ops, next) = s.draw_whitespace(5, Point::new(1, 1), Baseline::Top);
    assert_eq!(ops.len(), 1);
    assert_eq!(next, Point::new(6, 1));
    let (ops, _) = s.draw_whitespace(0, Point::new(1, 1), Baseline::Top);
    assert!(ops.is_empty());
}

#[test]
fn drawing_kerned_text_ends_where_measuring_says() {
    let mut f = tiny_font();
    f.widths = Some(vec![3, 4]);
    f.kerning = Some(vec![0, 1, 0xFF, 1, 0, 0x02]);
    for scale in [1, 3] {
        for bg in [None, Some(Rgb565::new(0, 0, 31))] {
            let mut s = MicroFontStyle::new(&f, Rgb565::new(31, 63, 31)).scaled(scale);
            s.set_background_color(bg);
            for baseline in [Baseline::Top, Baseline::Bottom, Baseline::Middle, Baseline::Alphabetic] {
                for text in ["AB", "BA", "ABAB", "AzBA", ""] {
                    let p = Point::new(5, 40);
                    let (_, next) = s.draw_string(text, p, baseline);
                    assert_eq!(next, s.measure_string(text, p, baseline).next_position);
                }
            }
        }
    }
}
