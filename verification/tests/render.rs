use microface::color::{BinaryColor, Gray8, Rgb565, Rgb888};
use microface::fonts::atlas::{compose_atlas, compose_fits, font_from_raster, GlyphRaster};
use microface::fonts::kerning::KernPair;
use microface::fonts::MicroFont;
use microface::geometry::{Point, Size};
use microface::render::bitmap::BitmapTarget;
use microface::widgets::layout::Canvas;

#[test]
fn a_new_bitmap_is_black_and_knows_its_size() {
    let t = BitmapTarget::<Rgb565>::new(3, 2);
    assert_eq!(t.size(), Size::new(3, 2));
    let bytes = t.bmp_bytes();
    assert!(bytes[54..].iter().all(|b| *b == 0));
}

#[test]
fn bmp_header_describes_the_image() {
    let t = BitmapTarget::<Rgb565>::new(3, 2);
    let b = t.bmp_bytes();
    // rows of 9 bytes padded to 12
    assert_eq!(b.len(), 54 + 24);
    assert_eq!(&b[0..2], b"BM");
    assert_eq!(u32::from_le_bytes([b[2], b[3], b[4], b[5]]), 78);
    assert_eq!(u32::from_le_bytes([b[10], b[11], b[12], b[13]]), 54);
    assert_eq!(u32::from_le_bytes([b[14], b[15], b[16], b[17]]), 40);
    assert_eq!(i32::from_le_bytes([b[18], b[19], b[20], b[21]]), 3);
    assert_eq!(i32::from_le_bytes([b[22], b[23], b[24], b[25]]), 2);
    assert_eq!(u16::from_le_bytes([b[26], b[27]]), 1);
    assert_eq!(u16::from_le_bytes([b[28], b[29]]), 24);
    assert_eq!(u32::from_le_bytes([b[34], b[35], b[36], b[37]]), 24);
    assert_eq!(u32::from_le_bytes([b[38], b[39], b[40], b[41]]), 2835);
}

#[test]
fn drawn_pixels_land_bottom_up_in_bgr_order() {
    let mut t = BitmapTarget::new(3, 2);
    t.draw_iter(&vec![
        (Point::new(1, 0), Rgb565::new(31, 0, 0)),
        (Point::new(2, 1), Rgb565::new(0, 63, 0)),
        (Point::new(-1, 0), Rgb565::new(31, 63, 31)),
        (Point::new(3, 0), Rgb565::new(31, 63, 31)),
        (Point::new(0, 2), Rgb565::new(31, 63, 31)),
    ]);
    let b = t.bmp_bytes();
    // row y = 1 comes first
    assert_eq!(&b[54..66], &[0, 0, 0, 0, 0, 0, 0, 255, 0, 0, 0, 0]);
    // row y = 0 second; pixel x = 1 is red
    assert_eq!(&b[66..78], &[0, 0, 0, 0, 0, 255, 0, 0, 0, 0, 0, 0]);
}

#[test]
fn the_last_draw_of_a_pixel_wins() {
    let mut t = BitmapTarget::new(1, 1);
    t.draw_iter(&vec![(Point::new(0, 0), Rgb565::new(31, 0, 0)), (Point::new(0, 0), Rgb565::new(0, 0, 16))]);
    let b = t.bmp_bytes();
    assert_eq!(&b[54..57], &[132, 0, 0]);
}

fn glyph(xmin: i32, ymin: i32, width: usize, height: usize, advance: u32, bitmap: Vec<u8>) -> GlyphRaster {
    GlyphRaster { xmin, ymin, width, height, advance, bitmap }
}

#[test]
fn glyphs_sit_on_a_common_baseline() {
    // ascent 3, descent 1: cells 4 high; glyph 0 is 2x2 sitting on the
    // baseline, glyph 1 is 1x1 one pixel right and one below the baseline
    let glyphs = vec![glyph(0, 0, 2, 2, 2, vec![255, 255, 255, 255]), glyph(1, -1, 1, 1, 3, vec![255])];
    let r = compose_atlas(&glyphs, 3, 1, 8, &vec![]);
    assert_eq!(r.cell_width, 3);
    assert_eq!(r.cell_height, 4);
    assert_eq!(r.cols_per_row, 16);
    assert_eq!(r.strip_width, 48);
    assert_eq!(r.packed.len(), 48 * 4);
    let at = |x: usize, y: usize| r.packed[y * 48 + x];
    assert_eq!((at(0, 1), at(1, 1), at(0, 2), at(1, 2)), (255, 255, 255, 255));
    assert_eq!(at(0, 0), 0);
    assert_eq!(at(0, 3), 0);
    assert_eq!(at(4, 3), 255);
    assert_eq!(r.glyph_widths, vec![2, 3]);
    assert!(r.is_proportional);
    assert_eq!(r.bboxes, vec![0, 1, 2, 2, 1, 3, 1, 1]);
    let f: MicroFont = font_from_raster(r, 8);
    assert_eq!(f.glyph_bbox(0), (0, 1, 2, 2));
    assert_eq!(f.glyph_bbox(1), (1, 3, 1, 1));
    assert_eq!((f.first_char, f.last_char), (32, 126));
    assert_eq!(f.widths, Some(vec![2, 3]));
    assert!(f.kerning.is_none());
}

#[test]
fn equal_advances_make_a_monospace_font_and_advances_are_clamped() {
    let glyphs = vec![glyph(0, 0, 0, 0, 0, vec![]), glyph(0, 0, 0, 0, 1, vec![]), glyph(-3, 0, 0, 0, 300, vec![])];
    let r = compose_atlas(&glyphs, 0, 0, 4, &vec![]);
    assert_eq!(r.cell_width, 300);
    assert_eq!(r.cell_height, 1);
    assert_eq!(r.glyph_widths, vec![1, 1, 255]);
    assert!(r.is_proportional);
    // cells wider than a byte get no box table: glyphs take their whole cell
    assert!(r.bboxes.is_empty());
    let same = vec![glyph(0, 0, 1, 1, 4, vec![255]), glyph(0, 0, 1, 1, 4, vec![0])];
    let r = compose_atlas(&same, 1, 0, 4, &vec![]);
    assert!(!r.is_proportional);
    assert_eq!(r.packed[0], 0xF0);
    assert_eq!(r.bboxes, vec![0, 0, 1, 1, 0, 0, 0, 0]);
    let f = font_from_raster(r, 4);
    assert!(f.widths.is_none());
    assert_eq!(f.read_alpha(0), 255);
}

#[test]
fn tight_boxes_hug_the_coverage_and_stay_in_the_cell() {
    // a 3x3 bitmap whose only coverage is its centre, placed 1 right and on
    // a baseline 3 down: cell 4 wide (advance), 4 high
    let g = glyph(1, 0, 3, 3, 4, vec![0, 0, 0, 0, 9, 0, 0, 0, 0]);
    // a bitmap hanging past the cell's right edge is cut to the cell
    let wide = glyph(2, 0, 3, 1, 1, vec![5, 5, 5]);
    let r = compose_atlas(&vec![g, wide], 3, 1, 8, &vec![]);
    assert_eq!(r.cell_width, 4);
    assert_eq!(r.bboxes, vec![2, 1, 1, 1, 2, 2, 2, 1]);
}

#[test]
fn kerning_keeps_moving_pairs_in_order_as_signed_bytes() {
    let pairs = vec![
        KernPair { left: 0, right: 1, adjust: -2 },
        KernPair { left: 0, right: 1, adjust: 5 },
        KernPair { left: 1, right: 0, adjust: 0 },
        KernPair { left: 300, right: 0, adjust: 3 },
        KernPair { left: 1, right: 1, adjust: -200 },
    ];
    let glyphs = vec![glyph(0, 0, 1, 1, 1, vec![255]), glyph(0, 0, 1, 1, 1, vec![255])];
    let r = compose_atlas(&glyphs, 1, 0, 8, &pairs);
    assert_eq!(r.kerning, Some(vec![0, 1, 254, 0, 1, 5, 1, 1, 128]));
    let f = font_from_raster(r, 8);
    assert_eq!(f.kern(0, 1), -2);
    assert_eq!(f.kern(1, 1), -128);
    assert_eq!(f.kern(1, 0), 0);
    let r = compose_atlas(&glyphs, 1, 0, 8, &vec![KernPair { left: 0, right: 0, adjust: 0 }]);
    assert_eq!(r.kerning, None);
}

#[test]
fn atlas_limits_are_checked_before_composing() {
    let ok = vec![glyph(0, 0, 2, 2, 2, vec![255; 4])];
    assert!(compose_fits(&ok, 3, 1));
    // a bitmap shorter than its declared size
    let short = vec![glyph(0, 0, 2, 2, 2, vec![255; 3])];
    assert!(!compose_fits(&short, 3, 1));
    // line metrics whose sum leaves i32
    assert!(!compose_fits(&ok, i32::MAX, 1));
    // cells so wide that a row of sixteen leaves u32
    let wide = vec![glyph(0, 0, 0, 0, u32::MAX / 8, vec![])];
    assert!(!compose_fits(&wide, 1, 0));
    // an atlas of u32::MAX pixels or more
    let big = vec![glyph(0, 0, 0, 0, 65536, vec![])];
    assert!(!compose_fits(&big, 4096, 0));
    assert!(compose_fits(&big, 4095, 0));
}

#[test]
fn any_color_type_draws_through_its_rgb_form() {
    let mut gray: BitmapTarget<Gray8> = BitmapTarget::new(1, 1);
    gray.draw_iter(&vec![(Point::new(0, 0), Gray8 { luma: 77 })]);
    assert_eq!(&gray.bmp_bytes()[54..57], &[77, 77, 77]);
    let mut bw: BitmapTarget<BinaryColor> = BitmapTarget::new(2, 1);
    bw.draw_iter(&vec![(Point::new(0, 0), BinaryColor::On), (Point::new(1, 0), BinaryColor::Off)]);
    assert_eq!(&bw.bmp_bytes()[54..60], &[255, 255, 255, 0, 0, 0]);
    let mut full: BitmapTarget = BitmapTarget::new(1, 1);
    full.draw_iter(&vec![(Point::new(0, 0), Rgb888::new(1, 2, 3))]);
    assert_eq!(&full.bmp_bytes()[54..57], &[3, 2, 1]);
}
