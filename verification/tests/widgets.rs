use microface::color::Rgb565;
use microface::element::Element;
use microface::fonts::MicroFont;
use microface::geometry::{Point, Rectangle, Size};
use microface::widgets::command::{Command, HorizontalAlignment};
use microface::widgets::layout::stack::{HStack, Stack};
use microface::widgets::primitives::Rect;
use microface::widgets::text::{Label, Text, TextAlign};

fn font() -> MicroFont {
    MicroFont {
        data: vec![0u8; 64],
        char_width: 2,
        char_height: 3,
        cols_per_row: 16,
        strip_width: 32,
        first_char: b'A',
        last_char: b'B',
        bpp: 8,
        widths: Some(vec![3, 5]),
        bboxes: vec![],
        kerning: None,
    }
}

fn r(x: i32, y: i32, w: u32, h: u32) -> Rectangle {
    Rectangle::new(Point::new(x, y), Size::new(w, h))
}

fn text_origin(cmds: &[Command]) -> Point {
    assert_eq!(cmds.len(), 1);
    match cmds[0] {
        Command::Text { origin, .. } => origin,
        _ => panic!("expected a text command"),
    }
}

#[test]
fn rects_default_to_filled_white() {
    let cmds = Rect::new().paint(r(1, 2, 3, 4));
    match cmds[0] {
        Command::Rect { area, color, filled } => {
            assert_eq!(area, r(1, 2, 3, 4));
            assert_eq!(color, Rgb565::new(31, 63, 31));
            assert!(filled);
        }
        _ => panic!("expected a rectangle"),
    }
}

#[test]
fn labels_measure_their_string() {
    let f = font();
    assert_eq!(Label::new("AB", &f).measure(), Size::new(8, 3));
    assert_eq!(Label::new("", &f).measure(), Size::new(0, 3));
}

#[test]
fn labels_align_within_their_bounds() {
    let f = font();
    let bounds = r(10, 5, 20, 3);
    assert_eq!(text_origin(&Label::new("AB", &f).paint(bounds)), Point::new(10, 5));
    assert_eq!(text_origin(&Label::new("AB", &f).align(TextAlign::Center).paint(bounds)), Point::new(16, 5));
    assert_eq!(text_origin(&Label::new("AB", &f).align(TextAlign::Right).paint(bounds)), Point::new(22, 5));
    // too wide for the box: no offset
    assert_eq!(text_origin(&Label::new("ABABAB", &f).align(TextAlign::Right).paint(r(0, 0, 5, 3))), Point::new(0, 0));
    let red = Rgb565::new(31, 0, 0);
    match Label::new("A", &f).color(red).paint(bounds)[0] {
        Command::Text { color, text, .. } => {
            assert_eq!(color, red);
            assert_eq!(text, "A");
        }
        _ => panic!("expected a text command"),
    }
}

#[test]
fn text_measurement_is_cached() {
    let f = font();
    let mut t = Text::new("AB", &f);
    assert_eq!(t.compute_count(), 0);
    assert_eq!(t.measure(0), Size::new(8, 3));
    assert_eq!(t.measure(0), Size::new(8, 3));
    assert_eq!(t.measure(99), Size::new(8, 3));
    assert_eq!(t.compute_count(), 1);
    let mut t = t.center();
    assert_eq!(t.measure(0), Size::new(8, 3));
    assert_eq!(t.compute_count(), 2);
    let mut t = t.color(Rgb565::new(0, 0, 0));
    t.measure(0);
    assert_eq!(t.compute_count(), 2);
}

#[test]
fn wrapped_text_measures_to_its_maximum_width() {
    let f = font();
    let mut t = Text::new("AB AB AB", &f).max_width(7);
    assert_eq!(t.measure(9), Size::new(7, 9));
    assert_eq!(t.measure(100), Size::new(7, 9));
    assert_eq!(t.compute_count(), 1);
}

#[test]
fn text_paints_one_line_or_a_wrapped_box() {
    let f = font();
    let bounds = r(0, 0, 20, 3);
    assert_eq!(text_origin(&Text::new("AB", &f).paint(bounds)), Point::new(0, 0));
    assert_eq!(text_origin(&Text::new("AB", &f).center().paint(bounds)), Point::new(6, 0));
    assert_eq!(text_origin(&Text::new("AB", &f).right().paint(bounds)), Point::new(12, 0));
    assert_eq!(text_origin(&Text::new("AB", &f).justified().paint(bounds)), Point::new(0, 0));
    let mut measured = Text::new("AB", &f).right();
    measured.measure(0);
    assert_eq!(text_origin(&measured.paint(bounds)), Point::new(12, 0));
    let cmds = Text::new("AB", &f).left().max_width(10).center().paint(bounds);
    match cmds[0] {
        Command::TextBox { bounds: b, alignment, .. } => {
            assert_eq!(b, bounds);
            assert_eq!(alignment, HorizontalAlignment::Center);
        }
        _ => panic!("expected a text box"),
    }
}

#[test]
fn elements_measure_what_has_a_natural_size() {
    let f = font();
    let mut e = Element::Label(Label::new("B", &f));
    assert_eq!(e.measure(0), Some(Size::new(5, 3)));
    let mut e: Element = Text::new("A", &f).into();
    assert_eq!(e.measure(0), Some(Size::new(3, 3)));
    let mut e: Element = Rect::new().into();
    assert_eq!(e.measure(0), None);
    let mut e = Element::Empty;
    assert_eq!(e.measure(0), None);
    let s: HStack = Stack::new();
    let mut e: Element = s.into();
    assert_eq!(e.measure(0), None);
}

#[test]
fn elements_paint_through_stacks() {
    let f = font();
    let stack: HStack = Stack::new()
        .child(Label::new("A", &f).align(TextAlign::Right).into())
        .child(Element::Empty)
        .child(Text::new("B", &f).into());
    let mut e: Element = stack.into();
    let cmds = e.paint(r(0, 0, 30, 3));
    assert_eq!(cmds.len(), 2);
    match cmds[0] {
        Command::Text { origin, .. } => assert_eq!(origin, Point::new(7, 0)),
        _ => panic!("expected a text command"),
    }
    match cmds[1] {
        Command::Text { origin, .. } => assert_eq!(origin, Point::new(20, 0)),
        _ => panic!("expected a text command"),
    }
    assert!(Element::Empty.paint(r(0, 0, 1, 1)).is_empty());
}

#[test]
fn text_and_stack_report_their_settings() {
    let f = font();
    let mut t = Text::new("AB", &f).right().color(Rgb565::new(1, 2, 3)).max_width(9);
    assert_eq!(t.text(), "AB");
    assert_eq!(t.font().char_height, 3);
    assert_eq!(t.text_color(), Rgb565::new(1, 2, 3));
    assert_eq!(t.alignment(), HorizontalAlignment::Right);
    assert_eq!(t.wrap_width(), Some(9));
    assert_eq!(t.cached_size(), None);
    t.measure(6);
    assert_eq!(t.cached_size(), Some(Size::new(9, 6)));
    let s: HStack = Stack::new();
    assert_eq!(s.bounds(), None);
    let s: HStack = Stack::within(r(1, 2, 3, 4));
    assert_eq!(s.bounds(), Some(r(1, 2, 3, 4)));
}

#[test]
fn painting_measures_text_through_its_cache() {
    let f = font();
    let mut t = Text::new("AB", &f).center();
    t.paint(r(0, 0, 20, 3));
    assert_eq!(t.compute_count(), 1);
    assert_eq!(t.cached_size(), Some(Size::new(8, 3)));
    t.paint(r(0, 0, 20, 3));
    assert_eq!(t.compute_count(), 1);
    // wrapped text is not measured by painting
    let mut w = Text::new("AB", &f).max_width(10);
    w.paint(r(0, 0, 20, 3));
    assert_eq!(w.compute_count(), 0);
    // a text element is measured as it is painted
    let mut painted_again: Element = Text::new("A", &f).into();
    painted_again.paint(r(0, 0, 30, 3));
    match painted_again {
        Element::Text(t) => assert_eq!((t.compute_count(), t.cached_size()), (1, Some(Size::new(3, 3)))),
        _ => panic!("expected a text"),
    }
}
