use microface::basis::foundation::screen::{Screen, pct, clamp};
use microface::geometry::{Point, Rectangle, Size};
use microface::widgets::command::Command;
use microface::widgets::layout::stack::{inset, layout_children, HStack, Justify, Stack, VStack};
use microface::widgets::layout::stack::stack_direction::{Horizontal, StackDirection, Vertical};
use microface::widgets::layout::Canvas;
use microface::widgets::primitives::Rect;
use microface::color::Rgb565;
use microface::element::Element;

fn r(x: i32, y: i32, w: u32, h: u32) -> Rectangle {
    Rectangle::new(Point::new(x, y), Size::new(w, h))
}

#[test]
fn screen_percentages_follow_the_documented_example() {
    let screen = Screen::new(368, 448);
    assert_eq!(screen.w(50, 20, 200), 184);
    assert_eq!(screen.w(50, 20, 100), 100);
    assert_eq!(screen.w(1, 20, 200), 20);
    assert_eq!(screen.hp(10), 44);
    assert_eq!(screen.wp(100), 368);
    assert_eq!(screen.h(50, 0, 1000), 224);
    assert_eq!(screen.bounds(), r(0, 0, 368, 448));
}

#[test]
fn screen_regions_are_percentages_of_each_axis() {
    let screen = Screen::new(368, 448);
    assert_eq!(screen.region(5, 10, 90, 75), r(18, 44, 331, 336));
    assert_eq!(screen.region_clamped(5, 10, 90, 75, 0, 300, 400, 500), r(18, 44, 300, 400));
}

#[test]
fn pct_rounds_down_and_clamp_prefers_min() {
    assert_eq!(pct(368, 50), 184);
    assert_eq!(pct(3, 50), 1);
    assert_eq!(clamp(5, 10, 20), 10);
    assert_eq!(clamp(25, 10, 20), 20);
    assert_eq!(clamp(15, 10, 20), 15);
    assert_eq!(clamp(15, 30, 20), 30);
}

#[test]
fn canvas_regions_of_a_display_size() {
    let display = Size::new(200, 100);
    assert_eq!(display.canvas_bounds(), r(0, 0, 200, 100));
    assert_eq!(display.full(), r(0, 0, 200, 100));
    assert_eq!(display.region(0, 50, 100, 50), r(0, 50, 200, 50));
    assert_eq!(display.wp(25), 50);
    assert_eq!(display.hp(25), 25);
    assert_eq!(display.w(10, 30, 40), 30);
    assert_eq!(display.h(90, 0, 80), 80);
    assert_eq!(display.region_clamped(10, 10, 10, 10, 50, 60, 5, 6), r(20, 10, 50, 6));
}

#[test]
fn directions_pick_their_axis() {
    let s = Size::new(7, 9);
    assert_eq!(Horizontal::main_axis_size(s), 7);
    assert_eq!(Vertical::main_axis_size(s), 9);
    assert_eq!(Horizontal::cross_axis_size(s), 9);
    let p = r(3, 4, 10, 10);
    assert_eq!(Horizontal::initial_offset(&p), 3);
    assert_eq!(Vertical::initial_offset(&p), 4);
    assert_eq!(Horizontal::child_bounds(&p, 6, 2, 1, 5), r(6, 5, 2, 5));
    assert_eq!(Vertical::child_bounds(&p, 6, 2, 1, 5), r(4, 6, 5, 2));
}

#[test]
fn inset_shrinks_every_side() {
    assert_eq!(inset(&r(10, 20, 100, 50), 5), r(15, 25, 90, 40));
    assert_eq!(inset(&r(0, 0, 6, 50), 5), r(5, 5, 0, 40));
}

#[test]
fn flex_weights_share_the_main_axis() {
    let rects = layout_children::<Horizontal>(&vec![1, 2, 1], r(0, 0, 100, 20), 0, 0, Justify::Start);
    assert_eq!(rects, vec![r(0, 0, 25, 20), r(25, 0, 50, 20), r(75, 0, 25, 20)]);
}

#[test]
fn padding_and_gaps_come_out_of_the_shares() {
    let rects = layout_children::<Horizontal>(&vec![1, 2, 1], r(0, 0, 100, 20), 2, 5, Justify::Start);
    assert_eq!(rects, vec![r(2, 2, 21, 16), r(28, 2, 43, 16), r(76, 2, 22, 16)]);
    // the children tile the inner box: the last one ends at its right edge
    assert_eq!(76 + 22, 2 + 96);
}

#[test]
fn the_last_child_takes_the_rounding_remainder() {
    let rects = layout_children::<Vertical>(&vec![1, 1, 1], r(0, 0, 10, 10), 0, 0, Justify::Start);
    assert_eq!(rects, vec![r(0, 0, 10, 3), r(0, 3, 10, 3), r(0, 6, 10, 4)]);
    let total: u32 = rects.iter().map(|x| x.size.height).sum();
    assert_eq!(total, 10);
}

#[test]
fn justify_does_not_move_children_that_fill_the_axis() {
    let start = layout_children::<Horizontal>(&vec![1, 3], r(0, 0, 40, 10), 1, 2, Justify::Start);
    let end = layout_children::<Horizontal>(&vec![1, 3], r(0, 0, 40, 10), 1, 2, Justify::End);
    let center = layout_children::<Horizontal>(&vec![1, 3], r(0, 0, 40, 10), 1, 2, Justify::Center);
    assert_eq!(start, end);
    assert_eq!(start, center);
}

#[test]
fn no_children_or_no_weight_gives_no_rectangles() {
    assert!(layout_children::<Horizontal>(&vec![], r(0, 0, 40, 10), 0, 0, Justify::Start).is_empty());
    assert!(layout_children::<Horizontal>(&vec![0, 0], r(0, 0, 40, 10), 0, 0, Justify::Start).is_empty());
}

#[test]
fn zero_weight_children_get_nothing_but_the_last_takes_the_rest() {
    let rects = layout_children::<Horizontal>(&vec![0, 2, 0], r(0, 0, 30, 10), 0, 0, Justify::Start);
    assert_eq!(rects, vec![r(0, 0, 0, 10), r(0, 0, 30, 10), r(30, 0, 0, 10)]);
}

#[test]
fn gaps_wider_than_the_box_leave_children_empty() {
    let rects = layout_children::<Horizontal>(&vec![1, 1], r(0, 0, 4, 10), 0, 10, Justify::End);
    assert_eq!(rects, vec![r(0, 0, 0, 10), r(10, 0, 0, 10)]);
}

#[test]
fn stacks_paint_each_child_into_its_share() {
    let red = Rgb565::new(31, 0, 0);
    let mut stack: HStack = Stack::new()
        .child(Element::Rect(Rect::new()))
        .child_flex(Element::Rect(Rect::new().color(red).stroke()), 3)
        .gap(4);
    let cmds = stack.paint_into(r(0, 0, 84, 10));
    assert_eq!(cmds.len(), 2);
    match cmds[0] {
        Command::Rect { area, filled, .. } => {
            assert_eq!(area, r(0, 0, 20, 10));
            assert!(filled);
        }
        _ => panic!("expected a rectangle"),
    }
    match cmds[1] {
        Command::Rect { area, color, filled } => {
            assert_eq!(area, r(24, 0, 60, 10));
            assert_eq!(color, red);
            assert!(!filled);
        }
        _ => panic!("expected a rectangle"),
    }
}

#[test]
fn nested_stacks_paint_depth_first() {
    let inner: VStack = Stack::new().child(Element::Rect(Rect::new())).child(Element::Empty).child(Element::Rect(Rect::new()));
    let mut outer: HStack = Stack::within(r(0, 0, 20, 30)).padding(1).child(Element::VStack(inner)).child(Element::Rect(Rect::new()));
    let cmds = outer.paint();
    let areas: Vec<Rectangle> = cmds
        .iter()
        .map(|c| match c {
            Command::Rect { area, .. } => *area,
            _ => panic!("expected rectangles"),
        })
        .collect();
    assert_eq!(areas, vec![r(1, 1, 9, 9), r(1, 19, 9, 10), r(10, 1, 9, 28)]);
}

#[test]
fn builders_keep_the_children() {
    let mut stack: VStack = Stack::new()
        .justify(Justify::Center)
        .align(microface::widgets::layout::Align::Center)
        .child(Element::Empty);
    assert_eq!(stack.paint_into(r(0, 0, 5, 5)).len(), 0);
}
