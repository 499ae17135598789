//! The element tree: widgets and nested stacks painted uniformly.

use vstd::prelude::*;
use crate::geometry::{Size, Rectangle};
use crate::widgets::layout::stack::stack_direction::{StackDirection, Horizontal, Vertical};
use crate::widgets::layout::stack::flex::{stack_rects, stack_layout_ok};
use crate::widgets::layout::stack::{Stack, HStack, VStack, FlexChild, flexes_of};
use crate::widgets::primitives::rect::Rect;
use crate::widgets::text::label::Label;
use crate::widgets::text::text::Text;
use crate::widgets::command::Command;

verus! {

/// A drawable UI element.
pub enum Element<'a> {
    /// No-op placeholder that draws nothing.
    Empty,
    /// A filled or stroked rectangle.
    Rect(Rect),
    /// A text label.
    Label(Label<'a>),
    /// A nested horizontal stack.
    HStack(HStack<'a>),
    /// A nested vertical stack.
    VStack(VStack<'a>),
    /// A text element.
    Text(Text<'a>),
}

/// The commands that paint `e` into `bounds`.
pub open spec fn element_commands<'a>(e: Element<'a>, bounds: Rectangle) -> Seq<Command<'a>>
    decreases e, 0nat,
{
    match e {
        Element::Empty => Seq::empty(),
        Element::Rect(r) => seq![Command::Rect { area: bounds, color: r.spec_color(), filled: r.spec_filled() }],
        Element::Label(l) => l.commands(bounds),
        Element::HStack(s) => stack_commands(s, bounds),
        Element::VStack(s) => stack_commands(s, bounds),
        Element::Text(t) => t.commands(bounds),
    }
}

/// The commands that paint a stack into `bounds`: its children, in order,
/// each into the rectangle the layout gives it.
pub open spec fn stack_commands<'a, D: StackDirection>(s: Stack<'a, D>, bounds: Rectangle) -> Seq<Command<'a>>
    decreases s, 0nat,
{
    proof {
        s.lemma_children_decrease();
    }
    children_commands(
        s.spec_children(),
        stack_rects(D::horizontal(), s.flexes(), bounds, s.spec_padding(), s.spec_gap()),
        0,
    )
}

/// The commands of children `k..` painted into their rectangles (none when
/// the layout gave no rectangles).
pub open spec fn children_commands<'a>(children: Seq<FlexChild<'a>>, rects: Seq<Rectangle>, k: int) -> Seq<Command<'a>>
    decreases children, children.len() - k,
{
    if k < 0 || k >= children.len() || k >= rects.len() {
        Seq::empty()
    } else {
        element_commands(children[k].element, rects[k]) + children_commands(children, rects, k + 1)
    }
}

/// What painting `e1` into `bounds` leaves, `e2`: each text element painted
/// is measured through its cache (`Text::paint_step`); nothing else changes.
pub open spec fn element_painted<'a>(e1: Element<'a>, e2: Element<'a>, bounds: Rectangle) -> bool
    decreases e1, 0nat,
{
    match e1 {
        Element::Text(t) => e2 matches Element::Text(t2) && t.paint_step(t2),
        Element::HStack(s) => e2 matches Element::HStack(s2) && stack_painted(s, s2, bounds),
        Element::VStack(s) => e2 matches Element::VStack(s2) && stack_painted(s, s2, bounds),
        _ => e2 == e1,
    }
}

/// What painting stack `s1` into `bounds` leaves, `s2`: the same settings
/// and weights, and each child that the layout gave a rectangle painted
/// into it.
pub open spec fn stack_painted<'a, D: StackDirection>(s1: Stack<'a, D>, s2: Stack<'a, D>, bounds: Rectangle) -> bool
    decreases s1, 0nat,
{
    proof {
        s1.lemma_children_decrease();
    }
    &&& s2.spec_bounds() == s1.spec_bounds()
    &&& s2.spec_justify() == s1.spec_justify()
    &&& s2.spec_align() == s1.spec_align()
    &&& s2.spec_padding() == s1.spec_padding()
    &&& s2.spec_gap() == s1.spec_gap()
    &&& s2.spec_children().len() == s1.spec_children().len()
    &&& children_painted(
        s1.spec_children(),
        s2.spec_children(),
        stack_rects(D::horizontal(), s1.flexes(), bounds, s1.spec_padding(), s1.spec_gap()),
        0,
    )
}

/// Children `k..` of `c1` painted into their rectangles give those of `c2`;
/// a child without a rectangle is left as it is.
pub open spec fn children_painted<'a>(c1: Seq<FlexChild<'a>>, c2: Seq<FlexChild<'a>>, rects: Seq<Rectangle>, k: int) -> bool
    decreases c1, c1.len() - k,
{
    if k < 0 || k >= c1.len() {
        true
    } else {
        &&& c2[k].flex == c1[k].flex
        &&& if k < rects.len() {
            element_painted(c1[k].element, c2[k].element, rects[k])
        } else {
            c2[k].element == c1[k].element
        }
        &&& children_painted(c1, c2, rects, k + 1)
    }
}

/// `children_painted` from what holds of each child.
pub proof fn lemma_children_painted<'a>(c1: Seq<FlexChild<'a>>, c2: Seq<FlexChild<'a>>, rects: Seq<Rectangle>, k: int)
    requires
        0 <= k,
        c1.len() == c2.len(),
        forall|j: int|
            k <= j < c1.len() ==> {
                &&& (#[trigger] c2[j]).flex == c1[j].flex
                &&& if j < rects.len() {
                    element_painted(c1[j].element, c2[j].element, rects[j])
                } else {
                    c2[j].element == c1[j].element
                }
            },
    ensures
        children_painted(c1, c2, rects, k),
    decreases c1.len() - k,
{
    if k < c1.len() {
        lemma_children_painted(c1, c2, rects, k + 1);
    }
}

/// Whether painting `e` into `bounds` stays within machine integers.
pub open spec fn element_paint_ok(e: Element, bounds: Rectangle) -> bool
    decreases e, 0nat,
{
    match e {
        Element::Empty => true,
        Element::Rect(_) => true,
        Element::Label(l) => l.paint_ok(bounds),
        Element::HStack(s) => stack_paint_ok(s, bounds),
        Element::VStack(s) => stack_paint_ok(s, bounds),
        Element::Text(t) => t.paint_ok(bounds),
    }
}

/// Whether painting a stack into `bounds` stays within machine integers.
pub open spec fn stack_paint_ok<D: StackDirection>(s: Stack<D>, bounds: Rectangle) -> bool
    decreases s, 0nat,
{
    proof {
        s.lemma_children_decrease();
    }
    &&& stack_layout_ok(D::horizontal(), s.flexes(), bounds, s.spec_padding(), s.spec_gap())
    &&& children_paint_ok(
        s.spec_children(),
        stack_rects(D::horizontal(), s.flexes(), bounds, s.spec_padding(), s.spec_gap()),
        0,
    )
}

/// Whether painting children `k..` into their rectangles stays within
/// machine integers.
pub open spec fn children_paint_ok(children: Seq<FlexChild>, rects: Seq<Rectangle>, k: int) -> bool
    decreases children, children.len() - k,
{
    if k < 0 || k >= children.len() || k >= rects.len() {
        true
    } else {
        element_paint_ok(children[k].element, rects[k]) && children_paint_ok(children, rects, k + 1)
    }
}

impl<'a> Element<'a> {
    /// The element's natural size, if it has one: labels and single-line
    /// text measure their string; rectangles, stacks and the empty element
    /// fill whatever they are given. A multi-line text element measures to
    /// its maximum width and `wrapped_height`.
    pub fn measure(&mut self, wrapped_height: u32) -> (r: Option<Size>)
        requires
            match *old(self) {
                Element::Label(l) => l.measure_ok(),
                Element::Text(t) => t.spec_cached() is None ==> {
                    &&& t.spec_max_width() is None ==> t.measure_ok()
                    &&& t.spec_compute_count() < u32::MAX
                },
                _ => true,
            },
        ensures
            match *old(self) {
                Element::Label(l) => *final(self) == *old(self) && r == Some(l.measure_spec()),
                Element::Text(t) => {
                    &&& *final(self) matches Element::Text(t2)
                    &&& r == t2.spec_cached()
                    &&& t2.spec_text() == t.spec_text()
                    &&& t2.spec_max_width() == t.spec_max_width()
                    &&& (t.spec_cached() matches Some(c) ==> r == Some(c))
                    &&& (t.spec_cached() is None ==> r == Some(match t.spec_max_width() {
                        None => t.line_size(),
                        Some(w) => Size { width: w, height: wrapped_height },
                    }))
                },
                _ => *final(self) == *old(self) && r is None,
            },
    {
        match self {
            Element::Label(l) => Some(l.measure()),
            Element::Text(t) => Some(t.measure(wrapped_height)),
            _ => None,
        }
    }

    /// The commands that draw this element into `bounds`; text elements on
    /// the way are measured through their caches.
    pub fn paint(&mut self, bounds: Rectangle) -> (cmds: Vec<Command<'a>>)
        requires
            element_paint_ok(*old(self), bounds),
        ensures
            cmds@ == element_commands(*old(self), bounds),
            element_painted(*old(self), *final(self), bounds),
        decreases *old(self), 1nat,
    {
        match self {
            Element::Empty => Vec::new(),
            Element::Rect(r) => r.paint(bounds),
            Element::Label(l) => l.paint(bounds),
            Element::HStack(s) => s.paint_into(bounds),
            Element::VStack(s) => s.paint_into(bounds),
            Element::Text(t) => t.paint(bounds),
        }
    }
}

impl<'a> Label<'a> {
    /// The natural size of a label.
    pub open spec fn measure_spec(self) -> Size {
        crate::fonts::style::metrics_of(self.style(), self.spec_text()@, crate::geometry::Point { x: 0, y: 0 }, crate::fonts::style::Baseline::Top).bounding_box.size
    }
}

impl<'a> From<Rect> for Element<'a> {
    fn from(v: Rect) -> (e: Element<'a>) {
        Element::Rect(v)
    }
}

impl<'a> vstd::std_specs::convert::FromSpecImpl<Rect> for Element<'a> {
    open spec fn obeys_from_spec() -> bool {
        true
    }

    open spec fn from_spec(v: Rect) -> Element<'a> {
        Element::Rect(v)
    }
}

impl<'a> From<Label<'a>> for Element<'a> {
    fn from(v: Label<'a>) -> (e: Element<'a>) {
        Element::Label(v)
    }
}

impl<'a> vstd::std_specs::convert::FromSpecImpl<Label<'a>> for Element<'a> {
    open spec fn obeys_from_spec() -> bool {
        true
    }

    open spec fn from_spec(v: Label<'a>) -> Element<'a> {
        Element::Label(v)
    }
}

impl<'a> From<Text<'a>> for Element<'a> {
    fn from(v: Text<'a>) -> (e: Element<'a>) {
        Element::Text(v)
    }
}

impl<'a> vstd::std_specs::convert::FromSpecImpl<Text<'a>> for Element<'a> {
    open spec fn obeys_from_spec() -> bool {
        true
    }

    open spec fn from_spec(v: Text<'a>) -> Element<'a> {
        Element::Text(v)
    }
}

impl<'a> From<HStack<'a>> for Element<'a> {
    fn from(v: HStack<'a>) -> (e: Element<'a>) {
        Element::HStack(v)
    }
}

impl<'a> vstd::std_specs::convert::FromSpecImpl<HStack<'a>> for Element<'a> {
    open spec fn obeys_from_spec() -> bool {
        true
    }

    open spec fn from_spec(v: HStack<'a>) -> Element<'a> {
        Element::HStack(v)
    }
}

impl<'a> From<VStack<'a>> for Element<'a> {
    fn from(v: VStack<'a>) -> (e: Element<'a>) {
        Element::VStack(v)
    }
}

impl<'a> vstd::std_specs::convert::FromSpecImpl<VStack<'a>> for Element<'a> {
    open spec fn obeys_from_spec() -> bool {
        true
    }

    open spec fn from_spec(v: VStack<'a>) -> Element<'a> {
        Element::VStack(v)
    }
}

/// Law: a stack's justification and cross-axis alignment never change
/// what it paints: children always fill the main axis and are stretched
/// across, so two stacks with the same children, padding and gap paint the
/// same commands into the same bounds.
pub proof fn lemma_justify_and_align_paint_the_same<'a, D: StackDirection>(
    s1: Stack<'a, D>,
    s2: Stack<'a, D>,
    bounds: Rectangle,
)
    requires
        s1.spec_children() == s2.spec_children(),
        s1.spec_padding() == s2.spec_padding(),
        s1.spec_gap() == s2.spec_gap(),
    ensures
        stack_commands(s1, bounds) == stack_commands(s2, bounds),
{
}

} // verus!
