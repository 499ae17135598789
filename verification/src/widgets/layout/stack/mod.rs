//! Flex-weighted stacks: horizontal and vertical containers of elements.

pub mod stack_direction;
pub mod flex;

pub use stack_direction::{Horizontal, StackDirection, Vertical};

use vstd::prelude::*;
use core::marker::PhantomData;
use crate::geometry::{Point, Size, Rectangle};
use crate::element::{
    Element, stack_commands, stack_paint_ok, children_commands, children_paint_ok, stack_painted, element_painted,
    lemma_children_painted,
};
use crate::widgets::command::Command;
use crate::widgets::layout::stack::stack_direction::{main_of, cross_of, main_start, child_rect, child_bounds_ok};
use crate::widgets::layout::stack::flex::{
    flex_prefix, flex_sum, sat_sub, share, shares_before, flex_sizes, size_prefix, offset_at,
    inset_rect, inset_ok, total_gap, main_for_children, stack_sizes, stack_offset, stack_rects,
    stack_layout_ok, lemma_flex_prefix_bounds, lemma_shares_fit, lemma_flex_sizes_fill,
};

verus! {

/// Controls how children are distributed along the main axis.
#[derive(Clone, Copy, Debug, PartialEq, Eq, Structural)]
pub enum Justify {
    /// Pack children at the start of the main axis (default).
    Start,
    /// Pack children at the end of the main axis.
    End,
    /// Center children along the main axis.
    Center,
}

/// Controls how each child is positioned on the cross axis.
#[derive(Clone, Copy, Debug, PartialEq, Eq, Structural)]
pub enum Align {
    /// Fill the entire cross-axis extent (default).
    Stretch,
    /// Align to the start of the cross axis.
    Start,
    /// Align to the end of the cross axis.
    End,
    /// Center on the cross axis.
    Center,
}

/// Shrink a rectangle by `px` on all sides.
pub fn inset(rect: &Rectangle, px: u32) -> (r: Rectangle)
    requires
        inset_ok(*rect, px),
    ensures
        r == inset_rect(*rect, px),
{
    let double = px * 2;
    Rectangle::new(
        Point::new(rect.top_left.x + px as i32, rect.top_left.y + px as i32),
        Size::new(rect.size.width.saturating_sub(double), rect.size.height.saturating_sub(double)),
    )
}

/// The rectangles of the children of a stack along `D` with the given flex
/// weights, inside `bounds`, with the given padding, gap and justification.
pub fn layout_children<D: StackDirection>(
    flexes: &Vec<u32>,
    bounds: Rectangle,
    padding: u32,
    gap: u32,
    justify: Justify,
) -> (rects: Vec<Rectangle>)
    requires
        stack_layout_ok(D::horizontal(), flexes@, bounds, padding, gap),
    ensures
        rects@ == stack_rects(D::horizontal(), flexes@, bounds, padding, gap),
{
    let ghost h = D::horizontal();
    let n = flexes.len();
    if n == 0 {
        return Vec::new();
    }
    let mut total_flex: u32 = 0;
    let mut k: usize = 0;
    while k < n
        invariant
            n == flexes@.len(),
            0 <= k <= n,
            total_flex == flex_prefix(flexes@, k as int),
            n > 0 && flex_sum(flexes@) > 0 ==> flex_sum(flexes@) <= u32::MAX,
        decreases n - k,
    {
        proof {
            lemma_flex_prefix_bounds(flexes@, k as int + 1, n as int);
            lemma_flex_prefix_bounds(flexes@, 0, k as int + 1);
        }
        total_flex = total_flex + flexes[k];
        k = k + 1;
    }
    if total_flex == 0 {
        return Vec::new();
    }
    let inner = inset(&bounds, padding);
    let main_total = D::main_axis_size(inner.size);
    let cross_total = D::cross_axis_size(inner.size);

    let total_gap = gap * (n as u32).saturating_sub(1);
    let main_for_children = main_total.saturating_sub(total_gap);
    let ghost sizes_spec = stack_sizes(h, flexes@, bounds, padding, gap);
    assert(main_for_children == crate::widgets::layout::stack::flex::main_for_children(h, n as int, inner, gap));

    let mut sizes: Vec<u32> = Vec::with_capacity(n);
    let mut allocated: u32 = 0;
    let mut i: usize = 0;
    while i < n
        invariant
            n == flexes@.len(),
            n > 0,
            0 <= i <= n,
            total_flex == flex_sum(flexes@),
            0 < flex_sum(flexes@) <= u32::MAX,
            sizes_spec == flex_sizes(main_for_children, flexes@, total_flex),
            sizes@.len() == i,
            forall|j: int| 0 <= j < i ==> sizes@[j] == sizes_spec[j],
            i < n ==> allocated == shares_before(main_for_children, flexes@, total_flex, i as int),
            i == n ==> allocated == main_for_children,
            forall|j: int| 0 <= j < n - 1 ==> #[trigger] flexes@[j] * main_for_children <= u32::MAX,
        decreases n - i,
    {
        proof {
            lemma_shares_fit(main_for_children, flexes@, i as int);
        }
        let size = if i == n - 1 {
            main_for_children.saturating_sub(allocated)
        } else {
            proof {
                lemma_flex_prefix_bounds(flexes@, i as int + 1, n as int);
                lemma_flex_prefix_bounds(flexes@, i as int, i as int);
                lemma_shares_fit(main_for_children, flexes@, i as int + 1);
                assert(flexes@[i as int] * main_for_children <= u32::MAX);
                assert(main_for_children * flexes@[i as int] <= u32::MAX) by (nonlinear_arith)
                    requires flexes@[i as int] * main_for_children <= u32::MAX;
            }
            main_for_children * flexes[i] / total_flex
        };
        sizes.push(size);
        allocated = allocated + size;
        i = i + 1;
    }

    let consumed = allocated + total_gap;
    let base_offset = D::initial_offset(&inner);
    assert(main_total.saturating_sub(consumed) == 0);
    let start_offset = match justify {
        Justify::Start => base_offset,
        Justify::End => base_offset + (main_total.saturating_sub(consumed)) as i32,
        Justify::Center => base_offset + (main_total.saturating_sub(consumed)) as i32 / 2,
    };

    let cross_offset: i32 = 0;
    let mut rects: Vec<Rectangle> = Vec::with_capacity(n);
    let mut offset = start_offset;
    let mut i: usize = 0;
    while i < n
        invariant
            n == flexes@.len(),
            n > 0,
            0 <= i <= n,
            flex_sum(flexes@) > 0,
            stack_layout_ok(h, flexes@, bounds, padding, gap),
            inner == inset_rect(bounds, padding),
            cross_offset == 0,
            h == D::horizontal(),
            cross_total == cross_of(h, inner.size),
            sizes@ == sizes_spec,
            sizes_spec == stack_sizes(h, flexes@, bounds, padding, gap),
            offset == stack_offset(h, flexes@, bounds, padding, gap, i as int),
            rects@.len() == i,
            forall|j: int| 0 <= j < i ==> rects@[j] == stack_rects(h, flexes@, bounds, padding, gap)[j],
        decreases n - i,
    {
        let child_main = sizes[i];
        let child_bounds = D::child_bounds(&inner, offset, child_main, cross_offset, cross_total);
        rects.push(child_bounds);
        assert(rects@[i as int] == stack_rects(h, flexes@, bounds, padding, gap)[i as int]);
        proof {
            assert(i32::MIN <= (sizes_spec[i as int] as i32) + (gap as i32) <= i32::MAX);
            assert(i32::MIN <= stack_offset(h, flexes@, bounds, padding, gap, i as int + 1) <= i32::MAX);
        }
        offset = offset + (child_main as i32 + gap as i32);
        i = i + 1;
    }
    assert(rects@ =~= stack_rects(h, flexes@, bounds, padding, gap));
    rects
}

/// A child of a stack with its flex weight.
pub struct FlexChild<'a> {
    /// The child element.
    pub element: Element<'a>,
    /// Its flex weight.
    pub flex: u32,
}

/// A flex-weighted stack layout along the axis `D`.
///
/// Each child receives a share of the main-axis length proportional to its
/// flex weight (default 1).
pub struct Stack<'a, D: StackDirection> {
    pub(crate) children: Vec<FlexChild<'a>>,
    pub(crate) _direction: PhantomData<D>,
    pub(crate) bounds: Option<Rectangle>,
    pub(crate) justify: Justify,
    pub(crate) align: Align,
    pub(crate) padding: u32,
    pub(crate) gap: u32,
}

/// Horizontal stack: children left to right.
pub type HStack<'a> = Stack<'a, crate::widgets::layout::stack::stack_direction::Horizontal>;

/// Vertical stack: children top to bottom.
pub type VStack<'a> = Stack<'a, crate::widgets::layout::stack::stack_direction::Vertical>;

/// The flex weights of a list of children.
pub open spec fn flexes_of(children: Seq<FlexChild>) -> Seq<u32> {
    children.map_values(|c: FlexChild| c.flex)
}

impl<'a, D: StackDirection> Stack<'a, D> {
    /// The children, in order.
    pub closed spec fn spec_children(self) -> Seq<FlexChild<'a>> {
        self.children@
    }

    /// A stack is larger than its list of children.
    pub proof fn lemma_children_decrease(self)
        ensures
            decreases_to!(self => self.spec_children()),
    {
        assert(decreases_to!(self => self.children));
        assert(decreases_to!(self.children => self.children@));
    }

    /// The children's flex weights, in order.
    pub open spec fn flexes(self) -> Seq<u32> {
        flexes_of(self.spec_children())
    }

    pub closed spec fn spec_bounds(self) -> Option<Rectangle> {
        self.bounds
    }

    pub closed spec fn spec_justify(self) -> Justify {
        self.justify
    }

    pub closed spec fn spec_align(self) -> Align {
        self.align
    }

    pub closed spec fn spec_padding(self) -> u32 {
        self.padding
    }

    pub closed spec fn spec_gap(self) -> u32 {
        self.gap
    }

    /// The bounds set by `within`, if any.
    pub fn bounds(&self) -> (b: Option<Rectangle>)
        ensures
            b == self.spec_bounds(),
    {
        self.bounds
    }

    /// An empty stack with no bounds of its own, packed at the start,
    /// stretched across, with no padding and no gap.
    pub fn new() -> (s: Self)
        ensures
            s.spec_children().len() == 0,
            s.spec_bounds() is None,
            s.spec_justify() == Justify::Start,
            s.spec_align() == Align::Stretch,
            s.spec_padding() == 0,
            s.spec_gap() == 0,
    {
        Stack {
            children: Vec::new(),
            _direction: PhantomData,
            bounds: None,
            justify: Justify::Start,
            align: Align::Stretch,
            padding: 0,
            gap: 0,
        }
    }

    /// An empty stack within `bounds`.
    pub fn within(bounds: Rectangle) -> (s: Self)
        ensures
            s.spec_children().len() == 0,
            s.spec_bounds() == Some(bounds),
            s.spec_justify() == Justify::Start,
            s.spec_align() == Align::Stretch,
            s.spec_padding() == 0,
            s.spec_gap() == 0,
    {
        Stack {
            children: Vec::new(),
            _direction: PhantomData,
            bounds: Some(bounds),
            justify: Justify::Start,
            align: Align::Stretch,
            padding: 0,
            gap: 0,
        }
    }

    /// The same stack with main-axis mode `justify`.
    pub fn justify(self, justify: Justify) -> (s: Self)
        ensures
            s.spec_children() == self.spec_children(),
            s.spec_bounds() == self.spec_bounds(),
            s.spec_justify() == justify,
            s.spec_align() == self.spec_align(),
            s.spec_padding() == self.spec_padding(),
            s.spec_gap() == self.spec_gap(),
    {
        let mut s = self;
        s.justify = justify;
        s
    }

    /// The same stack with cross-axis mode `align`.
    pub fn align(self, align: Align) -> (s: Self)
        ensures
            s.spec_children() == self.spec_children(),
            s.spec_bounds() == self.spec_bounds(),
            s.spec_justify() == self.spec_justify(),
            s.spec_align() == align,
            s.spec_padding() == self.spec_padding(),
            s.spec_gap() == self.spec_gap(),
    {
        let mut s = self;
        s.align = align;
        s
    }

    /// The same stack with uniform padding `px` on all sides.
    pub fn padding(self, px: u32) -> (s: Self)
        ensures
            s.spec_children() == self.spec_children(),
            s.spec_bounds() == self.spec_bounds(),
            s.spec_justify() == self.spec_justify(),
            s.spec_align() == self.spec_align(),
            s.spec_padding() == px,
            s.spec_gap() == self.spec_gap(),
    {
        let mut s = self;
        s.padding = px;
        s
    }

    /// The same stack with a fixed gap of `px` between children.
    pub fn gap(self, px: u32) -> (s: Self)
        ensures
            s.spec_children() == self.spec_children(),
            s.spec_bounds() == self.spec_bounds(),
            s.spec_justify() == self.spec_justify(),
            s.spec_align() == self.spec_align(),
            s.spec_padding() == self.spec_padding(),
            s.spec_gap() == px,
    {
        let mut s = self;
        s.gap = px;
        s
    }

    /// The same stack with `element` appended at flex weight 1.
    pub fn child(self, element: Element<'a>) -> (s: Self)
        ensures
            s.spec_children() == self.spec_children().push(FlexChild { element, flex: 1 }),
            s.spec_bounds() == self.spec_bounds(),
            s.spec_justify() == self.spec_justify(),
            s.spec_align() == self.spec_align(),
            s.spec_padding() == self.spec_padding(),
            s.spec_gap() == self.spec_gap(),
    {
        self.child_flex(element, 1)
    }

    /// The same stack with `element` appended at flex weight `flex`.
    pub fn child_flex(self, element: Element<'a>, flex: u32) -> (s: Self)
        ensures
            s.spec_children() == self.spec_children().push(FlexChild { element, flex }),
            s.spec_bounds() == self.spec_bounds(),
            s.spec_justify() == self.spec_justify(),
            s.spec_align() == self.spec_align(),
            s.spec_padding() == self.spec_padding(),
            s.spec_gap() == self.spec_gap(),
    {
        let mut s = self;
        s.children.push(FlexChild { element, flex });
        s
    }

    /// The commands that paint all children into the bounds set by `within`;
    /// text children are measured through their caches on the way.
    pub fn paint(&mut self) -> (cmds: Vec<Command<'a>>)
        requires
            old(self).spec_bounds() is Some,
            stack_paint_ok(*old(self), old(self).spec_bounds()->0),
        ensures
            cmds@ == stack_commands(*old(self), old(self).spec_bounds()->0),
            stack_painted(*old(self), *final(self), old(self).spec_bounds()->0),
    {
        let bounds = match self.bounds {
            Some(b) => b,
            None => Rectangle::new(Point::zero(), Size::new(0, 0)),
        };
        self.paint_into(bounds)
    }

    /// The commands that paint all children into `bounds`: each child into
    /// its flex share of the main axis, in order; text children are measured
    /// through their caches on the way.
    pub fn paint_into(&mut self, bounds: Rectangle) -> (cmds: Vec<Command<'a>>)
        requires
            stack_paint_ok(*old(self), bounds),
        ensures
            cmds@ == stack_commands(*old(self), bounds),
            stack_painted(*old(self), *final(self), bounds),
        decreases *old(self), 0nat,
    {
        let ghost start = *self;
        let ghost kids = self.children@;
        let n = self.children.len();
        let mut flexes: Vec<u32> = Vec::with_capacity(n);
        let mut i: usize = 0;
        while i < n
            invariant
                n == self.children@.len(),
                0 <= i <= n,
                flexes@ == flexes_of(self.children@).take(i as int),
            decreases n - i,
        {
            flexes.push(self.children[i].flex);
            i = i + 1;
            assert(flexes@ =~= flexes_of(self.children@).take(i as int));
        }
        assert(flexes@ =~= self.flexes());
        let rects = layout_children::<D>(&flexes, bounds, self.padding, self.gap, self.justify);
        let mut cmds: Vec<Command<'a>> = Vec::new();
        if rects.len() == 0 {
            assert(children_commands(kids, rects@, 0) =~= Seq::empty());
            proof {
                lemma_children_painted(kids, kids, rects@, 0);
            }
            return cmds;
        }
        let mut taken: Vec<FlexChild<'a>> = Vec::new();
        std::mem::swap(&mut taken, &mut self.children);
        let mut done: Vec<FlexChild<'a>> = Vec::new();
        assert(cmds@ + children_commands(kids, rects@, 0) =~= children_commands(kids, rects@, 0));
        assert(taken@ =~= kids.skip(0));
        let mut i: usize = 0;
        while i < n
            invariant
                rects@ == stack_rects(D::horizontal(), start.flexes(), bounds, start.padding, start.gap),
                rects@.len() == n,
                n == kids.len(),
                kids == start.children@,
                start == *old(self),
                0 <= i <= n,
                taken@ == kids.skip(i as int),
                done@.len() == i,
                children_paint_ok(kids, rects@, i as int),
                forall|j: int|
                    0 <= j < i ==> {
                        &&& (#[trigger] done@[j]).flex == kids[j].flex
                        &&& element_painted(kids[j].element, done@[j].element, rects@[j])
                    },
                cmds@ + children_commands(kids, rects@, i as int) == children_commands(kids, rects@, 0),
                self.bounds == start.bounds,
                self.justify == start.justify,
                self.align == start.align,
                self.padding == start.padding,
                self.gap == start.gap,
            decreases n - i,
        {
            let ghost before = cmds@;
            let mut child = taken.remove(0);
            assert(child == kids[i as int]);
            assert(kids.skip(i as int).remove(0) =~= kids.skip(i + 1));
            proof {
                start.lemma_children_decrease();
                assert(decreases_to!(kids => kids[i as int]));
                assert(decreases_to!(kids[i as int] => kids[i as int].element));
                assert(decreases_to!(start => kids[i as int].element));
                assert(decreases_to!(start => child.element));
            }
            let mut more = child.element.paint(rects[i]);
            cmds.append(&mut more);
            assert(cmds@ + children_commands(kids, rects@, i as int + 1) =~= before
                + children_commands(kids, rects@, i as int));
            done.push(child);
            i = i + 1;
        }
        assert(children_commands(kids, rects@, i as int) =~= Seq::empty());
        assert(cmds@ =~= cmds@ + children_commands(kids, rects@, i as int));
        self.children = done;
        proof {
            lemma_children_painted(kids, self.children@, rects@, 0);
        }
        cmds
    }
}

} // verus!
