//! A rectangle widget, filled or outlined.

use vstd::prelude::*;
use crate::geometry::Rectangle;
use crate::color::{Rgb565, fg};
use crate::widgets::command::Command;

verus! {

/// A rectangle widget, either filled or stroked.
#[derive(Clone, Copy, Debug)]
pub struct Rect {
    pub(crate) color: Rgb565,
    pub(crate) filled: bool,
}

impl Rect {
    /// The rectangle's color.
    pub closed spec fn spec_color(self) -> Rgb565 {
        self.color
    }

    /// Whether the rectangle is filled (else outlined).
    pub closed spec fn spec_filled(self) -> bool {
        self.filled
    }

    /// A filled rectangle in the default foreground color (white).
    pub fn new() -> (r: Rect)
        ensures
            r.spec_filled(),
            r.spec_color().red() == 31 && r.spec_color().green() == 63 && r.spec_color().blue() == 31,
    {
        Rect { color: fg(), filled: true }
    }

    /// The same rectangle in color `c`.
    pub fn color(self, c: Rgb565) -> (r: Rect)
        ensures
            r.spec_color() == c,
            r.spec_filled() == self.spec_filled(),
    {
        Rect { color: c, filled: self.filled }
    }

    /// The same rectangle as a 1 px outline.
    pub fn stroke(self) -> (r: Rect)
        ensures
            r.spec_color() == self.spec_color(),
            !r.spec_filled(),
    {
        Rect { color: self.color, filled: false }
    }

    /// The commands that draw the rectangle into `bounds`.
    pub fn paint(&self, bounds: Rectangle) -> (cmds: Vec<Command<'static>>)
        ensures
            cmds@ == seq![Command::Rect { area: bounds, color: self.spec_color(), filled: self.spec_filled() }],
    {
        let mut cmds: Vec<Command<'static>> = Vec::new();
        cmds.push(Command::Rect { area: bounds, color: self.color, filled: self.filled });
        cmds
    }
}

} // verus!
