//! Plain rectangle geometry for shelves and tiles.

use vstd::prelude::*;

verus! {

/// Mathematical value of a [`Rect`]: the corner and the extent, as integers.
pub struct RectV {
    pub x: int,
    pub y: int,
    pub width: int,
    pub height: int,
}

/// An axis-aligned rectangle: top-left corner `(x, y)`, extent
/// `width` x `height`.
#[derive(Clone, Copy)]
pub struct Rect {
    x: i32,
    y: i32,
    width: u32,
    height: u32,
}

impl View for Rect {
    type V = RectV;

    closed spec fn view(&self) -> RectV {
        RectV { x: self.x as int, y: self.y as int, width: self.width as int, height: self.height as int }
    }
}

impl Rect {
    pub fn new(x: i32, y: i32, width: u32, height: u32) -> (r: Rect)
        ensures
            r@ == (RectV { x: x as int, y: y as int, width: width as int, height: height as int }),
    {
        Rect { x, y, width, height }
    }

    pub fn x(&self) -> (r: i32)
        ensures
            r == self@.x,
    {
        self.x
    }

    pub fn y(&self) -> (r: i32)
        ensures
            r == self@.y,
    {
        self.y
    }

    pub fn width(&self) -> (r: u32)
        ensures
            r == self@.width,
    {
        self.width
    }

    pub fn height(&self) -> (r: u32)
        ensures
            r == self@.height,
    {
        self.height
    }

    pub fn set_x(&mut self, new_x: i32)
        ensures
            final(self)@ == (RectV { x: new_x as int, ..old(self)@ }),
    {
        self.x = new_x;
    }

    pub fn set_y(&mut self, new_y: i32)
        ensures
            final(self)@ == (RectV { y: new_y as int, ..old(self)@ }),
    {
        self.y = new_y;
    }

    pub fn set_width(&mut self, new_width: u32)
        ensures
            final(self)@ == (RectV { width: new_width as int, ..old(self)@ }),
    {
        self.width = new_width;
    }

    pub fn set_height(&mut self, new_height: u32)
        ensures
            final(self)@ == (RectV { height: new_height as int, ..old(self)@ }),
    {
        self.height = new_height;
    }

    /// The x coordinate of the left edge.
    pub fn left(&self) -> (r: i32)
        ensures
            r == self@.x,
    {
        self.x
    }

    /// The x coordinate one past the right edge.
    pub fn right(&self) -> (r: i32)
        requires
            self@.width <= i32::MAX,
            self@.x + self@.width <= i32::MAX,
        ensures
            r == self@.x + self@.width,
    {
        self.x + self.width as i32
    }

    /// The y coordinate of the top edge.
    pub fn top(&self) -> (r: i32)
        ensures
            r == self@.y,
    {
        self.y
    }

    /// The y coordinate one past the bottom edge.
    pub fn bottom(&self) -> (r: i32)
        requires
            self@.height <= i32::MAX,
            self@.y + self@.height <= i32::MAX,
        ensures
            r == self@.y + self@.height,
    {
        self.y + self.height as i32
    }
}

} // verus!
