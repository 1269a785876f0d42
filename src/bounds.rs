//! Axis-aligned rectangles in integer world coordinates.
use vstd::prelude::*;

verus! {

/// The mathematical rectangle `[x0, x1] x [y0, y1]` that a `Bounds` covers.
pub ghost struct Rect {
    pub x0: int,
    pub y0: int,
    pub x1: int,
    pub y1: int,
}

/// Overlap that counts touching edges as contact.
pub open spec fn overlaps(a: Rect, b: Rect) -> bool {
    &&& a.x0 <= b.x1
    &&& b.x0 <= a.x1
    &&& a.y0 <= b.y1
    &&& b.y0 <= a.y1
}

/// `inner` lies fully inside `outer` without touching any of its edges.
pub open spec fn strictly_inside(inner: Rect, outer: Rect) -> bool {
    &&& inner.x0 > outer.x0
    &&& inner.x1 < outer.x1
    &&& inner.y0 > outer.y0
    &&& inner.y1 < outer.y1
}

/// `inner` lies inside `outer`, edges allowed to touch.
pub open spec fn within(inner: Rect, outer: Rect) -> bool {
    &&& outer.x0 <= inner.x0
    &&& inner.x1 <= outer.x1
    &&& outer.y0 <= inner.y0
    &&& inner.y1 <= outer.y1
}

/// The rectangle of size `w` x `h` whose lower-left corner is placed so that
/// `(cx, cy)` is its center (half sizes rounded down).
pub open spec fn centered_rect(cx: int, cy: int, w: nat, h: nat) -> Rect {
    Rect { x0: cx - w / 2, y0: cy - h / 2, x1: cx - w / 2 + w, y1: cy - h / 2 + h }
}

/// An axis-aligned box: lower-left corner `(x, y)` and a non-negative size.
#[derive(Clone, Copy, Debug, PartialEq, Eq, Structural)]
pub struct Bounds {
    pub x: i64,
    pub y: i64,
    pub width: u32,
    pub height: u32,
}

impl View for Bounds {
    type V = Rect;

    open spec fn view(&self) -> Rect {
        Rect {
            x0: self.x as int,
            y0: self.y as int,
            x1: self.x + self.width,
            y1: self.y + self.height,
        }
    }
}

impl Bounds {
    pub open spec fn spec_width(&self) -> nat {
        self.width as nat
    }

    pub open spec fn spec_height(&self) -> nat {
        self.height as nat
    }

    pub fn new(x: i64, y: i64, width: u32, height: u32) -> (r: Self)
        ensures
            r@ == (Rect { x0: x as int, y0: y as int, x1: x + width, y1: y + height }),
            r.spec_width() == width,
            r.spec_height() == height,
    {
        Self { x, y, width, height }
    }

    /// A box of the given size centered at `(x, y)`.
    pub fn with_center_position(x: i64, y: i64, width: u32, height: u32) -> (r: Self)
        requires
            x - width / 2 >= i64::MIN,
            y - height / 2 >= i64::MIN,
        ensures
            r@ == centered_rect(x as int, y as int, width as nat, height as nat),
            r.spec_width() == width,
            r.spec_height() == height,
    {
        let half_w = (width / 2) as i64;
        let half_h = (height / 2) as i64;
        Self { x: x - half_w, y: y - half_h, width, height }
    }

    pub fn set_position(&mut self, x: i64, y: i64)
        ensures
            final(self)@ == (Rect { x0: x as int, y0: y as int, x1: x + old(self).width, y1: y + old(self).height }),
            final(self).spec_width() == old(self).spec_width(),
            final(self).spec_height() == old(self).spec_height(),
    {
        self.x = x;
        self.y = y;
    }

    /// Moves the box so that `(x, y)` becomes its center.
    pub fn set_center_position(&mut self, x: i64, y: i64)
        requires
            x - old(self).spec_width() / 2 >= i64::MIN,
            y - old(self).spec_height() / 2 >= i64::MIN,
        ensures
            final(self)@ == centered_rect(x as int, y as int, old(self).spec_width(), old(self).spec_height()),
            final(self).spec_width() == old(self).spec_width(),
            final(self).spec_height() == old(self).spec_height(),
    {
        let (hw, hh) = self.get_half_size();
        self.x = x - hw as i64;
        self.y = y - hh as i64;
    }

    /// The same box centered at `(x, y)`, or `None` when its corner does not
    /// fit the coordinate type.
    pub fn recentered(&self, x: i64, y: i64) -> (r: Option<Bounds>)
        ensures
            match r {
                Some(b) => b@ == centered_rect(x as int, y as int, self.spec_width(), self.spec_height())
                    && b.spec_width() == self.spec_width() && b.spec_height() == self.spec_height(),
                None => x - self.spec_width() / 2 < i64::MIN || y - self.spec_height() / 2 < i64::MIN,
            },
    {
        let nx = x as i128 - (self.width / 2) as i128;
        let ny = y as i128 - (self.height / 2) as i128;
        if nx < i64::MIN as i128 || ny < i64::MIN as i128 {
            None
        } else {
            Some(Bounds { x: nx as i64, y: ny as i64, width: self.width, height: self.height })
        }
    }

    pub fn get_position(&self) -> (r: (i64, i64))
        ensures
            r.0 == self@.x0,
            r.1 == self@.y0,
    {
        (self.x, self.y)
    }

    pub fn get_size(&self) -> (r: (u32, u32))
        ensures
            r.0 == self.spec_width(),
            r.1 == self.spec_height(),
    {
        (self.width, self.height)
    }

    pub fn get_half_size(&self) -> (r: (u32, u32))
        ensures
            r.0 == self.spec_width() / 2,
            r.1 == self.spec_height() / 2,
    {
        (self.width / 2, self.height / 2)
    }

    /// The four corners, counter-clockwise from the lower-left one.
    pub fn get_corners(&self) -> (r: [(i128, i128); 4])
        ensures
            r@ == seq![
                (self@.x0 as i128, self@.y0 as i128),
                (self@.x1 as i128, self@.y0 as i128),
                (self@.x1 as i128, self@.y1 as i128),
                (self@.x0 as i128, self@.y1 as i128),
            ],
    {
        let x0 = self.x as i128;
        let y0 = self.y as i128;
        let x1 = self.x as i128 + self.width as i128;
        let y1 = self.y as i128 + self.height as i128;
        [(x0, y0), (x1, y0), (x1, y1), (x0, y1)]
    }

    fn right(&self) -> (r: i128)
        ensures
            r == self@.x1,
    {
        self.x as i128 + self.width as i128
    }

    fn top(&self) -> (r: i128)
        ensures
            r == self@.y1,
    {
        self.y as i128 + self.height as i128
    }

    fn cross_by_x(&self, x: i64) -> (r: bool)
        ensures
            r == (self@.x0 <= x && x <= self@.x1),
    {
        x >= self.x && x as i128 <= self.right()
    }

    fn cross_by_y(&self, y: i64) -> (r: bool)
        ensures
            r == (self@.y0 <= y && y <= self@.y1),
    {
        y >= self.y && y as i128 <= self.top()
    }

    /// Whether the two boxes overlap; touching edges count as a collision.
    pub fn has_collision(&self, other: &Bounds) -> (r: bool)
        ensures
            r == overlaps(self@, other@),
    {
        (self.cross_by_x(other.x) || other.cross_by_x(self.x)) && (self.cross_by_y(other.y)
            || other.cross_by_y(self.y))
    }

    /// Whether the point lies strictly inside the box.
    pub fn is_inside(&self, x: i64, y: i64) -> (r: bool)
        ensures
            r == (self@.x0 < x && x < self@.x1 && self@.y0 < y && y < self@.y1),
    {
        x > self.x && (x as i128) < self.right() && y > self.y && (y as i128) < self.top()
    }

    /// Whether `self` lies strictly inside `other`.
    pub fn is_inside_other(&self, other: &Bounds) -> (r: bool)
        ensures
            r == strictly_inside(self@, other@),
    {
        self.x > other.x && self.right() < other.right() && self.y > other.y && self.top()
            < other.top()
    }
}

} // verus!
