//! Axis-aligned rectangles on the integer grid, and exact fractional cuts of them.

use vstd::prelude::*;
use vstd::arithmetic::div_mod::lemma_div_is_ordered;
use vstd::arithmetic::div_mod::lemma_div_multiples_vanish;
use vstd::arithmetic::mul::lemma_mul_inequality;
use vstd::arithmetic::mul::lemma_mul_is_commutative;

verus! {

/// The direction along which a region is cut.
#[derive(Clone, Copy, Debug, PartialEq, Eq, Structural)]
pub enum Axis {
    /// Left to right: parts sit side by side.
    Horizontal,
    /// Top to bottom: parts are stacked.
    Vertical,
}

/// The rectangle a [`Location`] stands for, over the mathematical integers.
pub struct Extent {
    pub x: int,
    pub y: int,
    pub width: int,
    pub height: int,
}

/// The largest coordinate of the grid.
pub open spec fn grid_max() -> int {
    u32::MAX as int
}

/// The largest denominator a fractional cut may have.
pub open spec fn cut_max() -> int {
    0x1_0000_0000_0000_0000_0000_0000
}

impl Extent {
    /// A rectangle of non-negative size that lies on the grid.
    pub open spec fn on_grid(self) -> bool {
        &&& 0 <= self.x
        &&& 0 <= self.y
        &&& 0 <= self.width
        &&& 0 <= self.height
        &&& self.x + self.width <= grid_max()
        &&& self.y + self.height <= grid_max()
    }

    /// The size along `axis`.
    pub open spec fn length(self, axis: Axis) -> int {
        match axis {
            Axis::Horizontal => self.width,
            Axis::Vertical => self.height,
        }
    }

    /// The origin's coordinate along `axis`.
    pub open spec fn start(self, axis: Axis) -> int {
        match axis {
            Axis::Horizontal => self.x,
            Axis::Vertical => self.y,
        }
    }

    /// One past the last coordinate along `axis`.
    pub open spec fn end(self, axis: Axis) -> int {
        self.start(axis) + self.length(axis)
    }

    /// Whether `self` lies inside `outer`.
    pub open spec fn within(self, outer: Extent) -> bool {
        &&& outer.x <= self.x
        &&& outer.y <= self.y
        &&& self.x + self.width <= outer.x + outer.width
        &&& self.y + self.height <= outer.y + outer.height
    }

    /// The part of `self` between the cuts at `from / total` and `to / total`
    /// of its length along `axis`; across the axis the part is as large as `self`.
    pub open spec fn span(self, axis: Axis, from: int, to: int, total: int) -> Extent {
        let low = cut(self.length(axis), from, total);
        let high = cut(self.length(axis), to, total);
        match axis {
            Axis::Horizontal => Extent { x: self.x + low, width: high - low, ..self },
            Axis::Vertical => Extent { y: self.y + low, height: high - low, ..self },
        }
    }
}

/// Where the cut at `part / total` of a length falls: the fraction of the
/// length, rounded down to the grid. With nothing to divide by, every cut is at 0.
pub open spec fn cut(length: int, part: int, total: int) -> int {
    if total <= 0 {
        0
    } else {
        (length * part) / total
    }
}

/// Cuts grow with the part, start at 0 and end at the full length.
pub proof fn lemma_cut_bounds(length: int, from: int, to: int, total: int)
    requires
        0 <= length,
        0 <= from <= to <= total,
    ensures
        0 <= cut(length, from, total) <= cut(length, to, total) <= length,
        cut(length, 0, total) == 0,
        total > 0 ==> cut(length, total, total) == length,
{
    if total > 0 {
        lemma_mul_inequality(from, to, length);
        lemma_mul_inequality(to, total, length);
        lemma_mul_is_commutative(length, from);
        lemma_mul_is_commutative(length, to);
        lemma_mul_is_commutative(length, total);
        assert(0 <= length * from) by (nonlinear_arith)
            requires
                0 <= length,
                0 <= from,
        ;
        lemma_div_is_ordered(0, length * from, total);
        lemma_div_is_ordered(length * from, length * to, total);
        lemma_div_is_ordered(length * to, length * total, total);
        lemma_div_multiples_vanish(length, total);
        assert(length * 0 == 0);
        assert(0int / total == 0);
    }
}

/// An axis-aligned rectangle: an origin and a size, in whole grid units.
///
/// Every location lies on the grid: its far corner is a grid point too.
#[derive(Clone, Copy, Debug, PartialEq, Eq, Structural)]
pub struct Location {
    pub(crate) x: u32,
    pub(crate) y: u32,
    pub(crate) width: u32,
    pub(crate) height: u32,
}

impl View for Location {
    type V = Extent;

    open(crate) spec fn view(&self) -> Extent {
        Extent {
            x: self.x as int,
            y: self.y as int,
            width: self.width as int,
            height: self.height as int,
        }
    }
}

impl Location {
    #[verifier::type_invariant]
    pub open(crate) spec fn fits(self) -> bool {
        self@.on_grid()
    }

    /// The location with origin `(x, y)` and the given size, if its far
    /// corner is still on the grid.
    pub fn new(x: u32, y: u32, width: u32, height: u32) -> (location: Option<Location>)
        ensures
            location is Some <==> x + width <= grid_max() && y + height <= grid_max(),
            location matches Some(l) ==> l@ == (Extent {
                x: x as int,
                y: y as int,
                width: width as int,
                height: height as int,
            }),
    {
        if width <= u32::MAX - x && height <= u32::MAX - y {
            Some(Location { x, y, width, height })
        } else {
            None
        }
    }

    /// The origin's horizontal coordinate.
    pub fn x(&self) -> (x: u32)
        ensures
            x == self@.x,
    {
        self.x
    }

    /// The origin's vertical coordinate.
    pub fn y(&self) -> (y: u32)
        ensures
            y == self@.y,
    {
        self.y
    }

    /// The horizontal size.
    pub fn width(&self) -> (width: u32)
        ensures
            width == self@.width,
    {
        self.width
    }

    /// The vertical size.
    pub fn height(&self) -> (height: u32)
        ensures
            height == self@.height,
    {
        self.height
    }

    /// The part of this location between two fractional cuts along `axis`.
    pub(crate) fn span(&self, axis: Axis, from: u128, to: u128, total: u128) -> (part: Location)
        requires
            from <= to <= total < cut_max(),
        ensures
            part@ == self@.span(axis, from as int, to as int, total as int),
            part@.on_grid(),
            part@.within(self@),
    {
        proof {
            use_type_invariant(self);
        }
        let length: u32 = match axis {
            Axis::Horizontal => self.width,
            Axis::Vertical => self.height,
        };
        let low: u32 = cut_at(length, from, total);
        let high: u32 = cut_at(length, to, total);
        proof {
            lemma_cut_bounds(length as int, from as int, to as int, total as int);
        }
        match axis {
            Axis::Horizontal => Location {
                x: self.x + low,
                y: self.y,
                width: high - low,
                height: self.height,
            },
            Axis::Vertical => Location {
                x: self.x,
                y: self.y + low,
                width: self.width,
                height: high - low,
            },
        }
    }
}

/// Computes [`cut`] for a length on the grid.
fn cut_at(length: u32, part: u128, total: u128) -> (at: u32)
    requires
        part <= total < cut_max(),
    ensures
        at == cut(length as int, part as int, total as int),
{
    if total == 0 {
        0
    } else {
        proof {
            lemma_cut_bounds(length as int, part as int, part as int, total as int);
            assert(length * part <= 0xffff_ffff * 0xffff_ffff_ffff_ffff_ffff_ffff) by (nonlinear_arith)
                requires
                    0 <= length <= 0xffff_ffff,
                    0 <= part <= 0xffff_ffff_ffff_ffff_ffff_ffff,
            ;
        }
        let scaled: u128 = (length as u128) * part;
        (scaled / total) as u32
    }
}

} // verus!
