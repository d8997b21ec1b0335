//! Fixed-point planar geometry: points, rectangles, containment and
//! intersection tests, and the running bounding box of a point sequence.

use vstd::prelude::*;

verus! {

/// How many fixed-point units one geographic degree is split into.
pub const COORD_SCALE: i64 = 10_000_000;

/// A 2D coordinate in fixed-point degrees.
#[derive(Clone, Copy, PartialEq, Eq, Structural, Debug)]
pub struct Point {
    pub x: i64,
    pub y: i64,
}

/// A rectangle `[min_x, min_y, max_x, max_y]` in fixed-point degrees.
///
/// A fresh, empty bounding box is inverted (`min > max`) and contains no
/// point; it is the unit of `extend`.
#[derive(Clone, Copy, PartialEq, Eq, Structural, Debug)]
pub struct Bounds {
    pub min_x: i64,
    pub min_y: i64,
    pub max_x: i64,
    pub max_y: i64,
}

impl Bounds {
    /// Whether `p` lies inside this rectangle, borders included.
    pub open spec fn spec_contains(self, p: Point) -> bool {
        &&& self.min_x <= p.x <= self.max_x
        &&& self.min_y <= p.y <= self.max_y
    }

    /// Whether the two rectangles share at least one point.
    pub open spec fn spec_intersects(self, other: Bounds) -> bool {
        &&& self.min_x <= other.max_x
        &&& self.max_x >= other.min_x
        &&& self.min_y <= other.max_y
        &&& self.max_y >= other.min_y
    }

    /// The inverted empty rectangle: contains nothing, extends to anything.
    pub open spec fn spec_empty() -> Bounds {
        Bounds { min_x: i64::MAX, min_y: i64::MAX, max_x: i64::MIN, max_y: i64::MIN }
    }

    /// The smallest rectangle holding both `self` and `p`.
    pub open spec fn spec_extend(self, p: Point) -> Bounds {
        Bounds {
            min_x: if p.x < self.min_x { p.x } else { self.min_x },
            min_y: if p.y < self.min_y { p.y } else { self.min_y },
            max_x: if p.x > self.max_x { p.x } else { self.max_x },
            max_y: if p.y > self.max_y { p.y } else { self.max_y },
        }
    }

    /// The inverted empty rectangle, executable form.
    pub fn empty() -> (r: Bounds)
        ensures
            r == Bounds::spec_empty(),
    {
        Bounds { min_x: i64::MAX, min_y: i64::MAX, max_x: i64::MIN, max_y: i64::MIN }
    }

    /// Exact containment test.
    pub fn contains(&self, p: &Point) -> (r: bool)
        ensures
            r == self.spec_contains(*p),
    {
        self.min_x <= p.x && p.x <= self.max_x && self.min_y <= p.y && p.y <= self.max_y
    }

    /// Exact intersection test.
    pub fn intersects(&self, other: &Bounds) -> (r: bool)
        ensures
            r == self.spec_intersects(*other),
    {
        self.min_x <= other.max_x && self.max_x >= other.min_x && self.min_y <= other.max_y
            && self.max_y >= other.min_y
    }

    /// Grow the rectangle in place to take in `p`.
    pub fn extend(&mut self, p: &Point)
        ensures
            *final(self) == old(self).spec_extend(*p),
    {
        if p.x < self.min_x {
            self.min_x = p.x;
        }
        if p.y < self.min_y {
            self.min_y = p.y;
        }
        if p.x > self.max_x {
            self.max_x = p.x;
        }
        if p.y > self.max_y {
            self.max_y = p.y;
        }
    }
}

/// The running bounding box of the first `n` points of `ps`, folded in order
/// from the empty rectangle.
pub open spec fn bounds_of_prefix(ps: Seq<Point>, n: int) -> Bounds
    decreases n,
{
    if n <= 0 {
        Bounds::spec_empty()
    } else {
        bounds_of_prefix(ps, n - 1).spec_extend(ps[n - 1])
    }
}

/// The bounding box of a whole point sequence.
pub open spec fn bounds_of(ps: Seq<Point>) -> Bounds {
    bounds_of_prefix(ps, ps.len() as int)
}

/// Extending never shrinks a rectangle.
pub proof fn lemma_extend_grows(b: Bounds, p: Point, q: Point)
    ensures
        b.spec_contains(q) ==> b.spec_extend(p).spec_contains(q),
        b.spec_extend(p).spec_contains(p),
{
}

/// The folded bounding box of a sequence contains every point of it.
pub proof fn lemma_bounds_of_prefix_contains(ps: Seq<Point>, n: int, i: int)
    requires
        0 <= i < n <= ps.len(),
    ensures
        bounds_of_prefix(ps, n).spec_contains(ps[i]),
    decreases n,
{
    if i == n - 1 {
        lemma_extend_grows(bounds_of_prefix(ps, n - 1), ps[n - 1], ps[n - 1]);
    } else {
        lemma_bounds_of_prefix_contains(ps, n - 1, i);
        lemma_extend_grows(bounds_of_prefix(ps, n - 1), ps[n - 1], ps[i]);
    }
}

/// The folded bounding box looks only at the prefix it is folded over.
pub proof fn lemma_bounds_of_prefix_eq(ps: Seq<Point>, qs: Seq<Point>, n: int)
    requires
        0 <= n <= ps.len(),
        n <= qs.len(),
        forall|i: int| 0 <= i < n ==> ps[i] == qs[i],
    ensures
        bounds_of_prefix(ps, n) == bounds_of_prefix(qs, n),
    decreases n,
{
    if n > 0 {
        lemma_bounds_of_prefix_eq(ps, qs, n - 1);
    }
}

/// A cluster's bounding box encloses each of the cluster's points.
pub proof fn lemma_bounds_enclose(ps: Seq<Point>, i: int)
    requires
        0 <= i < ps.len(),
    ensures
        bounds_of(ps).spec_contains(ps[i]),
{
    lemma_bounds_of_prefix_contains(ps, ps.len() as int, i);
}

} // verus!
