use crate::bounds::{merged, Bounds};
use vstd::prelude::*;

verus! {

/// A unit-length segment between two adjacent lattice points.
///
/// `Vertical(x, y)` runs from `(x, y)` up to `(x, y + 1)`;
/// `Horizontal(x, y)` runs from `(x, y)` right to `(x + 1, y)`.
/// Edges are plain values: two edges are equal iff they have the same
/// orientation and the same anchor point.
#[derive(Debug, Clone, Copy, PartialEq, Eq, Hash, Structural)]
pub enum Edge {
    Vertical(i32, i32),
    Horizontal(i32, i32),
}

/// The far endpoint of an edge stays on the lattice: `x + 1` (horizontal)
/// or `y + 1` (vertical) must fit in the coordinate type. Every edge a run
/// can produce satisfies this, since a run's half-open end coordinate is
/// itself representable.
pub open spec fn edge_ok(e: Edge) -> bool {
    match e {
        Edge::Vertical(_x, y) => y < i32::MAX,
        Edge::Horizontal(x, _y) => x < i32::MAX,
    }
}

/// Leftmost lattice x-coordinate touched by an edge.
pub open spec fn e_min_x(e: Edge) -> int {
    match e {
        Edge::Vertical(x, _y) => x as int,
        Edge::Horizontal(x, _y) => x as int,
    }
}

/// Lowest lattice y-coordinate touched by an edge.
pub open spec fn e_min_y(e: Edge) -> int {
    match e {
        Edge::Vertical(_x, y) => y as int,
        Edge::Horizontal(_x, y) => y as int,
    }
}

/// Rightmost lattice x-coordinate touched by an edge.
pub open spec fn e_max_x(e: Edge) -> int {
    match e {
        Edge::Vertical(x, _y) => x as int,
        Edge::Horizontal(x, _y) => x + 1,
    }
}

/// Highest lattice y-coordinate touched by an edge.
pub open spec fn e_max_y(e: Edge) -> int {
    match e {
        Edge::Vertical(_x, y) => y + 1,
        Edge::Horizontal(_x, y) => y as int,
    }
}

/// The edges of a horizontal run: `Horizontal(x, y)` for every `x` in
/// the half-open range `[start, end)`. Empty when `start >= end`.
pub open spec fn horiz_run(start: i32, end: i32, y: i32) -> Set<Edge> {
    Set::new(
        |e: Edge|
            match e {
                Edge::Horizontal(x, yy) => yy == y && start <= x < end,
                Edge::Vertical(_, _) => false,
            },
    )
}

/// The edges of a vertical run: `Vertical(x, y)` for every `y` in the
/// half-open range `[start, end)`. Empty when `start >= end`.
pub open spec fn vert_run(x: i32, start: i32, end: i32) -> Set<Edge> {
    Set::new(
        |e: Edge|
            match e {
                Edge::Vertical(xx, y) => xx == x && start <= y < end,
                Edge::Horizontal(_, _) => false,
            },
    )
}

/// The rectangle `b` encloses both endpoints of the edge `e`.
pub open spec fn covers(b: Bounds, e: Edge) -> bool {
    &&& b.min_x <= e_min_x(e)
    &&& e_max_x(e) <= b.max_x
    &&& b.min_y <= e_min_y(e)
    &&& e_max_y(e) <= b.max_y
}

/// `b` is the minimal rectangle enclosing the edge set `s`: it covers
/// every edge, and each of its four sides is attained by some edge.
/// No rectangle satisfies this for an empty set.
pub open spec fn is_bounds_of(b: Bounds, s: Set<Edge>) -> bool {
    &&& forall|e: Edge| #[trigger] s.contains(e) ==> covers(b, e)
    &&& exists|e: Edge| #[trigger] s.contains(e) && e_min_x(e) == b.min_x
    &&& exists|e: Edge| #[trigger] s.contains(e) && e_min_y(e) == b.min_y
    &&& exists|e: Edge| #[trigger] s.contains(e) && e_max_x(e) == b.max_x
    &&& exists|e: Edge| #[trigger] s.contains(e) && e_max_y(e) == b.max_y
}

/// The bounding rectangle of a non-empty edge set, as a value. By
/// `lemma_bounds_unique` it is the one rectangle satisfying
/// `is_bounds_of` whenever any rectangle does.
pub open spec fn spec_bounds(s: Set<Edge>) -> Bounds {
    choose|b: Bounds| is_bounds_of(b, s)
}

/// At most one rectangle is the minimal enclosure of a given edge set:
/// each side of either rectangle is attained by an edge the other must
/// cover, so the sides agree pairwise.
pub proof fn lemma_bounds_unique(a: Bounds, b: Bounds, s: Set<Edge>)
    requires
        is_bounds_of(a, s),
        is_bounds_of(b, s),
    ensures
        a == b,
{
}

/// A rectangle satisfying `is_bounds_of` equals `spec_bounds`.
pub proof fn lemma_bounds_is_spec_bounds(b: Bounds, s: Set<Edge>)
    requires
        is_bounds_of(b, s),
    ensures
        b == spec_bounds(s),
        is_bounds_of(spec_bounds(s), s),
{
    let c = choose|c: Bounds| is_bounds_of(c, s);
    lemma_bounds_unique(b, c, s);
}

/// The componentwise merge of the bounds of two edge sets is the bounds
/// of their union.
pub proof fn lemma_merged_bounds(a: Bounds, b: Bounds, s1: Set<Edge>, s2: Set<Edge>)
    requires
        is_bounds_of(a, s1),
        is_bounds_of(b, s2),
    ensures
        is_bounds_of(merged(a, b), s1.union(s2)),
{
    let m = merged(a, b);
    assert forall|e: Edge| #[trigger] s1.union(s2).contains(e) implies covers(m, e) by {
        if s1.contains(e) {
            assert(covers(a, e));
        } else {
            assert(covers(b, e));
        }
    }
    let wa = choose|e: Edge| s1.contains(e) && e_min_x(e) == a.min_x;
    let wb = choose|e: Edge| s2.contains(e) && e_min_x(e) == b.min_x;
    if a.min_x <= b.min_x {
        assert(s1.union(s2).contains(wa) && e_min_x(wa) == m.min_x);
    } else {
        assert(s1.union(s2).contains(wb) && e_min_x(wb) == m.min_x);
    }
    let wa = choose|e: Edge| s1.contains(e) && e_min_y(e) == a.min_y;
    let wb = choose|e: Edge| s2.contains(e) && e_min_y(e) == b.min_y;
    if a.min_y <= b.min_y {
        assert(s1.union(s2).contains(wa) && e_min_y(wa) == m.min_y);
    } else {
        assert(s1.union(s2).contains(wb) && e_min_y(wb) == m.min_y);
    }
    let wa = choose|e: Edge| s1.contains(e) && e_max_x(e) == a.max_x;
    let wb = choose|e: Edge| s2.contains(e) && e_max_x(e) == b.max_x;
    if a.max_x >= b.max_x {
        assert(s1.union(s2).contains(wa) && e_max_x(wa) == m.max_x);
    } else {
        assert(s1.union(s2).contains(wb) && e_max_x(wb) == m.max_x);
    }
    let wa = choose|e: Edge| s1.contains(e) && e_max_y(e) == a.max_y;
    let wb = choose|e: Edge| s2.contains(e) && e_max_y(e) == b.max_y;
    if a.max_y >= b.max_y {
        assert(s1.union(s2).contains(wa) && e_max_y(wa) == m.max_y);
    } else {
        assert(s1.union(s2).contains(wb) && e_max_y(wb) == m.max_y);
    }
}

impl Edge {
    /// The bounding rectangle of this single edge: its own two endpoints.
    pub fn bounds(&self) -> (r: Bounds)
        requires
            edge_ok(*self),
        ensures
            r.min_x == e_min_x(*self),
            r.min_y == e_min_y(*self),
            r.max_x == e_max_x(*self),
            r.max_y == e_max_y(*self),
            is_bounds_of(r, Set::empty().insert(*self)),
    {
        let r = match self {
            Edge::Vertical(x, y) => Bounds { min_x: *x, min_y: *y, max_x: *x, max_y: *y + 1 },
            Edge::Horizontal(x, y) => Bounds { min_x: *x, min_y: *y, max_x: *x + 1, max_y: *y },
        };
        proof {
            assert(Set::empty().insert(*self).contains(*self));
        }
        r
    }
}

} // verus!
