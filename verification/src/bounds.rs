use vstd::prelude::*;

verus! {

/// An axis-aligned rectangle in lattice-point coordinates.
///
/// A `Bounds` value describes the smallest rectangle enclosing some
/// collection of lattice objects: `min_x <= max_x` and `min_y <= max_y`
/// hold for every rectangle this library produces.
#[derive(Debug, Clone, Copy, PartialEq, Eq, Hash, Structural)]
pub struct Bounds {
    pub min_x: i32,
    pub min_y: i32,
    pub max_x: i32,
    pub max_y: i32,
}

/// The componentwise min/max merge of two rectangles: the smallest
/// rectangle enclosing both.
pub open spec fn merged(a: Bounds, b: Bounds) -> Bounds {
    Bounds {
        min_x: if a.min_x <= b.min_x { a.min_x } else { b.min_x },
        min_y: if a.min_y <= b.min_y { a.min_y } else { b.min_y },
        max_x: if a.max_x >= b.max_x { a.max_x } else { b.max_x },
        max_y: if a.max_y >= b.max_y { a.max_y } else { b.max_y },
    }
}

impl Bounds {
    /// Folds a non-empty collection of rectangles into the smallest
    /// rectangle enclosing all of them, componentwise.
    pub fn min_bound(bounds: &[Bounds]) -> (r: Bounds)
        requires
            bounds@.len() > 0,
        ensures
            forall|i: int| 0 <= i < bounds@.len() ==> r.min_x <= #[trigger] bounds@[i].min_x,
            forall|i: int| 0 <= i < bounds@.len() ==> r.min_y <= #[trigger] bounds@[i].min_y,
            forall|i: int| 0 <= i < bounds@.len() ==> r.max_x >= #[trigger] bounds@[i].max_x,
            forall|i: int| 0 <= i < bounds@.len() ==> r.max_y >= #[trigger] bounds@[i].max_y,
            exists|i: int| 0 <= i < bounds@.len() && r.min_x == #[trigger] bounds@[i].min_x,
            exists|i: int| 0 <= i < bounds@.len() && r.min_y == #[trigger] bounds@[i].min_y,
            exists|i: int| 0 <= i < bounds@.len() && r.max_x == #[trigger] bounds@[i].max_x,
            exists|i: int| 0 <= i < bounds@.len() && r.max_y == #[trigger] bounds@[i].max_y,
    {
        let mut r = bounds[0];
        proof {
            assert(r.min_x == bounds@[0].min_x);
            assert(r.min_y == bounds@[0].min_y);
            assert(r.max_x == bounds@[0].max_x);
            assert(r.max_y == bounds@[0].max_y);
        }
        let mut i: usize = 1;
        while i < bounds.len()
            invariant
                1 <= i <= bounds@.len(),
                forall|j: int| 0 <= j < i ==> r.min_x <= #[trigger] bounds@[j].min_x,
                forall|j: int| 0 <= j < i ==> r.min_y <= #[trigger] bounds@[j].min_y,
                forall|j: int| 0 <= j < i ==> r.max_x >= #[trigger] bounds@[j].max_x,
                forall|j: int| 0 <= j < i ==> r.max_y >= #[trigger] bounds@[j].max_y,
                exists|j: int| 0 <= j < i && r.min_x == #[trigger] bounds@[j].min_x,
                exists|j: int| 0 <= j < i && r.min_y == #[trigger] bounds@[j].min_y,
                exists|j: int| 0 <= j < i && r.max_x == #[trigger] bounds@[j].max_x,
                exists|j: int| 0 <= j < i && r.max_y == #[trigger] bounds@[j].max_y,
            decreases bounds@.len() - i,
        {
            r = Bounds::min_bound_2_bounds(&r, &bounds[i]);
            i = i + 1;
        }
        r
    }

    /// The smallest rectangle enclosing the two given rectangles.
    pub fn min_bound_2_bounds(a: &Bounds, b: &Bounds) -> (r: Bounds)
        ensures
            r == merged(*a, *b),
    {
        Bounds {
            min_x: if a.min_x <= b.min_x { a.min_x } else { b.min_x },
            min_y: if a.min_y <= b.min_y { a.min_y } else { b.min_y },
            max_x: if a.max_x >= b.max_x { a.max_x } else { b.max_x },
            max_y: if a.max_y >= b.max_y { a.max_y } else { b.max_y },
        }
    }
}

} // verus!
