use crate::bounds::Bounds;
use crate::edge::{
    edge_ok, horiz_run, is_bounds_of, lemma_bounds_is_spec_bounds, lemma_merged_bounds,
    spec_bounds, vert_run, Edge,
};
use vstd::prelude::*;

verus! {

/// Asking for the bounding rectangle of a board with no edges: there is
/// no meaningful rectangle for an empty board, so the request fails
/// explicitly instead of returning a default.
#[derive(Debug, Clone, Copy, PartialEq, Eq, Structural)]
pub struct EmptyGridBoundsError;

/// What any bounds query on a board with edge set `s` must return:
/// an explicit failure on an empty board, and otherwise the unique
/// minimal rectangle enclosing every edge.
pub open spec fn bounds_result(s: Set<Edge>) -> Result<Bounds, EmptyGridBoundsError> {
    if s.is_empty() {
        Err(EmptyGridBoundsError)
    } else {
        Ok(spec_bounds(s))
    }
}

/// A sparse, unbounded lattice grid of unit edges, with a switchable
/// bounds-tracking policy.
///
/// `edges` holds each distinct edge once. `lazy_bounds` selects the
/// policy: in lazy mode an insertion discards the cached rectangle, in
/// strict mode it folds the new run's extent into the cache. `bounds`
/// is the optional cached rectangle; whenever it is present it is the
/// exact minimal rectangle of the current edge set (see `wf`), so a
/// mode switch never leaves a misleading cache behind.
#[derive(Debug)]
pub struct TurtleBoard {
    pub edges: Vec<Edge>,
    pub lazy_bounds: bool,
    pub bounds: Option<Bounds>,
}

impl TurtleBoard {
    /// The set of distinct edges placed on the board.
    pub open spec fn edge_set(self) -> Set<Edge> {
        self.edges@.to_set()
    }

    /// Every stored edge keeps its far endpoint on the lattice.
    pub open spec fn edges_ok(self) -> bool {
        forall|e: Edge| #[trigger] self.edge_set().contains(e) ==> edge_ok(e)
    }

    /// The cached rectangle, when present, is exactly the minimal
    /// rectangle of the current edge set.
    pub open spec fn cache_ok(self) -> bool {
        match self.bounds {
            Some(b) => is_bounds_of(b, self.edge_set()),
            None => true,
        }
    }

    /// Well-formedness: no edge is stored twice, every edge is
    /// representable, and the cache is never stale.
    pub open spec fn wf(self) -> bool {
        &&& self.edges@.no_duplicates()
        &&& self.edges_ok()
        &&& self.cache_ok()
    }

    /// An empty board with the given bounds-tracking policy.
    pub fn new(lazy_bounds: bool) -> (r: TurtleBoard)
        ensures
            r.wf(),
            r.edge_set() == Set::<Edge>::empty(),
            r.lazy_bounds == lazy_bounds,
            r.bounds is None,
    {
        let r = TurtleBoard { edges: Vec::new(), lazy_bounds, bounds: None };
        proof {
            assert(r.edge_set() =~= Set::<Edge>::empty());
        }
        r
    }

    /// An empty board that recomputes its bounds on every query.
    pub fn new_lazy() -> (r: TurtleBoard)
        ensures
            r.wf(),
            r.edge_set() == Set::<Edge>::empty(),
            r.lazy_bounds,
            r.bounds is None,
    {
        TurtleBoard::new(true)
    }

    /// An empty board that maintains its bounds on every insertion.
    pub fn new_strict() -> (r: TurtleBoard)
        ensures
            r.wf(),
            r.edge_set() == Set::<Edge>::empty(),
            !r.lazy_bounds,
            r.bounds is None,
    {
        TurtleBoard::new(false)
    }

    /// Whether a single edge is on the board.
    pub fn contains_edge(&self, e: &Edge) -> (r: bool)
        ensures
            r == self.edge_set().contains(*e),
    {
        let mut i: usize = 0;
        while i < self.edges.len()
            invariant
                0 <= i <= self.edges@.len(),
                forall|j: int| 0 <= j < i ==> self.edges@[j] != *e,
            decreases self.edges@.len() - i,
        {
            if self.edges[i] == *e {
                proof {
                    assert(self.edges@.contains(*e));
                }
                return true;
            }
            i = i + 1;
        }
        proof {
            assert(!self.edges@.contains(*e));
        }
        false
    }

    /// Adds one edge, collapsing duplicates; the cache and the mode are
    /// untouched.
    fn insert_edge(&mut self, e: Edge)
        requires
            old(self).edges@.no_duplicates(),
        ensures
            final(self).edges@.no_duplicates(),
            final(self).edge_set() == old(self).edge_set().insert(e),
            final(self).lazy_bounds == old(self).lazy_bounds,
            final(self).bounds == old(self).bounds,
    {
        let present = self.contains_edge(&e);
        if !present {
            self.edges.push(e);
            proof {
                let s = old(self).edges@;
                assert forall|i: int, j: int|
                    0 <= i < self.edges@.len() && 0 <= j < self.edges@.len() && i != j implies self
                    .edges@[i] != self.edges@[j] by {
                    if i < s.len() && j < s.len() {
                    } else if j == s.len() {
                        assert(self.edges@[i] == s[i]);
                        if s[i] == e {
                            assert(s.contains(e));
                        }
                    } else {
                        assert(self.edges@[j] == s[j]);
                        if s[j] == e {
                            assert(s.contains(e));
                        }
                    }
                }
                assert forall|x: Edge| #[trigger]
                    final(self).edge_set().contains(x)
                        == old(self).edge_set().insert(e).contains(x) by {
                    if final(self).edges@.contains(x) {
                        let k = choose|k: int|
                            0 <= k < final(self).edges@.len() && final(self).edges@[k] == x;
                        if k < s.len() {
                            assert(s.contains(x));
                        }
                    }
                    if s.contains(x) {
                        let k = choose|k: int| 0 <= k < s.len() && s[k] == x;
                        assert(final(self).edges@[k] == x);
                        assert(final(self).edges@.contains(x));
                    }
                    if x == e {
                        assert(final(self).edges@[s.len() as int] == e);
                        assert(final(self).edges@.contains(e));
                    }
                }
                assert(final(self).edge_set() =~= old(self).edge_set().insert(e));
            }
        } else {
            proof {
                assert(old(self).edge_set().insert(e) =~= old(self).edge_set());
            }
        }
    }

    /// Folds the extent of a run that is about to be inserted into the
    /// cache (strict mode), or discards the cache (lazy mode). `run` is
    /// the edge set of that run, and `bounds_to_fit` its exact bounds;
    /// afterwards the cache, if present, is the bounds of the board as
    /// it will be once the run's edges are stored.
    fn expand_to_fit(&mut self, bounds_to_fit: Bounds, run: Ghost<Set<Edge>>)
        requires
            old(self).wf(),
            is_bounds_of(bounds_to_fit, run@),
        ensures
            final(self).edges@ == old(self).edges@,
            final(self).lazy_bounds == old(self).lazy_bounds,
            match final(self).bounds {
                Some(b) => is_bounds_of(b, old(self).edge_set().union(run@)),
                None => true,
            },
            old(self).lazy_bounds ==> final(self).bounds is None,
            !old(self).lazy_bounds ==> final(self).bounds is Some,
    {
        let new_cache: Option<Bounds>;
        if self.lazy_bounds {
            new_cache = None;
        } else if self.edges.len() == 0 {
            proof {
                assert(self.edge_set() =~= Set::<Edge>::empty());
                assert(self.edge_set().union(run@) =~= run@);
            }
            new_cache = Some(bounds_to_fit);
        } else {
            proof {
                assert(self.edges@.contains(self.edges@[0]));
                assert(self.edge_set().contains(self.edges@[0]));
            }
            let cur = match self.bounds_uncached() {
                Ok(b) => b,
                Err(_) => vstd::pervasive::unreached(),
            };
            let folded = Bounds::min_bound_2_bounds(&bounds_to_fit, &cur);
            proof {
                lemma_merged_bounds(bounds_to_fit, cur, run@, self.edge_set());
                assert(run@.union(self.edge_set()) =~= self.edge_set().union(run@));
            }
            new_cache = Some(folded);
        }
        self.bounds = new_cache;
    }

    /// The minimal rectangle of the current edge set, recomputed from
    /// every stored edge; fails on an empty board.
    fn compute_bounds(&self) -> (r: Result<Bounds, EmptyGridBoundsError>)
        requires
            self.edges_ok(),
        ensures
            r == bounds_result(self.edge_set()),
            r matches Ok(b) ==> is_bounds_of(b, self.edge_set()),
    {
        if self.edges.len() == 0 {
            proof {
                assert(self.edge_set() =~= Set::<Edge>::empty());
            }
            return Err(EmptyGridBoundsError);
        }
        let mut bv: Vec<Bounds> = Vec::new();
        let mut i: usize = 0;
        while i < self.edges.len()
            invariant
                0 <= i <= self.edges@.len(),
                bv@.len() == i,
                self.edges_ok(),
                forall|j: int|
                    0 <= j < i ==> (#[trigger] bv@[j]).min_x == crate::edge::e_min_x(
                        self.edges@[j],
                    ) && bv@[j].min_y == crate::edge::e_min_y(self.edges@[j]) && bv@[j].max_x
                        == crate::edge::e_max_x(self.edges@[j]) && bv@[j].max_y
                        == crate::edge::e_max_y(self.edges@[j]),
            decreases self.edges@.len() - i,
        {
            let e = self.edges[i];
            proof {
                assert(self.edges@.contains(self.edges@[i as int]));
                assert(self.edge_set().contains(e));
            }
            bv.push(e.bounds());
            i = i + 1;
        }
        let b = Bounds::min_bound(bv.as_slice());
        proof {
            let s = self.edge_set();
            assert forall|e: Edge| #[trigger] s.contains(e) implies crate::edge::covers(b, e) by {
                let k = choose|k: int| 0 <= k < self.edges@.len() && self.edges@[k] == e;
                assert(bv@[k].min_x == crate::edge::e_min_x(e));
            }
            let k = choose|k: int| 0 <= k < bv@.len() && b.min_x == bv@[k].min_x;
            assert(self.edges@.contains(self.edges@[k]));
            assert(s.contains(self.edges@[k]) && crate::edge::e_min_x(self.edges@[k]) == b.min_x);
            let k = choose|k: int| 0 <= k < bv@.len() && b.min_y == bv@[k].min_y;
            assert(self.edges@.contains(self.edges@[k]));
            assert(s.contains(self.edges@[k]) && crate::edge::e_min_y(self.edges@[k]) == b.min_y);
            let k = choose|k: int| 0 <= k < bv@.len() && b.max_x == bv@[k].max_x;
            assert(self.edges@.contains(self.edges@[k]));
            assert(s.contains(self.edges@[k]) && crate::edge::e_max_x(self.edges@[k]) == b.max_x);
            let k = choose|k: int| 0 <= k < bv@.len() && b.max_y == bv@[k].max_y;
            assert(self.edges@.contains(self.edges@[k]));
            assert(s.contains(self.edges@[k]) && crate::edge::e_max_y(self.edges@[k]) == b.max_y);
            assert(is_bounds_of(b, s));
            lemma_bounds_is_spec_bounds(b, s);
        }
        Ok(b)
    }

    /// The bounding rectangle, without touching the cache: in lazy mode
    /// it always recomputes from the full edge set, in strict mode it
    /// answers from the cache when one is present. Always safe on a
    /// shared reference; fails exactly on an empty board.
    pub fn bounds_uncached(&self) -> (r: Result<Bounds, EmptyGridBoundsError>)
        requires
            self.wf(),
        ensures
            r == bounds_result(self.edge_set()),
            r matches Ok(b) ==> is_bounds_of(b, self.edge_set()),
    {
        if self.lazy_bounds {
            return self.compute_bounds();
        }
        match &self.bounds {
            Some(b) => {
                proof {
                    lemma_bounds_is_spec_bounds(*b, self.edge_set());
                    let w = choose|e: Edge|
                        self.edge_set().contains(e) && crate::edge::e_min_x(e) == b.min_x;
                    assert(self.edge_set().contains(w));
                }
                Ok(*b)
            },
            None => self.compute_bounds(),
        }
    }

    /// The bounding rectangle of the board; fails exactly on an empty
    /// board. In lazy mode every call recomputes from the full edge set
    /// and never writes the cache, not even transiently; in strict mode
    /// the cache answers when present, and a fresh computation is kept
    /// in it. The edge set and the mode are untouched either way.
    pub fn bounds(&mut self) -> (r: Result<Bounds, EmptyGridBoundsError>)
        requires
            old(self).wf(),
        ensures
            final(self).wf(),
            final(self).edges@ == old(self).edges@,
            final(self).lazy_bounds == old(self).lazy_bounds,
            r == bounds_result(old(self).edge_set()),
            r matches Ok(b) ==> is_bounds_of(b, old(self).edge_set()),
            old(self).lazy_bounds ==> final(self).bounds == old(self).bounds,
            !old(self).lazy_bounds ==> match r {
                Ok(b) => final(self).bounds == Some(b),
                Err(_) => final(self).bounds == old(self).bounds,
            },
    {
        if self.lazy_bounds {
            return self.compute_bounds();
        }
        if self.bounds.is_none() {
            match self.compute_bounds() {
                Ok(b) => {
                    self.bounds = Some(b);
                },
                Err(e) => {
                    return Err(e);
                },
            }
        }
        match &self.bounds {
            Some(b) => {
                proof {
                    lemma_bounds_is_spec_bounds(*b, self.edge_set());
                    let w = choose|e: Edge|
                        self.edge_set().contains(e) && crate::edge::e_min_x(e) == b.min_x;
                    assert(self.edge_set().contains(w));
                }
                Ok(*b)
            },
            None => vstd::pervasive::unreached(),
        }
    }

    /// Inserts `Horizontal(x, y)` for every `x` in `[xs.start, xs.end)`.
    /// An empty range is a valid no-op. Insertion is idempotent: the new
    /// edge set is the union of the old one with the run's edges. A
    /// non-empty run discards the cache in lazy mode and refreshes it in
    /// strict mode.
    pub fn add_horizontal_line(&mut self, xs: core::ops::Range<i32>, y: i32)
        requires
            old(self).wf(),
        ensures
            final(self).wf(),
            final(self).lazy_bounds == old(self).lazy_bounds,
            final(self).edge_set() == old(self).edge_set().union(
                horiz_run(xs.start, xs.end, y),
            ),
            xs.start < xs.end ==> (final(self).bounds is None <==> old(self).lazy_bounds),
            xs.start >= xs.end ==> final(self).bounds == old(self).bounds,
    {
        let ghost s0 = old(self).edge_set();
        let ghost run = horiz_run(xs.start, xs.end, y);
        if xs.start >= xs.end {
            proof {
                assert(run =~= Set::<Edge>::empty());
                assert(s0.union(run) =~= s0);
            }
            return ;
        }
        let rb = Bounds { min_x: xs.start, max_x: xs.end, min_y: y, max_y: y };
        proof {
            assert(run.contains(Edge::Horizontal(xs.start, y)));
            assert(run.contains(Edge::Horizontal((xs.end - 1) as i32, y)));
            assert(is_bounds_of(rb, run));
        }
        self.expand_to_fit(rb, Ghost(run));
        let mut x = xs.start;
        while x < xs.end
            invariant
                xs.start <= x <= xs.end,
                self.edges@.no_duplicates(),
                self.edges_ok(),
                self.lazy_bounds == old(self).lazy_bounds,
                self.edge_set() == s0.union(horiz_run(xs.start, x, y)),
                self.bounds is None <==> old(self).lazy_bounds,
                match self.bounds {
                    Some(b) => is_bounds_of(b, s0.union(horiz_run(xs.start, xs.end, y))),
                    None => true,
                },
            decreases xs.end - x,
        {
            let e = Edge::Horizontal(x, y);
            let ghost before = self.edge_set();
            self.insert_edge(e);
            proof {
                assert forall|z: Edge| #[trigger]
                    before.insert(e).contains(z) == s0.union(
                        horiz_run(xs.start, (x + 1) as i32, y),
                    ).contains(z) by {}
                assert(before.insert(e) =~= s0.union(horiz_run(xs.start, (x + 1) as i32, y)));
            }
            x = x + 1;
        }
        proof {
            assert(self.edge_set() == s0.union(run));
        }
    }

    /// Inserts `Vertical(x, y)` for every `y` in `[ys.start, ys.end)`.
    /// An empty range is a valid no-op. Insertion is idempotent: the new
    /// edge set is the union of the old one with the run's edges. A
    /// non-empty run discards the cache in lazy mode and refreshes it in
    /// strict mode.
    pub fn add_vertical_line(&mut self, x: i32, ys: core::ops::Range<i32>)
        requires
            old(self).wf(),
        ensures
            final(self).wf(),
            final(self).lazy_bounds == old(self).lazy_bounds,
            final(self).edge_set() == old(self).edge_set().union(vert_run(x, ys.start, ys.end)),
            ys.start < ys.end ==> (final(self).bounds is None <==> old(self).lazy_bounds),
            ys.start >= ys.end ==> final(self).bounds == old(self).bounds,
    {
        let ghost s0 = old(self).edge_set();
        let ghost run = vert_run(x, ys.start, ys.end);
        if ys.start >= ys.end {
            proof {
                assert(run =~= Set::<Edge>::empty());
                assert(s0.union(run) =~= s0);
            }
            return ;
        }
        let rb = Bounds { min_x: x, max_x: x, min_y: ys.start, max_y: ys.end };
        proof {
            assert(run.contains(Edge::Vertical(x, ys.start)));
            assert(run.contains(Edge::Vertical(x, (ys.end - 1) as i32)));
            assert(is_bounds_of(rb, run));
        }
        self.expand_to_fit(rb, Ghost(run));
        let mut yy = ys.start;
        while yy < ys.end
            invariant
                ys.start <= yy <= ys.end,
                self.edges@.no_duplicates(),
                self.edges_ok(),
                self.lazy_bounds == old(self).lazy_bounds,
                self.edge_set() == s0.union(vert_run(x, ys.start, yy)),
                self.bounds is None <==> old(self).lazy_bounds,
                match self.bounds {
                    Some(b) => is_bounds_of(b, s0.union(vert_run(x, ys.start, ys.end))),
                    None => true,
                },
            decreases ys.end - yy,
        {
            let e = Edge::Vertical(x, yy);
            let ghost before = self.edge_set();
            self.insert_edge(e);
            proof {
                assert forall|z: Edge| #[trigger]
                    before.insert(e).contains(z) == s0.union(
                        vert_run(x, ys.start, (yy + 1) as i32),
                    ).contains(z) by {}
                assert(before.insert(e) =~= s0.union(vert_run(x, ys.start, (yy + 1) as i32)));
            }
            yy = yy + 1;
        }
        proof {
            assert(self.edge_set() == s0.union(run));
        }
    }

    /// True iff every unit edge of the horizontal run `[xs.start, xs.end)`
    /// at height `y` is on the board; vacuously true for an empty range.
    pub fn contains_horizontal_line(&self, xs: core::ops::Range<i32>, y: i32) -> (r: bool)
        ensures
            r == forall|x: i32|
                xs.start <= x < xs.end ==> #[trigger] self.edge_set().contains(
                    Edge::Horizontal(x, y),
                ),
    {
        let mut x = xs.start;
        while x < xs.end
            invariant
                xs.start <= x,
                x <= xs.end || xs.end <= xs.start,
                forall|xx: i32|
                    xs.start <= xx < x ==> #[trigger] self.edge_set().contains(
                        Edge::Horizontal(xx, y),
                    ),
            decreases xs.end - x,
        {
            if !self.contains_edge(&Edge::Horizontal(x, y)) {
                proof {
                    assert(xs.start <= x < xs.end && !self.edge_set().contains(
                        Edge::Horizontal(x, y),
                    ));
                }
                return false;
            }
            x = x + 1;
        }
        true
    }

    /// True iff every unit edge of the vertical run `[ys.start, ys.end)`
    /// at column `x` is on the board; vacuously true for an empty range.
    pub fn contains_vertical_line(&self, x: i32, ys: core::ops::Range<i32>) -> (r: bool)
        ensures
            r == forall|yy: i32|
                ys.start <= yy < ys.end ==> #[trigger] self.edge_set().contains(
                    Edge::Vertical(x, yy),
                ),
    {
        let mut yy = ys.start;
        while yy < ys.end
            invariant
                ys.start <= yy,
                yy <= ys.end || ys.end <= ys.start,
                forall|zz: i32|
                    ys.start <= zz < yy ==> #[trigger] self.edge_set().contains(
                        Edge::Vertical(x, zz),
                    ),
            decreases ys.end - yy,
        {
            if !self.contains_edge(&Edge::Vertical(x, yy)) {
                proof {
                    assert(ys.start <= yy < ys.end && !self.edge_set().contains(
                        Edge::Vertical(x, yy),
                    ));
                }
                return false;
            }
            yy = yy + 1;
        }
        true
    }

    /// Helper for board equality: every stored edge of `self` is also on
    /// `other`.
    fn all_edges_in(&self, other: &TurtleBoard) -> (r: bool)
        ensures
            r == forall|i: int|
                0 <= i < self.edges@.len() ==> other.edge_set().contains(#[trigger] self.edges@[i]),
    {
        let mut i: usize = 0;
        while i < self.edges.len()
            invariant
                0 <= i <= self.edges@.len(),
                forall|j: int|
                    0 <= j < i ==> other.edge_set().contains(#[trigger] self.edges@[j]),
            decreases self.edges@.len() - i,
        {
            if !other.contains_edge(&self.edges[i]) {
                return false;
            }
            i = i + 1;
        }
        true
    }
}

impl PartialEq for TurtleBoard {
    /// Two boards are equal iff they hold the same edge set; the mode
    /// flag and the cache are not part of a board's identity.
    fn eq(&self, other: &TurtleBoard) -> (r: bool) {
        let fwd = self.all_edges_in(other);
        let bwd = other.all_edges_in(self);
        let r = fwd && bwd;
        proof {
            if r {
                assert forall|z: Edge| #[trigger]
                    self.edge_set().contains(z) == other.edge_set().contains(z) by {
                    if self.edges@.contains(z) {
                        let k = choose|k: int|
                            0 <= k < self.edges@.len() && self.edges@[k] == z;
                        assert(other.edge_set().contains(self.edges@[k]));
                    }
                    if other.edges@.contains(z) {
                        let k = choose|k: int|
                            0 <= k < other.edges@.len() && other.edges@[k] == z;
                        assert(self.edge_set().contains(other.edges@[k]));
                    }
                }
                assert(self.edge_set() =~= other.edge_set());
            } else if !fwd {
                let k = choose|k: int|
                    0 <= k < self.edges@.len() && !other.edge_set().contains(self.edges@[k]);
                assert(self.edges@.contains(self.edges@[k]));
                assert(self.edge_set().contains(self.edges@[k]));
            } else {
                let k = choose|k: int|
                    0 <= k < other.edges@.len() && !self.edge_set().contains(other.edges@[k]);
                assert(other.edges@.contains(other.edges@[k]));
                assert(other.edge_set().contains(other.edges@[k]));
            }
        }
        r
    }
}

impl Eq for TurtleBoard {

}

impl vstd::std_specs::cmp::PartialEqSpecImpl for TurtleBoard {
    open spec fn obeys_eq_spec() -> bool {
        true
    }

    open spec fn eq_spec(&self, other: &TurtleBoard) -> bool {
        self.edge_set() == other.edge_set()
    }
}

} // verus!
