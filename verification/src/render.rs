use crate::board::{EmptyGridBoundsError, TurtleBoard};
use crate::bounds::Bounds;
use crate::edge::{lemma_bounds_is_spec_bounds, spec_bounds, Edge};
use vstd::prelude::*;
use vstd::string::StringExecFns;

verus! {

/// Node-marker glyph, drawn at every lattice point.
pub open spec fn dot_s() -> Seq<char> {
    "+"@
}

/// Glyph for a present horizontal edge between two node markers.
pub open spec fn dash_hor_s() -> Seq<char> {
    "----"@
}

/// Glyph for an absent horizontal edge; same width as `dash_hor_s`.
pub open spec fn blank_hor_s() -> Seq<char> {
    "    "@
}

/// Filler between vertical-glyph columns; same width as `dash_hor_s`,
/// so markers align between node lines and link lines.
pub open spec fn gap_s() -> Seq<char> {
    "    "@
}

/// Glyph for a present vertical edge.
pub open spec fn dash_ver_s() -> Seq<char> {
    "|"@
}

/// Glyph for an absent vertical edge.
pub open spec fn blank_ver_s() -> Seq<char> {
    " "@
}

/// Line separator.
pub open spec fn newline_s() -> Seq<char> {
    "\n"@
}

/// One horizontal cell of a node line: the glyph for the edge
/// `Horizontal(x, y)` followed by the node marker at `(x + 1, y)`.
pub open spec fn hcell(s: Set<Edge>, x: int, y: int) -> Seq<char> {
    (if s.contains(Edge::Horizontal(x as i32, y as i32)) {
        dash_hor_s()
    } else {
        blank_hor_s()
    }) + dot_s()
}

/// The horizontal cells of a node line for `x` in `[x, max_x)`.
pub open spec fn node_cells(s: Set<Edge>, x: int, max_x: int, y: int) -> Seq<char>
    decreases max_x - x,
{
    if x >= max_x {
        Seq::empty()
    } else {
        hcell(s, x, y) + node_cells(s, x + 1, max_x, y)
    }
}

/// A node line for lattice row `y`: a marker at every lattice point of
/// `[min_x, max_x]`, with a horizontal-edge glyph between neighbours.
pub open spec fn node_line(s: Set<Edge>, min_x: int, max_x: int, y: int) -> Seq<char> {
    dot_s() + node_cells(s, min_x, max_x, y)
}

/// The glyph at column `x` of a link line: whether `Vertical(x, y)` is
/// on the board.
pub open spec fn vglyph(s: Set<Edge>, x: int, y: int) -> Seq<char> {
    if s.contains(Edge::Vertical(x as i32, y as i32)) {
        dash_ver_s()
    } else {
        blank_ver_s()
    }
}

/// The glyph-plus-filler cells of a link line for `x` in `[x, max_x)`.
pub open spec fn link_cells(s: Set<Edge>, x: int, max_x: int, y: int) -> Seq<char>
    decreases max_x - x,
{
    if x >= max_x {
        Seq::empty()
    } else {
        vglyph(s, x, y) + gap_s() + link_cells(s, x + 1, max_x, y)
    }
}

/// A link line between lattice rows `y` and `y + 1`: one vertical-edge
/// glyph per lattice point of `[min_x, max_x]`, separated by filler.
pub open spec fn link_line(s: Set<Edge>, min_x: int, max_x: int, y: int) -> Seq<char> {
    link_cells(s, min_x, max_x, y) + vglyph(s, max_x, y)
}

/// The rows of the diagram below row `y`: for each row from `y - 1`
/// down to `b.min_y`, a link line then a node line, each preceded by a
/// newline. Empty once `y` reaches `b.min_y`.
pub open spec fn rows_from(s: Set<Edge>, b: Bounds, y: int) -> Seq<char>
    decreases y - b.min_y,
{
    if y <= b.min_y {
        Seq::empty()
    } else {
        newline_s() + link_line(s, b.min_x as int, b.max_x as int, y - 1) + newline_s()
            + node_line(s, b.min_x as int, b.max_x as int, y - 1) + rows_from(s, b, y - 1)
    }
}

/// The full text diagram of edge set `s` inside rectangle `b`: node
/// lines for rows `b.max_y` down to `b.min_y` (top row first), link
/// lines between them, single newlines as separators and no trailing
/// newline.
pub open spec fn spec_render(s: Set<Edge>, b: Bounds) -> Seq<char> {
    node_line(s, b.min_x as int, b.max_x as int, b.max_y as int) + rows_from(
        s,
        b,
        b.max_y as int,
    )
}

pub proof fn lemma_node_cells_snoc(s: Set<Edge>, lo: int, hi: int, y: int)
    requires
        lo <= hi,
    ensures
        node_cells(s, lo, hi + 1, y) == node_cells(s, lo, hi, y) + hcell(s, hi, y),
    decreases hi - lo,
{
    if lo == hi {
        assert(node_cells(s, lo, hi, y) == Seq::<char>::empty());
        assert(node_cells(s, lo + 1, hi + 1, y) == Seq::<char>::empty());
        assert(node_cells(s, lo, hi + 1, y) == hcell(s, lo, y) + node_cells(s, lo + 1, hi + 1, y));
        assert(node_cells(s, lo, hi + 1, y) =~= node_cells(s, lo, hi, y) + hcell(s, hi, y));
    } else {
        lemma_node_cells_snoc(s, lo + 1, hi, y);
        assert(node_cells(s, lo, hi + 1, y) == hcell(s, lo, y) + node_cells(s, lo + 1, hi + 1, y));
        assert(node_cells(s, lo, hi, y) == hcell(s, lo, y) + node_cells(s, lo + 1, hi, y));
        assert(node_cells(s, lo, hi + 1, y) =~= node_cells(s, lo, hi, y) + hcell(s, hi, y));
    }
}

pub proof fn lemma_link_cells_snoc(s: Set<Edge>, lo: int, hi: int, y: int)
    requires
        lo <= hi,
    ensures
        link_cells(s, lo, hi + 1, y) == link_cells(s, lo, hi, y) + vglyph(s, hi, y) + gap_s(),
    decreases hi - lo,
{
    if lo == hi {
        assert(link_cells(s, lo, hi, y) == Seq::<char>::empty());
        assert(link_cells(s, lo + 1, hi + 1, y) == Seq::<char>::empty());
        assert(link_cells(s, lo, hi + 1, y) == vglyph(s, lo, y) + gap_s() + link_cells(
            s,
            lo + 1,
            hi + 1,
            y,
        ));
        assert(link_cells(s, lo, hi + 1, y) =~= link_cells(s, lo, hi, y) + vglyph(s, hi, y)
            + gap_s());
    } else {
        lemma_link_cells_snoc(s, lo + 1, hi, y);
        assert(link_cells(s, lo, hi + 1, y) == vglyph(s, lo, y) + gap_s() + link_cells(
            s,
            lo + 1,
            hi + 1,
            y,
        ));
        assert(link_cells(s, lo, hi, y) == vglyph(s, lo, y) + gap_s() + link_cells(
            s,
            lo + 1,
            hi,
            y,
        ));
        assert(link_cells(s, lo, hi + 1, y) =~= link_cells(s, lo, hi, y) + vglyph(s, hi, y)
            + gap_s());
    }
}

impl TurtleBoard {
    /// Appends the node line for row `y` to `out`.
    fn push_node_line(&self, out: &mut String, b: &Bounds, y: i32)
        requires
            b.min_x <= b.max_x,
        ensures
            final(out)@ == old(out)@ + node_line(
                self.edge_set(),
                b.min_x as int,
                b.max_x as int,
                y as int,
            ),
    {
        out.append("+");
        let mut x = b.min_x;
        while x < b.max_x
            invariant
                b.min_x <= x <= b.max_x,
                out@ == old(out)@ + dot_s() + node_cells(
                    self.edge_set(),
                    b.min_x as int,
                    x as int,
                    y as int,
                ),
            decreases b.max_x - x,
        {
            let ghost cells0 = node_cells(self.edge_set(), b.min_x as int, x as int, y as int);
            if self.contains_edge(&Edge::Horizontal(x, y)) {
                out.append("----");
            } else {
                out.append("    ");
            }
            out.append("+");
            proof {
                lemma_node_cells_snoc(self.edge_set(), b.min_x as int, x as int, y as int);
                assert(out@ =~= old(out)@ + dot_s() + (cells0 + hcell(
                    self.edge_set(),
                    x as int,
                    y as int,
                )));
            }
            x = x + 1;
        }
        proof {
            assert(out@ =~= old(out)@ + node_line(
                self.edge_set(),
                b.min_x as int,
                b.max_x as int,
                y as int,
            ));
        }
    }

    /// Appends the link line between rows `y` and `y + 1` to `out`.
    fn push_link_line(&self, out: &mut String, b: &Bounds, y: i32)
        requires
            b.min_x <= b.max_x,
        ensures
            final(out)@ == old(out)@ + link_line(
                self.edge_set(),
                b.min_x as int,
                b.max_x as int,
                y as int,
            ),
    {
        let mut x = b.min_x;
        while x < b.max_x
            invariant
                b.min_x <= x <= b.max_x,
                out@ == old(out)@ + link_cells(
                    self.edge_set(),
                    b.min_x as int,
                    x as int,
                    y as int,
                ),
            decreases b.max_x - x,
        {
            let ghost cells0 = link_cells(self.edge_set(), b.min_x as int, x as int, y as int);
            if self.contains_edge(&Edge::Vertical(x, y)) {
                out.append("|");
            } else {
                out.append(" ");
            }
            out.append("    ");
            proof {
                lemma_link_cells_snoc(self.edge_set(), b.min_x as int, x as int, y as int);
                assert(out@ =~= old(out)@ + (cells0 + vglyph(self.edge_set(), x as int, y as int)
                    + gap_s()));
            }
            x = x + 1;
        }
        if self.contains_edge(&Edge::Vertical(b.max_x, y)) {
            out.append("|");
        } else {
            out.append(" ");
        }
        proof {
            assert(out@ =~= old(out)@ + link_line(
                self.edge_set(),
                b.min_x as int,
                b.max_x as int,
                y as int,
            ));
        }
    }

    /// Renders the board as a text diagram of its bounding rectangle:
    /// node lines for rows `max_y` down to `min_y` with link lines
    /// between them. Reads the board through the non-caching bounds
    /// path, so it neither depends on nor changes the cache; it fails
    /// exactly on an empty board. The output is a pure function of the
    /// edge set.
    pub fn render(&self) -> (r: Result<String, EmptyGridBoundsError>)
        requires
            self.wf(),
        ensures
            match r {
                Ok(t) => !self.edge_set().is_empty() && t@ == spec_render(
                    self.edge_set(),
                    spec_bounds(self.edge_set()),
                ),
                Err(e) => self.edge_set().is_empty() && e == EmptyGridBoundsError,
            },
    {
        let ghost s = self.edge_set();
        let b = match self.bounds_uncached() {
            Ok(b) => b,
            Err(e) => {
                return Err(e);
            },
        };
        proof {
            lemma_bounds_is_spec_bounds(b, s);
            let wx = choose|e: Edge| s.contains(e) && crate::edge::e_min_x(e) == b.min_x;
            assert(s.contains(wx) && crate::edge::covers(b, wx));
            let wy = choose|e: Edge| s.contains(e) && crate::edge::e_min_y(e) == b.min_y;
            assert(s.contains(wy) && crate::edge::covers(b, wy));
            assert(b.min_x <= b.max_x);
            assert(b.min_y <= b.max_y);
        }
        let mut out = String::new();
        self.push_node_line(&mut out, &b, b.max_y);
        proof {
            assert(Seq::<char>::empty() + node_line(s, b.min_x as int, b.max_x as int, b.max_y as int)
                =~= node_line(s, b.min_x as int, b.max_x as int, b.max_y as int));
        }
        let mut y = b.max_y;
        while y > b.min_y
            invariant
                b.min_y <= y <= b.max_y,
                b.min_x <= b.max_x,
                s == self.edge_set(),
                out@ + rows_from(s, b, y as int) == spec_render(s, b),
            decreases y - b.min_y,
        {
            let ghost out0 = out@;
            out.append("\n");
            self.push_link_line(&mut out, &b, y - 1);
            out.append("\n");
            self.push_node_line(&mut out, &b, y - 1);
            proof {
                assert(out@ + rows_from(s, b, y - 1) =~= out0 + rows_from(s, b, y as int));
            }
            y = y - 1;
        }
        proof {
            assert(out@ + rows_from(s, b, y as int) =~= out@);
        }
        Ok(out)
    }
}

} // verus!
