use crate::board::{bounds_result, TurtleBoard};
use crate::bounds::Bounds;
use crate::edge::{spec_bounds, Edge};
use crate::render::{
    dot_s, hcell, link_cells, link_line, newline_s, node_cells, node_line, rows_from, spec_render,
};
use vstd::prelude::*;

verus! {

/// Inserting the same run twice yields the same edge set as inserting
/// it once: every insertion ensures that the new edge set is the union
/// of the old one with the run's edge set, and folding the same run in
/// a second time adds nothing.
pub proof fn lemma_insertion_idempotent(s: Set<Edge>, run: Set<Edge>)
    ensures
        s.union(run).union(run) == s.union(run),
{
    assert(s.union(run).union(run) =~= s.union(run));
}

/// Every bounds query is a function of the edge set alone. Two boards
/// holding the same edges report the same rectangle (or both fail),
/// whatever their modes, their cache states, or the order their runs
/// were inserted in: a strict-mode and a lazy-mode board built from the
/// same insertions agree, and switching the mode back and forth between
/// queries never changes the answer.
pub proof fn lemma_bounds_depend_only_on_edges(a: TurtleBoard, b: TurtleBoard)
    requires
        a.edge_set() == b.edge_set(),
    ensures
        bounds_result(a.edge_set()) == bounds_result(b.edge_set()),
{
}

/// Switching the bounds-tracking mode is safe at any point: it leaves
/// the edge set and the cache's exactness untouched, so the board stays
/// well-formed and, by `lemma_bounds_depend_only_on_edges`, every later
/// bounds query answers as if the board had been in the new mode all
/// along.
pub proof fn lemma_mode_switch_preserves_wf(a: TurtleBoard, lazy: bool)
    requires
        a.wf(),
    ensures
        (TurtleBoard { lazy_bounds: lazy, ..a }).wf(),
        (TurtleBoard { lazy_bounds: lazy, ..a }).edge_set() == a.edge_set(),
{
}

/// Rendering is deterministic: the diagram is a function of the edge
/// set alone, so rendering the same board twice without mutation in
/// between, or rendering two boards holding the same edges, produces
/// identical text.
pub proof fn lemma_render_deterministic(a: TurtleBoard, b: TurtleBoard)
    requires
        a.edge_set() == b.edge_set(),
    ensures
        spec_render(a.edge_set(), spec_bounds(a.edge_set())) == spec_render(
            b.edge_set(),
            spec_bounds(b.edge_set()),
        ),
{
}

/// A node line spans `1 + 5 * (hi - lo)` characters: one more node
/// column than there are horizontal cells, each cell five characters
/// wide.
pub proof fn lemma_node_line_len(s: Set<Edge>, lo: int, hi: int, y: int)
    requires
        lo <= hi,
    ensures
        node_line(s, lo, hi, y).len() == 1 + 5 * (hi - lo),
{
    reveal_strlit("+");
    reveal_strlit("----");
    reveal_strlit("    ");
    lemma_node_cells_len(s, lo, hi, y);
}

proof fn lemma_node_cells_len(s: Set<Edge>, lo: int, hi: int, y: int)
    requires
        lo <= hi,
    ensures
        node_cells(s, lo, hi, y).len() == 5 * (hi - lo),
    decreases hi - lo,
{
    reveal_strlit("+");
    reveal_strlit("----");
    reveal_strlit("    ");
    if lo < hi {
        lemma_node_cells_len(s, lo + 1, hi, y);
    }
}

/// A link line spans `1 + 5 * (hi - lo)` characters, exactly as wide as
/// a node line over the same column range, so the vertical glyphs sit
/// directly under and over the node markers.
pub proof fn lemma_link_line_len(s: Set<Edge>, lo: int, hi: int, y: int)
    requires
        lo <= hi,
    ensures
        link_line(s, lo, hi, y).len() == 1 + 5 * (hi - lo),
{
    reveal_strlit("|");
    reveal_strlit(" ");
    reveal_strlit("    ");
    lemma_link_cells_len(s, lo, hi, y);
}

proof fn lemma_link_cells_len(s: Set<Edge>, lo: int, hi: int, y: int)
    requires
        lo <= hi,
    ensures
        link_cells(s, lo, hi, y).len() == 5 * (hi - lo),
    decreases hi - lo,
{
    reveal_strlit("|");
    reveal_strlit(" ");
    reveal_strlit("    ");
    if lo < hi {
        lemma_link_cells_len(s, lo + 1, hi, y);
    }
}

/// A node line shows a node marker at every lattice point of the
/// closed column range `[lo, hi]`: character `5 * k` of the line, for
/// each of the `hi - lo + 1` columns `k`.
pub proof fn lemma_node_line_markers(s: Set<Edge>, lo: int, hi: int, y: int)
    requires
        lo <= hi,
    ensures
        forall|k: int|
            0 <= k <= hi - lo ==> #[trigger] node_line(s, lo, hi, y)[5 * k] == '+',
    decreases hi - lo,
{
    reveal_strlit("+");
    reveal_strlit("----");
    reveal_strlit("    ");
    lemma_node_line_len(s, lo, hi, y);
    if lo == hi {
        assert(node_cells(s, lo, hi, y) == Seq::<char>::empty());
        assert(node_line(s, lo, hi, y) =~= dot_s());
        assert(node_line(s, lo, hi, y)[0] == '+');
    } else {
        lemma_node_line_markers(s, lo, hi - 1, y);
        lemma_node_line_len(s, lo, hi - 1, y);
        crate::render::lemma_node_cells_snoc(s, lo, hi - 1, y);
        let shorter = node_line(s, lo, hi - 1, y);
        let cell = hcell(s, hi - 1, y);
        assert(node_line(s, lo, hi, y) =~= shorter + cell);
        assert forall|k: int|
            0 <= k <= hi - lo implies #[trigger] node_line(s, lo, hi, y)[5 * k] == '+' by {
            if k <= hi - 1 - lo {
                assert(5 * k < shorter.len());
                assert(node_line(s, lo, hi, y)[5 * k] == shorter[5 * k]);
            } else {
                assert(k == hi - lo);
                assert(5 * k == shorter.len() + 4);
                assert(cell[4] == '+');
                assert(node_line(s, lo, hi, y)[5 * k] == cell[4]);
            }
        }
    }
}

/// The diagram's total size: with `w = 1 + 5 * (max_x - min_x)` the
/// width of every line and `h = max_y - min_y` the number of vertical
/// cells, the text holds `h + 1` node lines and `h` link lines of `w`
/// characters each, joined by `2 * h` newlines — one more node row than
/// there are vertical cells.
pub proof fn lemma_render_len(s: Set<Edge>, b: Bounds)
    requires
        b.min_x <= b.max_x,
        b.min_y <= b.max_y,
    ensures
        spec_render(s, b).len() == (1 + 5 * (b.max_x - b.min_x)) * (2 * (b.max_y - b.min_y) + 1)
            + 2 * (b.max_y - b.min_y),
{
    lemma_node_line_len(s, b.min_x as int, b.max_x as int, b.max_y as int);
    lemma_rows_from_len(s, b, b.max_y as int);
    let w = 1 + 5 * (b.max_x - b.min_x);
    let h = b.max_y - b.min_y;
    assert(w + h * (2 * w + 2) == w * (2 * h + 1) + 2 * h) by (nonlinear_arith);
}

/// Offset of the node line for the `i`-th node row from the top in the
/// rendered text, where `w` is the width of every line: each further
/// row adds a newline, a link line, a newline and a node line.
pub open spec fn row_start(i: int, w: int) -> int
    decreases i,
{
    if i <= 0 {
        0
    } else {
        row_start(i - 1, w) + 2 * w + 2
    }
}

proof fn lemma_row_start_mul(i: int, w: int)
    requires
        0 <= i,
    ensures
        row_start(i, w) == i * (2 * w + 2),
    decreases i,
{
    if i == 0 {
        assert(0 * (2 * w + 2) == 0) by (nonlinear_arith);
    } else {
        lemma_row_start_mul(i - 1, w);
        assert(i * (2 * w + 2) == (i - 1) * (2 * w + 2) + (2 * w + 2)) by (nonlinear_arith);
    }
}

proof fn lemma_rows_from_markers(s: Set<Edge>, b: Bounds, y: int)
    requires
        b.min_x <= b.max_x,
        b.min_y <= y,
    ensures
        forall|i: int, k: int|
            1 <= i <= y - b.min_y && 0 <= k <= b.max_x - b.min_x ==> #[trigger] rows_from(
                s,
                b,
                y,
            )[row_start(i, 1 + 5 * (b.max_x - b.min_x)) - (1 + 5 * (b.max_x - b.min_x)) + 5 * k]
                == '+',
    decreases y - b.min_y,
{
    reveal_strlit("\n");
    let w = 1 + 5 * (b.max_x - b.min_x);
    if y > b.min_y {
        lemma_rows_from_markers(s, b, y - 1);
        lemma_rows_from_len(s, b, y - 1);
        lemma_node_line_len(s, b.min_x as int, b.max_x as int, y - 1);
        lemma_link_line_len(s, b.min_x as int, b.max_x as int, y - 1);
        lemma_node_line_markers(s, b.min_x as int, b.max_x as int, y - 1);
        let a = newline_s() + link_line(s, b.min_x as int, b.max_x as int, y - 1) + newline_s();
        let c = node_line(s, b.min_x as int, b.max_x as int, y - 1);
        let d = rows_from(s, b, y - 1);
        assert(rows_from(s, b, y) =~= a + c + d);
        assert(a.len() == w + 2);
        assert(c.len() == w);
        assert forall|i: int, k: int|
            1 <= i <= y - b.min_y && 0 <= k <= b.max_x - b.min_x implies #[trigger] rows_from(
            s,
            b,
            y,
        )[row_start(i, 1 + 5 * (b.max_x - b.min_x)) - (1 + 5 * (b.max_x - b.min_x)) + 5 * k]
            == '+' by {
            lemma_row_start_mul(i, w);
            if i == 1 {
                let idx = row_start(1, w) - w + 5 * k;
                assert(idx == (w + 2) + 5 * k);
                assert(c[5 * k] == '+');
                assert((a + c + d)[idx] == c[5 * k]);
            } else {
                lemma_row_start_mul(i - 1, w);
                let idx = row_start(i, w) - w + 5 * k;
                let idx2 = row_start(i - 1, w) - w + 5 * k;
                assert(idx == (2 * w + 2) + idx2);
                assert((i - 1) * (2 * w + 2) >= 1 * (2 * w + 2)) by (nonlinear_arith)
                    requires
                        i - 1 >= 1,
                        w >= 1,
                ;
                assert((i - 1) * (2 * w + 2) <= (y - 1 - b.min_y) * (2 * w + 2))
                    by (nonlinear_arith)
                    requires
                        1 <= i - 1 <= y - 1 - b.min_y,
                        w >= 1,
                ;
                assert(0 <= idx2 < d.len());
                assert((a + c + d)[idx] == d[idx2]);
                assert(rows_from(s, b, y - 1)[row_start(i - 1, 1 + 5 * (b.max_x - b.min_x)) - (1
                    + 5 * (b.max_x - b.min_x)) + 5 * k] == '+');
            }
        }
    }
}

/// The rendered diagram shows a node marker at every lattice point of
/// the bounding rectangle, both edges inclusive: for every node row `i`
/// (counting from the top, row `i` drawing lattice row `max_y - i`) and
/// every column `k` (column `k` drawing lattice column `min_x + k`),
/// the character at `row_start(i, w) + 5 * k` is the marker, where
/// `w = 1 + 5 * (max_x - min_x)` is the line width.
pub proof fn lemma_render_markers(s: Set<Edge>, b: Bounds)
    requires
        b.min_x <= b.max_x,
        b.min_y <= b.max_y,
    ensures
        forall|i: int, k: int|
            0 <= i <= b.max_y - b.min_y && 0 <= k <= b.max_x - b.min_x ==> #[trigger] spec_render(
                s,
                b,
            )[row_start(i, 1 + 5 * (b.max_x - b.min_x)) + 5 * k] == '+',
{
    let w = 1 + 5 * (b.max_x - b.min_x);
    let h = b.max_y - b.min_y;
    lemma_node_line_len(s, b.min_x as int, b.max_x as int, b.max_y as int);
    lemma_node_line_markers(s, b.min_x as int, b.max_x as int, b.max_y as int);
    lemma_rows_from_markers(s, b, b.max_y as int);
    lemma_rows_from_len(s, b, b.max_y as int);
    let nl0 = node_line(s, b.min_x as int, b.max_x as int, b.max_y as int);
    let d = rows_from(s, b, b.max_y as int);
    assert forall|i: int, k: int|
        0 <= i <= b.max_y - b.min_y && 0 <= k <= b.max_x - b.min_x implies #[trigger] spec_render(
        s,
        b,
    )[row_start(i, 1 + 5 * (b.max_x - b.min_x)) + 5 * k] == '+' by {
        lemma_row_start_mul(i, w);
        if i == 0 {
            assert(spec_render(s, b)[5 * k] == nl0[5 * k]);
            assert(nl0[5 * k] == '+');
        } else {
            let idx = row_start(i, w) + 5 * k;
            assert(i * (2 * w + 2) >= 1 * (2 * w + 2)) by (nonlinear_arith)
                requires
                    i >= 1,
                    w >= 1,
            ;
            assert(i * (2 * w + 2) <= h * (2 * w + 2)) by (nonlinear_arith)
                requires
                    1 <= i <= h,
                    w >= 1,
            ;
            assert(0 <= idx - w < d.len());
            assert(spec_render(s, b)[idx] == d[idx - w]);
            assert(rows_from(s, b, b.max_y as int)[row_start(i, 1 + 5 * (b.max_x - b.min_x)) - (1
                + 5 * (b.max_x - b.min_x)) + 5 * k] == '+');
        }
    }
}

proof fn lemma_rows_from_len(s: Set<Edge>, b: Bounds, y: int)
    requires
        b.min_x <= b.max_x,
        b.min_y <= y,
    ensures
        rows_from(s, b, y).len() == (y - b.min_y) * (2 * (1 + 5 * (b.max_x - b.min_x)) + 2),
    decreases y - b.min_y,
{
    reveal_strlit("\n");
    let w = 1 + 5 * (b.max_x - b.min_x);
    if y == b.min_y {
        assert((y - b.min_y) * (2 * w + 2) == 0) by (nonlinear_arith)
            requires y == b.min_y;
    }
    if y > b.min_y {
        lemma_rows_from_len(s, b, y - 1);
        lemma_node_line_len(s, b.min_x as int, b.max_x as int, y - 1);
        lemma_link_line_len(s, b.min_x as int, b.max_x as int, y - 1);
        assert(rows_from(s, b, y).len() == 2 + 2 * w + (y - 1 - b.min_y) * (2 * w + 2));
        assert(2 + 2 * w + (y - 1 - b.min_y) * (2 * w + 2) == (y - b.min_y) * (2 * w + 2))
            by (nonlinear_arith);
    }
}

} // verus!
