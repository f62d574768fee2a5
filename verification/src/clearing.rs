//! Line clearing: once a piece has locked, every full row that one of its
//! cells lies in is taken out, and the rows above it move down.

use crate::color::Color;
use crate::gamefield::GameField;
use crate::grid::points;
use crate::grid::FieldView;
use vstd::prelude::*;

verus! {

/// Whether one of `nodes` lies in row `y`.
pub open spec fn touches(nodes: Seq<(int, int)>, y: int) -> bool {
    exists|k: int| 0 <= k < nodes.len() && (#[trigger] nodes[k]).1 == y
}

/// Whether `rows` rises strictly.
pub open spec fn rising(rows: Seq<i32>) -> bool {
    forall|a: int, b: int| 0 <= a < b < rows.len() ==> rows[a] < rows[b]
}

impl FieldView {
    /// Whether row `y` is to be cleared: it is full and one of `nodes` lies
    /// in it.
    pub open spec fn to_clear(self, nodes: Seq<(int, int)>, y: int) -> bool {
        touches(nodes, y) && self.row_full(y)
    }

    /// The board after the rows from `y` downwards were gone through in
    /// turn, and each one that was full by then and held one of `nodes` was
    /// taken out.
    pub open spec fn cleared_from(self, nodes: Seq<(int, int)>, y: int) -> FieldView
        decreases self.height - y,
    {
        if y >= self.height {
            self
        } else if self.to_clear(nodes, y) {
            self.row_removed(y).cleared_from(nodes, y + 1)
        } else {
            self.cleared_from(nodes, y + 1)
        }
    }

    /// The board after every full row that holds one of `nodes` was taken
    /// out, from the top row downwards.
    pub open spec fn cleared(self, nodes: Seq<(int, int)>) -> FieldView {
        self.cleared_from(nodes, 0)
    }

    /// How many of the rows from `lo` up to, but not including, `hi` are to
    /// be cleared.
    pub open spec fn to_clear_between(self, nodes: Seq<(int, int)>, lo: int, hi: int) -> int
        decreases hi - lo,
    {
        if hi <= lo {
            0
        } else {
            self.to_clear_between(nodes, lo, hi - 1) + if self.to_clear(nodes, hi - 1) {
                1int
            } else {
                0int
            }
        }
    }

    /// The row in which row `y` lies once the rows above `until` were gone
    /// through: as many rows further down as rows between the two were
    /// cleared.
    pub open spec fn landing(self, nodes: Seq<(int, int)>, y: int, until: int) -> int {
        y + self.to_clear_between(nodes, y + 1, until)
    }

    /// Rows that hold none of `nodes` are passed over.
    pub proof fn lemma_cleared_skips(self, nodes: Seq<(int, int)>, from: int, to: int)
        requires
            from <= to,
            forall|y: int| from <= y < to ==> !touches(nodes, y),
        ensures
            self.cleared_from(nodes, from) == self.cleared_from(nodes, to),
        decreases to - from,
    {
        if from < to {
            if from < self.height {
                self.lemma_cleared_skips(nodes, from + 1, to);
            }
        }
    }

    /// Where no row is full and holds one of `nodes`, clearing changes
    /// nothing.
    pub proof fn lemma_cleared_without_full_row(self, nodes: Seq<(int, int)>, from: int)
        requires
            forall|y: int| !self.to_clear(nodes, y),
        ensures
            self.cleared_from(nodes, from) == self,
        decreases self.height - from,
    {
        if from < self.height {
            self.lemma_cleared_without_full_row(nodes, from + 1);
        }
    }

    /// Nothing is cleared from a row on below which none of `nodes` lies.
    pub proof fn lemma_cleared_rest(self, nodes: Seq<(int, int)>, from: int)
        requires
            forall|y: int| from <= y ==> !touches(nodes, y),
        ensures
            self.cleared_from(nodes, from) == self,
    {
        if from < self.height {
            self.lemma_cleared_skips(nodes, from, self.height);
        }
    }
}

/// Which rows are full once a row was taken out: a row below it if it was
/// full, row 0 never, and another row if the row above it was full.
pub proof fn lemma_row_removed_row_full(f: FieldView, row: int, y: int)
    requires
        f.wf(),
        0 <= row < f.height,
    ensures
        f.row_removed(row).row_full(y) == if y > row {
            f.row_full(y)
        } else if y <= 0 {
            false
        } else {
            f.row_full(y - 1)
        },
{
    let g = f.row_removed(row);
    if 0 <= y < f.height {
        let from = if y > row {
            y
        } else {
            y - 1
        };
        assert forall|x: int| 0 <= x < f.width implies (#[trigger] g.occupied(x, y)) == (y > 0
            && f.occupied(x, from)) by {
            f.lemma_row_removed_cell(row, x, y);
        }
        if y == 0 {
            assert(!g.occupied(0, y));
        } else {
            if f.row_full(from) {
                assert forall|x: int| 0 <= x < g.width implies #[trigger] g.occupied(x, y) by {
                    assert(f.occupied(x, from));
                }
            }
            if g.row_full(y) {
                assert forall|x: int| 0 <= x < f.width implies #[trigger] f.occupied(x, from) by {
                    assert(g.occupied(x, y));
                }
            }
        }
    } else {
        assert(!g.occupied(0, y));
        if y > row {
            assert(!f.occupied(0, y));
        }
    }
}

/// Where no row above `from` is full, and from `from` downwards no row is
/// full but such as hold one of `nodes`, no row is full once the rows from
/// `from` downwards were gone through.
proof fn lemma_cleared_from_has_no_full_row(f: FieldView, nodes: Seq<(int, int)>, from: int)
    requires
        f.wf(),
        forall|y: int| y < from ==> !f.row_full(y),
        forall|y: int| from <= y && f.row_full(y) ==> touches(nodes, y),
    ensures
        forall|y: int| !f.cleared_from(nodes, from).row_full(y),
    decreases f.height - from,
{
    if from >= f.height {
        assert forall|y: int| !f.row_full(y) by {
            if y >= from {
                assert(!f.occupied(0, y));
            }
        }
    } else if f.to_clear(nodes, from) {
        assert(f.occupied(0, from));
        let g = f.row_removed(from);
        assert forall|y: int| y < from + 1 implies !g.row_full(y) by {
            lemma_row_removed_row_full(f, from, y);
        }
        assert forall|y: int| from + 1 <= y && g.row_full(y) implies touches(nodes, y) by {
            lemma_row_removed_row_full(f, from, y);
        }
        lemma_cleared_from_has_no_full_row(g, nodes, from + 1);
        assert(f.cleared_from(nodes, from) == g.cleared_from(nodes, from + 1));
    } else {
        assert forall|y: int| y < from + 1 implies !f.row_full(y) by {
            if y == from && f.row_full(y) {
                assert(touches(nodes, y));
            }
        }
        lemma_cleared_from_has_no_full_row(f, nodes, from + 1);
        assert(f.cleared_from(nodes, from) == f.cleared_from(nodes, from + 1));
    }
}

/// Where no row is full but such as hold one of `nodes`, no row at all is
/// full after clearing.
pub proof fn lemma_cleared_has_no_full_row(f: FieldView, nodes: Seq<(int, int)>)
    requires
        f.wf(),
        forall|y: int| f.row_full(y) ==> touches(nodes, y),
    ensures
        forall|y: int| !f.cleared(nodes).row_full(y),
{
    assert forall|y: int| y < 0 implies !f.row_full(y) by {
        assert(!f.occupied(0, y));
    }
    lemma_cleared_from_has_no_full_row(f, nodes, 0);
}

/// A row that is full once `nodes` were written was full before or holds
/// one of them.
pub proof fn lemma_with_blocks_row_full(f: FieldView, nodes: Seq<(int, int)>, color: Color, y: int)
    requires
        f.wf(),
        f.with_blocks(nodes, color).row_full(y),
    ensures
        f.row_full(y) || touches(nodes, y),
{
    let g = f.with_blocks(nodes, color);
    if !f.row_full(y) {
        let x = choose|x: int| 0 <= x < f.width && !f.occupied(x, y);
        assert(g.occupied(x, y));
        f.lemma_index_of_place(x, y);
        let k = choose|k: int| 0 <= k < nodes.len() && nodes[k] == (x, y);
        assert(nodes[k].1 == y);
    }
}

/// Clearing changes neither side of a board and keeps it well formed.
pub proof fn lemma_clearing_keeps_sides(f: FieldView, nodes: Seq<(int, int)>, from: int)
    requires
        f.wf(),
    ensures
        f.cleared_from(nodes, from).wf(),
        f.cleared_from(nodes, from).width == f.width,
        f.cleared_from(nodes, from).height == f.height,
    decreases f.height - from,
{
    if from < f.height {
        if f.to_clear(nodes, from) {
            lemma_clearing_keeps_sides(f.row_removed(from), nodes, from + 1);
        } else {
            lemma_clearing_keeps_sides(f, nodes, from + 1);
        }
    }
}

/// No more rows are to be cleared in a range than it has.
pub proof fn lemma_to_clear_between_bounds(f: FieldView, nodes: Seq<(int, int)>, lo: int, hi: int)
    ensures
        0 <= f.to_clear_between(nodes, lo, hi),
        f.to_clear_between(nodes, lo, hi) <= if lo <= hi {
            hi - lo
        } else {
            0
        },
    decreases hi - lo,
{
    if lo < hi {
        lemma_to_clear_between_bounds(f, nodes, lo, hi - 1);
    }
}

/// What `now` is when `before` is being cleared and the rows above `from`
/// were gone through: the rows from `from` downwards are as in `before`,
/// each row above that was not cleared lies where it has landed, on top
/// there is an empty row for each row cleared, and each row cleared has
/// taken as many blocks with it as the board is wide.
pub open spec fn cleared_above(
    before: FieldView,
    now: FieldView,
    nodes: Seq<(int, int)>,
    from: int,
) -> bool {
    &&& now.wf()
    &&& now.width == before.width
    &&& now.height == before.height
    &&& forall|x: int, y: int|
        before.in_bounds(x, y) && y >= from ==> now.cell(x, y) == #[trigger] before.cell(x, y)
    &&& forall|x: int, y: int|
        before.in_bounds(x, y) && y < from && !before.to_clear(nodes, y) ==> now.cell(
            x,
            before.landing(nodes, y, from),
        ) == #[trigger] before.cell(x, y)
    &&& forall|x: int, y: int|
        0 <= x < before.width && 0 <= y < before.to_clear_between(nodes, 0, from) ==> (
        #[trigger] now.cell(x, y)) is None
    &&& now.blocks().len() == before.blocks().len() - before.width * before.to_clear_between(
        nodes,
        0,
        from,
    )
}

/// Going through the remaining rows completes the clearing.
proof fn lemma_cleared_from_completes(
    before: FieldView,
    now: FieldView,
    nodes: Seq<(int, int)>,
    from: int,
)
    requires
        before.wf(),
        0 <= from <= before.height,
        cleared_above(before, now, nodes, from),
    ensures
        cleared_above(before, now.cleared_from(nodes, from), nodes, before.height),
    decreases before.height - from,
{
    if from < before.height {
        assert(now.row_full(from) == before.row_full(from)) by {
            assert forall|x: int| 0 <= x < before.width implies (#[trigger] now.occupied(x, from))
                == before.occupied(x, from) by {
                assert(now.cell(x, from) == before.cell(x, from));
            }
            if now.row_full(from) {
                assert forall|x: int| 0 <= x < before.width implies #[trigger] before.occupied(
                    x,
                    from,
                ) by {
                    assert(now.occupied(x, from));
                }
            }
            if before.row_full(from) {
                assert forall|x: int| 0 <= x < now.width implies #[trigger] now.occupied(
                    x,
                    from,
                ) by {
                    assert(before.occupied(x, from));
                }
            }
        }
        if now.to_clear(nodes, from) {
            let next = now.row_removed(from);
            assert(next.cells.len() == now.cells.len());
            assert forall|x: int, y: int|
                before.in_bounds(x, y) && y >= from + 1 implies next.cell(x, y)
                == #[trigger] before.cell(x, y) by {
                now.lemma_row_removed_cell(from, x, y);
            }
            assert forall|x: int, y: int|
                before.in_bounds(x, y) && y < from + 1 && !before.to_clear(nodes, y) implies next.cell(
                x,
                before.landing(nodes, y, from + 1),
            ) == #[trigger] before.cell(x, y) by {
                lemma_to_clear_between_bounds(before, nodes, y + 1, from);
                let t = before.landing(nodes, y, from + 1);
                assert(t == before.landing(nodes, y, from) + 1);
                now.lemma_row_removed_cell(from, x, t);
            }
            assert forall|x: int, y: int|
                0 <= x < before.width && 0 <= y < before.to_clear_between(
                    nodes,
                    0,
                    from + 1,
                ) implies (#[trigger] next.cell(x, y)) is None by {
                lemma_to_clear_between_bounds(before, nodes, 0, from);
                now.lemma_row_removed_cell(from, x, y);
                if y > 0 {
                    assert(now.cell(x, y - 1) is None);
                }
            }
            assert(next.blocks().len() == before.blocks().len() - before.width
                * before.to_clear_between(nodes, 0, from + 1)) by {
                now.lemma_row_removed_count(from);
                let cleared = before.to_clear_between(nodes, 0, from);
                assert(before.width * (cleared + 1) == before.width * cleared + before.width)
                    by (nonlinear_arith);
            }
            lemma_cleared_from_completes(before, next, nodes, from + 1);
        } else {
            assert forall|x: int, y: int|
                before.in_bounds(x, y) && y < from + 1 && !before.to_clear(nodes, y) implies now.cell(
                x,
                before.landing(nodes, y, from + 1),
            ) == #[trigger] before.cell(x, y) by {
                if y == from {
                    assert(before.landing(nodes, y, from + 1) == y);
                } else {
                    assert(before.landing(nodes, y, from + 1) == before.landing(nodes, y, from));
                }
            }
            lemma_cleared_from_completes(before, now, nodes, from + 1);
        }
    }
}

/// Clearing takes out exactly the rows that were full and held one of
/// `nodes`. Each other row keeps what it held and lies as many rows further
/// down as rows below it were cleared, on top there is an empty row for each
/// row cleared, and the board has lost as many blocks as the cleared rows
/// had places.
pub proof fn lemma_cleared_rows(f: FieldView, nodes: Seq<(int, int)>)
    requires
        f.wf(),
    ensures
        cleared_above(f, f.cleared(nodes), nodes, f.height),
{
    assert(f.width * f.to_clear_between(nodes, 0, 0) == 0) by (nonlinear_arith)
        requires
            f.to_clear_between(nodes, 0, 0) == 0,
    ;
    lemma_cleared_from_completes(f, f, nodes, 0);
}

/// The rows in which `nodes` lie, each of them once, in rising order.
pub fn touched_rows(nodes: &[(i32, i32)]) -> (rows: Vec<i32>)
    ensures
        rising(rows@),
        forall|r: i32| #[trigger] rows@.contains(r) <==> touches(points(nodes@), r as int),
{
    let mut rows: Vec<i32> = Vec::new();
    let mut i: usize = 0;
    while i < nodes.len()
        invariant
            i <= nodes.len(),
            rising(rows@),
            forall|k: int| 0 <= k < i ==> rows@.contains(#[trigger] nodes@[k].1),
            forall|j: int|
                0 <= j < rows.len() ==> exists|k: int|
                    0 <= k < i && nodes@[k].1 == #[trigger] rows@[j],
        decreases nodes.len() - i,
    {
        let (_, y) = nodes[i];
        let mut at: usize = 0;
        while at < rows.len() && rows[at] < y
            invariant
                at <= rows.len(),
                forall|j: int| 0 <= j < at ==> rows@[j] < y,
            decreases rows.len() - at,
        {
            at += 1;
        }
        if at == rows.len() || rows[at] != y {
            let ghost before = rows@;
            rows.insert(at, y);
            proof {
                assert(rows@.len() == before.len() + 1);
                assert(rows@[at as int] == y);
                assert(forall|j: int| 0 <= j < at ==> rows@[j] == before[j]);
                assert(forall|j: int| at < j < rows.len() ==> rows@[j] == before[j - 1]);
                assert forall|k: int| 0 <= k < i + 1 implies rows@.contains(
                    #[trigger] nodes@[k].1,
                ) by {
                    if k < i {
                        let j = choose|j: int| 0 <= j < before.len() && before[j] == nodes@[k].1;
                        if j < at {
                            assert(rows@[j] == nodes@[k].1);
                        } else {
                            assert(rows@[j + 1] == nodes@[k].1);
                        }
                    } else {
                        assert(rows@[at as int] == nodes@[k].1);
                    }
                }
                assert forall|j: int| 0 <= j < rows.len() implies exists|k: int|
                    0 <= k < i + 1 && nodes@[k].1 == #[trigger] rows@[j] by {
                    if j < at {
                        assert(rows@[j] == before[j]);
                        let k = choose|k: int| 0 <= k < i && nodes@[k].1 == before[j];
                        assert(0 <= k < i + 1 && nodes@[k].1 == rows@[j]);
                    } else if j == at {
                        assert(nodes@[i as int].1 == rows@[j]);
                    } else {
                        assert(rows@[j] == before[j - 1]);
                        let k = choose|k: int| 0 <= k < i && nodes@[k].1 == before[j - 1];
                        assert(0 <= k < i + 1 && nodes@[k].1 == rows@[j]);
                    }
                }
            }
        } else {
            assert(rows@[at as int] == nodes@[i as int].1);
        }
        i += 1;
    }
    proof {
        let pts = points(nodes@);
        assert forall|r: i32| #[trigger] rows@.contains(r) <==> touches(pts, r as int) by {
            if touches(pts, r as int) {
                let k = choose|k: int| 0 <= k < pts.len() && (#[trigger] pts[k]).1 == r as int;
                assert(rows@.contains(nodes@[k].1));
            }
            if rows@.contains(r) {
                let j = choose|j: int| 0 <= j < rows.len() && rows@[j] == r;
                let k = choose|k: int| 0 <= k < nodes.len() && nodes@[k].1 == rows@[j];
                assert(pts[k].1 == r as int);
            }
        }
    }
    rows
}

impl GameField {
    /// Takes out every full row that one of `nodes` lies in, from the top
    /// row downwards. Whether a row is full is asked when its turn comes:
    /// taking out a row changes only that row and the rows above it, so no
    /// later answer depends on an earlier removal.
    pub fn clear_rows(&mut self, nodes: &[(i32, i32)])
        requires
            old(self).wf(),
        ensures
            final(self).wf(),
            final(self)@ == old(self)@.cleared(points(nodes@)),
    {
        let rows = touched_rows(nodes);
        let ghost start = self@;
        let ghost pts = points(nodes@);
        let ghost mut next: int = 0;
        let mut j: usize = 0;
        while j < rows.len()
            invariant
                self.wf(),
                j <= rows.len(),
                rising(rows@),
                pts == points(nodes@),
                forall|r: i32| #[trigger] rows@.contains(r) <==> touches(pts, r as int),
                0 <= next,
                forall|k: int| 0 <= k < j ==> rows@[k] < next,
                forall|k: int| j <= k < rows.len() ==> rows@[k] >= next || rows@[k] < 0,
                self@.cleared_from(pts, next) == start.cleared(pts),
            decreases rows.len() - j,
        {
            let row = rows[j];
            let ghost before = self@;
            if self.is_row_full(row) {
                assert(before.occupied(0, row as int));
                self.delete_row(row);
            }
            proof {
                if row >= next {
                    assert forall|y: int| next <= y < row implies !touches(pts, y) by {
                        if touches(pts, y) {
                            assert(rows@.contains(y as i32));
                            let k = choose|k: int| 0 <= k < rows.len() && rows@[k] == y as i32;
                            if k > j {
                                assert(rows@[j as int] < rows@[k]);
                            }
                        }
                    }
                    before.lemma_cleared_skips(pts, next, row as int);
                    assert(rows@.contains(row));
                    assert(touches(pts, row as int));
                    next = row + 1;
                } else {
                    assert(!before.row_full(row as int)) by {
                        if before.row_full(row as int) {
                            assert(before.occupied(0, row as int));
                        }
                    }
                }
                assert forall|k: int| j + 1 <= k < rows.len() implies rows@[k] >= next || rows@[k]
                    < 0 by {
                    assert(rows@[j as int] < rows@[k]);
                }
            }
            j += 1;
        }
        proof {
            assert forall|y: int| next <= y implies !touches(pts, y) by {
                if touches(pts, y) {
                    let i = choose|i: int| 0 <= i < pts.len() && (#[trigger] pts[i]).1 == y;
                    assert(rows@.contains(nodes@[i].1));
                    let k = choose|k: int| 0 <= k < rows.len() && rows@[k] == nodes@[i].1;
                }
            }
            self@.lemma_cleared_rest(pts, next);
        }
    }
}

} // verus!
