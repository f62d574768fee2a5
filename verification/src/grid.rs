//! The board as a mathematical value: a width, a height and the cells in
//! row-major order. The contracts of the executable board speak of this
//! model.

use crate::color::Color;
use vstd::prelude::*;

verus! {

/// Coordinates as mathematical integers.
pub open spec fn points(nodes: Seq<(i32, i32)>) -> Seq<(int, int)> {
    nodes.map_values(|c: (i32, i32)| (c.0 as int, c.1 as int))
}

/// Blocks with their places as mathematical integers.
pub open spec fn placed(blocks: Seq<((i32, i32), Color)>) -> Seq<((int, int), Color)> {
    blocks.map_values(|b: ((i32, i32), Color)| ((b.0.0 as int, b.0.1 as int), b.1))
}

/// How many of `cells` hold a block.
pub open spec fn filled(cells: Seq<Option<Color>>) -> nat
    decreases cells.len(),
{
    if cells.len() == 0 {
        0
    } else {
        filled(cells.drop_last()) + if cells.last() is Some {
            1nat
        } else {
            0nat
        }
    }
}

/// The blocks in two runs of cells are those in the one and those in the
/// other.
pub proof fn lemma_filled_concat(a: Seq<Option<Color>>, b: Seq<Option<Color>>)
    ensures
        filled(a + b) == filled(a) + filled(b),
    decreases b.len(),
{
    if b.len() == 0 {
        assert(a + b =~= a);
    } else {
        lemma_filled_concat(a, b.drop_last());
        assert((a + b).drop_last() =~= a + b.drop_last());
    }
}

/// A run of cells that all hold a block has as many blocks as cells, and a
/// run of empty cells has none.
pub proof fn lemma_filled_uniform(cells: Seq<Option<Color>>)
    ensures
        (forall|i: int| 0 <= i < cells.len() ==> cells[i] is Some) ==> filled(cells)
            == cells.len(),
        (forall|i: int| 0 <= i < cells.len() ==> cells[i] is None) ==> filled(cells) == 0,
    decreases cells.len(),
{
    if cells.len() > 0 {
        lemma_filled_uniform(cells.drop_last());
    }
}

/// What a board is: `cells` holds row 0 first, from column 0 upwards.
pub struct FieldView {
    pub width: int,
    pub height: int,
    pub cells: Seq<Option<Color>>,
}

impl FieldView {
    /// Both sides are positive and there is one cell for each place.
    pub open spec fn wf(self) -> bool {
        &&& 0 < self.width
        &&& 0 < self.height
        &&& self.cells.len() == self.width * self.height
    }

    /// Whether (`x`, `y`) is a place of the board.
    pub open spec fn in_bounds(self, x: int, y: int) -> bool {
        0 <= x < self.width && 0 <= y < self.height
    }

    /// The row-major index of a place.
    pub open spec fn index(self, x: int, y: int) -> int {
        y * self.width + x
    }

    /// What the place (`x`, `y`) holds; meaningful for places of the board.
    pub open spec fn cell(self, x: int, y: int) -> Option<Color> {
        self.cells[self.index(x, y)]
    }

    /// Whether (`x`, `y`) is a place of the board that holds a block.
    pub open spec fn occupied(self, x: int, y: int) -> bool {
        self.in_bounds(x, y) && self.cell(x, y) is Some
    }

    /// Whether `c` is a place of the board that holds a block.
    pub open spec fn occupied_at(self, c: (int, int)) -> bool {
        self.occupied(c.0, c.1)
    }

    /// The board of the given sides with no block on it.
    pub open spec fn blank(width: int, height: int) -> FieldView {
        FieldView { width, height, cells: Seq::new((width * height) as nat, |i: int| None) }
    }

    /// Whether no place holds a block.
    pub open spec fn is_blank(self) -> bool {
        forall|i: int| 0 <= i < self.cells.len() ==> self.cells[i] is None
    }

    /// Whether one of `nodes` is a place of the board that holds a block.
    pub open spec fn any_occupied(self, nodes: Seq<(int, int)>) -> bool {
        exists|k: int| 0 <= k < nodes.len() && self.occupied_at(#[trigger] nodes[k])
    }

    /// Whether one of `nodes` lies left of column 0 or right of the last
    /// column.
    pub open spec fn any_past_wall(self, nodes: Seq<(int, int)>) -> bool {
        exists|k: int|
            0 <= k < nodes.len() && ((#[trigger] nodes[k]).0 < 0 || nodes[k].0 >= self.width)
    }

    /// Whether one of `nodes` lies below the last row. Nothing bounds a node
    /// from above.
    pub open spec fn any_past_floor(self, nodes: Seq<(int, int)>) -> bool {
        exists|k: int| 0 <= k < nodes.len() && (#[trigger] nodes[k]).1 >= self.height
    }

    /// Whether a piece with the cells `nodes` may stand on the board: none of
    /// them on a block, none past a wall, none below the floor.
    pub open spec fn accepts(self, nodes: Seq<(int, int)>) -> bool {
        &&& !self.any_occupied(nodes)
        &&& !self.any_past_wall(nodes)
        &&& !self.any_past_floor(nodes)
    }

    /// Whether every place of row `y` holds a block. No row outside the board
    /// is full.
    pub open spec fn row_full(self, y: int) -> bool {
        forall|x: int| 0 <= x < self.width ==> #[trigger] self.occupied(x, y)
    }

    /// The board with the place (`x`, `y`) holding `value`.
    pub open spec fn with_cell(self, x: int, y: int, value: Option<Color>) -> FieldView {
        FieldView { cells: self.cells.update(self.index(x, y), value), ..self }
    }

    /// The board after `color` was written to each of `nodes` that is a place
    /// of the board and holds no block; the other places keep what they held.
    pub open spec fn with_blocks(self, nodes: Seq<(int, int)>, color: Color) -> FieldView {
        FieldView {
            cells: Seq::new(
                self.cells.len(),
                |i: int|
                    if self.cells[i] is None && nodes.contains((i % self.width, i / self.width)) {
                        Some(color)
                    } else {
                        self.cells[i]
                    },
            ),
            ..self
        }
    }

    /// The board after row `row` was taken out: each row above it has moved
    /// down by one, row 0 is empty, and the rows below `row` are as they were.
    pub open spec fn row_removed(self, row: int) -> FieldView {
        FieldView {
            cells: Seq::new(
                self.cells.len(),
                |i: int|
                    if i < self.width {
                        None
                    } else if i < (row + 1) * self.width {
                        self.cells[i - self.width]
                    } else {
                        self.cells[i]
                    },
            ),
            ..self
        }
    }

    /// Those of `nodes`, in their order, that are places of the board and
    /// hold a block.
    pub open spec fn colliding(self, nodes: Seq<(int, int)>) -> Seq<(int, int)> {
        nodes.filter(|c: (int, int)| self.occupied_at(c))
    }

    /// The block at index `i` of the cells: its place and its colour.
    pub open spec fn block_at(self, i: int) -> ((int, int), Color) {
        ((i % self.width, i / self.width), self.cells[i]->0)
    }

    /// The blocks among the first `n` cells, in row-major order.
    pub open spec fn blocks_within(self, n: int) -> Seq<((int, int), Color)> {
        Seq::new(n as nat, |i: int| i).filter(|i: int| self.cells[i] is Some).map_values(
            |i: int| self.block_at(i),
        )
    }

    /// The blocks of the board with their places, in row-major order.
    pub open spec fn blocks(self) -> Seq<((int, int), Color)> {
        self.blocks_within(self.cells.len() as int)
    }

    /// The index of a place of the board is an index of the cells, and gives
    /// back the place by division with remainder.
    pub proof fn lemma_index_of_place(self, x: int, y: int)
        requires
            self.wf(),
            self.in_bounds(x, y),
        ensures
            0 <= self.index(x, y) < self.cells.len(),
            self.index(x, y) % self.width == x,
            self.index(x, y) / self.width == y,
    {
        let w = self.width;
        let h = self.height;
        assert(y * w + x < h * w) by (nonlinear_arith)
            requires
                0 <= x < w,
                0 <= y < h,
        ;
        assert(0 <= y * w + x) by (nonlinear_arith)
            requires
                0 <= x < w,
                0 <= y < h,
        ;
        assert(h * w == w * h) by (nonlinear_arith);
        vstd::arithmetic::div_mod::lemma_fundamental_div_mod_converse(y * w + x, w, y, x);
    }

    /// An index of the cells is the index of one place of the board: the
    /// remainder and the quotient by the width.
    pub proof fn lemma_place_of_index(self, i: int)
        requires
            self.wf(),
            0 <= i < self.cells.len(),
        ensures
            self.in_bounds(i % self.width, i / self.width),
            self.index(i % self.width, i / self.width) == i,
    {
        let w = self.width;
        let h = self.height;
        vstd::arithmetic::div_mod::lemma_fundamental_div_mod(i, w);
        vstd::arithmetic::div_mod::lemma_mod_pos_bound(i, w);
        vstd::arithmetic::div_mod::lemma_div_pos_is_pos(i, w);
        assert(w * (i / w) == (i / w) * w) by (nonlinear_arith);
        assert(i / w < h) by (nonlinear_arith)
            requires
                0 <= i < w * h,
                0 < w,
                i == (i / w) * w + i % w,
                0 <= i % w < w,
        ;
    }

    /// Writing to no node changes nothing; one more node at the end is one
    /// more place written, where that node is a place of the board and held
    /// no block after the others were written.
    pub proof fn lemma_with_blocks_push(self, nodes: Seq<(int, int)>, c: (int, int), color: Color)
        requires
            self.wf(),
        ensures
            self.with_blocks(Seq::empty(), color) == self,
            self.with_blocks(nodes.push(c), color) == {
                let before = self.with_blocks(nodes, color);
                if before.in_bounds(c.0, c.1) && before.cell(c.0, c.1) is None {
                    before.with_cell(c.0, c.1, Some(color))
                } else {
                    before
                }
            },
    {
        assert(self.with_blocks(Seq::empty(), color).cells =~= self.cells);
        let before = self.with_blocks(nodes, color);
        let after = self.with_blocks(nodes.push(c), color);
        let target = if before.in_bounds(c.0, c.1) && before.cell(c.0, c.1) is None {
            before.with_cell(c.0, c.1, Some(color))
        } else {
            before
        };
        if self.in_bounds(c.0, c.1) {
            self.lemma_index_of_place(c.0, c.1);
        }
        assert forall|i: int| 0 <= i < self.cells.len() implies after.cells[i]
            == target.cells[i] by {
            self.lemma_place_of_index(i);
            let p = (i % self.width, i / self.width);
            assert(nodes.push(c).contains(p) <==> nodes.contains(p) || p == c) by {
                if nodes.contains(p) {
                    let k = choose|k: int| 0 <= k < nodes.len() && nodes[k] == p;
                    assert(nodes.push(c)[k] == p);
                }
                if p == c {
                    assert(nodes.push(c)[nodes.len() as int] == p);
                }
            }
        }
        assert(after.cells =~= target.cells);
    }

    /// What a place of the board holds after `color` was written to `nodes`:
    /// the colour if it held no block and is one of the nodes, and else what
    /// it held.
    pub proof fn lemma_with_blocks_cell(
        self,
        nodes: Seq<(int, int)>,
        color: Color,
        x: int,
        y: int,
    )
        requires
            self.wf(),
            self.in_bounds(x, y),
        ensures
            self.with_blocks(nodes, color).cell(x, y) == if self.cell(x, y) is None
                && nodes.contains((x, y)) {
                Some(color)
            } else {
                self.cell(x, y)
            },
    {
        self.lemma_index_of_place(x, y);
    }

    /// What each place holds once a row was taken out: below the row what it
    /// held, in row 0 nothing, elsewhere what the place above it held.
    pub proof fn lemma_row_removed_cell(self, row: int, x: int, y: int)
        requires
            self.wf(),
            0 <= row < self.height,
            self.in_bounds(x, y),
        ensures
            self.row_removed(row).cell(x, y) == if y > row {
                self.cell(x, y)
            } else if y == 0 {
                None
            } else {
                self.cell(x, y - 1)
            },
    {
        let w = self.width;
        self.lemma_index_of_place(x, y);
        assert((y - 1) * w + x == y * w + x - w) by (nonlinear_arith);
        if y > row {
            assert(y * w + x >= (row + 1) * w) by (nonlinear_arith)
                requires
                    y >= row + 1,
                    x >= 0,
                    w > 0,
            ;
        } else {
            assert(y * w + x < (row + 1) * w) by (nonlinear_arith)
                requires
                    y <= row,
                    x < w,
                    w > 0,
            ;
            if y == 0 {
                assert(y * w + x == x) by (nonlinear_arith)
                    requires
                        y == 0,
                ;
            } else {
                assert(y * w + x >= w) by (nonlinear_arith)
                    requires
                        y >= 1,
                        x >= 0,
                        w > 0,
                ;
            }
        }
    }

    /// What one more node at the end adds to the colliding nodes.
    pub proof fn lemma_colliding_push(self, nodes: Seq<(int, int)>, c: (int, int))
        ensures
            self.colliding(nodes.push(c)) == if self.occupied_at(c) {
                self.colliding(nodes).push(c)
            } else {
                self.colliding(nodes)
            },
            self.colliding(Seq::empty()) == Seq::<(int, int)>::empty(),
    {
        let pred = |c: (int, int)| self.occupied_at(c);
        nodes.lemma_filter_push(c, pred);
        reveal(Seq::filter);
        assert(self.colliding(Seq::empty()) =~= Seq::<(int, int)>::empty());
    }

    /// What one more cell adds to the blocks among the first cells.
    pub proof fn lemma_blocks_within_step(self, n: int)
        requires
            0 <= n,
        ensures
            self.blocks_within(n + 1) == if self.cells[n] is Some {
                self.blocks_within(n).push(self.block_at(n))
            } else {
                self.blocks_within(n)
            },
            self.blocks_within(0) == Seq::<((int, int), Color)>::empty(),
    {
        let ids = Seq::new(n as nat, |i: int| i);
        let pred = |i: int| self.cells[i] is Some;
        let f = |i: int| self.block_at(i);
        assert(Seq::new((n + 1) as nat, |i: int| i) =~= ids.push(n));
        ids.lemma_filter_push(n, pred);
        ids.filter(pred).lemma_push_map_commute(f, n);
        reveal(Seq::filter);
        assert(Seq::new(0nat, |i: int| i).filter(pred) =~= Seq::<int>::empty());
        assert(self.blocks_within(0) =~= Seq::<((int, int), Color)>::empty());
    }

    /// A board on which no place holds a block has no blocks among its
    /// first cells, however many are looked at.
    pub proof fn lemma_blank_blocks_within(self, n: int)
        requires
            self.is_blank(),
            0 <= n <= self.cells.len(),
        ensures
            self.blocks_within(n) == Seq::<((int, int), Color)>::empty(),
        decreases n,
    {
        if n == 0 {
            self.lemma_blocks_within_step(0);
        } else {
            self.lemma_blank_blocks_within(n - 1);
            self.lemma_blocks_within_step(n - 1);
        }
    }

    /// A block put on an empty cell is one block more among the first `n`
    /// cells if the cell is one of them, and changes nothing if it is not.
    pub proof fn lemma_blocks_within_after_fill(self, i: int, color: Color, n: int)
        requires
            0 <= i < self.cells.len(),
            self.cells[i] is None,
            0 <= n <= self.cells.len(),
        ensures
            (FieldView { cells: self.cells.update(i, Some(color)), ..self }).blocks_within(n).len()
                == self.blocks_within(n).len() + if i < n {
                1int
            } else {
                0int
            },
        decreases n,
    {
        let after = FieldView { cells: self.cells.update(i, Some(color)), ..self };
        if n == 0 {
            self.lemma_blocks_within_step(0);
            after.lemma_blocks_within_step(0);
        } else {
            self.lemma_blocks_within_after_fill(i, color, n - 1);
            self.lemma_blocks_within_step(n - 1);
            after.lemma_blocks_within_step(n - 1);
        }
    }

    /// A block put on an empty place of the board is one block more.
    pub proof fn lemma_fill_adds_one_block(self, x: int, y: int, color: Color)
        requires
            self.wf(),
            self.in_bounds(x, y),
            self.cell(x, y) is None,
        ensures
            self.with_cell(x, y, Some(color)).blocks().len() == self.blocks().len() + 1,
    {
        self.lemma_index_of_place(x, y);
        self.lemma_blocks_within_after_fill(self.index(x, y), color, self.cells.len() as int);
    }

    /// What a place of the board holds after a write to a place of the
    /// board: the written value at that place, and elsewhere what it held.
    pub proof fn lemma_with_cell_cell(self, x: int, y: int, value: Option<Color>, u: int, v: int)
        requires
            self.wf(),
            self.in_bounds(x, y),
            self.in_bounds(u, v),
        ensures
            self.with_cell(x, y, value).cell(u, v) == if (u, v) == (x, y) {
                value
            } else {
                self.cell(u, v)
            },
    {
        self.lemma_index_of_place(x, y);
        self.lemma_index_of_place(u, v);
    }


    /// As many blocks are listed among the first `n` cells as these hold.
    pub proof fn lemma_blocks_within_count(self, n: int)
        requires
            0 <= n <= self.cells.len(),
        ensures
            self.blocks_within(n).len() == filled(self.cells.take(n)),
        decreases n,
    {
        self.lemma_blocks_within_step(0);
        if n > 0 {
            self.lemma_blocks_within_count(n - 1);
            self.lemma_blocks_within_step(n - 1);
            assert(self.cells.take(n).drop_last() =~= self.cells.take(n - 1));
        }
    }

    /// Taking out a full row takes as many blocks from the board as the row
    /// is wide.
    pub proof fn lemma_row_removed_count(self, row: int)
        requires
            self.wf(),
            self.row_full(row),
        ensures
            self.row_removed(row).blocks().len() == self.blocks().len() - self.width,
    {
        let w = self.width;
        let n = self.cells.len() as int;
        assert(self.occupied(0, row));
        assert(0 <= row * w && (row + 1) * w <= n && (row + 1) * w == row * w + w)
            by (nonlinear_arith)
            requires
                0 <= row < self.height,
                0 < w,
                n == w * self.height,
        ;
        let above = self.cells.subrange(0, row * w);
        let gone = self.cells.subrange(row * w, (row + 1) * w);
        let below = self.cells.subrange((row + 1) * w, n);
        let top = Seq::new(w as nat, |i: int| None::<Color>);
        let after = self.row_removed(row);
        assert(self.cells =~= above + gone + below);
        assert(after.cells =~= top + above + below);
        assert forall|i: int| 0 <= i < gone.len() implies gone[i] is Some by {
            assert(self.occupied(i, row));
            assert(gone[i] == self.cell(i, row));
        }
        lemma_filled_uniform(gone);
        lemma_filled_uniform(top);
        lemma_filled_concat(above, gone);
        lemma_filled_concat(above + gone, below);
        lemma_filled_concat(top, above);
        lemma_filled_concat(top + above, below);
        self.lemma_blocks_within_count(n);
        after.lemma_blocks_within_count(n);
        assert(self.cells.take(n) =~= self.cells);
        assert(after.cells.take(n) =~= after.cells);
    }

    /// Each block listed among the first `n` cells stands for a place of the
    /// board whose index is below `n` and which holds a block of the listed
    /// colour.
    pub proof fn lemma_blocks_within_sound(self, n: int, k: int)
        requires
            self.wf(),
            0 <= n <= self.cells.len(),
            0 <= k < self.blocks_within(n).len(),
        ensures
            ({
                let b = self.blocks_within(n)[k];
                &&& self.in_bounds(b.0.0, b.0.1)
                &&& self.index(b.0.0, b.0.1) < n
                &&& self.cell(b.0.0, b.0.1) == Some(b.1)
            }),
        decreases n,
    {
        self.lemma_blocks_within_step(0);
        if n > 0 {
            self.lemma_blocks_within_step(n - 1);
            if k < self.blocks_within(n - 1).len() {
                self.lemma_blocks_within_sound(n - 1, k);
            } else {
                self.lemma_place_of_index(n - 1);
            }
        }
    }

    /// The blocks listed among the first `n` cells are in row-major order.
    pub proof fn lemma_blocks_within_ordered(self, n: int, j: int, k: int)
        requires
            self.wf(),
            0 <= n <= self.cells.len(),
            0 <= j < k < self.blocks_within(n).len(),
        ensures
            ({
                let a = self.blocks_within(n)[j];
                let b = self.blocks_within(n)[k];
                self.index(a.0.0, a.0.1) < self.index(b.0.0, b.0.1)
            }),
        decreases n,
    {
        self.lemma_blocks_within_step(0);
        if n > 0 {
            self.lemma_blocks_within_step(n - 1);
            if k < self.blocks_within(n - 1).len() {
                self.lemma_blocks_within_ordered(n - 1, j, k);
            } else {
                self.lemma_blocks_within_sound(n - 1, j);
                self.lemma_place_of_index(n - 1);
            }
        }
    }

    /// Each of the first `n` cells that holds a block is listed among the
    /// blocks of the first `n` cells.
    pub proof fn lemma_blocks_within_complete(self, n: int, i: int)
        requires
            0 <= i < n,
            self.cells[i] is Some,
        ensures
            self.blocks_within(n).contains(self.block_at(i)),
        decreases n,
    {
        self.lemma_blocks_within_step(n - 1);
        let now = self.blocks_within(n);
        if i == n - 1 {
            assert(now[now.len() - 1] == self.block_at(i));
        } else {
            self.lemma_blocks_within_complete(n - 1, i);
            let before = self.blocks_within(n - 1);
            let k = choose|k: int| 0 <= k < before.len() && before[k] == self.block_at(i);
            assert(now[k] == self.block_at(i));
        }
    }
}

/// A new board has no blocks.
pub proof fn lemma_blank_board_has_no_blocks(width: int, height: int)
    ensures
        FieldView::blank(width, height).blocks() == Seq::<((int, int), Color)>::empty(),
{
    let f = FieldView::blank(width, height);
    f.lemma_blank_blocks_within(f.cells.len() as int);
}

/// The listed blocks are the blocks of the board: each entry is a place of
/// the board with the colour of the block it holds, each place that holds a
/// block has its entry, and the entries are in row-major order, so that no
/// place is listed twice.
pub proof fn lemma_blocks_are_the_occupied_places(f: FieldView)
    requires
        f.wf(),
    ensures
        forall|k: int|
            0 <= k < f.blocks().len() ==> {
                let b = #[trigger] f.blocks()[k];
                f.in_bounds(b.0.0, b.0.1) && f.cell(b.0.0, b.0.1) == Some(b.1)
            },
        forall|x: int, y: int| #[trigger]
            f.occupied(x, y) ==> f.blocks().contains(((x, y), f.cell(x, y)->0)),
        forall|j: int, k: int|
            0 <= j < k < f.blocks().len() ==> {
                let a = #[trigger] f.blocks()[j];
                let b = #[trigger] f.blocks()[k];
                f.index(a.0.0, a.0.1) < f.index(b.0.0, b.0.1)
            },
{
    let n = f.cells.len() as int;
    assert forall|k: int| 0 <= k < f.blocks().len() implies {
        let b = #[trigger] f.blocks()[k];
        f.in_bounds(b.0.0, b.0.1) && f.cell(b.0.0, b.0.1) == Some(b.1)
    } by {
        f.lemma_blocks_within_sound(n, k);
    }
    assert forall|x: int, y: int| #[trigger] f.occupied(x, y) implies f.blocks().contains(
        ((x, y), f.cell(x, y)->0),
    ) by {
        f.lemma_index_of_place(x, y);
        f.lemma_blocks_within_complete(n, f.index(x, y));
    }
    assert forall|j: int, k: int| 0 <= j < k < f.blocks().len() implies {
        let a = #[trigger] f.blocks()[j];
        let b = #[trigger] f.blocks()[k];
        f.index(a.0.0, a.0.1) < f.index(b.0.0, b.0.1)
    } by {
        f.lemma_blocks_within_ordered(n, j, k);
    }
}

} // verus!
