//! The board: a grid of cells, each empty or holding a coloured block.

use crate::color::Color;
use crate::grid::placed;
use crate::grid::points;
use crate::grid::FieldView;
use crate::piece::Piece;
use vstd::prelude::*;

verus! {

/// A board of fixed sides. Row 0 is the top row; a piece falls towards
/// higher rows.
pub struct GameField {
    width: i32,
    height: i32,
    game_field: Vec<Option<Color>>,
}

impl View for GameField {
    type V = FieldView;

    closed spec fn view(&self) -> FieldView {
        FieldView {
            width: self.width as int,
            height: self.height as int,
            cells: self.game_field@,
        }
    }
}

impl GameField {
    /// The invariant of a board: positive sides that are `i32`, and one cell
    /// for each place.
    pub open spec fn wf(&self) -> bool {
        &&& self@.wf()
        &&& self@.width <= i32::MAX
        &&& self@.height <= i32::MAX
    }

    /// An empty board of the given sides.
    pub fn new(width: i32, height: i32) -> (f: GameField)
        requires
            0 < width,
            0 < height,
            width * height <= usize::MAX,
        ensures
            f.wf(),
            f@ == FieldView::blank(width as int, height as int),
    {
        let n: usize = width as usize * height as usize;
        let cells: Vec<Option<Color>> = vec![Option::None; n];
        let f = GameField { width, height, game_field: cells };
        assert(f@.cells =~= FieldView::blank(width as int, height as int).cells);
        f
    }

    /// Whether (`x`, `y`) is a place of the board.
    pub fn valid_index(&self, x: i32, y: i32) -> (b: bool)
        ensures
            b == self@.in_bounds(x as int, y as int),
    {
        (0 <= x && x < self.width) && (0 <= y && y < self.height)
    }

    /// The row-major index of a place of the board.
    fn index_of(&self, x: i32, y: i32) -> (i: usize)
        requires
            self.wf(),
            self@.in_bounds(x as int, y as int),
        ensures
            i == self@.index(x as int, y as int),
            i < self@.cells.len(),
    {
        proof {
            self@.lemma_index_of_place(x as int, y as int);
            assert(self@.cells.len() == self.game_field.len() <= usize::MAX);
            assert(0 <= y * self.width <= self@.index(x as int, y as int)) by (nonlinear_arith)
                requires
                    0 <= y,
                    0 <= x,
                    0 < self.width,
                    self@.index(x as int, y as int) == y * self.width + x,
            ;
        }
        y as usize * self.width as usize + x as usize
    }

    /// Puts a block of the given colour on a place of the board.
    pub fn set_block(&mut self, x: i32, y: i32, color: Color)
        requires
            old(self).wf(),
            old(self)@.in_bounds(x as int, y as int),
        ensures
            final(self).wf(),
            final(self)@ == old(self)@.with_cell(x as int, y as int, Some(color)),
    {
        let i = self.index_of(x, y);
        self.game_field[i] = Option::Some(color);
    }

    /// Empties a place of the board.
    pub fn clear_block(&mut self, x: i32, y: i32)
        requires
            old(self).wf(),
            old(self)@.in_bounds(x as int, y as int),
        ensures
            final(self).wf(),
            final(self)@ == old(self)@.with_cell(x as int, y as int, None),
    {
        let i = self.index_of(x, y);
        self.game_field[i] = Option::None;
    }

    /// The place that an index of the cells stands for.
    fn from_index(&self, i: usize) -> (at: (i32, i32))
        requires
            self.wf(),
            i < self@.cells.len(),
        ensures
            at.0 == i as int % self@.width,
            at.1 == i as int / self@.width,
            self@.in_bounds(at.0 as int, at.1 as int),
            self@.index(at.0 as int, at.1 as int) == i,
    {
        proof {
            self@.lemma_place_of_index(i as int);
        }
        let w = self.width as usize;
        let y = i / w;
        let x = i - y * w;
        proof {
            vstd::arithmetic::div_mod::lemma_fundamental_div_mod(i as int, w as int);
            assert(w * (i as int / w as int) == (i as int / w as int) * w) by (nonlinear_arith);
        }
        (x as i32, y as i32)
    }

    /// What a place of the board holds.
    pub fn value_of(&self, x: i32, y: i32) -> (value: Option<Color>)
        requires
            self.wf(),
            self@.in_bounds(x as int, y as int),
        ensures
            value == self@.cell(x as int, y as int),
    {
        let i = self.index_of(x, y);
        self.game_field[i]
    }

    /// Whether (`x`, `y`) is a place of the board that holds a block.
    pub fn contains_node(&self, x: i32, y: i32) -> (b: bool)
        requires
            self.wf(),
        ensures
            b == self@.occupied(x as int, y as int),
    {
        self.valid_index(x, y) && self.value_of(x, y).is_some()
    }

    /// Whether one of `nodes` is a place of the board that holds a block.
    pub fn contains_any(&self, nodes: &[(i32, i32)]) -> (b: bool)
        requires
            self.wf(),
        ensures
            b == self@.any_occupied(points(nodes@)),
    {
        let mut i: usize = 0;
        while i < nodes.len()
            invariant
                self.wf(),
                i <= nodes.len(),
                forall|k: int| 0 <= k < i ==> !self@.occupied_at(#[trigger] points(nodes@)[k]),
            decreases nodes.len() - i,
        {
            let (x, y) = nodes[i];
            if self.contains_node(x, y) {
                assert(self@.occupied_at(points(nodes@)[i as int]));
                return true;
            }
            i += 1;
        }
        false
    }

    /// Whether the piece may stand on the board: none of its cells on a
    /// block, past a wall or below the floor.
    pub fn valid_piece(&self, piece: Piece) -> (b: bool)
        requires
            self.wf(),
            piece@.fits(),
        ensures
            b == self@.accepts(piece@.cells()),
    {
        let blocks = piece.coordinates();
        !self.contains_any(&blocks) && !self.hits_wall(&blocks) && !self.hits_floor(&blocks)
    }

    /// Whether one of `nodes` lies below the last row.
    pub fn hits_floor(&self, nodes: &[(i32, i32)]) -> (b: bool)
        ensures
            b == self@.any_past_floor(points(nodes@)),
    {
        let mut i: usize = 0;
        while i < nodes.len()
            invariant
                i <= nodes.len(),
                forall|k: int| 0 <= k < i ==> (#[trigger] points(nodes@)[k]).1 < self@.height,
            decreases nodes.len() - i,
        {
            let (_, y) = nodes[i];
            if y >= self.height {
                assert(points(nodes@)[i as int].1 >= self@.height);
                return true;
            }
            i += 1;
        }
        false
    }

    /// Whether one of `nodes` lies left of column 0 or right of the last
    /// column.
    pub fn hits_wall(&self, nodes: &[(i32, i32)]) -> (b: bool)
        ensures
            b == self@.any_past_wall(points(nodes@)),
    {
        let mut i: usize = 0;
        while i < nodes.len()
            invariant
                i <= nodes.len(),
                forall|k: int|
                    0 <= k < i ==> 0 <= (#[trigger] points(nodes@)[k]).0 < self@.width,
            decreases nodes.len() - i,
        {
            let (x, _) = nodes[i];
            if x >= self.width || x < 0 {
                assert(points(nodes@)[i as int].0 >= self@.width || points(nodes@)[i as int].0
                    < 0);
                return true;
            }
            i += 1;
        }
        false
    }

    /// Those of `nodes`, in their order, that are places of the board and
    /// hold a block.
    pub fn collisions(&self, nodes: &[(i32, i32)]) -> (res: Vec<(i32, i32)>)
        requires
            self.wf(),
        ensures
            points(res@) == self@.colliding(points(nodes@)),
    {
        let mut res: Vec<(i32, i32)> = Vec::new();
        let mut i: usize = 0;
        proof {
            self@.lemma_colliding_push(Seq::empty(), (0, 0));
            assert(points(nodes@).take(0) =~= Seq::empty());
            assert(points(res@) =~= Seq::empty());
        }
        while i < nodes.len()
            invariant
                self.wf(),
                i <= nodes.len(),
                points(res@) == self@.colliding(points(nodes@).take(i as int)),
            decreases nodes.len() - i,
        {
            let (x, y) = nodes[i];
            let ghost before = points(res@);
            proof {
                let all = points(nodes@);
                assert(all.take(i + 1) =~= all.take(i as int).push(all[i as int]));
                self@.lemma_colliding_push(all.take(i as int), all[i as int]);
            }
            if self.contains_node(x, y) {
                res.push((x, y));
                assert(points(res@) =~= before.push((x as int, y as int)));
            }
            i += 1;
        }
        assert(points(nodes@).take(i as int) =~= points(nodes@));
        res
    }

    /// Whether every place of row `row` holds a block.
    pub fn is_row_full(&self, row: i32) -> (b: bool)
        requires
            self.wf(),
        ensures
            b == self@.row_full(row as int),
    {
        let mut x: i32 = 0;
        while x < self.width
            invariant
                self.wf(),
                0 <= x <= self.width,
                forall|c: int| 0 <= c < x ==> #[trigger] self@.occupied(c, row as int),
            decreases self.width - x,
        {
            if !self.contains_node(x, row) {
                return false;
            }
            x += 1;
        }
        true
    }

    /// The blocks of the board with their places, in row-major order.
    pub fn get_blocks(&self) -> (res: Vec<((i32, i32), Color)>)
        requires
            self.wf(),
        ensures
            placed(res@) == self@.blocks(),
    {
        let mut res: Vec<((i32, i32), Color)> = Vec::new();
        let mut i: usize = 0;
        proof {
            self@.lemma_blocks_within_step(0);
            assert(placed(res@) =~= Seq::empty());
        }
        while i < self.game_field.len()
            invariant
                self.wf(),
                i <= self.game_field.len(),
                placed(res@) == self@.blocks_within(i as int),
            decreases self.game_field.len() - i,
        {
            let ghost before = placed(res@);
            proof {
                self@.lemma_blocks_within_step(i as int);
            }
            match self.game_field[i] {
                Option::None => (),
                Option::Some(color) => {
                    let at = self.from_index(i);
                    res.push((at, color));
                    assert(placed(res@) =~= before.push(self@.block_at(i as int)));
                },
            }
            i += 1;
        }
        res
    }

    /// Writes `color` to each of `blocks` that is a place of the board and
    /// holds no block. A block that is there already stays as it is, and a
    /// node outside the board is passed over.
    pub fn insert_blocks(&mut self, blocks: &[(i32, i32)], color: Color)
        requires
            old(self).wf(),
        ensures
            final(self).wf(),
            final(self)@ == old(self)@.with_blocks(points(blocks@), color),
            forall|x: int, y: int|
                old(self)@.in_bounds(x, y) ==> #[trigger] final(self)@.cell(x, y) == if old(
                    self,
                )@.cell(x, y) is None && points(blocks@).contains((x, y)) {
                    Some(color)
                } else {
                    old(self)@.cell(x, y)
                },
    {
        let ghost start = self@;
        let mut i: usize = 0;
        proof {
            start.lemma_with_blocks_push(Seq::empty(), (0, 0), color);
            assert(points(blocks@).take(0) =~= Seq::empty());
        }
        while i < blocks.len()
            invariant
                start.wf(),
                self.wf(),
                i <= blocks.len(),
                self@ == start.with_blocks(points(blocks@).take(i as int), color),
            decreases blocks.len() - i,
        {
            let (x, y) = blocks[i];
            proof {
                let all = points(blocks@);
                assert(all.take(i + 1) =~= all.take(i as int).push(all[i as int]));
                start.lemma_with_blocks_push(all.take(i as int), all[i as int], color);
            }
            if self.valid_index(x, y) && !self.contains_node(x, y) {
                self.set_block(x, y, color);
            }
            i += 1;
        }
        proof {
            assert(points(blocks@).take(i as int) =~= points(blocks@));
            assert forall|x: int, y: int| start.in_bounds(x, y) implies #[trigger] self@.cell(x, y)
                == if start.cell(x, y) is None && points(blocks@).contains((x, y)) {
                Some(color)
            } else {
                start.cell(x, y)
            } by {
                start.lemma_with_blocks_cell(points(blocks@), color, x, y);
            }
        }
    }

    /// Takes out a row of the board: each row above it moves down by one,
    /// row 0 becomes empty, and the rows below it stay as they are.
    pub fn delete_row(&mut self, row: i32)
        requires
            old(self).wf(),
            0 <= row < old(self)@.height,
        ensures
            final(self).wf(),
            final(self)@ == old(self)@.row_removed(row as int),
            forall|x: int, y: int|
                old(self)@.in_bounds(x, y) ==> #[trigger] final(self)@.cell(x, y) == if y > row {
                    old(self)@.cell(x, y)
                } else if y == 0 {
                    None
                } else {
                    old(self)@.cell(x, y - 1)
                },
    {
        let ghost start = self@;
        let w: usize = self.width as usize;
        proof {
            assert(self@.cells.len() == self.game_field.len());
            assert(w <= w * (row + 1) <= w * start.height && w * (row + 1) == (row + 1) * w)
                by (nonlinear_arith)
                requires
                    0 <= row < start.height,
                    0 < w,
            ;
            assert(start.cells.len() == w * start.height);
        }
        let end: usize = w * (row as usize + 1);
        let mut i: usize = end;
        while i > w
            invariant
                start.wf(),
                self@.width == start.width <= i32::MAX,
                self@.height == start.height <= i32::MAX,
                w == start.width,
                w <= i <= end,
                end == (row + 1) * w,
                end <= self.game_field.len(),
                self.game_field.len() == start.cells.len(),
                forall|j: int| 0 <= j < i ==> self.game_field@[j] == start.cells[j],
                forall|j: int| i <= j < end ==> self.game_field@[j] == start.cells[j - w],
                forall|j: int|
                    end <= j < self.game_field.len() ==> self.game_field@[j] == start.cells[j],
            decreases i,
        {
            i -= 1;
            let above = self.game_field[i - w];
            self.game_field[i] = above;
        }
        let mut x: usize = 0;
        while x < w
            invariant
                start.wf(),
                self@.width == start.width <= i32::MAX,
                self@.height == start.height <= i32::MAX,
                w == start.width,
                x <= w,
                w <= end,
                end == (row + 1) * w,
                end <= self.game_field.len(),
                self.game_field.len() == start.cells.len(),
                forall|j: int| 0 <= j < x ==> self.game_field@[j] is None,
                forall|j: int| w <= j < end ==> self.game_field@[j] == start.cells[j - w],
                forall|j: int|
                    end <= j < self.game_field.len() ==> self.game_field@[j] == start.cells[j],
            decreases w - x,
        {
            self.game_field[x] = Option::None;
            x += 1;
        }
        proof {
            assert(self@.cells =~= start.row_removed(row as int).cells);
            assert forall|x: int, y: int| start.in_bounds(x, y) implies #[trigger] self@.cell(x, y)
                == if y > row {
                start.cell(x, y)
            } else if y == 0 {
                None
            } else {
                start.cell(x, y - 1)
            } by {
                start.lemma_row_removed_cell(row as int, x, y);
            }
        }
    }

    /// The width of the board.
    pub fn width(&self) -> (w: i32)
        ensures
            w == self@.width,
    {
        self.width
    }

    /// The height of the board.
    pub fn height(&self) -> (h: i32)
        ensures
            h == self@.height,
    {
        self.height
    }
}

} // verus!
