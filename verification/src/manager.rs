//! The game: one board, one falling piece, and the steps that move the
//! piece, lock it and bring the next one.

use crate::clearing::lemma_cleared_has_no_full_row;
use crate::clearing::lemma_clearing_keeps_sides;
use crate::clearing::lemma_with_blocks_row_full;
use crate::clearing::touches;
use crate::color::Color;
use crate::gamefield::GameField;
use crate::grid::placed;
use crate::grid::points;
use crate::grid::FieldView;
use crate::piece::lemma_base_offsets_bounds;
use crate::piece::lemma_fits;
use crate::piece::Piece;
use crate::piece::PieceView;
use crate::piece::Rotation;
use crate::rng::entropy_rng;
use rand::rngs::StdRng;
use vstd::prelude::*;

verus! {

/// The largest side of a board, and the largest distance of an anchor from
/// the origin along either axis, that a game handles. It keeps the anchor
/// eight places from the ends of `i32`, so that the cells of the piece, and
/// of the pieces one move away from it, are `i32`s.
pub const REACH: i32 = 2147483639;

/// What a game is: the board and the falling piece.
pub struct ManagerView {
    pub field: FieldView,
    pub piece: PieceView,
}

impl ManagerView {
    /// The board is well formed, and the board's sides and the anchor of the
    /// piece are within `REACH`.
    pub open spec fn wf(self) -> bool {
        &&& self.field.wf()
        &&& self.field.width <= REACH
        &&& self.field.height <= REACH
        &&& -REACH <= self.piece.position.0 <= REACH
        &&& -REACH <= self.piece.position.1 <= REACH
    }

    /// Whether the piece may stand where it is.
    pub open spec fn piece_valid(self) -> bool {
        self.field.accepts(self.piece.cells())
    }

    /// Whether the piece cannot fall: one row further down, one of its cells
    /// would be below the floor or on a block.
    pub open spec fn blocked(self) -> bool {
        let down = self.piece.moved(0, 1).cells();
        self.field.any_past_floor(down) || self.field.any_occupied(down)
    }

    /// The game after the piece has locked where it is: its cells are
    /// written to the board, and every full row that one of them lies in is
    /// cleared. The piece itself stays as it is.
    pub open spec fn locked(self) -> ManagerView {
        ManagerView {
            field: self.field.with_blocks(self.piece.cells(), self.piece.color).cleared(
                self.piece.cells(),
            ),
            ..self
        }
    }

    /// The game one step on: the piece locks if it cannot fall, and else
    /// falls by one row.
    pub open spec fn stepped(self) -> ManagerView {
        if self.blocked() {
            self.locked()
        } else {
            ManagerView { piece: self.piece.moved(0, 1), ..self }
        }
    }

    /// The game after a move or a turn was asked for that would make the
    /// piece `candidate`: it is taken if the candidate may stand on the
    /// board, and else nothing changes.
    pub open spec fn offered(self, candidate: PieceView) -> ManagerView {
        if self.field.accepts(candidate.cells()) {
            ManagerView { piece: candidate, ..self }
        } else {
            self
        }
    }

    /// The game with `next` as its piece, the anchor in the middle column of
    /// the top row. Whether the piece may stand there is not asked.
    pub open spec fn spawned(self, next: PieceView) -> ManagerView {
        ManagerView { piece: next.placed((self.field.width / 2, 0)), ..self }
    }

    /// What there is to draw: the blocks of the board in row-major order,
    /// then the four cells of the piece in its colour.
    pub open spec fn elems(self) -> Seq<((int, int), Color)> {
        self.field.blocks() + self.piece.cells().map_values(
            |c: (int, int)| (c, self.piece.color),
        )
    }
}

/// A move or a turn that was asked for leaves a piece that may stand on the
/// board one that may, whether it was taken or not.
pub proof fn lemma_offer_keeps_piece_valid(m: ManagerView, candidate: PieceView)
    requires
        m.piece_valid(),
    ensures
        m.offered(candidate).piece_valid(),
{
}

/// A piece with a cell in column 0 stays where it is when it is asked to
/// move left: anchor, orientation and kind are as they were.
pub proof fn lemma_move_left_at_the_wall_is_rejected(m: ManagerView)
    requires
        exists|i: int| 0 <= i < 4 && (#[trigger] m.piece.cells()[i]).0 == 0,
    ensures
        m.offered(m.piece.moved(-1, 0)) == m,
{
    let i = choose|i: int| 0 <= i < 4 && (#[trigger] m.piece.cells()[i]).0 == 0;
    let left = m.piece.moved(-1, 0).cells();
    assert(left[i].0 < 0);
}

/// A piece with a cell in the last column stays where it is when it is
/// asked to move right.
pub proof fn lemma_move_right_at_the_wall_is_rejected(m: ManagerView)
    requires
        exists|i: int| 0 <= i < 4 && (#[trigger] m.piece.cells()[i]).0 == m.field.width - 1,
    ensures
        m.offered(m.piece.moved(1, 0)) == m,
{
    let i = choose|i: int| 0 <= i < 4 && (#[trigger] m.piece.cells()[i]).0 == m.field.width - 1;
    let right = m.piece.moved(1, 0).cells();
    assert(right[i].0 >= m.field.width);
}

/// A piece with a cell in the last row cannot fall: the next step locks it.
pub proof fn lemma_piece_on_the_floor_is_blocked(m: ManagerView)
    requires
        exists|i: int| 0 <= i < 4 && (#[trigger] m.piece.cells()[i]).1 == m.field.height - 1,
    ensures
        m.blocked(),
        m.stepped() == m.locked(),
{
    let i = choose|i: int| 0 <= i < 4 && (#[trigger] m.piece.cells()[i]).1 == m.field.height - 1;
    let down = m.piece.moved(0, 1).cells();
    assert(down[i].1 >= m.field.height);
}

/// A piece that may stand where it is, and falls, may stand where it lands.
pub proof fn lemma_fall_keeps_piece_valid(m: ManagerView)
    requires
        m.piece_valid(),
        !m.blocked(),
    ensures
        m.stepped().piece_valid(),
{
    let cells = m.piece.cells();
    let down = m.piece.moved(0, 1).cells();
    if m.field.any_past_wall(down) {
        let k = choose|k: int|
            0 <= k < down.len() && ((#[trigger] down[k]).0 < 0 || down[k].0 >= m.field.width);
        assert(cells[k].0 == down[k].0);
    }
}

/// On a board without a full row, a step leaves no full row: the rows that
/// the locking piece fills are cleared.
pub proof fn lemma_step_leaves_no_full_row(m: ManagerView)
    requires
        m.field.wf(),
        forall|y: int| !m.field.row_full(y),
    ensures
        forall|y: int| !m.stepped().field.row_full(y),
{
    if m.blocked() {
        let cells = m.piece.cells();
        let written = m.field.with_blocks(cells, m.piece.color);
        assert forall|y: int| written.row_full(y) implies touches(cells, y) by {
            lemma_with_blocks_row_full(m.field, cells, m.piece.color, y);
        }
        lemma_cleared_has_no_full_row(written, cells);
    }
}

/// A game: it owns its board, its falling piece and the generator that the
/// next pieces are drawn from.
pub struct TetrisManager {
    game_field: GameField,
    game_piece: Piece,
    rng: StdRng,
}

impl View for TetrisManager {
    type V = ManagerView;

    closed spec fn view(&self) -> ManagerView {
        ManagerView { field: self.game_field@, piece: self.game_piece@ }
    }
}

impl TetrisManager {
    /// The invariant of a game: that of its board, and the limits on the
    /// sides of the board and on the anchor of the piece.
    pub open spec fn wf(&self) -> bool {
        self@.wf()
    }

    /// A game on an empty board of the given sides, with a generator seeded
    /// by the operating system and a first piece drawn from it. Kind and
    /// colour of the piece are up to the generator. Where the operating
    /// system cannot provide the seed, the call panics.
    pub fn new(width: i32, height: i32) -> (m: TetrisManager)
        requires
            0 < width <= REACH,
            0 < height <= REACH,
            width * height <= usize::MAX,
        ensures
            m.wf(),
            m@.field == FieldView::blank(width as int, height as int),
            m@.piece.position == (width as int / 2, 0int),
            m@.piece.rotation == Rotation::Up,
    {
        TetrisManager::with_rng(width, height, entropy_rng())
    }

    /// A game on an empty board of the given sides that draws its pieces,
    /// the first one too, from `rng`. Kind and colour of the first piece are
    /// up to the generator.
    pub fn with_rng(width: i32, height: i32, rng: StdRng) -> (m: TetrisManager)
        requires
            0 < width <= REACH,
            0 < height <= REACH,
            width * height <= usize::MAX,
        ensures
            m.wf(),
            m@.field == FieldView::blank(width as int, height as int),
            m@.piece.position == (width as int / 2, 0int),
            m@.piece.rotation == Rotation::Up,
    {
        let mut rng = rng;
        let mut piece = Piece::from_rng(&mut rng);
        piece.set_position((width / 2, 0));
        TetrisManager { game_field: GameField::new(width, height), game_piece: piece, rng }
    }

    /// A game that goes on from the given board and piece, and draws the
    /// next pieces from `rng`.
    pub fn from_parts(field: GameField, piece: Piece, rng: StdRng) -> (m: TetrisManager)
        requires
            (ManagerView { field: field@, piece: piece@ }).wf(),
        ensures
            m.wf(),
            m@ == (ManagerView { field: field@, piece: piece@ }),
    {
        TetrisManager { game_field: field, game_piece: piece, rng }
    }

    /// The board.
    pub fn field(&self) -> (f: &GameField)
        requires
            self.wf(),
        ensures
            f.wf(),
            f@ == self@.field,
    {
        &self.game_field
    }

    /// The falling piece.
    pub fn piece(&self) -> (p: Piece)
        ensures
            p@ == self@.piece,
    {
        self.game_piece
    }

    /// Advances the game by one step and says whether the piece fell. If one
    /// row further down a cell of the piece would be below the floor or on a
    /// block, the piece locks where it is: its cells are written to the
    /// board, every full row that one of them lies in is cleared, and the
    /// piece is left as it is. Else the piece falls by one row.
    pub fn step(&mut self) -> (fell: bool)
        requires
            old(self).wf(),
        ensures
            final(self).wf(),
            fell == !old(self)@.blocked(),
            final(self)@ == old(self)@.stepped(),
            final(self)@.field.width == old(self)@.field.width,
            final(self)@.field.height == old(self)@.field.height,
    {
        proof {
            lemma_fits(self@.piece);
            lemma_fits(self@.piece.moved(0, 1));
        }
        let down_one = self.game_piece.move_down();
        let new_coords = down_one.coordinates();
        let hits_floor = self.game_field.hits_floor(&new_coords);
        let hits_block = self.game_field.contains_any(&new_coords);
        if hits_floor || hits_block {
            let coords = self.game_piece.coordinates();
            self.game_field.insert_blocks(&coords, self.game_piece.color());
            self.game_field.clear_rows(&coords);
            proof {
                lemma_clearing_keeps_sides(
                    old(self)@.field.with_blocks(self@.piece.cells(), self@.piece.color),
                    self@.piece.cells(),
                    0,
                );
            }
            false
        } else {
            proof {
                let down = old(self)@.piece.moved(0, 1);
                lemma_base_offsets_bounds(down.piece_type, down.rotation, 0);
                assert(down.cells()[0].1 < old(self)@.field.height);
            }
            self.game_piece = down_one;
            true
        }
    }

    /// Makes `piece` the falling piece, with its anchor in the middle column
    /// of the top row. Whether it may stand there is not asked.
    pub fn spawn(&mut self, piece: Piece)
        requires
            old(self).wf(),
        ensures
            final(self).wf(),
            final(self)@ == old(self)@.spawned(piece@),
    {
        let mut piece = piece;
        piece.set_position((self.game_field.width() / 2, 0));
        self.game_piece = piece;
    }

    /// Advances the game by one step, and where the piece locked, draws the
    /// next piece from the generator and spawns it. Kind and colour of the
    /// new piece are up to the generator.
    pub fn tick(&mut self)
        requires
            old(self).wf(),
        ensures
            final(self).wf(),
            final(self)@.field == old(self)@.stepped().field,
            !old(self)@.blocked() ==> final(self)@.piece == old(self)@.stepped().piece,
            old(self)@.blocked() ==> {
                &&& final(self)@.piece.position == (old(self)@.field.width / 2, 0int)
                &&& final(self)@.piece.rotation == Rotation::Up
            },
    {
        let stepped = self.step();
        if !stepped {
            let next = Piece::from_rng(&mut self.rng);
            self.spawn(next);
        }
    }

    /// Turns the piece a quarter clockwise if it may stand on the board
    /// then; else nothing changes.
    pub fn rotate_right(&mut self)
        requires
            old(self).wf(),
        ensures
            final(self).wf(),
            final(self)@ == old(self)@.offered(old(self)@.piece.turned_right()),
    {
        proof {
            lemma_fits(self@.piece.turned_right());
        }
        let rotated = self.game_piece.rotate_right();
        if self.game_field.valid_piece(rotated) {
            self.game_piece = rotated;
        }
    }

    /// Turns the piece a quarter counter-clockwise if it may stand on the
    /// board then; else nothing changes.
    pub fn rotate_left(&mut self)
        requires
            old(self).wf(),
        ensures
            final(self).wf(),
            final(self)@ == old(self)@.offered(old(self)@.piece.turned_left()),
    {
        proof {
            lemma_fits(self@.piece.turned_left());
        }
        let rotated = self.game_piece.rotate_left();
        if self.game_field.valid_piece(rotated) {
            self.game_piece = rotated;
        }
    }

    /// Moves the piece one column to the left if it may stand on the board
    /// there; else nothing changes.
    pub fn move_left(&mut self)
        requires
            old(self).wf(),
        ensures
            final(self).wf(),
            final(self)@ == old(self)@.offered(old(self)@.piece.moved(-1, 0)),
    {
        proof {
            lemma_fits(self@.piece.moved(-1, 0));
        }
        let moved = self.game_piece.move_left();
        if self.game_field.valid_piece(moved) {
            proof {
                lemma_base_offsets_bounds(moved@.piece_type, moved@.rotation, 0);
                assert(0 <= moved@.cells()[0].0);
            }
            self.game_piece = moved;
        }
    }

    /// Moves the piece one column to the right if it may stand on the board
    /// there; else nothing changes.
    pub fn move_right(&mut self)
        requires
            old(self).wf(),
        ensures
            final(self).wf(),
            final(self)@ == old(self)@.offered(old(self)@.piece.moved(1, 0)),
    {
        proof {
            lemma_fits(self@.piece.moved(1, 0));
        }
        let moved = self.game_piece.move_right();
        if self.game_field.valid_piece(moved) {
            proof {
                lemma_base_offsets_bounds(moved@.piece_type, moved@.rotation, 0);
                assert(moved@.cells()[0].0 < self@.field.width);
            }
            self.game_piece = moved;
        }
    }

    /// What there is to draw: the blocks of the board in row-major order,
    /// then the four cells of the piece in its colour.
    pub fn elems(&self) -> (res: Vec<((i32, i32), Color)>)
        requires
            self.wf(),
        ensures
            placed(res@) == self@.elems(),
    {
        proof {
            lemma_fits(self@.piece);
        }
        let coords = self.game_piece.coordinates();
        let color = self.game_piece.color();
        let mut res = self.game_field.get_blocks();
        let ghost blocks = placed(res@);
        let ghost cells = self@.piece.cells();
        for i in 0..4usize
            invariant
                points(coords@) == cells,
                cells.len() == 4,
                placed(res@) == blocks + Seq::new(i as nat, |k: int| (cells[k], color)),
        {
            let ghost before = placed(res@);
            res.push((coords[i], color));
            proof {
                assert(points(coords@)[i as int] == cells[i as int]);
                assert(placed(res@) =~= before.push((cells[i as int], color)));
                assert(placed(res@) =~= blocks + Seq::new(
                    (i + 1) as nat,
                    |k: int| (cells[k], color),
                ));
            }
        }
        assert(placed(res@) =~= self@.elems());
        res
    }

    /// The number of columns of the board.
    pub fn num_columns(&self) -> (n: i32)
        ensures
            n == self@.field.width,
    {
        self.game_field.width()
    }

    /// The number of rows of the board.
    pub fn num_rows(&self) -> (n: i32)
        ensures
            n == self@.field.height,
    {
        self.game_field.height()
    }
}

} // verus!
