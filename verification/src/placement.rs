//! What holds of a piece on a board: its cells are four places, a piece on
//! free places may stand there, and locking it adds four blocks.

use crate::color::Color;
use crate::grid::FieldView;
use crate::piece::base_offsets;
use crate::piece::lemma_base_offsets_distinct;
use crate::piece::PieceView;
use vstd::prelude::*;

verus! {

/// Whether each cell of the piece is a place of the board that holds no
/// block.
pub open spec fn on_free_places(f: FieldView, p: PieceView) -> bool {
    forall|i: int|
        0 <= i < 4 ==> {
            &&& f.in_bounds((#[trigger] p.cells()[i]).0, p.cells()[i].1)
            &&& f.cell(p.cells()[i].0, p.cells()[i].1) is None
        }
}

/// The cells of a piece are four different places.
pub proof fn lemma_cells_distinct(p: PieceView)
    ensures
        p.cells().len() == 4,
        p.cells().no_duplicates(),
{
    lemma_base_offsets_distinct(p.piece_type, p.rotation);
    let base = base_offsets(p.piece_type, p.rotation);
    assert forall|i: int, j: int| 0 <= i < 4 && 0 <= j < 4 && i != j implies p.cells()[i]
        != p.cells()[j] by {
        assert(base[i] != base[j]);
    }
}

/// After the first `k` cells of a piece on free places were written, the
/// board has `k` blocks more and the other cells of the piece are free
/// still.
proof fn lemma_placing_first_cells(f: FieldView, p: PieceView, color: Color, k: int)
    requires
        f.wf(),
        on_free_places(f, p),
        0 <= k <= 4,
    ensures
        f.with_blocks(p.cells().take(k), color).wf(),
        f.with_blocks(p.cells().take(k), color).blocks().len() == f.blocks().len() + k,
        forall|j: int|
            k <= j < 4 ==> f.with_blocks(p.cells().take(k), color).cell(
                (#[trigger] p.cells()[j]).0,
                p.cells()[j].1,
            ) is None,
    decreases k,
{
    let cells = p.cells();
    if k == 0 {
        assert(cells.take(0) =~= Seq::empty());
        f.lemma_with_blocks_push(Seq::empty(), (0, 0), color);
    } else {
        lemma_placing_first_cells(f, p, color, k - 1);
        lemma_cells_distinct(p);
        let before = f.with_blocks(cells.take(k - 1), color);
        let c = cells[k - 1];
        assert(cells.take(k) =~= cells.take(k - 1).push(c));
        f.lemma_with_blocks_push(cells.take(k - 1), c, color);
        assert(f.in_bounds(c.0, c.1));
        assert(before.cell(c.0, c.1) is None);
        before.lemma_fill_adds_one_block(c.0, c.1, color);
        let after = before.with_cell(c.0, c.1, Some(color));
        assert(after == f.with_blocks(cells.take(k), color));
        assert forall|j: int| k <= j < 4 implies after.cell((#[trigger] cells[j]).0, cells[j].1)
            is None by {
            assert(f.in_bounds(cells[j].0, cells[j].1));
            before.lemma_with_cell_cell(c.0, c.1, Some(color), cells[j].0, cells[j].1);
            assert(cells[j] != cells[k - 1]);
        }
    }
}

/// A piece whose cells are places of the board that hold no block may stand
/// there. Once its cells are written to the board in some colour, each of
/// them holds a block of that colour, and the board has exactly four blocks
/// more than it had.
pub proof fn lemma_placing_a_piece(f: FieldView, p: PieceView, color: Color)
    requires
        f.wf(),
        on_free_places(f, p),
    ensures
        f.accepts(p.cells()),
        forall|i: int|
            0 <= i < 4 ==> f.with_blocks(p.cells(), color).cell(
                (#[trigger] p.cells()[i]).0,
                p.cells()[i].1,
            ) == Some(color),
        f.with_blocks(p.cells(), color).blocks().len() == f.blocks().len() + 4,
{
    let cells = p.cells();
    lemma_placing_first_cells(f, p, color, 4);
    assert(cells.take(4) =~= cells);
    assert forall|i: int| 0 <= i < 4 implies f.with_blocks(cells, color).cell(
        (#[trigger] cells[i]).0,
        cells[i].1,
    ) == Some(color) by {
        assert(f.in_bounds(cells[i].0, cells[i].1));
        f.lemma_index_of_place(cells[i].0, cells[i].1);
        assert(cells.contains(cells[i]));
    }
    assert(!f.any_occupied(cells)) by {
        if f.any_occupied(cells) {
            let k = choose|k: int| 0 <= k < cells.len() && f.occupied_at(#[trigger] cells[k]);
            assert(f.cell(cells[k].0, cells[k].1) is None);
        }
    }
    assert(!f.any_past_wall(cells)) by {
        if f.any_past_wall(cells) {
            let k = choose|k: int|
                0 <= k < cells.len() && ((#[trigger] cells[k]).0 < 0 || cells[k].0 >= f.width);
            assert(f.in_bounds(cells[k].0, cells[k].1));
        }
    }
    assert(!f.any_past_floor(cells)) by {
        if f.any_past_floor(cells) {
            let k = choose|k: int| 0 <= k < cells.len() && (#[trigger] cells[k]).1 >= f.height;
            assert(f.in_bounds(cells[k].0, cells[k].1));
        }
    }
}

} // verus!
