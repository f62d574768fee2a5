//! Pieces: the seven kinds, their rotation states and their cells.

use crate::color::Color;
use crate::grid::points;
use crate::rng::next_usize;
use rand::rngs::StdRng;
use vstd::prelude::*;

verus! {

/// The four orientations of a piece, in clockwise order.
#[derive(Copy, Clone, Debug, PartialEq, Eq, Structural)]
pub enum Rotation {
    Up,
    Right,
    Down,
    Left,
}

impl Rotation {
    /// The place of an orientation in the cycle, from 0 to 3.
    pub open spec fn index(self) -> int {
        match self {
            Rotation::Up => 0,
            Rotation::Right => 1,
            Rotation::Down => 2,
            Rotation::Left => 3,
        }
    }

    /// The orientation at a place of the cycle; `Up` outside 0..4.
    pub open spec fn at(i: int) -> Rotation {
        if i == 1 {
            Rotation::Right
        } else if i == 2 {
            Rotation::Down
        } else if i == 3 {
            Rotation::Left
        } else {
            Rotation::Up
        }
    }

    /// The cyclic predecessor.
    pub open spec fn left(self) -> Rotation {
        Rotation::at((self.index() - 1) % 4)
    }

    /// The cyclic successor.
    pub open spec fn right(self) -> Rotation {
        Rotation::at((self.index() + 1) % 4)
    }

    /// Turns a quarter counter-clockwise: `Up` becomes `Left`.
    pub fn rotate_left(self) -> (r: Rotation)
        ensures
            r == self.left(),
    {
        match self {
            Rotation::Up => Rotation::Left,
            Rotation::Right => Rotation::Up,
            Rotation::Down => Rotation::Right,
            Rotation::Left => Rotation::Down,
        }
    }

    /// Turns a quarter clockwise: `Left` becomes `Up`.
    pub fn rotate_right(self) -> (r: Rotation)
        ensures
            r == self.right(),
    {
        match self {
            Rotation::Up => Rotation::Right,
            Rotation::Right => Rotation::Down,
            Rotation::Down => Rotation::Left,
            Rotation::Left => Rotation::Up,
        }
    }
}

impl Default for Rotation {
    /// A piece starts out pointing up.
    fn default() -> (r: Rotation)
        ensures
            r == Rotation::Up,
    {
        Rotation::Up
    }
}

/// Turning goes one place on or back in the cycle.
pub proof fn lemma_rotation_index(r: Rotation)
    ensures
        r.right().index() == (r.index() + 1) % 4,
        r.left().index() == (r.index() - 1) % 4,
{
}

/// Turning left and then right, or right and then left, gives back the
/// orientation one started from.
pub proof fn lemma_rotations_are_inverse(r: Rotation)
    ensures
        r.left().right() == r,
        r.right().left() == r,
{
}

/// The seven kinds of piece.
#[derive(Copy, Clone, Debug, PartialEq, Eq, Structural)]
pub enum PieceType {
    I,
    J,
    L,
    O,
    S,
    T,
    Z,
}

/// How many kinds there are.
pub const PIECE_TYPE_COUNT: usize = 7;

impl PieceType {
    /// The place of a kind in the declaration order, from 0 to 6.
    pub open spec fn index(self) -> int {
        match self {
            PieceType::I => 0,
            PieceType::J => 1,
            PieceType::L => 2,
            PieceType::O => 3,
            PieceType::S => 4,
            PieceType::T => 5,
            PieceType::Z => 6,
        }
    }

    /// The kind at a place of the declaration order; `I` outside 0..7.
    pub open spec fn at(i: int) -> PieceType {
        if i == 1 {
            PieceType::J
        } else if i == 2 {
            PieceType::L
        } else if i == 3 {
            PieceType::O
        } else if i == 4 {
            PieceType::S
        } else if i == 5 {
            PieceType::T
        } else if i == 6 {
            PieceType::Z
        } else {
            PieceType::I
        }
    }

    /// The kind that a drawn number selects: the number is reduced modulo
    /// the count of kinds and indexes the declaration order, so that equally
    /// likely numbers give (all but) equally likely kinds.
    pub fn from_index(n: usize) -> (t: PieceType)
        ensures
            t == PieceType::at(n as int % 7),
            t.index() == n as int % 7,
    {
        let k: usize = n % PIECE_TYPE_COUNT;
        if k == 0 {
            PieceType::I
        } else if k == 1 {
            PieceType::J
        } else if k == 2 {
            PieceType::L
        } else if k == 3 {
            PieceType::O
        } else if k == 4 {
            PieceType::S
        } else if k == 5 {
            PieceType::T
        } else {
            PieceType::Z
        }
    }

    /// Draws a kind: one number is taken from the generator and handed to
    /// [`PieceType::from_index`]. Which kind comes out is up to the generator.
    pub fn from_rng(rng: &mut StdRng) -> PieceType {
        let n: usize = next_usize(rng);
        PieceType::from_index(n)
    }
}

/// The two layouts of the I piece.
pub const I_LAYOUT: [[(i32, i32); 4]; 2] = [
    [(0, 0), (1, 0), (2, 0), (3, 0)],
    [(2, -1), (2, 0), (2, 1), (2, 2)],
];

/// The four layouts of the J piece.
pub const J_LAYOUT: [[(i32, i32); 4]; 4] = [
    [(-1, -1), (-1, 0), (0, 0), (1, 0)],
    [(1, -1), (0, -1), (0, 0), (0, 1)],
    [(-1, 0), (0, 0), (1, 0), (1, 1)],
    [(-1, 1), (0, -1), (0, 0), (0, 1)],
];

/// The four layouts of the L piece.
pub const L_LAYOUT: [[(i32, i32); 4]; 4] = [
    [(1, -1), (-1, 0), (0, 0), (1, 0)],
    [(1, 1), (0, -1), (0, 0), (0, 1)],
    [(-1, 0), (0, 0), (1, 0), (-1, 1)],
    [(-1, -1), (0, -1), (0, 0), (0, 1)],
];

/// The one layout of the O piece.
pub const O_LAYOUT: [[(i32, i32); 4]; 1] = [[(0, 0), (1, 0), (0, 1), (1, 1)]];

/// The two layouts of the S piece.
pub const S_LAYOUT: [[(i32, i32); 4]; 2] = [
    [(-1, 0), (0, 0), (0, -1), (1, -1)],
    [(0, -1), (0, 0), (1, 0), (1, 1)],
];

/// The four layouts of the T piece.
pub const T_LAYOUT: [[(i32, i32); 4]; 4] = [
    [(0, -1), (-1, 0), (0, 0), (1, 0)],
    [(1, 0), (0, -1), (0, 0), (0, 1)],
    [(-1, 0), (0, 0), (1, 0), (0, 1)],
    [(-1, 0), (0, 1), (0, 0), (0, -1)],
];

/// The two layouts of the Z piece.
pub const Z_LAYOUT: [[(i32, i32); 4]; 2] = [
    [(-1, -1), (0, -1), (0, 0), (1, 0)],
    [(1, -1), (1, 0), (0, 0), (0, 1)],
];

/// The layouts that a kind owns, in rotation order: one for O, two for I, S
/// and Z, four for J, L and T.
pub open spec fn layouts(piece_type: PieceType) -> Seq<[(i32, i32); 4]> {
    match piece_type {
        PieceType::I => I_LAYOUT@,
        PieceType::J => J_LAYOUT@,
        PieceType::L => L_LAYOUT@,
        PieceType::O => O_LAYOUT@,
        PieceType::S => S_LAYOUT@,
        PieceType::T => T_LAYOUT@,
        PieceType::Z => Z_LAYOUT@,
    }
}

/// O has one layout, I, S and Z have two, and J, L and T have four.
pub proof fn lemma_layout_counts()
    ensures
        layouts(PieceType::O).len() == 1,
        layouts(PieceType::I).len() == 2,
        layouts(PieceType::S).len() == 2,
        layouts(PieceType::Z).len() == 2,
        layouts(PieceType::J).len() == 4,
        layouts(PieceType::L).len() == 4,
        layouts(PieceType::T).len() == 4,
{
}

/// The four offsets of a kind in an orientation, relative to the anchor: the
/// kind's layouts indexed by the orientation modulo their number.
pub open spec fn base_offsets(piece_type: PieceType, rotation: Rotation) -> Seq<(i32, i32)> {
    let table = layouts(piece_type);
    table[rotation.index() % (table.len() as int)]@
}

/// The four offsets of a kind in an orientation, relative to the anchor.
pub fn get_base_coordinates(piece_type: PieceType, rotation: Rotation) -> (res: [(i32, i32); 4])
    ensures
        res@ == base_offsets(piece_type, rotation),
        res@.no_duplicates(),
{
    proof {
        lemma_base_offsets_distinct(piece_type, rotation);
    }
    let rot: usize = match rotation {
        Rotation::Up => 0,
        Rotation::Right => 1,
        Rotation::Down => 2,
        Rotation::Left => 3,
    };
    let table: &[[(i32, i32); 4]] = match piece_type {
        PieceType::I => &I_LAYOUT,
        PieceType::J => &J_LAYOUT,
        PieceType::L => &L_LAYOUT,
        PieceType::O => &O_LAYOUT,
        PieceType::S => &S_LAYOUT,
        PieceType::T => &T_LAYOUT,
        PieceType::Z => &Z_LAYOUT,
    };
    table[rot % table.len()]
}

/// Every kind in every orientation has exactly four offsets, no two of them
/// the same.
pub proof fn lemma_base_offsets_distinct(piece_type: PieceType, rotation: Rotation)
    ensures
        base_offsets(piece_type, rotation).len() == 4,
        base_offsets(piece_type, rotation).no_duplicates(),
{
}

/// The O piece looks the same in every orientation.
pub proof fn lemma_o_piece_is_rotation_invariant(a: Rotation, b: Rotation)
    ensures
        base_offsets(PieceType::O, a) == base_offsets(PieceType::O, b),
{
    lemma_layout_counts();
}

/// The I, S and Z pieces look the same after a half turn.
pub proof fn lemma_half_turn_symmetry(piece_type: PieceType, rotation: Rotation)
    requires
        piece_type == PieceType::I || piece_type == PieceType::S || piece_type == PieceType::Z,
    ensures
        base_offsets(piece_type, rotation.right().right()) == base_offsets(piece_type, rotation),
{
    lemma_layout_counts();
    let turned = rotation.right().right();
    assert(turned.index() == (rotation.index() + 2) % 4) by {
        lemma_rotation_index(rotation);
        lemma_rotation_index(rotation.right());
    }
    assert(turned.index() % 2 == rotation.index() % 2);
}

/// No offset reaches further than one place to the left of or above the
/// anchor, three places to its right, or two places below it.
pub proof fn lemma_base_offsets_bounds(piece_type: PieceType, rotation: Rotation, i: int)
    requires
        0 <= i < 4,
    ensures
        -1 <= base_offsets(piece_type, rotation)[i].0 <= 3,
        -1 <= base_offsets(piece_type, rotation)[i].1 <= 2,
{
}

/// What a piece is: a kind, an orientation, the position of its anchor and
/// a colour. Its cells follow from these alone.
pub struct PieceView {
    pub color: Color,
    pub piece_type: PieceType,
    pub rotation: Rotation,
    pub position: (int, int),
}

impl PieceView {
    /// The four places that the piece covers: the offsets of its kind and
    /// orientation, each moved by the anchor.
    pub open spec fn cells(self) -> Seq<(int, int)> {
        let base = base_offsets(self.piece_type, self.rotation);
        Seq::new(4, |i: int| (self.position.0 + base[i].0, self.position.1 + base[i].1))
    }

    /// Whether each coordinate of each cell is an `i32`.
    pub open spec fn fits(self) -> bool {
        forall|i: int|
            0 <= i < 4 ==> {
                &&& i32::MIN <= (#[trigger] self.cells()[i]).0 <= i32::MAX
                &&& i32::MIN <= self.cells()[i].1 <= i32::MAX
            }
    }

    /// The piece with its anchor moved by (`dx`, `dy`).
    pub open spec fn moved(self, dx: int, dy: int) -> PieceView {
        PieceView { position: (self.position.0 + dx, self.position.1 + dy), ..self }
    }

    /// The piece with its anchor at `position`.
    pub open spec fn placed(self, position: (int, int)) -> PieceView {
        PieceView { position, ..self }
    }

    /// The piece turned a quarter counter-clockwise about its anchor.
    pub open spec fn turned_left(self) -> PieceView {
        PieceView { rotation: self.rotation.left(), ..self }
    }

    /// The piece turned a quarter clockwise about its anchor.
    pub open spec fn turned_right(self) -> PieceView {
        PieceView { rotation: self.rotation.right(), ..self }
    }
}

/// A piece whose anchor keeps one place from the lower end and three places
/// from the upper end of `i32` has cells that are `i32`s.
pub proof fn lemma_fits(p: PieceView)
    requires
        i32::MIN + 1 <= p.position.0 <= i32::MAX - 3,
        i32::MIN + 1 <= p.position.1 <= i32::MAX - 3,
    ensures
        p.fits(),
{
    assert forall|i: int| 0 <= i < 4 implies {
        &&& i32::MIN <= (#[trigger] p.cells()[i]).0 <= i32::MAX
        &&& i32::MIN <= p.cells()[i].1 <= i32::MAX
    } by {
        lemma_base_offsets_bounds(p.piece_type, p.rotation, i);
    }
}

/// The cells of a piece depend on its kind, its orientation and its anchor,
/// and on nothing else.
pub proof fn lemma_cells_depend_on_three_fields(p: PieceView, q: PieceView)
    requires
        p.piece_type == q.piece_type,
        p.rotation == q.rotation,
        p.position == q.position,
    ensures
        p.cells() == q.cells(),
{
}

/// The cells of a moved piece are the cells of the piece, each moved
/// likewise.
pub proof fn lemma_moved_cells(p: PieceView, dx: int, dy: int)
    ensures
        forall|i: int|
            0 <= i < 4 ==> #[trigger] p.moved(dx, dy).cells()[i] == (
                p.cells()[i].0 + dx,
                p.cells()[i].1 + dy,
            ),
{
}

/// A piece: a value that every move and turn copies.
#[derive(Copy, Clone, Debug, PartialEq, Eq)]
pub struct Piece {
    color: Color,
    piece_type: PieceType,
    rotation: Rotation,
    position: (i32, i32),
}

impl View for Piece {
    type V = PieceView;

    closed spec fn view(&self) -> PieceView {
        PieceView {
            color: self.color,
            piece_type: self.piece_type,
            rotation: self.rotation,
            position: (self.position.0 as int, self.position.1 as int),
        }
    }
}

impl Piece {
    /// Draws a piece: a kind and then a colour are drawn from the generator.
    /// The piece points up and has its anchor at the origin, whatever was
    /// drawn.
    pub fn from_rng(rng: &mut StdRng) -> (p: Piece)
        ensures
            p@.rotation == Rotation::Up,
            p@.position == (0int, 0int),
    {
        let t = PieceType::from_rng(rng);
        let c = Color::from_rng(rng);
        Piece::new(t, c, (0, 0))
    }

    /// A piece of the given kind and colour that points up, with its anchor
    /// at `position`.
    pub fn new(piece_type: PieceType, color: Color, position: (i32, i32)) -> (p: Piece)
        ensures
            p@ == (PieceView {
                color,
                piece_type,
                rotation: Rotation::Up,
                position: (position.0 as int, position.1 as int),
            }),
    {
        Piece { color, piece_type, rotation: Rotation::Up, position }
    }

    /// Puts the anchor at `coords`.
    pub fn set_position(&mut self, coords: (i32, i32))
        ensures
            final(self)@ == old(self)@.placed((coords.0 as int, coords.1 as int)),
    {
        self.position = coords;
    }

    /// The four places that the piece covers.
    pub fn coordinates(&self) -> (res: [(i32, i32); 4])
        requires
            self@.fits(),
        ensures
            points(res@) == self@.cells(),
    {
        let mut coords = get_base_coordinates(self.piece_type, self.rotation);
        let ghost base = coords@;
        let (pos_x, pos_y) = self.position;
        for i in 0..4usize
            invariant
                self@.fits(),
                base == base_offsets(self.piece_type, self.rotation),
                pos_x == self.position.0,
                pos_y == self.position.1,
                forall|j: int|
                    0 <= j < i ==> coords@[j] == (
                        self@.cells()[j].0 as i32,
                        self@.cells()[j].1 as i32,
                    ),
                forall|j: int| i <= j < 4 ==> coords@[j] == base[j],
        {
            let (x, y) = coords[i];
            assert(self@.cells()[i as int] == (pos_x + x, pos_y + y));
            coords[i] = (x + pos_x, y + pos_y);
        }
        assert(points(coords@) =~= self@.cells());
        coords
    }

    /// The piece turned a quarter clockwise; anchor, kind and colour stay.
    pub fn rotate_right(self) -> (p: Piece)
        ensures
            p@ == self@.turned_right(),
    {
        Piece { rotation: self.rotation.rotate_right(), ..self }
    }

    /// The piece turned a quarter counter-clockwise; anchor, kind and colour
    /// stay.
    pub fn rotate_left(self) -> (p: Piece)
        ensures
            p@ == self@.turned_left(),
    {
        Piece { rotation: self.rotation.rotate_left(), ..self }
    }

    /// The colour of the piece.
    pub fn color(&self) -> (c: Color)
        ensures
            c == self@.color,
    {
        self.color
    }

    /// The kind of the piece.
    pub fn piece_type(&self) -> (t: PieceType)
        ensures
            t == self@.piece_type,
    {
        self.piece_type
    }

    /// The orientation of the piece.
    pub fn rotation(&self) -> (r: Rotation)
        ensures
            r == self@.rotation,
    {
        self.rotation
    }

    /// The position of the anchor.
    pub fn position(&self) -> (at: (i32, i32))
        ensures
            (at.0 as int, at.1 as int) == self@.position,
    {
        self.position
    }

    /// The piece one row further down; orientation, kind and colour stay.
    pub fn move_down(&self) -> (p: Piece)
        requires
            self@.position.1 < i32::MAX,
        ensures
            p@ == self@.moved(0, 1),
    {
        let (x, y) = self.position;
        Piece { position: (x, y + 1), ..*self }
    }

    /// The piece one column further left; orientation, kind and colour stay.
    pub fn move_left(&self) -> (p: Piece)
        requires
            self@.position.0 > i32::MIN,
        ensures
            p@ == self@.moved(-1, 0),
    {
        let (x, y) = self.position;
        Piece { position: (x - 1, y), ..*self }
    }

    /// The piece one column further right; orientation, kind and colour
    /// stay.
    pub fn move_right(&self) -> (p: Piece)
        requires
            self@.position.0 < i32::MAX,
        ensures
            p@ == self@.moved(1, 0),
    {
        let (x, y) = self.position;
        Piece { position: (x + 1, y), ..*self }
    }
}

} // verus!
