use rand::rngs::StdRng;
use rand::SeedableRng;
use tetris::color::Color;
use tetris::piece::get_base_coordinates;
use tetris::piece::Piece;
use tetris::piece::PieceType;
use tetris::piece::Rotation;

const ROTATIONS: [Rotation; 4] = [Rotation::Up, Rotation::Right, Rotation::Down, Rotation::Left];

const KINDS: [PieceType; 7] = [
    PieceType::I,
    PieceType::J,
    PieceType::L,
    PieceType::O,
    PieceType::S,
    PieceType::T,
    PieceType::Z,
];

const COLORS: [Color; 6] = [
    Color::Red,
    Color::Green,
    Color::Blue,
    Color::White,
    Color::Magenta,
    Color::Yellow,
];

#[test]
fn rotate_left_of_up_is_left() {
    assert_eq!(Rotation::Up.rotate_left(), Rotation::Left);
}

#[test]
fn rotate_right_of_left_is_up() {
    assert_eq!(Rotation::Left.rotate_right(), Rotation::Up);
}

#[test]
fn rotation_cycles_in_both_directions() {
    assert_eq!(Rotation::Up.rotate_right(), Rotation::Right);
    assert_eq!(Rotation::Right.rotate_right(), Rotation::Down);
    assert_eq!(Rotation::Down.rotate_right(), Rotation::Left);
    assert_eq!(Rotation::Left.rotate_left(), Rotation::Down);
    assert_eq!(Rotation::Down.rotate_left(), Rotation::Right);
    assert_eq!(Rotation::Right.rotate_left(), Rotation::Up);
}

#[test]
fn rotations_are_inverse_of_each_other() {
    for r in ROTATIONS {
        assert_eq!(r.rotate_left().rotate_right(), r);
        assert_eq!(r.rotate_right().rotate_left(), r);
    }
}

#[test]
fn four_turns_give_back_the_rotation() {
    for r in ROTATIONS {
        assert_eq!(r.rotate_right().rotate_right().rotate_right().rotate_right(), r);
        assert_eq!(r.rotate_left().rotate_left().rotate_left().rotate_left(), r);
    }
}

#[test]
fn default_rotation_is_up() {
    assert_eq!(Rotation::default(), Rotation::Up);
}

#[test]
fn base_coordinates_are_four_distinct_offsets() {
    for t in KINDS {
        for r in ROTATIONS {
            let cells = get_base_coordinates(t, r);
            assert_eq!(cells.len(), 4);
            for i in 0..4 {
                for j in 0..4 {
                    if i != j {
                        assert_ne!(cells[i], cells[j], "{:?} {:?}", t, r);
                    }
                }
            }
        }
    }
}

#[test]
fn base_coordinates_stay_near_the_anchor() {
    for t in KINDS {
        for r in ROTATIONS {
            for (x, y) in get_base_coordinates(t, r) {
                assert!(-1 <= x && x <= 3);
                assert!(-1 <= y && y <= 2);
            }
        }
    }
}

#[test]
fn o_piece_has_one_layout() {
    for r in ROTATIONS {
        assert_eq!(get_base_coordinates(PieceType::O, r), [(0, 0), (1, 0), (0, 1), (1, 1)]);
    }
}

#[test]
fn i_piece_has_two_layouts() {
    let flat = [(0, 0), (1, 0), (2, 0), (3, 0)];
    let upright = [(2, -1), (2, 0), (2, 1), (2, 2)];
    assert_eq!(get_base_coordinates(PieceType::I, Rotation::Up), flat);
    assert_eq!(get_base_coordinates(PieceType::I, Rotation::Right), upright);
    assert_eq!(get_base_coordinates(PieceType::I, Rotation::Down), flat);
    assert_eq!(get_base_coordinates(PieceType::I, Rotation::Left), upright);
}

#[test]
fn s_and_z_pieces_have_two_layouts() {
    assert_eq!(
        get_base_coordinates(PieceType::S, Rotation::Up),
        [(-1, 0), (0, 0), (0, -1), (1, -1)]
    );
    assert_eq!(
        get_base_coordinates(PieceType::S, Rotation::Right),
        [(0, -1), (0, 0), (1, 0), (1, 1)]
    );
    assert_eq!(
        get_base_coordinates(PieceType::S, Rotation::Down),
        get_base_coordinates(PieceType::S, Rotation::Up)
    );
    assert_eq!(
        get_base_coordinates(PieceType::S, Rotation::Left),
        get_base_coordinates(PieceType::S, Rotation::Right)
    );
    assert_eq!(
        get_base_coordinates(PieceType::Z, Rotation::Up),
        [(-1, -1), (0, -1), (0, 0), (1, 0)]
    );
    assert_eq!(
        get_base_coordinates(PieceType::Z, Rotation::Right),
        [(1, -1), (1, 0), (0, 0), (0, 1)]
    );
    assert_eq!(
        get_base_coordinates(PieceType::Z, Rotation::Down),
        get_base_coordinates(PieceType::Z, Rotation::Up)
    );
    assert_eq!(
        get_base_coordinates(PieceType::Z, Rotation::Left),
        get_base_coordinates(PieceType::Z, Rotation::Right)
    );
}

#[test]
fn j_piece_has_four_layouts() {
    assert_eq!(
        get_base_coordinates(PieceType::J, Rotation::Up),
        [(-1, -1), (-1, 0), (0, 0), (1, 0)]
    );
    assert_eq!(
        get_base_coordinates(PieceType::J, Rotation::Right),
        [(1, -1), (0, -1), (0, 0), (0, 1)]
    );
    assert_eq!(
        get_base_coordinates(PieceType::J, Rotation::Down),
        [(-1, 0), (0, 0), (1, 0), (1, 1)]
    );
    assert_eq!(
        get_base_coordinates(PieceType::J, Rotation::Left),
        [(-1, 1), (0, -1), (0, 0), (0, 1)]
    );
}

#[test]
fn l_piece_has_four_layouts() {
    assert_eq!(
        get_base_coordinates(PieceType::L, Rotation::Up),
        [(1, -1), (-1, 0), (0, 0), (1, 0)]
    );
    assert_eq!(
        get_base_coordinates(PieceType::L, Rotation::Right),
        [(1, 1), (0, -1), (0, 0), (0, 1)]
    );
    assert_eq!(
        get_base_coordinates(PieceType::L, Rotation::Down),
        [(-1, 0), (0, 0), (1, 0), (-1, 1)]
    );
    assert_eq!(
        get_base_coordinates(PieceType::L, Rotation::Left),
        [(-1, -1), (0, -1), (0, 0), (0, 1)]
    );
}

#[test]
fn t_piece_has_four_layouts() {
    assert_eq!(
        get_base_coordinates(PieceType::T, Rotation::Up),
        [(0, -1), (-1, 0), (0, 0), (1, 0)]
    );
    assert_eq!(
        get_base_coordinates(PieceType::T, Rotation::Right),
        [(1, 0), (0, -1), (0, 0), (0, 1)]
    );
    assert_eq!(
        get_base_coordinates(PieceType::T, Rotation::Down),
        [(-1, 0), (0, 0), (1, 0), (0, 1)]
    );
    assert_eq!(
        get_base_coordinates(PieceType::T, Rotation::Left),
        [(-1, 0), (0, 1), (0, 0), (0, -1)]
    );
}

#[test]
fn piece_type_from_index_wraps_at_seven() {
    for n in 0..21usize {
        assert_eq!(PieceType::from_index(n), KINDS[n % 7]);
    }
    assert_eq!(PieceType::from_index(usize::MAX), KINDS[usize::MAX % 7]);
}

#[test]
fn color_from_index_wraps_at_six() {
    for n in 0..18usize {
        assert_eq!(Color::from_index(n), COLORS[n % 6]);
    }
    assert_eq!(Color::from_index(usize::MAX), COLORS[usize::MAX % 6]);
}

#[test]
fn color_channels() {
    assert_eq!(Color::Red.rgb(), (1, 0, 0));
    assert_eq!(Color::Green.rgb(), (0, 1, 0));
    assert_eq!(Color::Blue.rgb(), (0, 0, 1));
    assert_eq!(Color::White.rgb(), (1, 1, 1));
    assert_eq!(Color::Magenta.rgb(), (1, 0, 1));
    assert_eq!(Color::Yellow.rgb(), (1, 1, 0));
}

#[test]
fn new_piece_points_up_at_its_position() {
    let p = Piece::new(PieceType::L, Color::Green, (3, -2));
    assert_eq!(p.piece_type(), PieceType::L);
    assert_eq!(p.color(), Color::Green);
    assert_eq!(p.rotation(), Rotation::Up);
    assert_eq!(p.position(), (3, -2));
}

#[test]
fn coordinates_are_offsets_moved_by_the_anchor() {
    let p = Piece::new(PieceType::O, Color::Red, (2, 0));
    assert_eq!(p.coordinates(), [(2, 0), (3, 0), (2, 1), (3, 1)]);
    let t = Piece::new(PieceType::T, Color::Blue, (5, 7));
    assert_eq!(t.coordinates(), [(5, 6), (4, 7), (5, 7), (6, 7)]);
    let j = Piece::new(PieceType::J, Color::Blue, (-4, -9)).rotate_left();
    assert_eq!(j.coordinates(), [(-5, -8), (-4, -10), (-4, -9), (-4, -8)]);
}

#[test]
fn coordinates_depend_on_the_fields_alone() {
    for t in KINDS {
        let a = Piece::new(t, Color::Red, (1, 2)).rotate_right();
        let b = Piece::new(t, Color::Yellow, (0, 0)).move_right().move_down().move_down();
        assert_eq!(a.coordinates(), b.rotate_right().coordinates());
    }
}

#[test]
fn moves_shift_the_anchor_only() {
    let p = Piece::new(PieceType::S, Color::White, (4, 4)).rotate_right();
    let left = p.move_left();
    let right = p.move_right();
    let down = p.move_down();
    assert_eq!(left.position(), (3, 4));
    assert_eq!(right.position(), (5, 4));
    assert_eq!(down.position(), (4, 5));
    for q in [left, right, down] {
        assert_eq!(q.rotation(), Rotation::Right);
        assert_eq!(q.piece_type(), PieceType::S);
        assert_eq!(q.color(), Color::White);
    }
    assert_eq!(p.position(), (4, 4));
}

#[test]
fn turns_change_the_rotation_only() {
    let p = Piece::new(PieceType::J, Color::Magenta, (2, 3));
    let left = p.rotate_left();
    let right = p.rotate_right();
    assert_eq!(left.rotation(), Rotation::Left);
    assert_eq!(right.rotation(), Rotation::Right);
    for q in [left, right] {
        assert_eq!(q.position(), (2, 3));
        assert_eq!(q.piece_type(), PieceType::J);
        assert_eq!(q.color(), Color::Magenta);
    }
    assert_eq!(p.rotation(), Rotation::Up);
}

#[test]
fn set_position_moves_the_anchor() {
    let mut p = Piece::new(PieceType::Z, Color::Yellow, (0, 0)).rotate_left();
    p.set_position((7, 1));
    assert_eq!(p.position(), (7, 1));
    assert_eq!(p.rotation(), Rotation::Left);
    assert_eq!(p.piece_type(), PieceType::Z);
    assert_eq!(p.color(), Color::Yellow);
    assert_eq!(p.coordinates(), [(8, 0), (8, 1), (7, 1), (7, 2)]);
}

#[test]
fn piece_from_rng_points_up_at_the_origin() {
    for seed in 0..50u64 {
        let mut rng = StdRng::seed_from_u64(seed);
        let p = Piece::from_rng(&mut rng);
        assert_eq!(p.rotation(), Rotation::Up);
        assert_eq!(p.position(), (0, 0));
    }
}

#[test]
fn equal_seeds_draw_equal_pieces() {
    for seed in 0..20u64 {
        let mut a = StdRng::seed_from_u64(seed);
        let mut b = StdRng::seed_from_u64(seed);
        for _ in 0..10 {
            assert_eq!(Piece::from_rng(&mut a), Piece::from_rng(&mut b));
        }
    }
}

#[test]
fn draws_reach_every_kind_and_colour() {
    let mut rng = StdRng::seed_from_u64(1);
    let mut kinds = [false; 7];
    let mut colors = [false; 6];
    for _ in 0..2000 {
        let t = PieceType::from_rng(&mut rng);
        let c = Color::from_rng(&mut rng);
        for i in 0..7 {
            if KINDS[i] == t {
                kinds[i] = true;
            }
        }
        for i in 0..6 {
            if COLORS[i] == c {
                colors[i] = true;
            }
        }
    }
    assert_eq!(kinds, [true; 7]);
    assert_eq!(colors, [true; 6]);
}
