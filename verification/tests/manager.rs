use rand::rngs::StdRng;
use rand::SeedableRng;
use tetris::color::Color;
use tetris::gamefield::GameField;
use tetris::manager::TetrisManager;
use tetris::piece::Piece;
use tetris::piece::PieceType;
use tetris::piece::Rotation;

fn seeded(seed: u64) -> StdRng {
    StdRng::seed_from_u64(seed)
}

fn game_with(width: i32, height: i32, kind: PieceType) -> TetrisManager {
    let mut m = TetrisManager::with_rng(width, height, seeded(3));
    m.spawn(Piece::new(kind, Color::Red, (0, 0)));
    m
}

#[test]
fn new_game_has_an_empty_field_and_a_centred_piece() {
    let m = TetrisManager::new(20, 20);
    assert_eq!(m.num_columns(), 20);
    assert_eq!(m.num_rows(), 20);
    assert!(m.field().get_blocks().is_empty());
    assert_eq!(m.piece().position(), (10, 0));
    assert_eq!(m.piece().rotation(), Rotation::Up);
}

#[test]
fn with_rng_centres_the_piece_on_odd_widths() {
    let m = TetrisManager::with_rng(5, 7, seeded(11));
    assert_eq!(m.num_columns(), 5);
    assert_eq!(m.num_rows(), 7);
    assert_eq!(m.piece().position(), (2, 0));
    assert_eq!(m.piece().rotation(), Rotation::Up);
    assert!(m.field().get_blocks().is_empty());
    let n = TetrisManager::with_rng(1, 1, seeded(11));
    assert_eq!(n.piece().position(), (0, 0));
}

#[test]
fn equal_seeds_play_equal_games() {
    let mut a = TetrisManager::with_rng(10, 12, seeded(99));
    let mut b = TetrisManager::with_rng(10, 12, seeded(99));
    for _ in 0..200 {
        assert_eq!(a.piece(), b.piece());
        assert_eq!(a.field().get_blocks(), b.field().get_blocks());
        a.tick();
        b.tick();
    }
}

#[test]
fn from_parts_keeps_field_and_piece() {
    let mut f = GameField::new(4, 6);
    f.set_block(0, 5, Color::White);
    let p = Piece::new(PieceType::S, Color::Green, (1, 2)).rotate_left();
    let m = TetrisManager::from_parts(f, p, seeded(0));
    assert_eq!(m.piece(), p);
    assert_eq!(m.field().get_blocks(), vec![((0, 5), Color::White)]);
    assert_eq!(m.num_columns(), 4);
    assert_eq!(m.num_rows(), 6);
}

#[test]
fn spawn_puts_the_piece_at_the_top_centre() {
    let mut m = TetrisManager::with_rng(9, 6, seeded(5));
    m.spawn(Piece::new(PieceType::Z, Color::Yellow, (7, 3)).rotate_right());
    let p = m.piece();
    assert_eq!(p.position(), (4, 0));
    assert_eq!(p.piece_type(), PieceType::Z);
    assert_eq!(p.color(), Color::Yellow);
    assert_eq!(p.rotation(), Rotation::Right);
}

#[test]
fn step_lets_the_piece_fall_until_the_floor() {
    let mut m = game_with(4, 6, PieceType::O);
    for y in 1..=4 {
        assert!(m.step());
        assert_eq!(m.piece().position(), (2, y));
        assert!(m.field().get_blocks().is_empty());
    }
    assert!(!m.step());
    assert_eq!(m.piece().position(), (2, 4));
    assert_eq!(
        m.field().get_blocks(),
        vec![
            ((2, 4), Color::Red),
            ((3, 4), Color::Red),
            ((2, 5), Color::Red),
            ((3, 5), Color::Red),
        ]
    );
}

#[test]
fn dropping_o_pieces_fills_the_column() {
    let mut m = game_with(4, 6, PieceType::O);
    let falls = [4, 2, 0];
    for (round, expected) in falls.iter().enumerate() {
        let mut fell = 0;
        while m.step() {
            fell += 1;
        }
        assert_eq!(fell, *expected);
        assert_eq!(m.field().get_blocks().len(), 4 * (round + 1));
        for y in 0..6 {
            assert!(!m.field().is_row_full(y));
        }
        m.spawn(Piece::new(PieceType::O, Color::Red, (0, 0)));
    }
    for y in 0..6 {
        assert!(m.field().contains_node(2, y));
        assert!(m.field().contains_node(3, y));
        assert!(!m.field().contains_node(0, y));
        assert!(!m.field().contains_node(1, y));
    }
}

#[test]
fn tick_spawns_a_new_piece_after_the_lock() {
    let mut m = game_with(4, 6, PieceType::O);
    for y in 1..=4 {
        m.tick();
        assert_eq!(m.piece().position(), (2, y));
        assert_eq!(m.piece().piece_type(), PieceType::O);
    }
    m.tick();
    assert_eq!(m.piece().position(), (2, 0));
    assert_eq!(m.piece().rotation(), Rotation::Up);
    assert_eq!(m.field().get_blocks().len(), 4);
    assert!(m.field().contains_node(2, 5));
    assert!(m.field().contains_node(3, 4));
}

#[test]
fn lock_that_fills_a_row_clears_it() {
    let mut f = GameField::new(4, 6);
    f.insert_blocks(&[(0, 5), (1, 5), (3, 5)], Color::White);
    let t = Piece::new(PieceType::T, Color::Blue, (2, 0));
    let mut m = TetrisManager::from_parts(f, t, seeded(1));
    m.rotate_right();
    m.rotate_right();
    assert_eq!(m.piece().rotation(), Rotation::Down);
    assert_eq!(m.piece().coordinates(), [(1, 0), (2, 0), (3, 0), (2, 1)]);
    let mut fell = 0;
    while m.step() {
        fell += 1;
    }
    assert_eq!(fell, 4);
    assert!(!m.field().is_row_full(5));
    assert!(!m.field().is_row_full(4));
    // the three cells of the piece that lay above the cleared row are one
    // row further down, and nothing else is left
    assert_eq!(
        m.field().get_blocks(),
        vec![((1, 5), Color::Blue), ((2, 5), Color::Blue), ((3, 5), Color::Blue)]
    );
}

#[test]
fn lock_clears_the_rows_of_the_locked_cells() {
    let f = GameField::new(4, 6);
    let i = Piece::new(PieceType::I, Color::Green, (0, 0));
    let mut m = TetrisManager::from_parts(f, i, seeded(1));
    let mut fell = 0;
    while m.step() {
        fell += 1;
    }
    assert_eq!(fell, 5);
    assert!(m.field().get_blocks().is_empty());
}

#[test]
fn lock_clears_two_adjacent_rows() {
    let mut f = GameField::new(4, 6);
    f.insert_blocks(&[(0, 4), (1, 4), (0, 5), (1, 5)], Color::White);
    f.insert_blocks(&[(0, 3)], Color::Yellow);
    let o = Piece::new(PieceType::O, Color::Red, (2, 0));
    let mut m = TetrisManager::from_parts(f, o, seeded(1));
    while m.step() {}
    assert_eq!(m.field().get_blocks(), vec![((0, 5), Color::Yellow)]);
}

#[test]
fn lock_without_a_full_row_keeps_every_block() {
    let mut f = GameField::new(4, 6);
    f.insert_blocks(&[(0, 5)], Color::White);
    let o = Piece::new(PieceType::O, Color::Red, (2, 0));
    let mut m = TetrisManager::from_parts(f, o, seeded(1));
    while m.step() {}
    assert_eq!(m.field().get_blocks().len(), 5);
}

#[test]
fn piece_lands_on_a_block() {
    let mut f = GameField::new(4, 6);
    f.insert_blocks(&[(3, 3)], Color::White);
    let o = Piece::new(PieceType::O, Color::Red, (2, 0));
    let mut m = TetrisManager::from_parts(f, o, seeded(1));
    assert!(m.step());
    assert!(!m.step());
    assert_eq!(m.piece().position(), (2, 1));
    assert!(m.field().contains_node(2, 1));
    assert!(m.field().contains_node(3, 2));
    assert_eq!(m.field().value_of(3, 3), Some(Color::White));
}

#[test]
fn move_left_at_the_wall_is_rejected() {
    let mut m = game_with(4, 6, PieceType::O);
    m.move_left();
    assert_eq!(m.piece().position(), (1, 0));
    m.move_left();
    assert_eq!(m.piece().position(), (0, 0));
    let before = m.piece();
    m.move_left();
    assert_eq!(m.piece(), before);
    assert_eq!(m.piece().position(), (0, 0));
    assert_eq!(m.piece().rotation(), Rotation::Up);
    assert_eq!(m.piece().piece_type(), PieceType::O);
    assert!(m.field().get_blocks().is_empty());
}

#[test]
fn move_right_at_the_wall_is_rejected() {
    let mut m = game_with(5, 6, PieceType::O);
    m.move_right();
    assert_eq!(m.piece().position(), (3, 0));
    m.move_right();
    assert_eq!(m.piece().position(), (3, 0));
}

#[test]
fn move_into_a_block_is_rejected() {
    let mut f = GameField::new(6, 6);
    f.insert_blocks(&[(1, 1), (5, 0)], Color::White);
    let o = Piece::new(PieceType::O, Color::Red, (2, 0));
    let mut m = TetrisManager::from_parts(f, o, seeded(1));
    m.move_left();
    assert_eq!(m.piece().position(), (2, 0));
    m.move_right();
    assert_eq!(m.piece().position(), (3, 0));
    m.move_right();
    assert_eq!(m.piece().position(), (3, 0));
}

#[test]
fn turn_without_room_is_rejected() {
    // an upright I piece at the right wall has no room to lie down
    let f = GameField::new(4, 6);
    let i = Piece::new(PieceType::I, Color::Green, (1, 2)).rotate_right();
    let mut m = TetrisManager::from_parts(f, i, seeded(1));
    assert_eq!(m.piece().coordinates(), [(3, 1), (3, 2), (3, 3), (3, 4)]);
    m.rotate_right();
    assert_eq!(m.piece().rotation(), Rotation::Right);
    m.rotate_left();
    assert_eq!(m.piece().rotation(), Rotation::Right);
    assert_eq!(m.piece().position(), (1, 2));
    m.move_left();
    m.rotate_left();
    assert_eq!(m.piece().rotation(), Rotation::Up);
    assert_eq!(m.piece().coordinates(), [(0, 2), (1, 2), (2, 2), (3, 2)]);
}

#[test]
fn turns_go_round() {
    let mut m = game_with(8, 8, PieceType::T);
    m.step();
    m.rotate_right();
    assert_eq!(m.piece().rotation(), Rotation::Right);
    m.rotate_right();
    assert_eq!(m.piece().rotation(), Rotation::Down);
    m.rotate_left();
    m.rotate_left();
    m.rotate_left();
    assert_eq!(m.piece().rotation(), Rotation::Left);
    assert_eq!(m.piece().position(), (4, 1));
}

#[test]
fn piece_may_hang_over_the_top() {
    let mut m = game_with(8, 8, PieceType::T);
    assert_eq!(m.piece().coordinates(), [(4, -1), (3, 0), (4, 0), (5, 0)]);
    assert!(m.field().valid_piece(m.piece()));
    m.move_left();
    assert_eq!(m.piece().position(), (3, 0));
}

#[test]
fn piece_that_locks_over_the_top_leaves_its_inner_cells() {
    let mut f = GameField::new(4, 3);
    f.insert_blocks(&[(1, 1), (2, 1), (3, 1)], Color::White);
    let t = Piece::new(PieceType::T, Color::Blue, (2, 0));
    let mut m = TetrisManager::from_parts(f, t, seeded(1));
    assert!(!m.step());
    assert_eq!(
        m.field().get_blocks(),
        vec![
            ((1, 0), Color::Blue),
            ((2, 0), Color::Blue),
            ((3, 0), Color::Blue),
            ((1, 1), Color::White),
            ((2, 1), Color::White),
            ((3, 1), Color::White),
        ]
    );
}

#[test]
fn spawn_onto_blocks_is_not_checked() {
    let mut f = GameField::new(4, 4);
    f.insert_blocks(&[(2, 0), (3, 0), (2, 1)], Color::White);
    let o = Piece::new(PieceType::O, Color::Red, (0, 2));
    let mut m = TetrisManager::from_parts(f, o, seeded(1));
    m.spawn(Piece::new(PieceType::O, Color::Red, (0, 0)));
    assert_eq!(m.piece().position(), (2, 0));
    assert!(!m.field().valid_piece(m.piece()));
    // the piece locks at once, and only its free cell is written
    assert!(!m.step());
    assert_eq!(m.field().value_of(2, 0), Some(Color::White));
    assert_eq!(m.field().value_of(3, 1), Some(Color::Red));
    assert_eq!(m.field().get_blocks().len(), 4);
}

#[test]
fn elems_lists_blocks_and_then_the_piece() {
    let mut f = GameField::new(4, 6);
    f.insert_blocks(&[(3, 5), (0, 4)], Color::White);
    let o = Piece::new(PieceType::O, Color::Red, (1, 1));
    let m = TetrisManager::from_parts(f, o, seeded(1));
    assert_eq!(
        m.elems(),
        vec![
            ((0, 4), Color::White),
            ((3, 5), Color::White),
            ((1, 1), Color::Red),
            ((2, 1), Color::Red),
            ((1, 2), Color::Red),
            ((2, 2), Color::Red),
        ]
    );
}

#[test]
fn elems_does_not_change_the_game() {
    let mut m = game_with(6, 6, PieceType::L);
    m.step();
    let before = m.piece();
    let first = m.elems();
    let second = m.elems();
    assert_eq!(first, second);
    assert_eq!(first.len(), 4);
    assert_eq!(m.piece(), before);
}

#[test]
fn long_game_keeps_no_full_row() {
    let mut m = TetrisManager::with_rng(6, 10, seeded(2024));
    for turn in 0..3000 {
        match turn % 7 {
            0 => m.move_left(),
            1 => m.rotate_right(),
            2 => m.move_right(),
            3 => m.rotate_left(),
            4 => m.move_left(),
            _ => (),
        }
        m.tick();
        for y in 0..10 {
            assert!(!m.field().is_row_full(y));
        }
        let p = m.piece().position();
        assert!(-3 <= p.0 && p.0 <= 6);
        assert!(0 <= p.1 && p.1 < 10);
    }
}
