use chess::color::Color;
use chess::direction::Direction;
use chess::file::File;
use chess::name::Name;
use chess::piece::Piece;
use chess::rank::Rank;
use chess::square::Square;

#[test]
fn direction_deltas() {
    let all = [
        (Direction::Up, 0, 1),
        (Direction::Down, 0, -1),
        (Direction::Left, -1, 0),
        (Direction::Right, 1, 0),
        (Direction::UpLeft, -1, 1),
        (Direction::UpRight, 1, 1),
        (Direction::DownLeft, -1, -1),
        (Direction::DownRight, 1, -1),
    ];
    for (d, x, y) in all {
        assert_eq!(d.delta_x(), x);
        assert_eq!(d.delta_y(), y);
    }
}

#[test]
fn direction_backwards() {
    assert_eq!(Direction::Up.backwards(), Direction::Down);
    assert_eq!(Direction::Down.backwards(), Direction::Up);
    assert_eq!(Direction::Left.backwards(), Direction::Right);
    assert_eq!(Direction::Right.backwards(), Direction::Left);
    assert_eq!(Direction::UpLeft.backwards(), Direction::DownRight);
    assert_eq!(Direction::UpRight.backwards(), Direction::DownLeft);
    assert_eq!(Direction::DownLeft.backwards(), Direction::UpRight);
    assert_eq!(Direction::DownRight.backwards(), Direction::UpLeft);
}

#[test]
fn backwards_negates_the_deltas() {
    let all = [
        Direction::Up,
        Direction::Down,
        Direction::Left,
        Direction::Right,
        Direction::UpLeft,
        Direction::UpRight,
        Direction::DownLeft,
        Direction::DownRight,
    ];
    for d in all {
        assert_eq!(d.backwards().delta_x(), -d.delta_x());
        assert_eq!(d.backwards().delta_y(), -d.delta_y());
        assert_eq!(d.backwards().backwards(), d);
    }
}

#[test]
fn color_direction_and_opposite() {
    assert_eq!(Color::White.direction(), 1);
    assert_eq!(Color::Black.direction(), -1);
    assert_eq!(Color::White.opposite(), Color::Black);
    assert_eq!(Color::Black.opposite(), Color::White);
}

#[test]
fn all_names() {
    assert_eq!(
        Name::all(),
        vec![
            Name::King,
            Name::Queen,
            Name::Rook,
            Name::Bishop,
            Name::Knight,
            Name::Pawn
        ]
    );
}

#[test]
fn new_piece_has_not_moved() {
    let square = Square::new(Rank(3), File(5));
    let piece = Piece::new(Color::Black, Name::Bishop, square);
    assert_eq!(piece.color, Color::Black);
    assert_eq!(piece.name, Name::Bishop);
    assert!(!piece.moved);
    assert_eq!(piece.prev_square, square.position());
    assert_eq!(piece.curr_square, square.position());
}

#[test]
fn simple_piece_is_white_on_a1() {
    let piece = Piece::simple(Name::Knight);
    assert_eq!(piece.color, Color::White);
    assert_eq!(piece.name, Name::Knight);
    assert!(!piece.moved);
    assert_eq!(piece.curr_square.rank, Rank(0));
    assert_eq!(piece.curr_square.file, File(0));
    assert_eq!(piece.prev_square, piece.curr_square);
}

#[test]
fn pieces_are_equal_by_all_fields() {
    let a = Piece::new(Color::White, Name::Pawn, Square::new(Rank(1), File(0)));
    let b = Piece::new(Color::White, Name::Pawn, Square::new(Rank(1), File(0)));
    let c = Piece::new(Color::White, Name::Pawn, Square::new(Rank(1), File(1)));
    assert_eq!(a, b);
    assert_ne!(a, c);
    let mut d = a;
    d.moved = true;
    assert_ne!(a, d);
}

#[test]
fn king_and_queen_templates() {
    let expected = vec![
        vec![Direction::Up],
        vec![Direction::Down],
        vec![Direction::Left],
        vec![Direction::Right],
        vec![Direction::UpLeft],
        vec![Direction::UpRight],
        vec![Direction::DownLeft],
        vec![Direction::DownRight],
    ];
    assert_eq!(Piece::simple(Name::King).moves(), expected);
    assert_eq!(Piece::simple(Name::Queen).moves(), expected);
    assert_eq!(Piece::simple(Name::King).capture_moves(), expected);
    assert_eq!(Piece::simple(Name::Queen).capture_moves(), expected);
}

#[test]
fn rook_and_bishop_templates() {
    let rook = vec![
        vec![Direction::Up],
        vec![Direction::Down],
        vec![Direction::Left],
        vec![Direction::Right],
    ];
    let bishop = vec![
        vec![Direction::UpLeft],
        vec![Direction::UpRight],
        vec![Direction::DownLeft],
        vec![Direction::DownRight],
    ];
    assert_eq!(Piece::simple(Name::Rook).moves(), rook);
    assert_eq!(Piece::simple(Name::Rook).capture_moves(), rook);
    assert_eq!(Piece::simple(Name::Bishop).moves(), bishop);
    assert_eq!(Piece::simple(Name::Bishop).capture_moves(), bishop);
}

#[test]
fn knight_templates() {
    let knight = vec![
        vec![Direction::UpLeft, Direction::Up],
        vec![Direction::UpLeft, Direction::Left],
        vec![Direction::UpRight, Direction::Up],
        vec![Direction::UpRight, Direction::Right],
        vec![Direction::DownLeft, Direction::Down],
        vec![Direction::DownLeft, Direction::Left],
        vec![Direction::DownRight, Direction::Down],
        vec![Direction::DownRight, Direction::Right],
    ];
    assert_eq!(Piece::simple(Name::Knight).moves(), knight);
    assert_eq!(Piece::simple(Name::Knight).capture_moves(), knight);
}

#[test]
fn pawn_templates() {
    let mut pawn = Piece::simple(Name::Pawn);
    assert_eq!(
        pawn.moves(),
        vec![vec![Direction::Up], vec![Direction::Up, Direction::Up]]
    );
    assert_eq!(
        pawn.capture_moves(),
        vec![vec![Direction::UpLeft], vec![Direction::UpRight]]
    );
    pawn.moved = true;
    assert_eq!(pawn.moves(), vec![vec![Direction::Up]]);
    assert_eq!(
        pawn.capture_moves(),
        vec![vec![Direction::UpLeft], vec![Direction::UpRight]]
    );
}

#[test]
fn kinds_of_movement() {
    for name in Name::all() {
        let piece = Piece::simple(name);
        assert_eq!(piece.special_capture_move(), name == Name::Pawn);
        assert_eq!(piece.can_jump(), name == Name::Knight);
        assert_eq!(
            piece.repetetive_moves(),
            name == Name::Queen || name == Name::Rook || name == Name::Bishop
        );
    }
}

#[test]
fn piece_symbols() {
    assert_eq!(Piece::simple(Name::King).symbol(), "K");
    assert_eq!(Piece::simple(Name::Queen).symbol(), "Q");
    assert_eq!(Piece::simple(Name::Rook).symbol(), "R");
    assert_eq!(Piece::simple(Name::Bishop).symbol(), "B");
    assert_eq!(Piece::simple(Name::Knight).symbol(), "N");
    assert_eq!(Piece::simple(Name::Pawn).symbol(), "P");
}
