use chess::board::Board;
use chess::color::Color;
use chess::direction::Direction;
use chess::file::File;
use chess::name::Name;
use chess::piece::Piece;
use chess::rank::Rank;
use chess::square::Square;

fn sq(text: &str) -> Square {
    Square::from_str(text).unwrap()
}

fn empty_board() -> Board {
    let mut board = Board::new();
    for rank in 0..8 {
        for file in 0..8 {
            board.capture_piece(Square::new(Rank(rank), File(file)));
        }
    }
    board
}

fn place(board: &mut Board, at: &str, color: Color, name: Name) {
    let square = sq(at);
    board.get_mut(square).piece = Some(Piece::new(color, name, square));
}

fn names_of(squares: &[Square]) -> Vec<String> {
    let mut names: Vec<String> = squares
        .iter()
        .map(|s| format!("{}{}", char::from(s.file), char::from(s.rank)))
        .collect();
    names.sort();
    names
}

fn moves_from(board: &Board, at: &str) -> Vec<String> {
    names_of(&board.legal_moves(sq(at)))
}

fn attackers_of(board: &Board, at: &str, color: Color) -> Vec<String> {
    names_of(&board.can_capture(sq(at), color))
}

#[test]
fn test_move_piece() {
    let mut board = Board::new();

    let from = Square::from_str("A2").unwrap();
    let to = Square::from_str("A3").unwrap();

    board.move_piece(from, to);

    assert!(board.get(from).is_empty());
    assert!(!board.get(to).is_empty());
}

#[test]
fn initial_position() {
    let board = Board::new();
    let back = [
        Name::Rook,
        Name::Knight,
        Name::Bishop,
        Name::Queen,
        Name::King,
        Name::Bishop,
        Name::Knight,
        Name::Rook,
    ];
    for file in 0..8 {
        let white = board.get(Square::new(Rank(0), File(file))).piece.unwrap();
        assert_eq!(white.color, Color::White);
        assert_eq!(white.name, back[file]);
        assert!(!white.moved);
        assert_eq!(white.curr_square.rank, Rank(0));
        assert_eq!(white.curr_square.file, File(file));
        assert_eq!(white.prev_square, white.curr_square);

        let pawn = board.get(Square::new(Rank(1), File(file))).piece.unwrap();
        assert_eq!(pawn.color, Color::White);
        assert_eq!(pawn.name, Name::Pawn);

        let pawn = board.get(Square::new(Rank(6), File(file))).piece.unwrap();
        assert_eq!(pawn.color, Color::Black);
        assert_eq!(pawn.name, Name::Pawn);

        let black = board.get(Square::new(Rank(7), File(file))).piece.unwrap();
        assert_eq!(black.color, Color::Black);
        assert_eq!(black.name, back[file]);

        for rank in 2..6 {
            assert!(board.get(Square::new(Rank(rank), File(file))).is_empty());
        }
    }
}

#[test]
fn squares_know_their_place() {
    let board = Board::new();
    for rank in 0..8 {
        for file in 0..8 {
            let square = board.get(Square::new(Rank(rank), File(file)));
            assert_eq!(square.rank, Rank(rank));
            assert_eq!(square.file, File(file));
        }
    }
}

#[test]
fn move_piece_updates_the_piece() {
    let mut board = Board::new();
    let before = board.get(sq("B1")).piece.unwrap();
    board.move_piece(sq("B1"), sq("C3"));
    let after = board.get(sq("C3")).piece.unwrap();
    assert_eq!(after.color, before.color);
    assert_eq!(after.name, before.name);
    assert!(after.moved);
    assert_eq!(after.prev_square.rank, Rank(0));
    assert_eq!(after.prev_square.file, File(1));
    assert_eq!(after.curr_square.rank, Rank(2));
    assert_eq!(after.curr_square.file, File(2));
    assert!(board.get(sq("B1")).is_empty());
}

#[test]
fn move_piece_replaces_what_stood_there() {
    let mut board = Board::new();
    board.move_piece(sq("A1"), sq("A8"));
    let piece = board.get(sq("A8")).piece.unwrap();
    assert_eq!(piece.color, Color::White);
    assert_eq!(piece.name, Name::Rook);
    assert!(board.get(sq("A1")).is_empty());
}

#[test]
fn move_piece_from_an_empty_square_empties_the_destination() {
    let mut board = Board::new();
    board.move_piece(sq("A3"), sq("A2"));
    assert!(board.get(sq("A3")).is_empty());
    assert!(board.get(sq("A2")).is_empty());
}

#[test]
fn move_piece_to_the_same_square() {
    let mut board = Board::new();
    board.move_piece(sq("A2"), sq("A2"));
    let piece = board.get(sq("A2")).piece.unwrap();
    assert_eq!(piece.name, Name::Pawn);
    assert!(piece.moved);
}

#[test]
fn capture_piece_clears_the_square() {
    let mut board = Board::new();
    board.capture_piece(sq("E1"));
    assert!(board.get(sq("E1")).is_empty());
    assert!(!board.get(sq("D1")).is_empty());
    board.capture_piece(sq("E4"));
    assert!(board.get(sq("E4")).is_empty());
}

#[test]
fn get_mut_changes_the_board() {
    let mut board = Board::new();
    board.get_mut(sq("D4")).piece = Some(Piece::new(Color::Black, Name::Queen, sq("D4")));
    let piece = board.get(sq("D4")).piece.unwrap();
    assert_eq!(piece.color, Color::Black);
    assert_eq!(piece.name, Name::Queen);
    board.get_mut(sq("D4")).piece = None;
    assert!(board.get(sq("D4")).is_empty());
}

#[test]
fn knight_from_initial_position() {
    let board = Board::new();
    assert_eq!(moves_from(&board, "B1"), vec!["A3", "C3"]);
}

#[test]
fn pawn_from_initial_position() {
    let board = Board::new();
    assert_eq!(moves_from(&board, "A2"), vec!["A3", "A4"]);
}

#[test]
fn black_pieces_from_initial_position() {
    let board = Board::new();
    assert_eq!(moves_from(&board, "G8"), vec!["F6", "H6"]);
    assert_eq!(moves_from(&board, "E7"), vec!["E5", "E6"]);
}

#[test]
fn blocked_pieces_from_initial_position() {
    let board = Board::new();
    for at in ["A1", "C1", "D1", "E1", "F1", "H1", "A8", "C8", "D8", "E8"] {
        assert!(moves_from(&board, at).is_empty(), "{}", at);
    }
}

#[test]
fn rook_stops_at_enemy_pawn() {
    let mut board = empty_board();
    place(&mut board, "D4", Color::White, Name::Rook);
    place(&mut board, "D6", Color::Black, Name::Pawn);
    let moves = moves_from(&board, "D4");
    let up: Vec<&String> = moves
        .iter()
        .filter(|m| m.starts_with('D') && m.as_str() > "D4")
        .collect();
    assert_eq!(up, vec!["D5", "D6"]);
    assert_eq!(
        moves,
        vec!["A4", "B4", "C4", "D1", "D2", "D3", "D5", "D6", "E4", "F4", "G4", "H4"]
    );
}

#[test]
fn rook_stops_before_friendly_pawn() {
    let mut board = empty_board();
    place(&mut board, "D4", Color::White, Name::Rook);
    place(&mut board, "D6", Color::White, Name::Pawn);
    let moves = moves_from(&board, "D4");
    let up: Vec<&String> = moves
        .iter()
        .filter(|m| m.starts_with('D') && m.as_str() > "D4")
        .collect();
    assert_eq!(up, vec!["D5"]);
    assert_eq!(
        moves,
        vec!["A4", "B4", "C4", "D1", "D2", "D3", "D5", "E4", "F4", "G4", "H4"]
    );
}

#[test]
fn king_attacked_by_rook_along_file() {
    let mut board = empty_board();
    place(&mut board, "E1", Color::White, Name::King);
    place(&mut board, "E8", Color::Black, Name::Rook);
    assert_eq!(attackers_of(&board, "E1", Color::White), vec!["E8"]);
}

#[test]
fn pawn_with_two_captures() {
    let mut board = empty_board();
    place(&mut board, "E3", Color::White, Name::Pawn);
    board.move_piece(sq("E3"), sq("E4"));
    place(&mut board, "D5", Color::Black, Name::Pawn);
    place(&mut board, "F5", Color::Black, Name::Knight);
    assert_eq!(moves_from(&board, "E4"), vec!["D5", "E5", "F5"]);
}

#[test]
fn unmoved_pawn_with_two_captures() {
    let mut board = empty_board();
    place(&mut board, "E4", Color::White, Name::Pawn);
    place(&mut board, "D5", Color::Black, Name::Pawn);
    place(&mut board, "F5", Color::Black, Name::Knight);
    assert_eq!(moves_from(&board, "E4"), vec!["D5", "E5", "E6", "F5"]);
}

#[test]
fn pawn_forward_moves() {
    let mut board = empty_board();
    place(&mut board, "C2", Color::White, Name::Pawn);
    assert_eq!(moves_from(&board, "C2"), vec!["C3", "C4"]);

    place(&mut board, "C4", Color::Black, Name::Rook);
    assert_eq!(moves_from(&board, "C2"), vec!["C3"]);

    place(&mut board, "C3", Color::Black, Name::Rook);
    assert!(moves_from(&board, "C2").is_empty());

    board.capture_piece(sq("C4"));
    assert!(moves_from(&board, "C2").is_empty());
}

#[test]
fn moved_pawn_has_one_step() {
    let mut board = empty_board();
    place(&mut board, "C2", Color::White, Name::Pawn);
    board.move_piece(sq("C2"), sq("C3"));
    assert_eq!(moves_from(&board, "C3"), vec!["C4"]);
}

#[test]
fn pawn_diagonals_need_an_enemy() {
    let mut board = empty_board();
    place(&mut board, "E4", Color::White, Name::Pawn);
    place(&mut board, "D5", Color::White, Name::Knight);
    assert_eq!(moves_from(&board, "E4"), vec!["E5", "E6"]);
    place(&mut board, "F5", Color::Black, Name::Knight);
    assert_eq!(moves_from(&board, "E4"), vec!["E5", "E6", "F5"]);
}

#[test]
fn black_pawn_moves_down() {
    let mut board = empty_board();
    place(&mut board, "E5", Color::Black, Name::Pawn);
    place(&mut board, "D4", Color::White, Name::Pawn);
    place(&mut board, "F4", Color::Black, Name::Pawn);
    place(&mut board, "D6", Color::White, Name::Pawn);
    assert_eq!(moves_from(&board, "E5"), vec!["D4", "E3", "E4"]);
}

#[test]
fn pawn_at_the_edge() {
    let mut board = empty_board();
    place(&mut board, "A8", Color::White, Name::Pawn);
    assert!(moves_from(&board, "A8").is_empty());
    place(&mut board, "H7", Color::White, Name::Pawn);
    place(&mut board, "G8", Color::Black, Name::Rook);
    assert_eq!(moves_from(&board, "H7"), vec!["G8", "H8"]);
}

#[test]
fn knight_jumps_over_pieces() {
    let mut board = empty_board();
    place(&mut board, "D4", Color::White, Name::Knight);
    for at in ["C3", "C4", "C5", "D3", "D5", "E3", "E4", "E5"] {
        place(&mut board, at, Color::Black, Name::Pawn);
    }
    assert_eq!(
        moves_from(&board, "D4"),
        vec!["B3", "B5", "C2", "C6", "E2", "E6", "F3", "F5"]
    );
    place(&mut board, "B3", Color::White, Name::Pawn);
    place(&mut board, "F5", Color::Black, Name::Pawn);
    assert_eq!(
        moves_from(&board, "D4"),
        vec!["B5", "C2", "C6", "E2", "E6", "F3", "F5"]
    );
}

#[test]
fn knight_in_the_corner() {
    let mut board = empty_board();
    place(&mut board, "A1", Color::Black, Name::Knight);
    assert_eq!(moves_from(&board, "A1"), vec!["B3", "C2"]);
    place(&mut board, "H8", Color::White, Name::Knight);
    assert_eq!(moves_from(&board, "H8"), vec!["F7", "G6"]);
}

#[test]
fn king_moves_one_step() {
    let mut board = empty_board();
    place(&mut board, "E1", Color::White, Name::King);
    place(&mut board, "E2", Color::White, Name::Pawn);
    place(&mut board, "D1", Color::Black, Name::Rook);
    assert_eq!(moves_from(&board, "E1"), vec!["D1", "D2", "F1", "F2"]);
}

#[test]
fn bishop_slides_on_diagonals() {
    let mut board = empty_board();
    place(&mut board, "C1", Color::White, Name::Bishop);
    place(&mut board, "E3", Color::Black, Name::Pawn);
    place(&mut board, "A3", Color::White, Name::Pawn);
    assert_eq!(moves_from(&board, "C1"), vec!["B2", "D2", "E3"]);
}

#[test]
fn queen_on_an_empty_board() {
    let mut board = empty_board();
    place(&mut board, "D4", Color::Black, Name::Queen);
    let moves = moves_from(&board, "D4");
    assert_eq!(moves.len(), 27);
    assert_eq!(
        moves,
        vec![
            "A1", "A4", "A7", "B2", "B4", "B6", "C3", "C4", "C5", "D1", "D2", "D3", "D5", "D6",
            "D7", "D8", "E3", "E4", "E5", "F2", "F4", "F6", "G1", "G4", "G7", "H4", "H8"
        ]
    );
}

#[test]
fn legal_moves_stay_on_the_board() {
    let board = Board::new();
    for rank in [0usize, 1, 6, 7] {
        for file in 0..8 {
            for square in board.legal_moves(Square::new(Rank(rank), File(file))) {
                assert!(square.rank.0 < 8);
                assert!(square.file.0 < 8);
            }
        }
    }
}

#[test]
fn legal_moves_carry_the_occupant() {
    let mut board = empty_board();
    place(&mut board, "D4", Color::White, Name::Rook);
    place(&mut board, "D6", Color::Black, Name::Pawn);
    for square in board.legal_moves(sq("D4")) {
        assert_eq!(square, *board.get(square));
    }
}

#[test]
fn walk_along_given_templates() {
    let mut board = empty_board();
    place(&mut board, "D4", Color::White, Name::Rook);
    let origin = *board.get(sq("D4"));
    let found = board.calculate_legal_moves(
        &origin,
        vec![vec![Direction::Up], vec![], vec![Direction::UpRight, Direction::Right]],
        false,
    );
    assert_eq!(names_of(&found), vec!["D5", "D6", "D7", "D8", "F5", "H6"]);

    let found = board.calculate_legal_moves(&origin, vec![vec![Direction::Up]], true);
    assert!(found.is_empty());

    place(&mut board, "D5", Color::Black, Name::Pawn);
    let origin = *board.get(sq("D4"));
    let found = board.calculate_legal_moves(&origin, vec![vec![Direction::Up]], true);
    assert_eq!(names_of(&found), vec!["D5"]);
}

#[test]
fn walk_that_returns_to_its_origin() {
    let mut board = empty_board();
    place(&mut board, "D4", Color::White, Name::Queen);
    let origin = *board.get(sq("D4"));
    let found = board.calculate_legal_moves(
        &origin,
        vec![vec![Direction::Up, Direction::Down]],
        false,
    );
    assert!(found.is_empty());
}

#[test]
fn walk_is_mirrored_for_black() {
    let mut board = empty_board();
    place(&mut board, "D4", Color::Black, Name::King);
    let origin = *board.get(sq("D4"));
    let found = board.calculate_legal_moves(&origin, vec![vec![Direction::UpRight]], false);
    assert_eq!(names_of(&found), vec!["C3"]);
}

#[test]
fn attackers_of_every_kind() {
    let mut board = empty_board();
    place(&mut board, "D4", Color::White, Name::King);
    place(&mut board, "D8", Color::Black, Name::Rook);
    place(&mut board, "G7", Color::Black, Name::Bishop);
    place(&mut board, "H4", Color::Black, Name::Queen);
    place(&mut board, "E6", Color::Black, Name::Knight);
    place(&mut board, "C5", Color::Black, Name::Pawn);
    place(&mut board, "C3", Color::Black, Name::King);
    place(&mut board, "E3", Color::Black, Name::Pawn);
    place(&mut board, "A1", Color::White, Name::Queen);
    assert_eq!(
        attackers_of(&board, "D4", Color::White),
        vec!["C3", "C5", "D8", "E6", "G7", "H4"]
    );
}

#[test]
fn attackers_are_blocked() {
    let mut board = empty_board();
    place(&mut board, "E1", Color::White, Name::King);
    place(&mut board, "E8", Color::Black, Name::Rook);
    place(&mut board, "E5", Color::White, Name::Pawn);
    assert!(attackers_of(&board, "E1", Color::White).is_empty());
    board.capture_piece(sq("E5"));
    place(&mut board, "E5", Color::Black, Name::Pawn);
    assert!(attackers_of(&board, "E1", Color::White).is_empty());
    place(&mut board, "E2", Color::Black, Name::Queen);
    assert_eq!(attackers_of(&board, "E1", Color::White), vec!["E2"]);
}

#[test]
fn attackers_of_a_black_piece() {
    let mut board = empty_board();
    place(&mut board, "D5", Color::Black, Name::King);
    place(&mut board, "C4", Color::White, Name::Pawn);
    place(&mut board, "E4", Color::White, Name::Pawn);
    place(&mut board, "C6", Color::White, Name::Pawn);
    place(&mut board, "B4", Color::White, Name::Knight);
    place(&mut board, "D1", Color::White, Name::Rook);
    place(&mut board, "H1", Color::White, Name::Bishop);
    assert_eq!(
        attackers_of(&board, "D5", Color::Black),
        vec!["B4", "C4", "D1", "E4"]
    );
}

#[test]
fn attackers_in_the_initial_position() {
    let board = Board::new();
    assert_eq!(attackers_of(&board, "C3", Color::Black), vec!["B1", "B2", "D2"]);
    assert_eq!(attackers_of(&board, "C3", Color::White), Vec::<String>::new());
    assert_eq!(attackers_of(&board, "F6", Color::White), vec!["E7", "G7", "G8"]);
    assert_eq!(attackers_of(&board, "E2", Color::Black), vec!["D1", "E1", "F1", "G1"]);
}

#[test]
fn attackers_agree_with_legal_moves() {
    let mut board = Board::new();
    board.move_piece(sq("E2"), sq("E4"));
    board.move_piece(sq("D7"), sq("D5"));
    board.move_piece(sq("G1"), sq("F3"));
    board.move_piece(sq("C8"), sq("G4"));
    board.move_piece(sq("F1"), sq("B5"));
    for rank in 0..8 {
        for file in 0..8 {
            let target = *board.get(Square::new(Rank(rank), File(file)));
            let color = match target.piece {
                Some(piece) => piece.color,
                None => continue,
            };
            let attackers = names_of(&board.can_capture(target, color));
            let mut expected = Vec::new();
            for r in 0..8 {
                for f in 0..8 {
                    let from = *board.get(Square::new(Rank(r), File(f)));
                    match from.piece {
                        Some(piece) if piece.color != color => {
                            let reached = board.legal_moves(from);
                            if reached
                                .iter()
                                .any(|s| s.rank == target.rank && s.file == target.file)
                            {
                                expected.push(from);
                            }
                        }
                        _ => {}
                    }
                }
            }
            assert_eq!(attackers, names_of(&expected));
        }
    }
}

#[test]
fn picture_of_the_initial_position() {
    let board = Board::new();
    let expected = " ABCDEFGH\n\
                    8RNBQKBNR\n\
                    7PPPPPPPP\n\
                    6........\n\
                    5........\n\
                    4........\n\
                    3........\n\
                    2PPPPPPPP\n\
                    1RNBQKBNR\n";
    assert_eq!(board.render(), expected);
}

#[test]
fn picture_after_moves() {
    let mut board = Board::new();
    board.move_piece(sq("E2"), sq("E4"));
    board.move_piece(sq("G8"), sq("F6"));
    board.capture_piece(sq("A1"));
    let expected = " ABCDEFGH\n\
                    8RNBQKB.R\n\
                    7PPPPPPPP\n\
                    6.....N..\n\
                    5........\n\
                    4....P...\n\
                    3........\n\
                    2PPPP.PPP\n\
                    1.NBQKBNR\n";
    assert_eq!(board.render(), expected);
}

#[test]
fn picture_of_an_empty_board() {
    let board = empty_board();
    let text = board.render();
    assert_eq!(text.len(), 90);
    assert_eq!(text.matches('.').count(), 64);
}

#[test]
fn well_formed_boards() {
    let mut board = Board::new();
    assert!(board.is_well_formed());
    board.move_piece(sq("E2"), sq("E4"));
    board.capture_piece(sq("D7"));
    board.get_mut(sq("A4")).piece = Some(Piece::new(Color::White, Name::Queen, sq("A4")));
    assert!(board.is_well_formed());
    *board.get_mut(sq("C3")) = sq("C4");
    assert!(!board.is_well_formed());
    *board.get_mut(sq("C3")) = sq("C3");
    assert!(board.is_well_formed());
    board.get_mut(sq("H8")).file = File(0);
    assert!(!board.is_well_formed());
}

#[test]
fn legal_moves_have_no_repeats() {
    let mut board = empty_board();
    place(&mut board, "D4", Color::White, Name::Queen);
    place(&mut board, "E5", Color::Black, Name::Knight);
    place(&mut board, "B2", Color::White, Name::Pawn);
    for at in ["D4", "E5", "B2"] {
        let moves = moves_from(&board, at);
        let mut unique = moves.clone();
        unique.dedup();
        assert_eq!(moves, unique);
    }
    assert_eq!(moves_from(&board, "D4").len(), 22);
}

#[test]
fn attackers_have_no_repeats() {
    let mut board = empty_board();
    place(&mut board, "D4", Color::White, Name::King);
    place(&mut board, "D5", Color::Black, Name::Queen);
    place(&mut board, "E5", Color::Black, Name::Queen);
    place(&mut board, "E3", Color::Black, Name::King);
    let found = board.can_capture(sq("D4"), Color::White);
    assert_eq!(found.len(), 3);
    assert_eq!(names_of(&found), vec!["D5", "E3", "E5"]);
}

#[test]
fn attackers_of_an_empty_square_would_capture_there() {
    let mut board = Board::new();
    board.move_piece(sq("E2"), sq("E4"));
    board.move_piece(sq("D7"), sq("D5"));
    board.move_piece(sq("B1"), sq("C3"));
    board.move_piece(sq("D8"), sq("D6"));
    for rank in 0..8 {
        for file in 0..8 {
            let target = Square::new(Rank(rank), File(file));
            if !board.get(target).is_empty() {
                continue;
            }
            for color in [Color::White, Color::Black] {
                let attackers = names_of(&board.can_capture(target, color));
                board.get_mut(target).piece = Some(Piece::new(color, Name::Rook, target));
                let mut expected = Vec::new();
                for r in 0..8 {
                    for f in 0..8 {
                        let from = *board.get(Square::new(Rank(r), File(f)));
                        match from.piece {
                            Some(piece) if piece.color != color => {
                                let reached = board.legal_moves(from);
                                if reached.iter().any(|s| s.rank.0 == rank && s.file.0 == file) {
                                    expected.push(from);
                                }
                            }
                            _ => {}
                        }
                    }
                }
                board.capture_piece(target);
                assert_eq!(attackers, names_of(&expected));
            }
        }
    }
}

#[test]
fn pawn_attacks_an_empty_square_without_moving_there() {
    let mut board = empty_board();
    place(&mut board, "D5", Color::Black, Name::Pawn);
    assert_eq!(attackers_of(&board, "C4", Color::White), vec!["D5"]);
    assert_eq!(attackers_of(&board, "E4", Color::White), vec!["D5"]);
    assert!(attackers_of(&board, "D4", Color::White).is_empty());
    assert!(attackers_of(&board, "C4", Color::Black).is_empty());
    assert_eq!(moves_from(&board, "D5"), vec!["D3", "D4"]);
}

#[test]
fn attackers_ignore_what_stands_on_the_square() {
    let mut board = empty_board();
    place(&mut board, "A1", Color::Black, Name::Rook);
    place(&mut board, "C3", Color::Black, Name::Knight);
    assert_eq!(attackers_of(&board, "A4", Color::White), vec!["A1", "C3"]);
    place(&mut board, "A4", Color::White, Name::Queen);
    assert_eq!(attackers_of(&board, "A4", Color::White), vec!["A1", "C3"]);
    board.capture_piece(sq("A4"));
    place(&mut board, "A4", Color::Black, Name::Pawn);
    assert_eq!(attackers_of(&board, "A4", Color::White), vec!["A1", "C3"]);
    assert!(attackers_of(&board, "A4", Color::Black).is_empty());
}
