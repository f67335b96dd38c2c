use std::convert::TryFrom;

use chess::file::File;
use chess::rank::Rank;
use chess::square::Square;

#[test]
fn file_test_from_char_valid() {
    let from_char = File::try_from('A');

    assert!(from_char.is_ok());

    let File(num) = from_char.unwrap();

    assert_eq!(num, 0);
}

#[test]
fn file_test_from_char_invalid() {
    let from_char = File::try_from('I');

    assert!(from_char.is_err());
}

#[test]
fn test_from_char_lowercase_invalid() {
    let from_char = File::try_from('a');

    assert!(from_char.is_err());
}

#[test]
fn rank_test_from_char_valid() {
    let from_char = Rank::try_from('1');

    assert!(from_char.is_ok());

    let Rank(num) = from_char.unwrap();

    assert_eq!(num, 0);
}

#[test]
fn rank_test_from_char_invalid() {
    let from_char = Rank::try_from('9');

    assert!(from_char.is_err());
}

#[test]
fn file_from_every_letter() {
    let letters = ['A', 'B', 'C', 'D', 'E', 'F', 'G', 'H'];
    for (i, c) in letters.iter().enumerate() {
        assert_eq!(File::try_from(*c), Ok(File(i)));
        assert_eq!(char::from(File(i)), *c);
    }
    assert!(File::try_from('@').is_err());
    assert!(File::try_from('1').is_err());
    assert!(File::try_from(' ').is_err());
}

#[test]
fn rank_from_every_digit() {
    let digits = ['1', '2', '3', '4', '5', '6', '7', '8'];
    for (i, c) in digits.iter().enumerate() {
        assert_eq!(Rank::try_from(*c), Ok(Rank(i)));
        assert_eq!(char::from(Rank(i)), *c);
    }
    assert!(Rank::try_from('0').is_err());
    assert!(Rank::try_from('A').is_err());
}

#[test]
fn file_from_integers() {
    assert_eq!(File::try_from(0usize), Ok(File(0)));
    assert_eq!(File::try_from(7usize), Ok(File(7)));
    assert_eq!(File::try_from(8usize), Err(()));
    assert_eq!(File::try_from(usize::MAX), Err(()));
    assert_eq!(File::try_from(0isize), Ok(File(0)));
    assert_eq!(File::try_from(7isize), Ok(File(7)));
    assert_eq!(File::try_from(8isize), Err(()));
    assert_eq!(File::try_from(-1isize), Err(()));
    assert_eq!(File::try_from(isize::MIN), Err(()));
}

#[test]
fn rank_from_integers() {
    assert_eq!(Rank::try_from(0usize), Ok(Rank(0)));
    assert_eq!(Rank::try_from(7usize), Ok(Rank(7)));
    assert_eq!(Rank::try_from(8usize), Err(()));
    assert_eq!(Rank::try_from(3isize), Ok(Rank(3)));
    assert_eq!(Rank::try_from(8isize), Err(()));
    assert_eq!(Rank::try_from(-1isize), Err(()));
}

#[test]
fn axes_back_to_integers() {
    assert_eq!(usize::from(File(5)), 5);
    assert_eq!(isize::from(File(5)), 5);
    assert_eq!(usize::from(Rank(2)), 2);
    assert_eq!(isize::from(Rank(2)), 2);
    assert_eq!(char::from(File(8)), ' ');
    assert_eq!(char::from(Rank(8)), ' ');
}

#[test]
fn axes_compare_with_integers() {
    assert!(File(3) == 3usize);
    assert!(File(3) != 4usize);
    assert!(Rank(0) == 0usize);
    assert!(Rank(0) != 1usize);
}

#[test]
fn square_from_notation() {
    let square = Square::from_str("A2").unwrap();
    assert_eq!(square.file, File(0));
    assert_eq!(square.rank, Rank(1));
    assert!(square.is_empty());

    let square = Square::from_str("H8").unwrap();
    assert_eq!(square.file, File(7));
    assert_eq!(square.rank, Rank(7));
}

#[test]
fn square_from_bad_notation() {
    assert!(Square::from_str("").is_err());
    assert!(Square::from_str("A").is_err());
    assert!(Square::from_str("A22").is_err());
    assert!(Square::from_str("a2").is_err());
    assert!(Square::from_str("I2").is_err());
    assert!(Square::from_str("A9").is_err());
    assert!(Square::from_str("A0").is_err());
    assert!(Square::from_str("2A").is_err());
    assert!(Square::from_str("é1").is_err());
    assert!(Square::from_str("Aé").is_err());
}

#[test]
fn square_new_is_empty() {
    let square = Square::new(Rank(4), File(6));
    assert_eq!(square.rank, Rank(4));
    assert_eq!(square.file, File(6));
    assert!(square.is_empty());
    assert_eq!(square.position().rank, Rank(4));
    assert_eq!(square.position().file, File(6));
}

#[test]
fn square_notation() {
    assert_eq!(Square::new(Rank(0), File(0)).notation(), "A1");
    assert_eq!(Square::new(Rank(7), File(7)).notation(), "H8");
    assert_eq!(Square::new(Rank(3), File(4)).notation(), "E4");
    assert_eq!(Square::new(Rank(8), File(4)).notation(), "E ");
    assert_eq!(Square::new(Rank(1), File(9)).notation(), " 2");
    for text in ["A1", "B7", "H8", "D4"] {
        assert_eq!(Square::from_str(text).unwrap().notation(), text);
    }
}
