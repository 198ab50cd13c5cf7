use std::cmp::Ordering;

use guessing_game::game::{compare_guess, Game, InputError};
use guessing_game::guess::{parse_guess, read_guess};
use guessing_game::secret::{draw_secret, HIGHEST, LOWEST};

#[test]
fn parses_plain_and_signed_numbers() {
    assert_eq!(parse_guess("42"), Some(42));
    assert_eq!(parse_guess("+7"), Some(7));
    assert_eq!(parse_guess("007"), Some(7));
    assert_eq!(parse_guess("4294967295"), Some(u32::MAX));
}

#[test]
fn refuses_what_is_no_number() {
    assert_eq!(parse_guess(""), None);
    assert_eq!(parse_guess("+"), None);
    assert_eq!(parse_guess("-1"), None);
    assert_eq!(parse_guess("12a"), None);
    assert_eq!(parse_guess(" 12"), None);
    assert_eq!(parse_guess("4294967296"), None);
    assert_eq!(parse_guess("99999999999"), None);
}

#[test]
fn reads_a_guess_from_a_line() {
    assert_eq!(read_guess("15\n"), Some(15));
    assert_eq!(read_guess("  \t 15 \r\n"), Some(15));
    assert_eq!(read_guess("\u{a0}8\u{3000}"), Some(8));
    assert_eq!(read_guess("quince\n"), None);
    assert_eq!(read_guess("\n"), None);
    assert_eq!(read_guess("1 5\n"), None);
}

#[test]
fn compares_a_guess_with_the_target() {
    assert_eq!(compare_guess(3, 50), Ordering::Less);
    assert_eq!(compare_guess(70, 50), Ordering::Greater);
    assert_eq!(compare_guess(50, 50), Ordering::Equal);
}

#[test]
fn chosen_secret_must_be_in_range() {
    assert!(Game::with_secret(0).is_none());
    assert!(Game::with_secret(101).is_none());
    assert_eq!(Game::with_secret(1).unwrap().secret(), 1);
    assert_eq!(Game::with_secret(100).unwrap().secret(), 100);
}

#[test]
fn scripted_game_ends_on_the_target() {
    let mut game = Game::with_secret(42).unwrap();
    assert_eq!(game.take_input(Some("10\n")), Ok((10, Ordering::Less)));
    assert!(!game.is_over());
    assert_eq!(game.take_input(Some("99\n")), Ok((99, Ordering::Greater)));
    assert!(!game.is_over());
    assert_eq!(game.take_input(Some("42\n")), Ok((42, Ordering::Equal)));
    assert!(game.is_over());
}

#[test]
fn malformed_lines_before_a_number_do_not_end_the_game() {
    let mut game = Game::with_secret(7).unwrap();
    for line in ["abc\n", "\n", "", "-3\n", "7.0\n", "siete\n"] {
        assert_eq!(game.take_input(Some(line)), Err(InputError::MalformedInput));
        assert!(!game.is_over());
        assert_eq!(game.secret(), 7);
    }
    assert_eq!(game.take_input(Some(" 7 \n")), Ok((7, Ordering::Equal)));
    assert!(game.is_over());
}

#[test]
fn closed_input_is_reported() {
    let mut game = Game::with_secret(50).unwrap();
    assert_eq!(game.take_input(None), Err(InputError::InputStreamClosed));
    assert!(!game.is_over());
}

#[test]
fn drawn_secrets_stay_in_range() {
    let mut seen = std::collections::BTreeSet::new();
    for _ in 0..2000 {
        let n = draw_secret();
        assert!((LOWEST..=HIGHEST).contains(&n));
        seen.insert(n);
        let game = Game::new();
        assert!((1..=100).contains(&game.secret()));
        assert!(!game.is_over());
    }
    assert!(seen.len() > 10);
}
