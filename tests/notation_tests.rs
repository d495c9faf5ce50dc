use knight_endgame::position::Position;
use knight_endgame::state::State;

fn sq(x: u8, y: u8) -> Position {
    Position { x, y }
}

fn example() -> State {
    State {
        white_king: sq(0, 0),
        knights: [sq(1, 2), sq(3, 4), sq(5, 6)],
        black_king: sq(7, 7),
        target_field: sq(0, 7),
        white_to_move: true,
    }
}

#[test]
fn renders_normalized_position() {
    assert_eq!(example().to_fen(), "7k/5N2/8/3N4/8/1N6/8/K7 w - - 0 1");
    assert_eq!(example().rotate_twice().to_fen(), "7k/5N2/8/3N4/8/1N6/8/K7 w - - 0 1");
    assert_eq!(State::unpack(0).to_fen(), "8/8/8/8/8/8/8/KkNNN3 b - - 0 1");
}

#[test]
fn board_editor_link() {
    assert_eq!(
        example().to_lichess(),
        "https://lichess.org/editor/7k/5N2/8/3N4/8/1N6/8/K7_w_-_-_0_1"
    );
}

#[test]
fn notation_round_trip() {
    let text = "8/8/2N5/8/3k4/8/1N1N4/6K1 b - - 0 1".to_string();
    let s = State::from_fen(&text, sq(0, 7)).unwrap();
    assert_eq!(s.white_king, sq(6, 0));
    assert_eq!(s.black_king, sq(3, 3));
    assert_eq!(s.knights, [sq(1, 1), sq(3, 1), sq(2, 5)]);
    assert!(!s.white_to_move);
    let rendered = s.to_fen();
    let target = s.normalize().target_field;
    let back = State::from_fen(&rendered, target).unwrap();
    assert!(back.same_class(&s));
    assert_eq!(back.pack(), s.pack());
    let again = State::from_fen(&example().to_fen(), sq(0, 7)).unwrap();
    assert!(again.same_class(&example()));
}

#[test]
fn two_knights_fail() {
    let text = "8/8/2N5/8/3k4/8/1N6/6K1 w - - 0 1".to_string();
    assert_eq!(State::from_fen(&text, sq(0, 7)).err(), Some("Wrong amount of white knights!".to_string()));
}

#[test]
fn missing_kings_fail() {
    let no_black = "8/8/2N5/8/8/8/1N1N4/6K1 w - - 0 1".to_string();
    assert_eq!(State::from_fen(&no_black, sq(0, 7)).err(), Some("No black king found!".to_string()));
    let no_white = "8/8/2N5/8/3k4/8/1N1N4/8 w - - 0 1".to_string();
    assert_eq!(State::from_fen(&no_white, sq(0, 7)).err(), Some("No white king found!".to_string()));
}

#[test]
fn extra_pieces_fail() {
    let white_extra = "8/8/2N5/8/3k4/8/1N1N4/Q5K1 w - - 0 1".to_string();
    assert_eq!(State::from_fen(&white_extra, sq(0, 7)).err(), Some("Wrong amount of white pieces!".to_string()));
    let black_extra = "8/8/2N5/8/3k4/8/1N1N4/q5K1 w - - 0 1".to_string();
    assert_eq!(State::from_fen(&black_extra, sq(0, 7)).err(), Some("Wrong amount of black pieces!".to_string()));
}

#[test]
fn unreadable_text_fails() {
    let text = "not a position".to_string();
    assert_eq!(
        State::from_fen(&text, sq(0, 7)).err(),
        Some("not a position is not a valid position text!".to_string())
    );
}

#[test]
fn from_pieces_direct() {
    let pieces = vec![(6u8, true, 6u8), (9, true, 2), (11, true, 2), (27, false, 6), (42, true, 2)];
    let s = State::from_pieces(&pieces, true, sq(7, 0)).unwrap();
    assert_eq!(s.white_king, sq(6, 0));
    assert_eq!(s.black_king, sq(3, 3));
    assert_eq!(s.knights, [sq(1, 1), sq(3, 1), sq(2, 5)]);
    assert_eq!(s.target_field, sq(7, 0));
    assert!(s.white_to_move);
}
