use knight_endgame::position::Position;
use knight_endgame::state::{is_valid_packed, State};

fn sq(x: u8, y: u8) -> Position {
    Position { x, y }
}

fn example() -> State {
    State {
        white_king: sq(0, 0),
        knights: [sq(1, 2), sq(3, 4), sq(5, 6)],
        black_king: sq(7, 7),
        target_field: sq(0, 7),
        white_to_move: true,
    }
}

fn same_fields(a: &State, b: &State) -> bool {
    a.white_king == b.white_king
        && a.black_king == b.black_king
        && a.knights == b.knights
        && a.target_field == b.target_field
        && a.white_to_move == b.white_to_move
}

#[test]
fn canonical_knight_order() {
    let s = State { knights: [sq(5, 5), sq(1, 1), sq(3, 3)], ..example() };
    let sorted = s.sort_knights();
    assert_eq!(sorted.knights, [sq(1, 1), sq(3, 3), sq(5, 5)]);
    assert_eq!(sorted.white_king, s.white_king);
    let t = State { knights: [sq(3, 3), sq(5, 5), sq(1, 1)], ..example() };
    assert_eq!(t.sort_knights().knights, [sq(1, 1), sq(3, 3), sq(5, 5)]);
}

#[test]
fn rotations_of_state() {
    let s = example();
    let r = s.rotate_twice();
    assert_eq!(r.white_king, sq(7, 7));
    assert_eq!(r.black_king, sq(0, 0));
    assert_eq!(r.knights, [sq(6, 5), sq(4, 3), sq(2, 1)]);
    assert_eq!(r.target_field, sq(7, 0));
    assert!(r.white_to_move);
    let c = s.rotate_clockwise();
    assert_eq!(c.white_king, sq(0, 7));
    assert!(same_fields(&c.rotate_counterclockwise(), &s));
}

#[test]
fn normalize_moves_first_king_to_bottom_left() {
    let s = example().rotate_twice();
    let n = s.normalize();
    assert_eq!(n.white_king, sq(0, 0));
    assert_eq!(n.knights, [sq(1, 2), sq(3, 4), sq(5, 6)]);
    assert_eq!(n.black_king, sq(7, 7));
    let boundary = State { white_king: sq(4, 3), ..example() };
    let nb = boundary.normalize();
    assert!(nb.white_king.x < 4 && nb.white_king.y < 4);
}

#[test]
fn normalize_idempotent() {
    for s in [example(), example().rotate_clockwise(), example().rotate_counterclockwise(), example().rotate_twice()] {
        let n = s.normalize();
        assert!(same_fields(&n.normalize(), &n));
    }
}

#[test]
fn symmetry_invariance_example() {
    let a = example();
    let b = State {
        white_king: sq(7, 7),
        knights: [sq(6, 5), sq(4, 3), sq(2, 1)],
        black_king: sq(0, 0),
        target_field: sq(7, 0),
        white_to_move: true,
    };
    assert_eq!(a.pack(), b.pack());
    assert_eq!(a.rotate_clockwise().pack(), a.pack());
    assert_eq!(a.rotate_counterclockwise().pack(), a.pack());
    assert!(a.same_class(&b));
}

#[test]
fn pack_exact_value() {
    assert_eq!(example().pack(), 10949313504);
}

#[test]
fn unpack_zero() {
    let s = State::unpack(0);
    assert_eq!(s.white_king, sq(0, 0));
    assert_eq!(s.black_king, sq(1, 0));
    assert_eq!(s.knights, [sq(2, 0), sq(3, 0), sq(4, 0)]);
    assert_eq!(s.target_field, sq(0, 0));
    assert!(!s.white_to_move);
    assert_eq!(s.pack(), 0);
}

#[test]
fn full_round_trip() {
    let states = [
        example(),
        example().rotate_clockwise(),
        State {
            white_king: sq(5, 2),
            knights: [sq(0, 0), sq(7, 7), sq(5, 3)],
            black_king: sq(5, 1),
            target_field: sq(3, 7),
            white_to_move: false,
        },
        State {
            white_king: sq(3, 3),
            knights: [sq(7, 7), sq(6, 7), sq(5, 7)],
            black_king: sq(4, 7),
            target_field: sq(7, 6),
            white_to_move: true,
        },
    ];
    for s in states {
        let p = s.pack();
        assert!(is_valid_packed(p));
        let u = State::unpack(p);
        assert_eq!(u.pack(), p);
        assert!(u.same_class(&s));
    }
}

#[test]
fn dense_round_trip_sample() {
    let mut checked = 0;
    let mut p: u64 = 0;
    while p < 0x4_0000_0000 {
        if is_valid_packed(p) {
            assert_eq!(State::unpack(p).pack(), p);
            checked += 1;
        }
        p += 7_919_993;
    }
    assert!(checked > 100);
}

#[test]
fn invalid_packed_values() {
    assert!(!is_valid_packed(0x4_0000_0000));
    assert!(!is_valid_packed(63 << 4));
    assert!(!is_valid_packed(28 << 28));
    assert!(!is_valid_packed((5 << 10) | (4 << 16) | (9 << 22)));
    assert!(!is_valid_packed(60 << 22));
    assert!(is_valid_packed((59 << 22) | (59 << 16) | (59 << 10) | (62 << 4) | 15));
}

#[test]
fn exhaustive_last_knight_range() {
    let s = State {
        white_king: sq(0, 0),
        knights: [sq(5, 7), sq(6, 7), sq(7, 7)],
        black_king: sq(1, 0),
        target_field: sq(0, 0),
        white_to_move: false,
    };
    let p = s.pack();
    assert_eq!((p >> 22) & 63, 59);
    assert!(State::unpack(p).same_class(&s));
}

#[test]
fn same_class_distinguishes_turn_and_target() {
    let a = example();
    let b = State { white_to_move: false, ..a };
    let c = State { target_field: sq(1, 0), ..a };
    assert!(!a.same_class(&b));
    assert!(!a.same_class(&c));
    assert_ne!(a.pack(), b.pack());
    assert_ne!(a.pack(), c.pack());
}
