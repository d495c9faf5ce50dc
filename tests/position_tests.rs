use knight_endgame::position::Position;

fn sq(x: u8, y: u8) -> Position {
    Position { x, y }
}

#[test]
fn rim_codec_exact_values() {
    assert_eq!(sq(0, 0).to_u8_rim(), 0);
    assert_eq!(sq(7, 0).to_u8_rim(), 7);
    assert_eq!(sq(0, 7).to_u8_rim(), 8);
    assert_eq!(sq(7, 7).to_u8_rim(), 15);
    assert_eq!(sq(0, 1).to_u8_rim(), 16);
    assert_eq!(sq(0, 6).to_u8_rim(), 21);
    assert_eq!(sq(7, 1).to_u8_rim(), 22);
    assert_eq!(sq(7, 6).to_u8_rim(), 27);
}

#[test]
fn rim_codec_enumeration_order() {
    assert_eq!(Position::from_u8_rim(0), sq(0, 0));
    assert_eq!(Position::from_u8_rim(8), sq(0, 7));
    assert_eq!(Position::from_u8_rim(16), sq(0, 1));
    assert_eq!(Position::from_u8_rim(22), sq(7, 1));
    assert_eq!(Position::from_u8_rim(27), sq(7, 6));
}

#[test]
fn rim_codec_round_trip() {
    for i in 0..28u8 {
        let p = Position::from_u8_rim(i);
        assert!(p.is_on_rim());
        assert_eq!(p.to_u8_rim(), i);
    }
    let mut count = 0;
    for i in 0..64u8 {
        if Position::from_u8(i).is_on_rim() {
            count += 1;
        }
    }
    assert_eq!(count, 28);
}

#[test]
fn center_square_is_outside_rim_domain() {
    assert!(!sq(3, 3).is_on_rim());
    assert!(!sq(1, 6).is_on_rim());
    assert!(sq(0, 3).is_on_rim());
}

#[test]
fn full_board_codec() {
    assert_eq!(sq(0, 0).to_u8(), 0);
    assert_eq!(sq(7, 0).to_u8(), 7);
    assert_eq!(sq(0, 1).to_u8(), 8);
    assert_eq!(sq(7, 7).to_u8(), 63);
    assert_eq!(sq(3, 4).to_u8(), 35);
    assert_eq!(Position::from_u8(35), sq(3, 4));
    for i in 0..64u8 {
        assert_eq!(Position::from_u8(i).to_u8(), i);
    }
    assert_eq!(Position::from_u8(64 + 9), sq(1, 1));
}

#[test]
fn quadrant_codec() {
    assert_eq!(sq(0, 0).to_u8_bottom_left(), 0);
    assert_eq!(sq(3, 0).to_u8_bottom_left(), 3);
    assert_eq!(sq(0, 1).to_u8_bottom_left(), 4);
    assert_eq!(sq(3, 3).to_u8_bottom_left(), 15);
    assert_eq!(Position::from_u8_bottom_left(6), sq(2, 1));
    for i in 0..16u8 {
        assert_eq!(Position::from_u8_bottom_left(i).to_u8_bottom_left(), i);
    }
}

#[test]
fn rotations() {
    let p = sq(1, 2);
    assert_eq!(p.rotate_clockwise(), sq(2, 6));
    assert_eq!(p.rotate_counterclockwise(), sq(5, 1));
    assert_eq!(p.rotate_twice(), sq(6, 5));
    for i in 0..64u8 {
        let q = Position::from_u8(i);
        assert_eq!(q.rotate_clockwise().rotate_counterclockwise(), q);
        assert_eq!(q.rotate_clockwise().rotate_clockwise(), q.rotate_twice());
        assert_eq!(q.rotate_twice().rotate_twice(), q);
    }
}

#[test]
fn offsets_and_bounds() {
    let p = sq(6, 1);
    assert!(!p.is_out_of_bounds(1, 2));
    assert!(p.is_out_of_bounds(2, 0));
    assert!(p.is_out_of_bounds(0, -2));
    assert!(!p.is_out_of_bounds(-6, -1));
    assert_eq!(p.add(1, 2), sq(7, 3));
    assert_eq!(p.add(-2, -1), sq(4, 0));
}

#[test]
fn text_parsing_valid() {
    assert_eq!(Position::from_string(&"a1".to_string()), Ok(sq(0, 0)));
    assert_eq!(Position::from_string(&"h8".to_string()), Ok(sq(7, 7)));
    assert_eq!(Position::from_string(&"C5".to_string()), Ok(sq(2, 4)));
}

#[test]
fn text_parsing_file_error() {
    assert_eq!(
        Position::from_string(&"i9".to_string()),
        Err("i9 is not a valid square (file has to be between 'a' and 'h')!".to_string())
    );
}

#[test]
fn text_parsing_rank_error() {
    assert_eq!(
        Position::from_string(&"a9".to_string()),
        Err("a9 is not a valid square (rank has to be between 1 and 8)!".to_string())
    );
}

#[test]
fn text_parsing_length_error() {
    assert_eq!(
        Position::from_string(&"a".to_string()),
        Err("a is not a valid square (has to have length 2)!".to_string())
    );
    assert!(Position::from_string(&"a1b".to_string()).is_err());
    assert!(Position::from_string(&"".to_string()).is_err());
}

#[test]
fn shakmaty_square_conversion() {
    assert_eq!(Position::from_square(shakmaty::Square::C2), sq(2, 1));
    assert_eq!(Position::from_square(shakmaty::Square::H8), sq(7, 7));
}

#[test]
fn squares_ordered_by_index() {
    assert!(sq(7, 0) < sq(0, 1));
    assert!(sq(2, 3) < sq(3, 3));
    assert!(sq(5, 5) > sq(1, 1));
    assert_eq!(sq(4, 4).partial_cmp(&sq(4, 4)), Some(std::cmp::Ordering::Equal));
    for i in 0..63u8 {
        assert!(Position::from_u8(i) < Position::from_u8(i + 1));
    }
}
