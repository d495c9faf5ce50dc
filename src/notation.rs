use vstd::prelude::*;
use vstd::string::*;

use crate::position::{square_at, Position};
use crate::state::State;

verus! {

/// What stands on square `i`: 0 nothing, 1 the first king, 2 the second
/// king, 3 a knight.
pub open spec fn occupant(s: State, i: int) -> u8 {
    if s.knights[0].index() == i || s.knights[1].index() == i || s.knights[2].index() == i {
        3
    } else if s.black_king.index() == i {
        2
    } else if s.white_king.index() == i {
        1
    } else {
        0
    }
}

pub open spec fn piece_letter(code: u8) -> Seq<char> {
    if code == 1 {
        seq!['K']
    } else if code == 2 {
        seq!['k']
    } else {
        seq!['N']
    }
}

/// The digit of a run of `n` empty squares, or nothing for an empty run.
pub open spec fn run_digits(n: nat) -> Seq<char> {
    if n == 0 {
        Seq::empty()
    } else {
        seq![(48 + n) as char]
    }
}

/// The text of rank `y` from file `j` on, after a run of `run` empty squares.
pub open spec fn rank_text(s: State, y: int, j: int, run: nat) -> Seq<char>
    decreases 8 - j,
{
    if j >= 8 {
        run_digits(run)
    } else if occupant(s, j + 8 * y) == 0 {
        rank_text(s, y, j + 1, run + 1)
    } else {
        run_digits(run) + piece_letter(occupant(s, j + 8 * y)) + rank_text(s, y, j + 1, 0)
    }
}

/// The board text of the top `n` ranks, separated by slashes.
pub open spec fn board_text(s: State, n: int) -> Seq<char>
    decreases n,
{
    if n <= 0 {
        Seq::empty()
    } else if n == 1 {
        rank_text(s, 7, 0, 0)
    } else {
        board_text(s, n - 1) + seq!['/'] + rank_text(s, 8 - n, 0, 0)
    }
}

/// The position text of a state as rendered: board, side to move, and no
/// castling, en passant or clocks.
pub open spec fn fen_text(s: State) -> Seq<char> {
    board_text(s, 8) + if s.white_to_move {
        " w - - 0 1"@
    } else {
        " b - - 0 1"@
    }
}

fn run_str(n: u8) -> (r: &'static str)
    requires
        1 <= n <= 8,
    ensures
        r@ == run_digits(n as nat),
{
    proof {
        reveal_strlit("1");
        reveal_strlit("2");
        reveal_strlit("3");
        reveal_strlit("4");
        reveal_strlit("5");
        reveal_strlit("6");
        reveal_strlit("7");
        reveal_strlit("8");
    }
    match n {
        1 => "1",
        2 => "2",
        3 => "3",
        4 => "4",
        5 => "5",
        6 => "6",
        7 => "7",
        _ => "8",
    }
}

fn letter_str(code: u8) -> (r: &'static str)
    ensures
        r@ == piece_letter(code),
{
    proof {
        reveal_strlit("K");
        reveal_strlit("k");
        reveal_strlit("N");
    }
    if code == 1 {
        "K"
    } else if code == 2 {
        "k"
    } else {
        "N"
    }
}

/// The text with every space turned into an underscore.
pub open spec fn spaces_to_underscores(t: Seq<char>) -> Seq<char> {
    Seq::new(t.len(), |i: int| if t[i] == ' ' { '_' } else { t[i] })
}

/// Relies on `str::replace`, which replaces every match of the pattern.
#[verifier::external_body]
fn replace_spaces(t: &str) -> (r: String)
    ensures
        r@ == spaces_to_underscores(t@),
{
    t.replace(" ", "_")
}

/// A piece as the position text gives it: square index, whether it is white,
/// and its role number (1 pawn, 2 knight, 3 bishop, 4 rook, 5 queen, 6 king).
pub type Placement = (u8, bool, u8);

pub const KNIGHT: u8 = 2;

pub const KING: u8 = 6;

/// The pieces and the side to move that shakmaty reads from a position text,
/// or `None` where it rejects the text.
pub uninterp spec fn fen_pieces(text: Seq<char>) -> Option<(Seq<Placement>, bool)>;

/// Relies on shakmaty's `Fen::from_ascii` to read a position text, and on
/// `Board::iter` to list its pieces, each as its square index, colour and
/// role number; the result depends on the text alone.
#[verifier::external_body]
fn parse_fen_pieces(text: &str) -> (r: Option<(Vec<Placement>, bool)>)
    ensures
        match r {
            Some(v) => fen_pieces(text@) == Some((v.0@, v.1)),
            None => fen_pieces(text@) is None,
        },
{
    match shakmaty::fen::Fen::from_ascii(text.as_bytes()) {
        Ok(fen) => Some((
            fen.0.board.iter().map(|(sq, p)| (u8::from(sq), p.color.is_white(), p.role as u8)).collect(),
            fen.0.turn.is_white(),
        )),
        Err(_) => None,
    }
}

/// Number of pieces of the given colour, and of the given role unless `role` is 0.
pub open spec fn count_of(ps: Seq<Placement>, white: bool, role: u8) -> nat
    decreases ps.len(),
{
    if ps.len() == 0 {
        0
    } else {
        let p = ps.last();
        count_of(ps.drop_last(), white, role) + if p.1 == white && (role == 0 || p.2 == role) {
            1nat
        } else {
            0nat
        }
    }
}

/// Square of the last piece of the given colour and role.
pub open spec fn square_of(ps: Seq<Placement>, white: bool, role: u8) -> u8
    decreases ps.len(),
{
    if ps.len() == 0 {
        0
    } else if ps.last().1 == white && ps.last().2 == role {
        ps.last().0
    } else {
        square_of(ps.drop_last(), white, role)
    }
}

/// Squares of the white knights, in the order listed.
pub open spec fn white_knights(ps: Seq<Placement>) -> Seq<u8>
    decreases ps.len(),
{
    if ps.len() == 0 {
        Seq::empty()
    } else if ps.last().1 && ps.last().2 == KNIGHT {
        white_knights(ps.drop_last()).push(ps.last().0)
    } else {
        white_knights(ps.drop_last())
    }
}

/// The state that a list of pieces describes, or the complaint about it.
pub open spec fn state_from_pieces(ps: Seq<Placement>, white_to_move: bool, target: Position) -> Result<State, Seq<char>> {
    if count_of(ps, false, KING) != 1 {
        Err("No black king found!"@)
    } else if count_of(ps, true, KING) != 1 {
        Err("No white king found!"@)
    } else if count_of(ps, true, KNIGHT) != 3 {
        Err("Wrong amount of white knights!"@)
    } else if count_of(ps, true, 0) != 4 {
        Err("Wrong amount of white pieces!"@)
    } else if count_of(ps, false, 0) != 1 {
        Err("Wrong amount of black pieces!"@)
    } else {
        let n = white_knights(ps);
        Ok(
            State {
                white_king: square_at(square_of(ps, true, KING) as int % 64),
                knights: [
                    square_at(n[0] as int % 64),
                    square_at(n[1] as int % 64),
                    square_at(n[2] as int % 64),
                ],
                black_king: square_at(square_of(ps, false, KING) as int % 64),
                target_field: target,
                white_to_move,
            },
        )
    }
}

proof fn lemma_white_knights_len(ps: Seq<Placement>)
    ensures
        white_knights(ps).len() == count_of(ps, true, KNIGHT),
    decreases ps.len(),
{
    if ps.len() > 0 {
        lemma_white_knights_len(ps.drop_last());
    }
}

impl State {
    /// Position text of the canonical representative.
    pub fn to_fen(self) -> (r: String)
        requires
            self.on_board(),
            self.knights_distinct(),
        ensures
            r@ == fen_text(self.normalized()),
    {
        let s = self.normalize();
        let mut position: Vec<u8> = Vec::new();
        let mut k: usize = 0;
        while k < 64
            invariant
                k <= 64,
                position@.len() == k,
                forall|i: int| 0 <= i < k ==> position@[i] == 0,
            decreases 64 - k,
        {
            position.push(0);
            k = k + 1;
        }
        let wk = s.white_king.to_u8() as usize;
        let bk = s.black_king.to_u8() as usize;
        let n0 = s.knights[0].to_u8() as usize;
        let n1 = s.knights[1].to_u8() as usize;
        let n2 = s.knights[2].to_u8() as usize;
        position.set(wk, 1);
        position.set(bk, 2);
        position.set(n0, 3);
        position.set(n1, 3);
        position.set(n2, 3);
        assert forall|i: int| 0 <= i < 64 implies position@[i] == occupant(s, i) by {}
        let mut result = String::new();
        let mut counter: u8 = 0;
        let mut i: usize = 0;
        while i < 8
            invariant
                i <= 8,
                position@.len() == 64,
                forall|q: int| 0 <= q < 64 ==> position@[q] == occupant(s, q),
                result@ == board_text(s, i as int),
                counter == 0,
            decreases 8 - i,
        {
            let y: usize = 7 - i;
            let mut j: usize = 0;
            proof {
                reveal_strlit("/");
            }
            if i > 0 {
                result.append("/");
            }
            let ghost before = result@;
            while j < 8
                invariant
                    j <= 8,
                    i < 8,
                    y == 7 - i,
                    counter <= j,
                    position@.len() == 64,
                    forall|q: int| 0 <= q < 64 ==> position@[q] == occupant(s, q),
                    i == 0 ==> before == board_text(s, i as int),
                    i > 0 ==> before == board_text(s, i as int) + seq!['/'],
                    before + rank_text(s, y as int, 0, 0) == result@ + rank_text(s, y as int, j as int, counter as nat),
                decreases 8 - j,
            {
                let code = position[y * 8 + j];
                if code == 0 {
                    counter = counter + 1;
                } else {
                    let ghost mid = result@;
                    if counter > 0 {
                        result.append(run_str(counter));
                        counter = 0;
                    }
                    result.append(letter_str(code));
                    assert(mid + rank_text(s, y as int, j as int, 0) =~= mid + run_digits(0) + piece_letter(code) + rank_text(s, y as int, j + 1, 0));
                }
                j = j + 1;
            }
            if counter != 0 {
                result.append(run_str(counter));
                counter = 0;
            }
            i = i + 1;
        }
        proof {
            reveal_strlit(" w - - 0 1");
            reveal_strlit(" b - - 0 1");
        }
        if s.white_to_move {
            result.concat(" w - - 0 1")
        } else {
            result.concat(" b - - 0 1")
        }
    }
    /// Board-editor link that shows the canonical representative.
    pub fn to_lichess(self) -> (r: String)
        requires
            self.on_board(),
            self.knights_distinct(),
        ensures
            r@ == "https://lichess.org/editor/"@ + spaces_to_underscores(fen_text(self.normalized())),
    {
        let fen = self.to_fen();
        let tail = replace_spaces(fen.as_str());
        "https://lichess.org/editor/".to_owned().concat(tail.as_str())
    }

    /// The state that a list of pieces describes: exactly one king of each
    /// colour, three white knights, four white and one black piece.
    pub fn from_pieces(pieces: &Vec<Placement>, white_to_move: bool, target: Position) -> (r: Result<State, String>)
        ensures
            match r {
                Ok(s) => state_from_pieces(pieces@, white_to_move, target) == Ok::<State, Seq<char>>(s),
                Err(e) => state_from_pieces(pieces@, white_to_move, target) == Err::<State, Seq<char>>(e@),
            },
    {
        let mut black_kings: usize = 0;
        let mut white_kings: usize = 0;
        let mut white_count: usize = 0;
        let mut black_count: usize = 0;
        let mut black_king: u8 = 0;
        let mut white_king: u8 = 0;
        let mut knight_squares: Vec<u8> = Vec::new();
        let mut i: usize = 0;
        while i < pieces.len()
            invariant
                i <= pieces.len(),
                black_kings == count_of(pieces@.take(i as int), false, KING),
                white_kings == count_of(pieces@.take(i as int), true, KING),
                white_count == count_of(pieces@.take(i as int), true, 0),
                black_count == count_of(pieces@.take(i as int), false, 0),
                black_king == square_of(pieces@.take(i as int), false, KING),
                white_king == square_of(pieces@.take(i as int), true, KING),
                knight_squares@ == white_knights(pieces@.take(i as int)),
                black_kings <= i && white_kings <= i && white_count <= i && black_count <= i,
            decreases pieces.len() - i,
        {
            let (sq, white, role) = pieces[i];
            proof {
                assert(pieces@.take(i + 1).drop_last() =~= pieces@.take(i as int));
                assert(pieces@.take(i + 1).last() == pieces@[i as int]);
            }
            if white {
                white_count = white_count + 1;
                if role == KING {
                    white_kings = white_kings + 1;
                    white_king = sq;
                } else if role == KNIGHT {
                    knight_squares.push(sq);
                }
            } else {
                black_count = black_count + 1;
                if role == KING {
                    black_kings = black_kings + 1;
                    black_king = sq;
                }
            }
            i = i + 1;
        }
        proof {
            assert(pieces@.take(pieces.len() as int) =~= pieces@);
            reveal_strlit("No black king found!");
            reveal_strlit("No white king found!");
            reveal_strlit("Wrong amount of white knights!");
            reveal_strlit("Wrong amount of white pieces!");
            reveal_strlit("Wrong amount of black pieces!");
            lemma_white_knights_len(pieces@);
        }
        if black_kings != 1 {
            Err("No black king found!".to_owned())
        } else if white_kings != 1 {
            Err("No white king found!".to_owned())
        } else if knight_squares.len() != 3 {
            Err("Wrong amount of white knights!".to_owned())
        } else if white_count != 4 {
            Err("Wrong amount of white pieces!".to_owned())
        } else if black_count != 1 {
            Err("Wrong amount of black pieces!".to_owned())
        } else {
            let s = State {
                white_king: Position::from_u8(white_king),
                knights: [
                    Position::from_u8(knight_squares[0]),
                    Position::from_u8(knight_squares[1]),
                    Position::from_u8(knight_squares[2]),
                ],
                black_king: Position::from_u8(black_king),
                target_field: target,
                white_to_move,
            };
            proof {
                let t = state_from_pieces(pieces@, white_to_move, target)->Ok_0;
                assert(s.knights =~= t.knights);
            }
            Ok(s)
        }
    }

    /// The state that a position text describes, with the given target square.
    pub fn from_fen(s: &String, target: Position) -> (r: Result<State, String>)
        ensures
            match fen_pieces(s@) {
                None => r == Err::<State, String>(r->Err_0) && r->Err_0@ == s@ + " is not a valid position text!"@,
                Some(v) => match r {
                    Ok(st) => state_from_pieces(v.0, v.1, target) == Ok::<State, Seq<char>>(st),
                    Err(e) => state_from_pieces(v.0, v.1, target) == Err::<State, Seq<char>>(e@),
                },
            },
    {
        match parse_fen_pieces(s.as_str()) {
            None => Err(s.clone().concat(" is not a valid position text!")),
            Some((pieces, white_to_move)) => State::from_pieces(&pieces, white_to_move, target),
        }
    }
}

} // verus!
