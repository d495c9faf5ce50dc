use vstd::prelude::*;
use vstd::string::*;
use vstd::utf8::encode_utf8;

verus! {

/// A board square; `x` is the file and `y` the rank, both in `0..8`.
#[derive(Debug, Clone, Copy, PartialEq, Eq, Structural)]
pub struct Position {
    pub x: u8,
    pub y: u8,
}

/// The square with rim code `i` (bottom edge, top edge, then the left and
/// right edges without their corners).
pub open spec fn rim_square(i: int) -> Position {
    if i < 8 {
        Position { x: i as u8, y: 0 }
    } else if i < 16 {
        Position { x: (i - 8) as u8, y: 7 }
    } else if i < 22 {
        Position { x: 0, y: (i - 15) as u8 }
    } else {
        Position { x: 7, y: (i - 21) as u8 }
    }
}

/// ASCII lower case of one byte.
pub open spec fn lower_ascii(b: u8) -> u8 {
    if 65 <= b <= 90 { (b + 32) as u8 } else { b }
}

/// The byte is a file letter `a`..`h` once lower-cased.
pub open spec fn is_file_byte(b: u8) -> bool {
    97 <= lower_ascii(b) <= 104
}

/// The byte is a rank digit `1`..`8` once lower-cased.
pub open spec fn is_rank_byte(b: u8) -> bool {
    49 <= lower_ascii(b) <= 56
}

/// The square with full-board index `i`.
pub open spec fn square_at(i: int) -> Position {
    Position { x: (i % 8) as u8, y: (i / 8) as u8 }
}

/// On the board, the full-board index tells squares apart.
pub proof fn lemma_index_injective(p: Position, q: Position)
    requires
        p.wf(),
        q.wf(),
    ensures
        (p.index() == q.index()) == (p == q),
        0 <= p.index() < 64,
{
    if p.index() == q.index() {
        assert(p.y == q.y) by (nonlinear_arith)
            requires
                p.x + 8 * p.y == q.x + 8 * q.y,
                p.x < 8,
                q.x < 8,
        ;
    }
}

/// Decoding the full-board index of a square gives the square back.
pub proof fn lemma_square_at_index(p: Position)
    requires
        p.wf(),
    ensures
        square_at(p.index() % 64) == p,
{
    let i = p.index();
    assert(i % 64 == i);
    assert(i % 8 == p.x as int && i / 8 == p.y as int) by (nonlinear_arith)
        requires
            i == p.x + 8 * p.y,
            p.x < 8,
            p.y < 8,
    ;
}

/// The square of an index below 64 lies on the board and has that index.
pub proof fn lemma_index_square_at(i: int)
    requires
        0 <= i < 64,
    ensures
        square_at(i).wf(),
        square_at(i).index() == i,
{
    assert(i % 8 < 8 && i / 8 < 8 && i % 8 + 8 * (i / 8) == i) by (nonlinear_arith)
        requires
            0 <= i < 64,
    ;
}

/// Each rotation keeps squares apart and together exactly as they were.
pub proof fn lemma_rotations_injective(p: Position, q: Position)
    requires
        p.wf(),
        q.wf(),
    ensures
        (p.index() == q.index()) == (p.cw().index() == q.cw().index()),
        (p.index() == q.index()) == (p.ccw().index() == q.ccw().index()),
        (p.index() == q.index()) == (p.half_turn().index() == q.half_turn().index()),
{
    lemma_index_injective(p, q);
    lemma_index_injective(p.cw(), q.cw());
    lemma_index_injective(p.ccw(), q.ccw());
    lemma_index_injective(p.half_turn(), q.half_turn());
}

#[verifier::external_type_specification]
#[verifier::external_body]
pub struct ExSquare(shakmaty::Square);

/// Relies on shakmaty's `From<Square> for u8`: the square's index, which is
/// below 64.
#[verifier::external_body]
fn square_index(square: shakmaty::Square) -> (r: u8)
    ensures
        r < 64,
{
    u8::from(square)
}

impl Position {
    /// Both coordinates lie on the board.
    pub open spec fn wf(self) -> bool {
        self.x < 8 && self.y < 8
    }

    /// Full-board index, rank-major.
    pub open spec fn index(self) -> int {
        self.x + 8 * self.y
    }

    pub open spec fn on_rim(self) -> bool {
        self.x == 0 || self.y == 0 || self.x == 7 || self.y == 7
    }

    pub open spec fn in_bottom_left(self) -> bool {
        self.x < 4 && self.y < 4
    }

    /// Rim code of a rim square.
    pub open spec fn rim_index(self) -> int {
        if self.y == 0 {
            self.x as int
        } else if self.y == 7 {
            self.x + 8
        } else if self.x == 0 {
            self.y + 15
        } else {
            self.y + 21
        }
    }

    pub open spec fn cw(self) -> Position {
        Position { x: self.y, y: (7 - self.x) as u8 }
    }

    pub open spec fn ccw(self) -> Position {
        Position { x: (7 - self.y) as u8, y: self.x }
    }

    pub open spec fn half_turn(self) -> Position {
        Position { x: (7 - self.x) as u8, y: (7 - self.y) as u8 }
    }

    pub open spec fn leaves_board(self, dx: int, dy: int) -> bool {
        self.x + dx > 7 || self.x + dx < 0 || self.y + dy > 7 || self.y + dy < 0
    }

    /// The square of full-board index `i`, taken modulo 64.
    pub fn from_u8(i: u8) -> (r: Position)
        ensures
            r.wf(),
            r == square_at(i as int % 64),
    {
        let r = Position { x: i & 0b111, y: (i >> 3) & 0b111 };
        assert((i & 7) == i % 8 && ((i >> 3) & 7) == (i % 64) / 8) by (bit_vector);
        r
    }

    pub fn to_u8(&self) -> (r: u8)
        requires
            self.wf(),
        ensures
            r == self.index(),
            r < 64,
    {
        let x = self.x;
        let y = self.y;
        assert(x < 8 && y < 8 ==> x | (y << 3) == x + 8 * y) by (bit_vector);
        x | (y << 3)
    }

    pub fn from_u8_rim(i: u8) -> (r: Position)
        requires
            i < 28,
        ensures
            r == rim_square(i as int),
            r.wf(),
            r.on_rim(),
            r.rim_index() == i,
    {
        if i < 8 {
            Position { x: i, y: 0 }
        } else if i < 16 {
            Position { x: i - 8, y: 7 }
        } else if i < 22 {
            Position { x: 0, y: i - 15 }
        } else {
            Position { x: 7, y: i - 21 }
        }
    }

    pub fn to_u8_rim(self) -> (r: u8)
        requires
            self.wf(),
            self.on_rim(),
        ensures
            r == self.rim_index(),
            r < 28,
            rim_square(r as int) == self,
    {
        if self.y == 0 {
            self.x
        } else if self.y == 7 {
            self.x + 8
        } else if self.x == 0 {
            self.y + 15
        } else {
            self.y + 21
        }
    }

    pub fn is_on_rim(self) -> (r: bool)
        ensures
            r == self.on_rim(),
    {
        self.x == 0 || self.y == 0 || self.x == 7 || self.y == 7
    }

    pub fn from_u8_bottom_left(i: u8) -> (r: Position)
        requires
            i < 16,
        ensures
            r.x == i % 4,
            r.y == i / 4,
            r.wf(),
            r.in_bottom_left(),
    {
        assert((i & 3) == i % 4 && (i >> 2) == i / 4) by (bit_vector);
        Position { x: i & 0b11, y: i >> 2 }
    }

    pub fn to_u8_bottom_left(&self) -> (r: u8)
        requires
            self.in_bottom_left(),
        ensures
            r == self.x + 4 * self.y,
            r < 16,
    {
        let x = self.x;
        let y = self.y;
        assert(y < 4 ==> (y << 2) == 4 * y) by (bit_vector);
        x + (y << 2)
    }

    pub fn rotate_clockwise(self) -> (r: Position)
        requires
            self.wf(),
        ensures
            r == self.cw(),
            r.wf(),
    {
        Position { x: self.y, y: 7 - self.x }
    }

    pub fn rotate_counterclockwise(self) -> (r: Position)
        requires
            self.wf(),
        ensures
            r == self.ccw(),
            r.wf(),
    {
        Position { x: 7 - self.y, y: self.x }
    }

    pub fn rotate_twice(self) -> (r: Position)
        requires
            self.wf(),
        ensures
            r == self.half_turn(),
            r.wf(),
    {
        Position { x: 7 - self.x, y: 7 - self.y }
    }

    pub fn is_out_of_bounds(&self, dx: i16, dy: i16) -> (r: bool)
        ensures
            r == self.leaves_board(dx as int, dy as int),
    {
        let nx: i32 = self.x as i32 + dx as i32;
        let ny: i32 = self.y as i32 + dy as i32;
        nx > 7 || nx < 0 || ny > 7 || ny < 0
    }

    /// The square shifted by `(dx, dy)`; the shifted coordinates must fit in a byte.
    pub fn add(&self, dx: i16, dy: i16) -> (r: Position)
        requires
            0 <= self.x + dx <= 255,
            0 <= self.y + dy <= 255,
        ensures
            r.x == self.x + dx,
            r.y == self.y + dy,
    {
        Position { x: (self.x as i16 + dx) as u8, y: (self.y as i16 + dy) as u8 }
    }
    /// Rank-major order key; on the board it orders squares as their
    /// full-board indices do.
    pub open spec fn order_key(self) -> int {
        self.y * 256 + self.x
    }

    /// The square of a shakmaty square.
    pub fn from_square(square: shakmaty::Square) -> (r: Position)
        ensures
            r.wf(),
    {
        Position::from_u8(square_index(square))
    }

    /// Reads two-character algebraic notation such as `a1` or `H8`.
    pub fn from_string(s: &String) -> (r: Result<Position, String>)
        ensures
            ({
                let b = encode_utf8(s@);
                match r {
                    Ok(p) => b.len() == 2 && is_file_byte(b[0]) && is_rank_byte(b[1]) && p.x
                        == lower_ascii(b[0]) - 97 && p.y == lower_ascii(b[1]) - 49 && p.wf(),
                    Err(e) => (b.len() != 2 && e@ == s@ + " is not a valid square (has to have length 2)!"@)
                        || (b.len() == 2 && !is_file_byte(b[0]) && e@ == s@
                        + " is not a valid square (file has to be between 'a' and 'h')!"@) || (b.len()
                        == 2 && is_file_byte(b[0]) && !is_rank_byte(b[1]) && e@ == s@
                        + " is not a valid square (rank has to be between 1 and 8)!"@),
                }
            }),
    {
        let bytes = s.as_str().as_bytes();
        if bytes.len() != 2 {
            return Err(s.clone().concat(" is not a valid square (has to have length 2)!"));
        }
        let file = ascii_lowercase(bytes[0]);
        let rank = ascii_lowercase(bytes[1]);
        if file < 97 || file > 104 {
            Err(s.clone().concat(" is not a valid square (file has to be between 'a' and 'h')!"))
        } else if rank < 49 || rank > 56 {
            Err(s.clone().concat(" is not a valid square (rank has to be between 1 and 8)!"))
        } else {
            Ok(Position { x: file - 97, y: rank - 49 })
        }
    }
}

/// Squares are ordered by their full-board index.
impl PartialOrd for Position {
    fn partial_cmp(&self, other: &Position) -> (r: Option<core::cmp::Ordering>) {
        let a: u16 = self.y as u16 * 256 + self.x as u16;
        let b: u16 = other.y as u16 * 256 + other.x as u16;
        if a < b {
            Some(core::cmp::Ordering::Less)
        } else if a > b {
            Some(core::cmp::Ordering::Greater)
        } else {
            Some(core::cmp::Ordering::Equal)
        }
    }
}

impl vstd::std_specs::cmp::PartialOrdSpecImpl for Position {
    open spec fn obeys_partial_cmp_spec() -> bool {
        true
    }

    open spec fn partial_cmp_spec(&self, other: &Position) -> Option<core::cmp::Ordering> {
        if self.order_key() < other.order_key() {
            Some(core::cmp::Ordering::Less)
        } else if self.order_key() > other.order_key() {
            Some(core::cmp::Ordering::Greater)
        } else {
            Some(core::cmp::Ordering::Equal)
        }
    }
}

fn ascii_lowercase(b: u8) -> (r: u8)
    ensures
        r == lower_ascii(b),
{
    if 65 <= b && b <= 90 {
        b + 32
    } else {
        b
    }
}

} // verus!
