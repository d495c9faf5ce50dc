use vstd::prelude::*;

verus! {

/// The dense integer that a state packs into (34 bits are used).
pub type PackedState = u64;

/// One more than the largest integer that the field layout can produce.
pub const PACKED_LIMIT: u64 = 0x4_0000_0000;

/// The five fields of a packed state, before they are laid out side by side:
/// first king (4 bits), second king (6), three knights (6 each), target (5)
/// and side to move (1), from the low bits up.
#[derive(Debug, Clone, Copy, PartialEq, Eq)]
pub struct SmallState {
    pub white_king: u8,
    pub black_king: u8,
    pub knights: [u8; 3],
    pub target_field: u8,
    pub white_to_move: u8,
}

/// The packed integer of the given field values.
pub open spec fn layout(wk: int, bk: int, k0: int, k1: int, k2: int, t: int, turn: int) -> int {
    wk + 0x10 * bk + 0x400 * k0 + 0x1_0000 * k1 + 0x40_0000 * k2 + 0x1000_0000 * t + 0x2_0000_0000 * turn
}

pub proof fn lemma_layout_fields(p: u64, wk: u64, bk: u64, k0: u64, k1: u64, k2: u64, t: u64, turn: u64)
    requires
        wk < 16,
        bk < 64,
        k0 < 64,
        k1 < 64,
        k2 < 64,
        t < 32,
        turn < 2,
        p == wk + 0x10 * bk + 0x400 * k0 + 0x1_0000 * k1 + 0x40_0000 * k2 + 0x1000_0000 * t + 0x2_0000_0000 * turn,
    ensures
        p & 15 == wk,
        (p >> 4) & 63 == bk,
        (p >> 10) & 63 == k0,
        (p >> 16) & 63 == k1,
        (p >> 22) & 63 == k2,
        (p >> 28) & 31 == t,
        p >> 33 == turn,
{
    assert(wk < 16 && bk < 64 && k0 < 64 && k1 < 64 && k2 < 64 && t < 32 && turn < 2 && p == wk + 0x10
        * bk + 0x400 * k0 + 0x1_0000 * k1 + 0x40_0000 * k2 + 0x1000_0000 * t + 0x2_0000_0000 * turn
        ==> p & 15 == wk && (p >> 4) & 63 == bk && (p >> 10) & 63 == k0 && (p >> 16) & 63 == k1 && (p
        >> 22) & 63 == k2 && (p >> 28) & 31 == t && p >> 33 == turn) by (bit_vector);
}

/// The field values that `p` holds.
pub open spec fn fields_of(p: u64) -> SmallState {
    SmallState {
        white_king: (p & 15) as u8,
        black_king: ((p >> 4) & 63) as u8,
        knights: [((p >> 10) & 63) as u8, ((p >> 16) & 63) as u8, ((p >> 22) & 63) as u8],
        target_field: ((p >> 28) & 31) as u8,
        white_to_move: (p >> 33) as u8,
    }
}

impl SmallState {
    /// Every field fits its width.
    pub open spec fn fits(&self) -> bool {
        &&& self.white_king < 16
        &&& self.black_king < 64
        &&& self.knights[0] < 64
        &&& self.knights[1] < 64
        &&& self.knights[2] < 64
        &&& self.target_field < 32
        &&& self.white_to_move < 2
    }

    pub open spec fn packed_value(&self) -> int {
        layout(
            self.white_king as int,
            self.black_king as int,
            self.knights[0] as int,
            self.knights[1] as int,
            self.knights[2] as int,
            self.target_field as int,
            self.white_to_move as int,
        )
    }

    pub fn encode(&self) -> (p: PackedState)
        requires
            self.fits(),
        ensures
            p == self.packed_value(),
            p < PACKED_LIMIT,
    {
        self.white_king as u64 + 0x10 * self.black_king as u64 + 0x400 * self.knights[0] as u64
            + 0x1_0000 * self.knights[1] as u64 + 0x40_0000 * self.knights[2] as u64 + 0x1000_0000
            * self.target_field as u64 + 0x2_0000_0000 * self.white_to_move as u64
    }

    pub fn decode(p: PackedState) -> (r: SmallState)
        requires
            p < PACKED_LIMIT,
        ensures
            r == fields_of(p),
            r.fits(),
            r.packed_value() == p,
    {
        let r = SmallState {
            white_king: (p & 15) as u8,
            black_king: ((p >> 4) & 63) as u8,
            knights: [((p >> 10) & 63) as u8, ((p >> 16) & 63) as u8, ((p >> 22) & 63) as u8],
            target_field: ((p >> 28) & 31) as u8,
            white_to_move: (p >> 33) as u8,
        };
        proof {
            lemma_fields_of(p);
        }
        r
    }
}

/// The fields of an integer below the limit fit their widths and lay out
/// to that integer again.
pub proof fn lemma_fields_of(p: u64)
    requires
        p < PACKED_LIMIT,
    ensures
        fields_of(p).fits(),
        fields_of(p).packed_value() == p,
{
    assert(p < 0x4_0000_0000 ==> p & 15 < 16 && (p >> 4) & 63 < 64 && (p >> 10) & 63 < 64 && (p
        >> 16) & 63 < 64 && (p >> 22) & 63 < 64 && (p >> 28) & 31 < 32 && p >> 33 < 2 && p == (p
        & 15) + 0x10 * ((p >> 4) & 63) + 0x400 * ((p >> 10) & 63) + 0x1_0000 * ((p >> 16) & 63)
        + 0x40_0000 * ((p >> 22) & 63) + 0x1000_0000 * ((p >> 28) & 31) + 0x2_0000_0000 * (p
        >> 33)) by (bit_vector);
}

/// Two field records that fit their widths and lay out to the same integer
/// are equal.
pub proof fn lemma_layout_injective(a: SmallState, b: SmallState)
    requires
        a.fits(),
        b.fits(),
        a.packed_value() == b.packed_value(),
    ensures
        a.white_king == b.white_king,
        a.black_king == b.black_king,
        a.knights[0] == b.knights[0],
        a.knights[1] == b.knights[1],
        a.knights[2] == b.knights[2],
        a.target_field == b.target_field,
        a.white_to_move == b.white_to_move,
{
    let p = a.packed_value() as u64;
    lemma_layout_fields(p, a.white_king as u64, a.black_king as u64, a.knights[0] as u64,
        a.knights[1] as u64, a.knights[2] as u64, a.target_field as u64, a.white_to_move as u64);
    lemma_layout_fields(p, b.white_king as u64, b.black_king as u64, b.knights[0] as u64,
        b.knights[1] as u64, b.knights[2] as u64, b.target_field as u64, b.white_to_move as u64);
}

} // verus!
