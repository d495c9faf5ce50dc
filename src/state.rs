use vstd::prelude::*;

use crate::compaction::{
    count_below, free_rank, lemma_count_below_push, lemma_free_rank_grows, lemma_free_rank_injective,
    lemma_push_no_duplicates, rank_among_free, unrank_among_free,
};
use crate::encoding::{fields_of, lemma_fields_of, lemma_layout_injective, PackedState, SmallState, PACKED_LIMIT};
use crate::position::{lemma_index_injective, lemma_index_square_at, lemma_rotations_injective, lemma_square_at_index, Position};

verus! {

/// The endgame: the attacking king, its three knights, the defending king, the
/// target square on the rim and the side to move.
#[derive(Debug, Clone, Copy)]
pub struct State {
    pub white_king: Position,
    pub knights: [Position; 3],
    pub black_king: Position,
    pub target_field: Position,
    pub white_to_move: bool,
}

pub open spec fn min_pos(a: Position, b: Position) -> Position {
    if a.index() <= b.index() { a } else { b }
}

pub open spec fn max_pos(a: Position, b: Position) -> Position {
    if a.index() >= b.index() { a } else { b }
}

/// The one of three squares that lies between the other two.
pub open spec fn mid_pos(a: Position, b: Position, c: Position) -> Position {
    if (b.index() <= a.index() <= c.index()) || (c.index() <= a.index() <= b.index()) {
        a
    } else if (a.index() <= b.index() <= c.index()) || (c.index() <= b.index() <= a.index()) {
        b
    } else {
        c
    }
}

/// Whether `p` is the packing of some state: it fits the 34-bit layout, the
/// second king's field leaves out the first king's square, the knights'
/// fields are nondecreasing within the 59 squares left for the last knight,
/// and the target field is a rim code.
pub open spec fn valid_packed(p: u64) -> bool {
    let f = fields_of(p);
    &&& p < PACKED_LIMIT
    &&& f.black_king <= 62
    &&& f.knights[0] <= f.knights[1] <= f.knights[2] <= 59
    &&& f.target_field < 28
}

/// The canonical state that packs to `p`.
pub open spec fn unpacked(p: u64) -> State {
    choose|s: State| s.wf() && s.is_normal() && s.fields().packed_value() == p
}

/// Whether `p` is a valid packed integer, one that `State::unpack` takes.
pub fn is_valid_packed(p: PackedState) -> (r: bool)
    ensures
        r == valid_packed(p),
{
    if p >= PACKED_LIMIT {
        return false;
    }
    let f = SmallState::decode(p);
    f.black_king <= 62 && f.knights[0] <= f.knights[1] && f.knights[1] <= f.knights[2] && f.knights[2]
        <= 59 && f.target_field < 28
}

impl State {
    /// Every square of the state lies on the board.
    pub open spec fn on_board(&self) -> bool {
        &&& self.white_king.wf()
        &&& self.black_king.wf()
        &&& self.knights[0].wf()
        &&& self.knights[1].wf()
        &&& self.knights[2].wf()
        &&& self.target_field.wf()
    }

    pub open spec fn knights_distinct(&self) -> bool {
        &&& self.knights[0].index() != self.knights[1].index()
        &&& self.knights[0].index() != self.knights[2].index()
        &&& self.knights[1].index() != self.knights[2].index()
    }

    /// The five pieces stand on five different squares.
    pub open spec fn pieces_distinct(&self) -> bool {
        &&& self.knights_distinct()
        &&& self.white_king.index() != self.black_king.index()
        &&& self.white_king.index() != self.knights[0].index()
        &&& self.white_king.index() != self.knights[1].index()
        &&& self.white_king.index() != self.knights[2].index()
        &&& self.black_king.index() != self.knights[0].index()
        &&& self.black_king.index() != self.knights[1].index()
        &&& self.black_king.index() != self.knights[2].index()
    }

    /// A legal state: on the board, five distinct piece squares, target on the rim.
    pub open spec fn wf(&self) -> bool {
        &&& self.on_board()
        &&& self.pieces_distinct()
        &&& self.target_field.on_rim()
    }

    pub open spec fn knights_sorted(&self) -> bool {
        self.knights[0].index() < self.knights[1].index() < self.knights[2].index()
    }

    /// A canonical representative: first king in the bottom-left quadrant,
    /// knights in increasing order.
    pub open spec fn is_normal(&self) -> bool {
        self.white_king.in_bottom_left() && self.knights_sorted()
    }

    pub open spec fn with_squares(
        &self,
        wk: Position,
        k0: Position,
        k1: Position,
        k2: Position,
        bk: Position,
        t: Position,
    ) -> State {
        State {
            white_king: wk,
            knights: [k0, k1, k2],
            black_king: bk,
            target_field: t,
            white_to_move: self.white_to_move,
        }
    }

    pub open spec fn cw(&self) -> State {
        self.with_squares(
            self.white_king.cw(),
            self.knights[0].cw(),
            self.knights[1].cw(),
            self.knights[2].cw(),
            self.black_king.cw(),
            self.target_field.cw(),
        )
    }
    pub open spec fn ccw(&self) -> State {
        self.with_squares(
            self.white_king.ccw(),
            self.knights[0].ccw(),
            self.knights[1].ccw(),
            self.knights[2].ccw(),
            self.black_king.ccw(),
            self.target_field.ccw(),
        )
    }

    pub open spec fn half_turn(&self) -> State {
        self.with_squares(
            self.white_king.half_turn(),
            self.knights[0].half_turn(),
            self.knights[1].half_turn(),
            self.knights[2].half_turn(),
            self.black_king.half_turn(),
            self.target_field.half_turn(),
        )
    }

    /// The rotation that brings the first king into the bottom-left quadrant.
    pub open spec fn oriented(&self) -> State {
        let k = self.white_king;
        if k.x >= 4 && k.y < 4 {
            self.cw()
        } else if k.x < 4 && k.y >= 4 {
            self.ccw()
        } else if k.x >= 4 && k.y >= 4 {
            self.half_turn()
        } else {
            *self
        }
    }

    /// The same state with its knights in increasing order.
    pub open spec fn knights_in_order(&self) -> State {
        let (a, b, c) = (self.knights[0], self.knights[1], self.knights[2]);
        State {
            knights: [min_pos(a, min_pos(b, c)), mid_pos(a, b, c), max_pos(a, max_pos(b, c))],
            ..*self
        }
    }

    /// The canonical representative of the state's rotation class.
    pub open spec fn normalized(&self) -> State {
        self.oriented().knights_in_order()
    }

    /// Two states are equal when their canonical representatives agree.
    pub open spec fn equivalent(&self, other: State) -> bool {
        let (a, b) = (self.normalized(), other.normalized());
        &&& a.white_king == b.white_king
        &&& a.black_king == b.black_king
        &&& a.knights[0] == b.knights[0]
        &&& a.knights[1] == b.knights[1]
        &&& a.knights[2] == b.knights[2]
        &&& a.target_field == b.target_field
        &&& a.white_to_move == b.white_to_move
    }

    /// The squares taken before the second king is placed.
    pub open spec fn used_before_black_king(&self) -> Seq<u8> {
        Seq::empty().push(self.white_king.index() as u8)
    }

    /// The squares taken before knight `i` is placed (knights in order).
    pub open spec fn used_before_knight(&self, i: int) -> Seq<u8>
        decreases i,
    {
        if i <= 0 {
            self.used_before_black_king().push(self.black_king.index() as u8)
        } else {
            self.used_before_knight(i - 1).push(self.knights[i - 1].index() as u8)
        }
    }

    /// The five field values of a canonical state: the first king's quadrant
    /// code, each further piece's rank among the squares still free, the
    /// target's rim code and the side to move.
    pub open spec fn fields(&self) -> SmallState {
        SmallState {
            white_king: (self.white_king.x + 4 * self.white_king.y) as u8,
            black_king: free_rank(self.black_king.index(), self.used_before_black_king()) as u8,
            knights: [
                free_rank(self.knights[0].index(), self.used_before_knight(0)) as u8,
                free_rank(self.knights[1].index(), self.used_before_knight(1)) as u8,
                free_rank(self.knights[2].index(), self.used_before_knight(2)) as u8,
            ],
            target_field: self.target_field.rim_index() as u8,
            white_to_move: if self.white_to_move { 1u8 } else { 0u8 },
        }
    }

    /// The packed integer of the state.
    pub open spec fn packed(&self) -> int {
        self.normalized().fields().packed_value()
    }

    /// Applies `f` to every square of the state, keeping the side to move.
    pub fn apply_to_positions<F: Fn(Position) -> Position>(&self, f: &F) -> (r: State)
        requires
            self.on_board(),
            forall|p: Position| p.wf() ==> #[trigger] f.requires((p,)),
        ensures
            f.ensures((self.white_king,), r.white_king),
            f.ensures((self.knights[0],), r.knights[0]),
            f.ensures((self.knights[1],), r.knights[1]),
            f.ensures((self.knights[2],), r.knights[2]),
            f.ensures((self.black_king,), r.black_king),
            f.ensures((self.target_field,), r.target_field),
            r.white_to_move == self.white_to_move,
    {
        State {
            white_king: f(self.white_king),
            knights: [f(self.knights[0]), f(self.knights[1]), f(self.knights[2])],
            black_king: f(self.black_king),
            target_field: f(self.target_field),
            white_to_move: self.white_to_move,
        }
    }

    pub fn rotate_clockwise(&self) -> (r: State)
        requires
            self.on_board(),
        ensures
            r == self.cw(),
            r.on_board(),
    {
        let r = self.apply_to_positions(
            &(|p: Position| -> (q: Position)
                requires
                    p.wf(),
                ensures
                    q == p.cw(),
                { p.rotate_clockwise() }),
        );
        assert(r.knights =~= self.cw().knights);
        r
    }

    pub fn rotate_counterclockwise(&self) -> (r: State)
        requires
            self.on_board(),
        ensures
            r == self.ccw(),
            r.on_board(),
    {
        let r = self.apply_to_positions(
            &(|p: Position| -> (q: Position)
                requires
                    p.wf(),
                ensures
                    q == p.ccw(),
                { p.rotate_counterclockwise() }),
        );
        assert(r.knights =~= self.ccw().knights);
        r
    }

    pub fn rotate_twice(&self) -> (r: State)
        requires
            self.on_board(),
        ensures
            r == self.half_turn(),
            r.on_board(),
    {
        let r = self.apply_to_positions(
            &(|p: Position| -> (q: Position)
                requires
                    p.wf(),
                ensures
                    q == p.half_turn(),
                { p.rotate_twice() }),
        );
        assert(r.knights =~= self.half_turn().knights);
        r
    }
    /// Puts the knights in increasing order. The middle knight is recovered
    /// as the XOR of all three indices with the minimum's and the maximum's,
    /// which is why the three knights must stand on different squares.
    pub fn sort_knights(&self) -> (r: State)
        requires
            self.on_board(),
            self.knights_distinct(),
        ensures
            r == self.knights_in_order(),
            r.knights_sorted(),
            r.on_board(),
    {
        let k0 = self.knights[0];
        let k1 = self.knights[1];
        let k2 = self.knights[2];
        let a = k0.to_u8();
        let b = k1.to_u8();
        let c = k2.to_u8();
        let min_knight = if a <= b && a <= c {
            k0
        } else if b <= c {
            k1
        } else {
            k2
        };
        let max_knight = if a >= b && a >= c {
            k0
        } else if b >= c {
            k1
        } else {
            k2
        };
        let lo = min_knight.to_u8();
        let hi = max_knight.to_u8();
        let m = a ^ b ^ c ^ hi ^ lo;
        assert(a ^ b ^ c ^ c ^ a == b && a ^ b ^ c ^ b ^ a == c && a ^ b ^ c ^ c ^ b == a && a ^ b
            ^ c ^ a ^ b == c && a ^ b ^ c ^ b ^ c == a && a ^ b ^ c ^ a ^ c == b) by (bit_vector);
        proof {
            lemma_index_injective(k0, k1);
            lemma_index_injective(k0, k2);
            lemma_index_injective(k1, k2);
            let md = mid_pos(k0, k1, k2);
            assert(m == md.index());
            lemma_square_at_index(md);
        }
        let middle_knight = Position::from_u8(m);
        let r = State { knights: [min_knight, middle_knight, max_knight], ..*self };
        assert(r.knights =~= self.knights_in_order().knights);
        r
    }

    /// The canonical representative: rotated so that the first king stands
    /// in the bottom-left quadrant, knights in increasing order.
    pub fn normalize(&self) -> (r: State)
        requires
            self.on_board(),
            self.knights_distinct(),
        ensures
            r == self.normalized(),
            r.on_board(),
            r.is_normal(),
    {
        let k = self.white_king;
        let rotated = if k.x >= 4 && k.y < 4 {
            self.rotate_clockwise()
        } else if k.x < 4 && k.y >= 4 {
            self.rotate_counterclockwise()
        } else if k.x >= 4 && k.y >= 4 {
            self.rotate_twice()
        } else {
            *self
        };
        proof {
            lemma_rotation_keeps_distinct(*self, rotated);
        }
        rotated.sort_knights()
    }
    /// Whether two states have the same canonical representative.
    pub fn same_class(&self, other: &State) -> (r: bool)
        requires
            self.on_board(),
            self.knights_distinct(),
            other.on_board(),
            other.knights_distinct(),
        ensures
            r == self.equivalent(*other),
    {
        let a = self.normalize();
        let b = other.normalize();
        a.white_king == b.white_king && a.black_king == b.black_king && a.knights[0] == b.knights[0]
            && a.knights[1] == b.knights[1] && a.knights[2] == b.knights[2] && a.target_field
            == b.target_field && a.white_to_move == b.white_to_move
    }

    fn pack_normalized(&self) -> (r: PackedState)
        requires
            self.wf(),
            self.is_normal(),
        ensures
            r == self.fields().packed_value(),
            valid_packed(r),
    {
        let wk = self.white_king.to_u8();
        let bk = self.black_king.to_u8();
        let n0 = self.knights[0].to_u8();
        let n1 = self.knights[1].to_u8();
        let n2 = self.knights[2].to_u8();
        proof {
            lemma_explicit_ranks(*self);
        }
        let mut used: Vec<u8> = Vec::new();
        used.push(wk);
        let black_king = rank_among_free(bk, &used);
        used.push(bk);
        let c0 = rank_among_free(n0, &used);
        used.push(n0);
        let c1 = rank_among_free(n1, &used);
        used.push(n1);
        let c2 = rank_among_free(n2, &used);
        let white_to_move = if self.white_to_move { 1u8 } else { 0u8 };
        let f = SmallState {
            white_king: self.white_king.to_u8_bottom_left(),
            black_king,
            knights: [c0, c1, c2],
            target_field: self.target_field.to_u8_rim(),
            white_to_move,
        };
        let r = f.encode();
        proof {
            lemma_fields_fit(*self);
            assert(f.knights =~= self.fields().knights);
        }
        r
    }

    /// The packed integer of the state's canonical representative.
    pub fn pack(&self) -> (r: PackedState)
        requires
            self.wf(),
        ensures
            r == self.packed(),
            valid_packed(r),
    {
        proof {
            lemma_normalized_wf(*self);
        }
        self.normalize().pack_normalized()
    }

    /// The canonical state that packs to `packed`.
    pub fn unpack(packed: PackedState) -> (r: State)
        requires
            valid_packed(packed),
        ensures
            r.wf(),
            r.is_normal(),
            r.fields().packed_value() == packed,
            r.packed() == packed,
            r == unpacked(packed),
    {
        let f = SmallState::decode(packed);
        let white_king = Position::from_u8_bottom_left(f.white_king);
        let wk = white_king.to_u8();
        let mut used: Vec<u8> = Vec::new();
        used.push(wk);
        proof {
            lemma_push_no_duplicates(Seq::empty(), wk);
            assert(Seq::<u8>::empty().push(wk) =~= used@);
        }
        let bk = unrank_among_free(f.black_king, &used);
        proof {
            lemma_push_no_duplicates(used@, bk);
        }
        used.push(bk);
        let ghost u0 = used@;
        let n0 = unrank_among_free(f.knights[0], &used);
        proof {
            lemma_push_no_duplicates(used@, n0);
        }
        used.push(n0);
        let ghost u1 = used@;
        let n1 = unrank_among_free(f.knights[1], &used);
        proof {
            lemma_push_no_duplicates(used@, n1);
            lemma_next_above(u0, n0, n1, f.knights[0] as int, f.knights[1] as int);
        }
        used.push(n1);
        let n2 = unrank_among_free(f.knights[2], &used);
        proof {
            lemma_next_above(u1, n1, n2, f.knights[1] as int, f.knights[2] as int);
            lemma_index_square_at(bk as int);
            lemma_index_square_at(n0 as int);
            lemma_index_square_at(n1 as int);
            lemma_index_square_at(n2 as int);
            assert(bk as int % 64 == bk && n0 as int % 64 == n0 && n1 as int % 64 == n1 && n2 as int % 64 == n2);
            let i = f.white_king as int;
            assert(i % 4 + 4 * (i / 4) == i) by (nonlinear_arith);
        }
        let black_king = Position::from_u8(bk);
        let knights = [Position::from_u8(n0), Position::from_u8(n1), Position::from_u8(n2)];
        let target_field = Position::from_u8_rim(f.target_field);
        let white_to_move = f.white_to_move == 1;
        let r = State { white_king, knights, black_king, target_field, white_to_move };
        proof {
            lemma_all_apart(used@, wk, bk, n0, n1, n2);
            assert(r.used_before_black_king() =~= Seq::empty().push(wk));
            assert(r.used_before_knight(0) =~= u0);
            assert(r.used_before_knight(1) =~= u1);
            assert(r.used_before_knight(2) =~= used@);
            lemma_unpacked(r, f, packed);
            lemma_packing_injective(r, unpacked(packed));
        }
        r
    }
}

/// Five values placed one after another, each outside those before it,
/// are pairwise different.
proof fn lemma_all_apart(used: Seq<u8>, wk: u8, bk: u8, n0: u8, n1: u8, n2: u8)
    requires
        used == Seq::<u8>::empty().push(wk).push(bk).push(n0).push(n1),
        used.no_duplicates(),
        !used.contains(n2),
    ensures
        wk != bk && wk != n0 && wk != n1 && wk != n2,
        bk != n0 && bk != n1 && bk != n2,
        n0 != n1 && n0 != n2 && n1 != n2,
{
    assert(used[0] == wk && used[1] == bk && used[2] == n0 && used[3] == n1);
}

/// A canonical state whose pieces realise the decoded fields packs back to
/// the integer they came from.
proof fn lemma_unpacked(r: State, f: SmallState, p: u64)
    requires
        f == fields_of(p),
        f.fits(),
        f.packed_value() == p,
        r.wf(),
        r.is_normal(),
        r.white_king.x + 4 * r.white_king.y == f.white_king,
        free_rank(r.black_king.index(), r.used_before_black_king()) == f.black_king,
        free_rank(r.knights[0].index(), r.used_before_knight(0)) == f.knights[0],
        free_rank(r.knights[1].index(), r.used_before_knight(1)) == f.knights[1],
        free_rank(r.knights[2].index(), r.used_before_knight(2)) == f.knights[2],
        r.target_field.rim_index() == f.target_field,
        r.white_to_move == (f.white_to_move == 1),
    ensures
        r.fields().packed_value() == p,
        r.packed() == p,
{
    lemma_normal_fixed(r);
    let g = r.fields();
    assert(g.white_king == f.white_king);
    assert(g.black_king == f.black_king);
    assert(g.knights[0] == f.knights[0]);
    assert(g.knights[1] == f.knights[1]);
    assert(g.knights[2] == f.knights[2]);
    assert(g.target_field == f.target_field);
    assert(g.white_to_move == f.white_to_move);
}

/// With the knights in order, a knight's compacted index drops one for each
/// king below it and one for each earlier knight.
proof fn lemma_explicit_ranks(s: State)
    requires
        s.on_board(),
        s.knights_sorted(),
    ensures
        free_rank(s.black_king.index(), s.used_before_black_king()) == s.black_king.index() - (
        if s.white_king.index() < s.black_king.index() { 1int } else { 0int }),
        free_rank(s.knights[0].index(), s.used_before_knight(0)) == s.knights[0].index() - (if s.white_king.index() < s.knights[0].index() { 1int } else { 0int }) - (if s.black_king.index() < s.knights[0].index() { 1int } else { 0int }),
        free_rank(s.knights[1].index(), s.used_before_knight(1)) == s.knights[1].index() - (if s.white_king.index() < s.knights[1].index() { 1int } else { 0int }) - (if s.black_king.index() < s.knights[1].index() { 1int } else { 0int }) - 1,
        free_rank(s.knights[2].index(), s.used_before_knight(2)) == s.knights[2].index() - (if s.white_king.index() < s.knights[2].index() { 1int } else { 0int }) - (if s.black_king.index() < s.knights[2].index() { 1int } else { 0int }) - 2,
{
    let (wk, bk) = (s.white_king.index(), s.black_king.index());
    let e: Seq<u8> = Seq::empty();
    lemma_index_injective(s.white_king, s.white_king);
    lemma_index_injective(s.black_king, s.black_king);
    lemma_index_injective(s.knights[0], s.knights[0]);
    lemma_index_injective(s.knights[1], s.knights[1]);
    lemma_index_injective(s.knights[2], s.knights[2]);
    assert forall|v: int| true implies count_below(v, s.used_before_black_king()) == (if wk < v { 1int } else { 0int }) by {
        lemma_count_below_push(v, e, wk as u8);
    }
    assert forall|v: int| true implies count_below(v, #[trigger] s.used_before_knight(0)) == (if wk < v { 1int } else { 0int }) + (if bk < v { 1int } else { 0int }) by {
        lemma_count_below_push(v, e, wk as u8);
        lemma_count_below_push(v, s.used_before_black_king(), bk as u8);
    }
    assert forall|v: int| true implies count_below(v, #[trigger] s.used_before_knight(1)) == count_below(v, s.used_before_knight(0)) + (if s.knights[0].index() < v { 1int } else { 0int }) by {
        lemma_count_below_push(v, s.used_before_knight(0), s.knights[0].index() as u8);
    }
    assert forall|v: int| true implies count_below(v, #[trigger] s.used_before_knight(2)) == count_below(v, s.used_before_knight(1)) + (if s.knights[1].index() < v { 1int } else { 0int }) by {
        lemma_count_below_push(v, s.used_before_knight(1), s.knights[1].index() as u8);
    }
}

/// A knight placed after another at a rank no lower stands above it.
proof fn lemma_next_above(used: Seq<u8>, a: u8, b: u8, ca: int, cb: int)
    requires
        used.no_duplicates(),
        !used.contains(a),
        !used.push(a).contains(b),
        free_rank(a as int, used) == ca,
        free_rank(b as int, used.push(a)) == cb,
        ca <= cb,
    ensures
        a < b,
{
    lemma_count_below_push(b as int, used, a);
    assert(used.push(a)[used.len() as int] == a);
    if b < a {
        assert(!used.contains(b)) by {
            if used.contains(b) {
                let k = choose|k: int| 0 <= k < used.len() && used[k] == b;
                assert(used.push(a)[k] == b);
            }
        }
        lemma_free_rank_grows(b as int, a as int, used);
    }
}

/// Two canonical legal states with the same field values are the same state.
pub proof fn lemma_packing_injective(a: State, b: State)
    requires
        a.wf(),
        a.is_normal(),
        b.wf(),
        b.is_normal(),
        a.fields().packed_value() == b.fields().packed_value(),
    ensures
        a == b,
{
    lemma_fields_fit(a);
    lemma_fields_fit(b);
    lemma_explicit_ranks(a);
    lemma_explicit_ranks(b);
    lemma_layout_injective(a.fields(), b.fields());
    assert(a.white_king == b.white_king);
    lemma_index_injective(a.black_king, b.black_king);
    lemma_index_injective(a.knights[0], b.knights[0]);
    lemma_index_injective(a.knights[1], b.knights[1]);
    lemma_index_injective(a.knights[2], b.knights[2]);
    lemma_used_free(a);
    lemma_used_free(b);
    lemma_free_rank_injective(a.black_king.index(), b.black_king.index(), a.used_before_black_king());
    assert(a.used_before_knight(0) == b.used_before_knight(0));
    lemma_free_rank_injective(a.knights[0].index(), b.knights[0].index(), a.used_before_knight(0));
    assert(a.used_before_knight(1) == b.used_before_knight(1));
    lemma_free_rank_injective(a.knights[1].index(), b.knights[1].index(), a.used_before_knight(1));
    assert(a.used_before_knight(2) == b.used_before_knight(2));
    lemma_free_rank_injective(a.knights[2].index(), b.knights[2].index(), a.used_before_knight(2));
    assert(a.target_field == b.target_field);
    assert(a.knights =~= b.knights);
}

/// In a legal state each piece stands outside the squares taken before it,
/// and those squares are all different.
proof fn lemma_used_free(s: State)
    requires
        s.wf(),
        s.knights_sorted(),
    ensures
        s.used_before_black_king().no_duplicates(),
        !s.used_before_black_king().contains(s.black_king.index() as u8),
        s.used_before_knight(0).no_duplicates(),
        !s.used_before_knight(0).contains(s.knights[0].index() as u8),
        s.used_before_knight(1).no_duplicates(),
        !s.used_before_knight(1).contains(s.knights[1].index() as u8),
        s.used_before_knight(2).no_duplicates(),
        !s.used_before_knight(2).contains(s.knights[2].index() as u8),
{
    let (wk, bk) = (s.white_king.index() as u8, s.black_king.index() as u8);
    let (n0, n1, n2) = (s.knights[0].index() as u8, s.knights[1].index() as u8, s.knights[2].index() as u8);
    lemma_index_injective(s.white_king, s.white_king);
    lemma_index_injective(s.black_king, s.black_king);
    lemma_index_injective(s.knights[0], s.knights[0]);
    lemma_index_injective(s.knights[1], s.knights[1]);
    lemma_index_injective(s.knights[2], s.knights[2]);
    let u = s.used_before_knight(2);
    assert(s.used_before_knight(0) == s.used_before_black_king().push(bk));
    assert(s.used_before_knight(1) == s.used_before_knight(0).push(n0));
    assert(u == s.used_before_knight(1).push(n1));
    assert(u[0] == wk && u[1] == bk && u[2] == n0 && u[3] == n1);
    lemma_push_no_duplicates(Seq::empty(), wk);
    lemma_push_no_duplicates(s.used_before_black_king(), bk);
    lemma_push_no_duplicates(s.used_before_knight(0), n0);
    lemma_push_no_duplicates(s.used_before_knight(1), n1);
    assert(s.used_before_black_king()[0] == wk);
    assert(s.used_before_knight(0)[1] == bk);
    assert(s.used_before_knight(1)[2] == n0);
}

/// The field values of a canonical legal state fit their widths and form a
/// valid packed integer.
pub proof fn lemma_fields_fit(s: State)
    requires
        s.wf(),
        s.is_normal(),
    ensures
        s.fields().fits(),
        valid_packed(s.fields().packed_value() as u64),
        s.fields().packed_value() < PACKED_LIMIT,
        fields_of(s.fields().packed_value() as u64) == s.fields(),
{
    lemma_explicit_ranks(s);
    lemma_index_injective(s.white_king, s.black_king);
    let f = s.fields();
    assert(f.fits());
    let p = f.packed_value() as u64;
    lemma_fields_of(p);
    lemma_layout_injective(f, fields_of(p));
    assert(fields_of(p).knights =~= f.knights);
}

/// A canonical state is its own canonical representative.
pub proof fn lemma_normal_fixed(s: State)
    requires
        s.on_board(),
        s.is_normal(),
    ensures
        s.normalized() == s,
{
    assert(s.oriented() == s);
    assert(s.knights_in_order().knights =~= s.knights);
}

/// The canonical representative of a legal state is legal and canonical.
pub proof fn lemma_normalized_wf(s: State)
    requires
        s.on_board(),
        s.knights_distinct(),
    ensures
        s.normalized().on_board(),
        s.normalized().knights_distinct(),
        s.normalized().is_normal(),
        s.wf() ==> s.normalized().wf(),
{
    let o = s.oriented();
    lemma_rotation_keeps_distinct(s, o);
    let n = s.normalized();
    assert(n.knights[0] == o.knights[0] || n.knights[0] == o.knights[1] || n.knights[0] == o.knights[2]);
    assert(n.knights[1] == o.knights[0] || n.knights[1] == o.knights[1] || n.knights[1] == o.knights[2]);
    assert(n.knights[2] == o.knights[0] || n.knights[2] == o.knights[1] || n.knights[2] == o.knights[2]);
    lemma_index_injective(o.knights[0], o.knights[1]);
    lemma_index_injective(o.knights[0], o.knights[2]);
    lemma_index_injective(o.knights[1], o.knights[2]);
}

/// Different squares stay different under a rotation.
pub proof fn lemma_rotation_keeps_distinct(s: State, r: State)
    requires
        s.on_board(),
        r == s.cw() || r == s.ccw() || r == s.half_turn() || r == s,
    ensures
        r.on_board(),
        s.knights_distinct() ==> r.knights_distinct(),
        s.pieces_distinct() ==> r.pieces_distinct(),
        r.white_to_move == s.white_to_move,
{
    let (wk, bk, n0, n1, n2) = (s.white_king, s.black_king, s.knights[0], s.knights[1], s.knights[2]);
    lemma_rotations_injective(wk, bk);
    lemma_rotations_injective(wk, n0);
    lemma_rotations_injective(wk, n1);
    lemma_rotations_injective(wk, n2);
    lemma_rotations_injective(bk, n0);
    lemma_rotations_injective(bk, n1);
    lemma_rotations_injective(bk, n2);
    lemma_rotations_injective(n0, n1);
    lemma_rotations_injective(n0, n2);
    lemma_rotations_injective(n1, n2);
}

} // verus!
