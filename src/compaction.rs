use vstd::prelude::*;

verus! {

/// Number of entries of `used` strictly below `v`.
pub open spec fn count_below(v: int, used: Seq<u8>) -> nat
    decreases used.len(),
{
    if used.len() == 0 {
        0
    } else {
        count_below(v, used.drop_last()) + if (used.last() as int) < v { 1nat } else { 0nat }
    }
}

/// Position of `v` among the values that `used` leaves free.
pub open spec fn free_rank(v: int, used: Seq<u8>) -> int {
    v - count_below(v, used)
}

pub proof fn lemma_count_below_push(v: int, used: Seq<u8>, e: u8)
    ensures
        count_below(v, used.push(e)) == count_below(v, used) + if (e as int) < v { 1nat } else { 0nat },
{
    assert(used.push(e).drop_last() =~= used);
}

pub proof fn lemma_count_below_bound(v: int, used: Seq<u8>)
    ensures
        count_below(v, used) <= used.len(),
    decreases used.len(),
{
    if used.len() > 0 {
        lemma_count_below_bound(v, used.drop_last());
    }
}

pub proof fn lemma_count_below_mono(v: int, w: int, used: Seq<u8>)
    requires
        v <= w,
    ensures
        count_below(v, used) <= count_below(w, used),
    decreases used.len(),
{
    if used.len() > 0 {
        lemma_count_below_mono(v, w, used.drop_last());
    }
}

/// Moving one step up adds one exactly when the square stepped over is used.
pub proof fn lemma_count_below_step(v: int, used: Seq<u8>)
    requires
        used.no_duplicates(),
    ensures
        count_below(v + 1, used) == count_below(v, used) + if used.contains(v as u8) && 0 <= v < 256 { 1nat } else { 0nat },
    decreases used.len(),
{
    if used.len() > 0 {
        let init = used.drop_last();
        let l = used.last();
        assert(init.no_duplicates());
        lemma_count_below_step(v, init);
        assert(used =~= init.push(l));
        if 0 <= v < 256 {
            if init.contains(v as u8) {
                let k = choose|k: int| 0 <= k < init.len() && init[k] == v as u8;
                assert(used[k] == v as u8);
                assert(l != v as u8);
                assert(used.contains(v as u8));
            }
            if l == v as u8 {
                assert(used[used.len() - 1] == v as u8);
                assert(used.contains(v as u8));
                assert(!init.contains(v as u8));
            }
            if used.contains(v as u8) {
                let k = choose|k: int| 0 <= k < used.len() && used[k] == v as u8;
                if k < used.len() - 1 {
                    assert(init[k] == v as u8);
                }
            }
        }
    }
}

pub proof fn lemma_count_below_zero(used: Seq<u8>)
    ensures
        count_below(0, used) == 0,
    decreases used.len(),
{
    if used.len() > 0 {
        lemma_count_below_zero(used.drop_last());
    }
}

/// The free rank never decreases, and grows past a free value.
pub proof fn lemma_free_rank_grows(v: int, w: int, used: Seq<u8>)
    requires
        used.no_duplicates(),
        0 <= v < w <= 256,
    ensures
        free_rank(w, used) >= free_rank(v, used) + if used.contains(v as u8) { 0int } else { 1int },
    decreases w - v,
{
    lemma_count_below_step(v, used);
    if v + 1 < w {
        lemma_free_rank_grows(v + 1, w, used);
        lemma_count_below_step(v + 1, used);
    }
}

/// Two free values with the same free rank are equal.
pub proof fn lemma_free_rank_injective(v: int, w: int, used: Seq<u8>)
    requires
        used.no_duplicates(),
        0 <= v < 256,
        0 <= w < 256,
        !used.contains(v as u8),
        !used.contains(w as u8),
        free_rank(v, used) == free_rank(w, used),
    ensures
        v == w,
{
    if v < w {
        lemma_free_rank_grows(v, w, used);
    } else if w < v {
        lemma_free_rank_grows(w, v, used);
    }
}

pub proof fn lemma_push_no_duplicates(used: Seq<u8>, e: u8)
    requires
        used.no_duplicates(),
        !used.contains(e),
    ensures
        used.push(e).no_duplicates(),
{
    let s = used.push(e);
    assert forall|i: int, j: int| 0 <= i < s.len() && 0 <= j < s.len() && i != j implies s[i] != s[j] by {
        if i < used.len() && j < used.len() {
            assert(s[i] == used[i] && s[j] == used[j]);
        } else if i < used.len() {
            assert(used[i] == s[i]);
        } else {
            assert(used[j] == s[j]);
        }
    }
}

/// Index of the free value `v` among all values that `used` leaves free.
pub fn rank_among_free(v: u8, used: &Vec<u8>) -> (r: u8)
    requires
        used@.no_duplicates(),
        used.len() < 256,
    ensures
        r == free_rank(v as int, used@),
{
    let mut n: u8 = 0;
    let mut j: usize = 0;
    while j < used.len()
        invariant
            j <= used.len(),
            n == count_below(v as int, used@.take(j as int)),
            n <= j,
            used.len() < 256,
        decreases used.len() - j,
    {
        proof {
            lemma_count_below_push(v as int, used@.take(j as int), used@[j as int]);
            assert(used@.take(j as int).push(used@[j as int]) =~= used@.take(j as int + 1));
        }
        if used[j] < v {
            n = n + 1;
        }
        j = j + 1;
    }
    assert(used@.take(used.len() as int) =~= used@);
    proof {
        lemma_count_below_zero(used@);
        if v > 0 {
            lemma_free_rank_grows(0, v as int, used@);
        }
    }
    v - n
}

/// Number of entries of `used` at or below `v`.
fn count_at_or_below(v: u8, used: &Vec<u8>) -> (n: u8)
    requires
        used.len() < 256,
    ensures
        n == count_below(v + 1, used@),
{
    let mut n: u8 = 0;
    let mut j: usize = 0;
    while j < used.len()
        invariant
            j <= used.len(),
            used.len() < 256,
            n == count_below(v + 1, used@.take(j as int)),
            n <= j,
        decreases used.len() - j,
    {
        proof {
            lemma_count_below_push(v + 1, used@.take(j as int), used@[j as int]);
            assert(used@.take(j as int).push(used@[j as int]) =~= used@.take(j as int + 1));
        }
        if used[j] <= v {
            n = n + 1;
        }
        j = j + 1;
    }
    assert(used@.take(used.len() as int) =~= used@);
    n
}

/// The free value whose free rank is `c`. Starting from `c`, the candidate is
/// moved up past every used value at or below it until it settles.
pub fn unrank_among_free(c: u8, used: &Vec<u8>) -> (r: u8)
    requires
        used@.no_duplicates(),
        c + used.len() < 256,
    ensures
        !used@.contains(r),
        free_rank(r as int, used@) == c,
        r <= c + used.len(),
{
    let mut cur: u8 = c;
    loop
        invariant
            used@.no_duplicates(),
            c + used.len() < 256,
            c <= cur <= c + used.len(),
            cur <= c + count_below(cur + 1, used@),
            forall|x: int| c <= x < 256 && x == c + #[trigger] count_below(x + 1, used@) ==> cur <= x,
        decreases c + used.len() - cur,
    {
        let n = count_at_or_below(cur, used);
        proof {
            lemma_count_below_bound(cur + 1, used@);
        }
        let next: u8 = c + n;
        if next == cur {
            proof {
                lemma_count_below_step(cur as int, used@);
                if used@.contains(cur) {
                    assert(cur - 1 == c + count_below(cur - 1 + 1, used@));
                }
            }
            return cur;
        }
        proof {
            lemma_count_below_mono(cur + 1, next + 1, used@);
            assert forall|x: int| c <= x < 256 && x == c + #[trigger] count_below(x + 1, used@) implies next <= x by {
                lemma_count_below_mono(cur + 1, x + 1, used@);
            }
        }
        cur = next;
    }
}

} // verus!
