//! The nearest-rank rule: which rank, counted from one, a quantile level
//! selects among `total` weighted observations.

use vstd::prelude::*;

verus! {

/// The rank that the level `percent` hundredths selects among `total`
/// observations: `percent * total / 100` rounded up, and held between 1 and
/// `total`.
pub open spec fn nearest_rank(percent: nat, total: nat) -> nat
    recommends
        total >= 1,
{
    let raw = (percent * total + 99) / 100;
    if raw < 1 {
        1
    } else if raw > total {
        total
    } else {
        raw
    }
}

/// Computes `nearest_rank` without leaving 128 bits.
pub fn rank_for(percent: u32, total: u128) -> (rank: u128)
    requires
        total >= 1,
    ensures
        rank == nearest_rank(percent as nat, total as nat),
        1 <= rank <= total,
{
    if percent >= 100 {
        assert((percent * total + 99) / 100 >= total) by (nonlinear_arith)
            requires
                percent >= 100,
                total >= 1,
        ;
        total
    } else if percent == 0 {
        1
    } else {
        let whole: u128 = total / 100;
        let part: u128 = total % 100;
        assert(percent * whole <= total && percent * part <= 99 * 99) by (nonlinear_arith)
            requires
                percent < 100,
                whole == total / 100,
                part == total % 100,
        ;
        let whole_share: u128 = (percent as u128) * whole;
        let part_share: u128 = ((percent as u128) * part + 99) / 100;
        assert(whole_share + part_share == (percent * total + 99) / 100 && 1 <= whole_share
            + part_share <= total) by (nonlinear_arith)
            requires
                1 <= percent < 100,
                total >= 1,
                whole == total / 100,
                part == total % 100,
                whole_share == percent * whole,
                part_share == (percent * part + 99) / 100,
        ;
        let rank: u128 = whole_share + part_share;
        rank
    }
}

/// A higher level never selects a lower rank.
pub proof fn lemma_nearest_rank_rises(lower: nat, higher: nat, total: nat)
    requires
        lower <= higher,
        total >= 1,
    ensures
        1 <= nearest_rank(lower, total) <= nearest_rank(higher, total) <= total,
{
    assert((lower * total + 99) / 100 <= (higher * total + 99) / 100) by (nonlinear_arith)
        requires
            lower <= higher,
            total >= 1,
    ;
}

} // verus!
