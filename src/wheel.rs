use vstd::prelude::*;

verus! {

/// The payout, in points, of each outcome of the wheel, in ascending order.
pub open spec fn payout(i: int) -> u64 {
    if i == 0 {
        1
    } else if i == 1 {
        3
    } else if i == 2 {
        7
    } else if i == 3 {
        9
    } else if i == 4 {
        12
    } else {
        15
    }
}

/// The weight of outcome `i` under the streak counter `wr`: the three rarest
/// outcomes receive a bonus of 3/10, 2/10 and 1/10 of the counter.
pub open spec fn weight(wr: u8, i: int) -> nat {
    if i == 0 {
        50
    } else if i == 1 {
        80
    } else if i == 2 {
        70
    } else if i == 3 {
        20 + (wr as nat * 3) / 10
    } else if i == 4 {
        10 + (wr as nat * 2) / 10
    } else {
        2 + (wr as nat) / 10
    }
}

/// The sum of the weights of outcomes `0..=i`.
pub open spec fn cumulative(wr: u8, i: int) -> nat
    decreases i,
{
    if i <= 0 {
        weight(wr, 0)
    } else {
        cumulative(wr, i - 1) + weight(wr, i)
    }
}

/// The sum of all six weights.
pub open spec fn total_weight(wr: u8) -> nat {
    cumulative(wr, 5)
}

/// The first outcome, from `i` on, whose cumulative weight is at least `r`
/// (the last outcome if none is).
pub open spec fn first_reaching(wr: u8, r: nat, i: int) -> int
    decreases 5 - i,
{
    if i >= 5 {
        5
    } else if cumulative(wr, i) >= r {
        i
    } else {
        first_reaching(wr, r, i + 1)
    }
}

/// The payout chosen by a draw `r`: that of the first outcome whose cumulative
/// weight is at least `r`.
pub open spec fn payout_for_draw(wr: u8, r: nat) -> u64 {
    payout(first_reaching(wr, r, 0))
}

/// The draw made from a random number: the number modulo the total weight.
pub open spec fn draw(wr: u8, random: u32) -> nat {
    (random as nat) % total_weight(wr)
}

/// The payout of one play of the wheel.
pub open spec fn spin_payout(wr: u8, random: u32) -> u64 {
    payout_for_draw(wr, draw(wr, random))
}

/// The streak counter after a play that paid `points`: reset by a payout above
/// five, otherwise raised by one without passing 255.
pub open spec fn next_streak(wr: u8, points: u64) -> u8 {
    if points > 5 {
        0
    } else if wr == 255 {
        255
    } else {
        (wr + 1) as u8
    }
}

/// Picks the payout for a draw `r` below the total weight, scanning the
/// cumulative weights in order for the first one that reaches `r`.
pub fn select_payout(wr: u8, r: u16) -> (p: u64)
    requires
        (r as nat) < total_weight(wr),
    ensures
        p == payout_for_draw(wr, r as nat),
{
    let points: [u64; 6] = [1, 3, 7, 9, 12, 15];
    let c0: u16 = 50;
    let c1: u16 = c0 + 80;
    let c2: u16 = c1 + 70;
    let c3: u16 = c2 + 20 + (wr as u16 * 3) / 10;
    let c4: u16 = c3 + 10 + (wr as u16 * 2) / 10;
    let c5: u16 = c4 + 2 + (wr as u16 * 1) / 10;
    let cumulative_weights: [u16; 6] = [c0, c1, c2, c3, c4, c5];
    assert(cumulative(wr, 0) == c0);
    assert(cumulative(wr, 1) == c1);
    assert(cumulative(wr, 2) == c2);
    assert(cumulative(wr, 3) == c3);
    assert(cumulative(wr, 4) == c4);
    assert(cumulative(wr, 5) == c5);
    let mut i: usize = 0;
    while i < 5
        invariant
            i <= 5,
            first_reaching(wr, r as nat, 0) == first_reaching(wr, r as nat, i as int),
            forall|j: int| 0 <= j < 6 ==> cumulative(wr, j) == cumulative_weights@[j] as nat,
            forall|j: int| 0 <= j < 6 ==> payout(j) == points@[j],
        decreases 5 - i,
    {
        if cumulative_weights[i] >= r {
            return points[i];
        }
        i = i + 1;
    }
    points[5]
}

/// The payout of one play under streak counter `wr` and random number `random`.
pub fn spin_outcome(wr: u8, random: u32) -> (p: u64)
    ensures
        p == spin_payout(wr, random),
{
    let total: u16 = 50 + 80 + 70 + 20 + (wr as u16 * 3) / 10 + 10 + (wr as u16 * 2) / 10 + 2 + (
    wr as u16 * 1) / 10;
    assert(total as nat == total_weight(wr)) by {
        reveal_with_fuel(cumulative, 6);
    }
    let r: u16 = (random % (total as u32)) as u16;
    select_payout(wr, r)
}

/// The streak counter after a play that paid `points`.
pub fn update_streak(wr: u8, points: u64) -> (n: u8)
    ensures
        n == next_streak(wr, points),
{
    if points > 5 {
        0
    } else {
        wr.saturating_add(1)
    }
}

/// The streak counter after plays that paid `payouts`, in order, from `wr`.
pub open spec fn streak_after(wr: u8, payouts: Seq<u64>) -> u8
    decreases payouts.len(),
{
    if payouts.len() == 0 {
        wr
    } else {
        next_streak(streak_after(wr, payouts.drop_last()), payouts.last())
    }
}

/// From a zero counter, each play paying five points or less raises the
/// counter by one (within its 255 limit), and a play paying more resets it.
pub proof fn lemma_streak_run(payouts: Seq<u64>)
    ensures
        (forall|i: int| 0 <= i < payouts.len() ==> payouts[i] <= 5) && payouts.len() <= 255
            ==> streak_after(0, payouts) == payouts.len(),
        payouts.len() > 0 && payouts.last() > 5 ==> streak_after(0, payouts) == 0,
    decreases payouts.len(),
{
    if payouts.len() > 0 {
        let rest = payouts.drop_last();
        lemma_streak_run(rest);
        if (forall|i: int| 0 <= i < payouts.len() ==> payouts[i] <= 5) && payouts.len() <= 255 {
            assert forall|i: int| 0 <= i < rest.len() implies rest[i] <= 5 by {
                assert(rest[i] == payouts[i]);
            }
        }
    }
}

} // verus!
