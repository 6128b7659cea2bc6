//! Proposal of corrected chunk weights from observed pick counts.
//!
//! A share is a part of the whole in millionths: `SHARE_ONE` is all of it.
//! The proposed shares of a library always sum to one within a
//! ten-thousandth, and each lies between the two bounds asked for, wherever
//! the bounds leave room for that. Of two chunks of one authored weight, the
//! one that was picked more often is not proposed the larger share; only a
//! library of more than a hundred chunks can need a split in which it gets one
//! millionth more.

use vstd::prelude::*;
use crate::names::NameCounts;
use crate::schema::{ChunkLibrary, ChunkSchema, WEIGHT_ONE};
use crate::telemetry::one_if;

verus! {

/// The whole, in millionths.
pub const SHARE_ONE: u64 = 1_000_000;

/// How far the sum of the redistributed shares may be from one before the
/// equal split takes their place: a ten-thousandth.
pub const SUM_TOLERANCE: u64 = 100;

/// The least share that is proposed before normalisation: a ten-thousandth.
pub const MIN_PROPOSAL: u64 = 100;

/// How many rounds of redistribution are made at most.
pub const MAX_REDISTRIBUTION_ROUNDS: usize = 64;

// ---------------------------------------------------------------------------
// Shares and their sums
// ---------------------------------------------------------------------------

/// The shares as mathematical integers.
pub open spec fn as_ints(shares: Seq<u64>) -> Seq<int> {
    Seq::new(shares.len(), |i: int| shares[i] as int)
}

/// The sum of the first `n` shares.
pub open spec fn sum_upto(shares: Seq<int>, n: nat) -> int
    decreases n,
{
    if n == 0 {
        0
    } else {
        sum_upto(shares, (n - 1) as nat) + shares[n - 1]
    }
}

/// The sum of all shares.
pub open spec fn share_sum(shares: Seq<int>) -> int {
    sum_upto(shares, shares.len())
}

/// `x`, moved into the range from `lo` to `hi`.
pub open spec fn clamp_int(x: int, lo: int, hi: int) -> int {
    if x < lo {
        lo
    } else if x > hi {
        hi
    } else {
        x
    }
}

/// Whether every share lies in the range from `lo` to `hi`.
pub open spec fn all_within(shares: Seq<int>, lo: int, hi: int) -> bool {
    forall|i: int| 0 <= i < shares.len() ==> lo <= #[trigger] shares[i] <= hi
}

/// The whole split evenly among `n`: each gets the same share, and the
/// millionths that are left over go one each to the first few.
pub open spec fn equal_split(n: nat) -> Seq<int> {
    Seq::new(n, |i: int| SHARE_ONE as int / n as int + one_if(i < SHARE_ONE as int % n as int))
}

/// The even share of one among `n`: the whole over `n`, in whole millionths.
pub open spec fn even_share(n: nat) -> int {
    SHARE_ONE as int / n as int
}

/// The same even share for each of `n`.
pub open spec fn even_shares(n: nat) -> Seq<int> {
    Seq::new(n, |i: int| even_share(n))
}

/// Whether a sum is no farther from one than `SUM_TOLERANCE`.
pub open spec fn within_tolerance(sum: int) -> bool {
    SHARE_ONE - SUM_TOLERANCE <= sum <= SHARE_ONE + SUM_TOLERANCE
}

/// The shares that redistribution starts from: the raw shares scaled so that
/// they sum to about one, each moved into the range from `lo` to `hi`. Raw
/// shares that sum to nothing count as equal.
pub open spec fn initial_shares(raw: Seq<int>, lo: int, hi: int) -> Seq<int> {
    let total = share_sum(raw);
    Seq::new(
        raw.len(),
        |i: int|
            clamp_int(
                if total > 0 {
                    raw[i] * SHARE_ONE as int / total
                } else {
                    even_share(raw.len())
                },
                lo,
                hi,
            ),
    )
}

/// How many of the first `n` shares are below `hi`, and so can grow.
pub open spec fn growable_before(shares: Seq<int>, hi: int, n: nat) -> nat
    decreases n,
{
    if n == 0 {
        0
    } else {
        growable_before(shares, hi, (n - 1) as nat) + one_if(shares[n - 1] < hi) as nat
    }
}

/// How many of the first `n` shares are above `lo`, and so can shrink.
pub open spec fn shrinkable_before(shares: Seq<int>, lo: int, n: nat) -> nat
    decreases n,
{
    if n == 0 {
        0
    } else {
        shrinkable_before(shares, lo, (n - 1) as nat) + one_if(shares[n - 1] > lo) as nat
    }
}

/// One round of redistribution.
///
/// What the shares lack to sum to one is split into equal whole parts among
/// the shares that can still grow, and no share grows beyond `hi`. What they
/// have too much is taken in the same way from the shares that can still
/// shrink, none below `lo`. Every share of one size is treated alike: what is
/// left over of the split stays undistributed.
pub open spec fn redistribute_once(shares: Seq<int>, lo: int, hi: int) -> Seq<int> {
    let missing = SHARE_ONE - share_sum(shares);
    if missing > 0 {
        let count = growable_before(shares, hi, shares.len()) as int;
        if count == 0 {
            shares
        } else {
            Seq::new(
                shares.len(),
                |i: int|
                    if shares[i] < hi {
                        clamp_int(shares[i] + missing / count, shares[i], hi)
                    } else {
                        shares[i]
                    },
            )
        }
    } else if missing < 0 {
        let count = shrinkable_before(shares, lo, shares.len()) as int;
        if count == 0 {
            shares
        } else {
            Seq::new(
                shares.len(),
                |i: int|
                    if shares[i] > lo {
                        clamp_int(shares[i] - (-missing) / count, lo, shares[i])
                    } else {
                        shares[i]
                    },
            )
        }
    } else {
        shares
    }
}

/// Whether a round of redistribution has anything to do: the shares do not
/// sum to one, some share can still move towards it, and the part that falls
/// to each such share is at least one millionth.
pub open spec fn round_has_work(shares: Seq<int>, lo: int, hi: int) -> bool {
    let missing = SHARE_ONE - share_sum(shares);
    ||| missing > 0 && 0 < growable_before(shares, hi, shares.len()) <= missing
    ||| missing < 0 && 0 < shrinkable_before(shares, lo, shares.len()) <= -missing
}

/// The shares after the given number of rounds of redistribution.
pub open spec fn redistribute(shares: Seq<int>, lo: int, hi: int, rounds: nat) -> Seq<int>
    decreases rounds,
{
    if rounds == 0 {
        shares
    } else {
        redistribute(redistribute_once(shares, lo, hi), lo, hi, (rounds - 1) as nat)
    }
}

/// The shares after all rounds of redistribution.
pub open spec fn settled_shares(raw: Seq<int>, lo: int, hi: int) -> Seq<int> {
    redistribute(initial_shares(raw, lo, hi), lo, hi, MAX_REDISTRIBUTION_ROUNDS as nat)
}

/// The normalised shares.
///
/// The raw shares are scaled and moved into the range from `lo` to `hi`, then
/// redistributed for at most `MAX_REDISTRIBUTION_ROUNDS` rounds. If the sum is
/// then still farther from one than `SUM_TOLERANCE`, each gets the even share.
/// Only where the even shares too miss the tolerance, which takes more than a
/// hundred shares, is the whole split with its leftover millionths one each to
/// the first few.
pub open spec fn normalized_shares(raw: Seq<int>, lo: int, hi: int) -> Seq<int> {
    let settled = settled_shares(raw, lo, hi);
    if within_tolerance(share_sum(settled)) {
        settled
    } else if within_tolerance(raw.len() * even_share(raw.len())) {
        even_shares(raw.len())
    } else {
        equal_split(raw.len())
    }
}

/// Whether normalisation treats every share of one size alike: it does unless
/// it has to fall back on the split with leftover millionths.
pub open spec fn normalizes_evenly(raw: Seq<int>, lo: int, hi: int) -> bool {
    within_tolerance(share_sum(settled_shares(raw, lo, hi))) || within_tolerance(
        raw.len() * even_share(raw.len()),
    )
}

// ---------------------------------------------------------------------------
// Facts about shares
// ---------------------------------------------------------------------------

/// The first `k` shares of an equal split among `n` sum to `k` even shares and
/// as many leftover millionths as fall to them.
proof fn lemma_equal_split_prefix(n: nat, k: nat)
    requires
        0 < n,
        k <= n,
    ensures
        sum_upto(equal_split(n), k) == k * (SHARE_ONE as int / n as int) + if k
            < SHARE_ONE as int % n as int {
            k as int
        } else {
            SHARE_ONE as int % n as int
        },
    decreases k,
{
    let q = SHARE_ONE as int / n as int;
    let r = SHARE_ONE as int % n as int;
    assert(0 <= r < n) by (nonlinear_arith)
        requires
            r == SHARE_ONE as int % n as int,
            n > 0,
    ;
    if k > 0 {
        lemma_equal_split_prefix(n, (k - 1) as nat);
        assert(equal_split(n)[k - 1] == q + one_if(k - 1 < r));
        assert((k - 1) * q + q == k * q) by (nonlinear_arith);
    } else {
        assert(k * q == 0) by (nonlinear_arith)
            requires
                k == 0,
        ;
    }
}

/// The shares of an equal split sum to exactly one.
pub proof fn lemma_equal_split_sums_to_one(n: nat)
    requires
        0 < n,
    ensures
        share_sum(equal_split(n)) == SHARE_ONE,
{
    lemma_equal_split_prefix(n, n);
    let q = SHARE_ONE as int / n as int;
    let r = SHARE_ONE as int % n as int;
    assert(SHARE_ONE as int == n * q + r) by (nonlinear_arith)
        requires
            q == SHARE_ONE as int / n as int,
            r == SHARE_ONE as int % n as int,
            n > 0,
    ;
}

/// An equal split lies within any bounds that leave room for a sum of one.
pub proof fn lemma_equal_split_within(n: nat, lo: int, hi: int)
    requires
        0 < n,
        lo * n <= SHARE_ONE <= hi * n,
    ensures
        all_within(equal_split(n), lo, hi),
{
    let q = SHARE_ONE as int / n as int;
    let r = SHARE_ONE as int % n as int;
    assert(lo <= q && (r > 0 ==> q + 1 <= hi) && q <= hi) by (nonlinear_arith)
        requires
            q == SHARE_ONE as int / n as int,
            r == SHARE_ONE as int % n as int,
            n > 0,
            lo * n <= SHARE_ONE as int,
            SHARE_ONE as int <= hi * n,
    ;
}

/// A round of redistribution keeps the shares within the bounds.
pub proof fn lemma_redistribute_once_within(shares: Seq<int>, lo: int, hi: int)
    requires
        all_within(shares, lo, hi),
    ensures
        all_within(redistribute_once(shares, lo, hi), lo, hi),
        redistribute_once(shares, lo, hi).len() == shares.len(),
{
}

/// Redistribution keeps the shares within the bounds.
pub proof fn lemma_redistribute_within(shares: Seq<int>, lo: int, hi: int, rounds: nat)
    requires
        all_within(shares, lo, hi),
    ensures
        all_within(redistribute(shares, lo, hi, rounds), lo, hi),
        redistribute(shares, lo, hi, rounds).len() == shares.len(),
    decreases rounds,
{
    if rounds > 0 {
        lemma_redistribute_once_within(shares, lo, hi);
        lemma_redistribute_within(
            redistribute_once(shares, lo, hi),
            lo,
            hi,
            (rounds - 1) as nat,
        );
    }
}

/// Shares that a round leaves as they are stay as they are in every further
/// round.
pub proof fn lemma_redistribute_settled(shares: Seq<int>, lo: int, hi: int, rounds: nat)
    requires
        redistribute_once(shares, lo, hi) == shares,
    ensures
        redistribute(shares, lo, hi, rounds) == shares,
    decreases rounds,
{
    if rounds > 0 {
        lemma_redistribute_settled(shares, lo, hi, (rounds - 1) as nat);
    }
}

/// The sum of the first `k` of `n` even shares.
proof fn lemma_even_shares_sum(n: nat, k: nat)
    requires
        k <= n,
    ensures
        sum_upto(even_shares(n), k) == k * even_share(n),
    decreases k,
{
    if k > 0 {
        lemma_even_shares_sum(n, (k - 1) as nat);
        assert((k - 1) * even_share(n) + even_share(n) == k * even_share(n)) by (nonlinear_arith);
    } else {
        assert(k * even_share(n) == 0) by (nonlinear_arith)
            requires
                k == 0,
        ;
    }
}

/// The even share lies within any bounds that leave room for a sum of one.
proof fn lemma_even_share_within(n: nat, lo: int, hi: int)
    requires
        0 < n,
        lo * n <= SHARE_ONE <= hi * n,
    ensures
        lo <= even_share(n) <= hi,
{
    let q = SHARE_ONE as int / n as int;
    assert(lo <= q <= hi) by (nonlinear_arith)
        requires
            q == SHARE_ONE as int / n as int,
            n > 0,
            lo * n <= SHARE_ONE as int,
            SHARE_ONE as int <= hi * n,
    ;
}

/// No more than one share and one tolerance together: the even shares sum to
/// one within the tolerance.
pub proof fn lemma_few_even_shares_within_tolerance(n: nat)
    requires
        0 < n <= SUM_TOLERANCE + 1,
    ensures
        within_tolerance(n * even_share(n)),
{
    let q = SHARE_ONE as int / n as int;
    assert(SHARE_ONE - SUM_TOLERANCE <= n * q <= SHARE_ONE) by (nonlinear_arith)
        requires
            q == SHARE_ONE as int / n as int,
            0 < n <= SUM_TOLERANCE + 1,
    ;
}

/// The normalised shares sum to one within the tolerance, and each lies within
/// the bounds wherever the bounds leave room for a sum of one.
pub proof fn lemma_normalized_shares(raw: Seq<int>, lo: int, hi: int)
    requires
        raw.len() > 0,
        lo <= hi,
    ensures
        normalized_shares(raw, lo, hi).len() == raw.len(),
        within_tolerance(share_sum(normalized_shares(raw, lo, hi))),
        lo * raw.len() <= SHARE_ONE <= hi * raw.len() ==> all_within(
            normalized_shares(raw, lo, hi),
            lo,
            hi,
        ),
{
    let start = initial_shares(raw, lo, hi);
    assert(all_within(start, lo, hi));
    lemma_redistribute_within(start, lo, hi, MAX_REDISTRIBUTION_ROUNDS as nat);
    lemma_equal_split_sums_to_one(raw.len());
    lemma_even_shares_sum(raw.len(), raw.len());
    if lo * raw.len() <= SHARE_ONE <= hi * raw.len() {
        lemma_equal_split_within(raw.len(), lo, hi);
        lemma_even_share_within(raw.len(), lo, hi);
    }
}

/// A round of redistribution keeps the order of any two shares.
pub proof fn lemma_redistribute_once_keeps_order(
    shares: Seq<int>,
    lo: int,
    hi: int,
    a: int,
    b: int,
)
    requires
        0 <= a < shares.len(),
        0 <= b < shares.len(),
        shares[a] <= shares[b],
    ensures
        redistribute_once(shares, lo, hi)[a] <= redistribute_once(shares, lo, hi)[b],
{
    let missing = SHARE_ONE - share_sum(shares);
    if missing > 0 {
        let count = growable_before(shares, hi, shares.len()) as int;
        if count > 0 {
            assert(missing / count >= 0) by (nonlinear_arith)
                requires
                    missing > 0,
                    count > 0,
            ;
        }
    } else if missing < 0 {
        let count = shrinkable_before(shares, lo, shares.len()) as int;
        if count > 0 {
            assert((-missing) / count >= 0) by (nonlinear_arith)
                requires
                    missing < 0,
                    count > 0,
            ;
        }
    }
}

/// Redistribution keeps the order of any two shares.
pub proof fn lemma_redistribute_keeps_order(
    shares: Seq<int>,
    lo: int,
    hi: int,
    rounds: nat,
    a: int,
    b: int,
)
    requires
        0 <= a < shares.len(),
        0 <= b < shares.len(),
        shares[a] <= shares[b],
    ensures
        redistribute(shares, lo, hi, rounds)[a] <= redistribute(shares, lo, hi, rounds)[b],
    decreases rounds,
{
    if rounds > 0 {
        lemma_redistribute_once_keeps_order(shares, lo, hi, a, b);
        lemma_redistribute_keeps_order(
            redistribute_once(shares, lo, hi),
            lo,
            hi,
            (rounds - 1) as nat,
            a,
            b,
        );
    }
}

/// Normalisation keeps the order of any two shares: the smaller raw share
/// never ends above the larger one. Where normalisation has to fall back on
/// the split with leftover millionths, which takes more than a hundred
/// shares, it may end one millionth above it.
pub proof fn lemma_normalized_shares_keep_order(raw: Seq<int>, lo: int, hi: int, a: int, b: int)
    requires
        0 <= a < raw.len(),
        0 <= b < raw.len(),
        raw[a] <= raw[b],
        lo <= hi,
    ensures
        normalized_shares(raw, lo, hi)[a] <= normalized_shares(raw, lo, hi)[b] + 1,
        normalizes_evenly(raw, lo, hi) ==> normalized_shares(raw, lo, hi)[a] <= normalized_shares(
            raw,
            lo,
            hi,
        )[b],
        raw.len() <= SUM_TOLERANCE + 1 ==> normalizes_evenly(raw, lo, hi),
{
    let total = share_sum(raw);
    let start = initial_shares(raw, lo, hi);
    if total > 0 {
        assert(raw[a] * SHARE_ONE as int / total <= raw[b] * SHARE_ONE as int / total)
            by (nonlinear_arith)
            requires
                raw[a] <= raw[b],
                total > 0,
        ;
    }
    assert(start[a] <= start[b]);
    lemma_redistribute_keeps_order(start, lo, hi, MAX_REDISTRIBUTION_ROUNDS as nat, a, b);
    if raw.len() <= SUM_TOLERANCE + 1 {
        lemma_few_even_shares_within_tolerance(raw.len());
    }
}

/// No share among the first `n` is more than their sum, where none is
/// negative.
proof fn lemma_share_at_most_sum(shares: Seq<int>, i: int, n: nat)
    requires
        0 <= i < n <= shares.len(),
        forall|k: int| 0 <= k < shares.len() ==> 0 <= #[trigger] shares[k],
    ensures
        shares[i] <= sum_upto(shares, n),
        0 <= sum_upto(shares, n),
    decreases n,
{
    if n - 1 > i {
        lemma_share_at_most_sum(shares, i, (n - 1) as nat);
    } else {
        lemma_sum_nonnegative(shares, (n - 1) as nat);
    }
}

proof fn lemma_sum_nonnegative(shares: Seq<int>, n: nat)
    requires
        n <= shares.len(),
        forall|k: int| 0 <= k < shares.len() ==> 0 <= #[trigger] shares[k],
    ensures
        0 <= sum_upto(shares, n),
    decreases n,
{
    if n > 0 {
        lemma_sum_nonnegative(shares, (n - 1) as nat);
    }
}

// ---------------------------------------------------------------------------
// Normalisation
// ---------------------------------------------------------------------------

fn sum_shares(shares: &Vec<u64>) -> (sum: u128)
    ensures
        sum == share_sum(as_ints(shares@)),
{
    let n = shares.len();
    let ghost ints = as_ints(shares@);
    let mut sum: u128 = 0;
    let mut i: usize = 0;
    while i < n
        invariant
            n == shares@.len(),
            ints == as_ints(shares@),
            i <= n,
            sum == sum_upto(ints, i as nat),
            sum <= i * u64::MAX,
        decreases n - i,
    {
        assert(i * u64::MAX + u64::MAX <= usize::MAX * u64::MAX + u64::MAX) by (nonlinear_arith)
            requires
                i <= usize::MAX,
        ;
        assert((i + 1) * u64::MAX == i * u64::MAX + u64::MAX) by (nonlinear_arith);
        sum = sum + shares[i] as u128;
        i += 1;
    }
    sum
}

fn equal_split_shares(n: usize) -> (shares: Vec<u64>)
    requires
        n > 0,
    ensures
        as_ints(shares@) == equal_split(n as nat),
{
    let even: u64 = SHARE_ONE / (n as u64);
    let left_over: u64 = SHARE_ONE % (n as u64);
    let mut shares: Vec<u64> = Vec::new();
    let mut i: usize = 0;
    while i < n
        invariant
            n > 0,
            i <= n,
            even == SHARE_ONE as int / n as int,
            left_over == SHARE_ONE as int % n as int,
            shares@.len() == i,
            forall|k: int| 0 <= k < i ==> #[trigger] shares@[k] == equal_split(n as nat)[k],
        decreases n - i,
    {
        let share: u64 = if (i as u64) < left_over {
            even + 1
        } else {
            even
        };
        shares.push(share);
        i += 1;
    }
    assert(as_ints(shares@) =~= equal_split(n as nat));
    shares
}

fn clamp_share(x: u64, lo: u64, hi: u64) -> (y: u64)
    requires
        lo <= hi,
    ensures
        y == clamp_int(x as int, lo as int, hi as int),
{
    if x < lo {
        lo
    } else if x > hi {
        hi
    } else {
        x
    }
}

fn initial_share_values(raw: &Vec<u64>, lo: u64, hi: u64) -> (shares: Vec<u64>)
    requires
        raw@.len() > 0,
        lo <= hi,
    ensures
        as_ints(shares@) == initial_shares(as_ints(raw@), lo as int, hi as int),
{
    let n = raw.len();
    let total = sum_shares(raw);
    let even: u64 = SHARE_ONE / (n as u64);
    let ghost ints = as_ints(raw@);
    let mut shares: Vec<u64> = Vec::new();
    let mut i: usize = 0;
    while i < n
        invariant
            n == raw@.len(),
            n > 0,
            lo <= hi,
            ints == as_ints(raw@),
            total == share_sum(ints),
            even == even_share(n as nat),
            i <= n,
            shares@.len() == i,
            forall|k: int|
                0 <= k < i ==> #[trigger] shares@[k] == initial_shares(ints, lo as int, hi as int)[k],
        decreases n - i,
    {
        let scaled: u64 = if total > 0 {
            proof {
                lemma_share_at_most_sum(ints, i as int, n as nat);
                assert(ints[i as int] == raw@[i as int]);
                assert(raw@[i as int] * SHARE_ONE <= u64::MAX * SHARE_ONE) by (nonlinear_arith)
                    requires
                        raw@[i as int] <= u64::MAX,
                ;
                assert(raw@[i as int] * SHARE_ONE / total as int <= SHARE_ONE) by (nonlinear_arith)
                    requires
                        0 <= raw@[i as int] <= total,
                        total > 0,
                ;
            }
            (raw[i] as u128 * SHARE_ONE as u128 / total) as u64
        } else {
            even
        };
        shares.push(clamp_share(scaled, lo, hi));
        i += 1;
    }
    assert(as_ints(shares@) =~= initial_shares(ints, lo as int, hi as int));
    shares
}

fn count_growable(shares: &Vec<u64>, hi: u64) -> (count: usize)
    ensures
        count == growable_before(as_ints(shares@), hi as int, shares@.len()),
{
    let n = shares.len();
    let mut count: usize = 0;
    let mut i: usize = 0;
    while i < n
        invariant
            n == shares@.len(),
            i <= n,
            count <= i,
            count == growable_before(as_ints(shares@), hi as int, i as nat),
        decreases n - i,
    {
        if shares[i] < hi {
            count += 1;
        }
        i += 1;
    }
    count
}

fn count_shrinkable(shares: &Vec<u64>, lo: u64) -> (count: usize)
    ensures
        count == shrinkable_before(as_ints(shares@), lo as int, shares@.len()),
{
    let n = shares.len();
    let mut count: usize = 0;
    let mut i: usize = 0;
    while i < n
        invariant
            n == shares@.len(),
            i <= n,
            count <= i,
            count == shrinkable_before(as_ints(shares@), lo as int, i as nat),
        decreases n - i,
    {
        if shares[i] > lo {
            count += 1;
        }
        i += 1;
    }
    count
}

fn grow_shares(shares: &Vec<u64>, hi: u64, missing: u64, count: usize) -> (grown: Vec<u64>)
    requires
        count > 0,
        0 < missing <= SHARE_ONE,
        missing == SHARE_ONE - share_sum(as_ints(shares@)),
        count == growable_before(as_ints(shares@), hi as int, shares@.len()),
    ensures
        forall|lo: int| as_ints(grown@) == redistribute_once(as_ints(shares@), lo, hi as int),
{
    let n = shares.len();
    let each: u64 = missing / (count as u64);
    let ghost ints = as_ints(shares@);
    let ghost target = redistribute_once(ints, 0, hi as int);
    let mut grown: Vec<u64> = Vec::new();
    let mut i: usize = 0;
    while i < n
        invariant
            n == shares@.len(),
            ints == as_ints(shares@),
            target == redistribute_once(ints, 0, hi as int),
            count > 0,
            0 < missing <= SHARE_ONE,
            missing == SHARE_ONE - share_sum(ints),
            count == growable_before(ints, hi as int, n as nat),
            each == missing as int / count as int,
            i <= n,
            grown@.len() == i,
            forall|k: int| 0 <= k < i ==> #[trigger] grown@[k] == target[k],
        decreases n - i,
    {
        let share = shares[i];
        assert(ints[i as int] == share);
        let next: u64 = if share < hi {
            if each >= hi - share {
                hi
            } else {
                share + each
            }
        } else {
            share
        };
        grown.push(next);
        i += 1;
    }
    assert(as_ints(grown@) =~= target);
    assert forall|lo: int| as_ints(grown@) == redistribute_once(ints, lo, hi as int) by {
        assert(redistribute_once(ints, lo, hi as int) =~= target);
    }
    grown
}

fn shrink_shares(shares: &Vec<u64>, lo: u64, excess: u128, count: usize) -> (shrunk: Vec<u64>)
    requires
        count > 0,
        0 < excess,
        excess == share_sum(as_ints(shares@)) - SHARE_ONE,
        count == shrinkable_before(as_ints(shares@), lo as int, shares@.len()),
    ensures
        forall|hi: int|
            as_ints(shrunk@) == redistribute_once(as_ints(shares@), lo as int, hi),
{
    let n = shares.len();
    let each: u128 = excess / (count as u128);
    let ghost ints = as_ints(shares@);
    let ghost target = redistribute_once(ints, lo as int, 0);
    let mut shrunk: Vec<u64> = Vec::new();
    let mut i: usize = 0;
    while i < n
        invariant
            n == shares@.len(),
            ints == as_ints(shares@),
            target == redistribute_once(ints, lo as int, 0),
            count > 0,
            0 < excess,
            excess == share_sum(ints) - SHARE_ONE,
            count == shrinkable_before(ints, lo as int, n as nat),
            each == excess as int / count as int,
            i <= n,
            shrunk@.len() == i,
            forall|k: int| 0 <= k < i ==> #[trigger] shrunk@[k] == target[k],
        decreases n - i,
    {
        let share = shares[i];
        assert(ints[i as int] == share);
        let next: u64 = if share > lo {
            if each >= (share - lo) as u128 {
                lo
            } else {
                share - each as u64
            }
        } else {
            share
        };
        shrunk.push(next);
        i += 1;
    }
    assert(as_ints(shrunk@) =~= target);
    assert forall|hi: int| as_ints(shrunk@) == redistribute_once(ints, lo as int, hi) by {
        assert(redistribute_once(ints, lo as int, hi) =~= target);
    }
    shrunk
}

/// Makes one round of redistribution. The flag says whether the round had
/// anything to do: without it the shares come back as they were.
fn redistribute_round(shares: Vec<u64>, lo: u64, hi: u64) -> (out: (Vec<u64>, bool))
    requires
        lo <= hi <= SHARE_ONE,
        all_within(as_ints(shares@), lo as int, hi as int),
    ensures
        as_ints(out.0@) == redistribute_once(as_ints(shares@), lo as int, hi as int),
        out.1 == round_has_work(as_ints(shares@), lo as int, hi as int),
        !out.1 ==> out.0@ == shares@,
{
    let total = sum_shares(&shares);
    proof {
        lemma_sum_nonnegative(as_ints(shares@), shares@.len());
    }
    if total < SHARE_ONE as u128 {
        let count = count_growable(&shares, hi);
        let missing: u64 = (SHARE_ONE as u128 - total) as u64;
        if count == 0 || missing < count as u64 {
            proof {
                if count > 0 {
                    assert(missing as int / count as int == 0) by (nonlinear_arith)
                        requires
                            0 <= missing < count,
                    ;
                    assert(redistribute_once(as_ints(shares@), lo as int, hi as int) =~= as_ints(
                        shares@,
                    ));
                }
            }
            return (shares, false);
        }
        (grow_shares(&shares, hi, missing, count), true)
    } else if total > SHARE_ONE as u128 {
        let count = count_shrinkable(&shares, lo);
        let excess: u128 = total - SHARE_ONE as u128;
        if count == 0 || excess < count as u128 {
            proof {
                if count > 0 {
                    assert(excess as int / count as int == 0) by (nonlinear_arith)
                        requires
                            0 <= excess < count,
                    ;
                    assert(redistribute_once(as_ints(shares@), lo as int, hi as int) =~= as_ints(
                        shares@,
                    ));
                }
            }
            return (shares, false);
        }
        (shrink_shares(&shares, lo, excess, count), true)
    } else {
        (shares, false)
    }
}

fn even_share_values(n: usize) -> (shares: Vec<u64>)
    requires
        n > 0,
    ensures
        as_ints(shares@) == even_shares(n as nat),
{
    let even: u64 = SHARE_ONE / (n as u64);
    let mut shares: Vec<u64> = Vec::new();
    let mut i: usize = 0;
    while i < n
        invariant
            n > 0,
            i <= n,
            even == even_share(n as nat),
            shares@.len() == i,
            forall|k: int| 0 <= k < i ==> #[trigger] shares@[k] == even,
        decreases n - i,
    {
        shares.push(even);
        i += 1;
    }
    assert(as_ints(shares@) =~= even_shares(n as nat));
    shares
}

fn sum_is_within_tolerance(sum: u128) -> (within: bool)
    ensures
        within == within_tolerance(sum as int),
{
    sum >= (SHARE_ONE - SUM_TOLERANCE) as u128 && sum <= (SHARE_ONE + SUM_TOLERANCE) as u128
}

/// Scales the raw shares so that they sum to about one, moves each into the
/// range from `min_weight` to `max_weight`, and redistributes what the sum
/// then lacks or has too much among the shares that are still inside the
/// range, for at most `MAX_REDISTRIBUTION_ROUNDS` rounds. If the sum is then
/// still farther from one than `SUM_TOLERANCE`, each gets the even share; and
/// where the even shares too miss the tolerance, the whole is split with its
/// leftover millionths one each to the first few.
///
/// Shares of one size are treated alike throughout, so the smaller of two raw
/// shares never ends as the larger one, but for that last split.
pub fn normalize_with_bounds(raw: &Vec<u64>, min_weight: u64, max_weight: u64) -> (shares: Vec<u64>)
    requires
        min_weight <= max_weight <= SHARE_ONE,
    ensures
        raw@.len() == 0 ==> shares@.len() == 0,
        raw@.len() > 0 ==> as_ints(shares@) == normalized_shares(
            as_ints(raw@),
            min_weight as int,
            max_weight as int,
        ),
{
    let n = raw.len();
    if n == 0 {
        return Vec::new();
    }
    let ghost lo = min_weight as int;
    let ghost hi = max_weight as int;
    let mut shares = initial_share_values(raw, min_weight, max_weight);
    let ghost start = as_ints(shares@);
    let mut round: usize = 0;
    let mut settled = false;
    while round < MAX_REDISTRIBUTION_ROUNDS && !settled
        invariant
            lo == min_weight as int,
            hi == max_weight as int,
            min_weight <= max_weight <= SHARE_ONE,
            start == initial_shares(as_ints(raw@), lo, hi),
            round <= MAX_REDISTRIBUTION_ROUNDS,
            all_within(as_ints(shares@), lo, hi),
            as_ints(shares@) == redistribute(start, lo, hi, round as nat),
            settled ==> redistribute_once(as_ints(shares@), lo, hi) == as_ints(shares@),
        decreases MAX_REDISTRIBUTION_ROUNDS - round, one_if(!settled),
    {
        let ghost before = as_ints(shares@);
        let (next, changed) = redistribute_round(shares, min_weight, max_weight);
        shares = next;
        proof {
            lemma_redistribute_once_within(before, lo, hi);
        }
        if changed {
            proof {
                lemma_redistribute_append(start, lo, hi, round as nat);
            }
            round += 1;
        } else {
            settled = true;
        }
    }
    proof {
        if settled {
            lemma_redistribute_settled(
                as_ints(shares@),
                lo,
                hi,
                (MAX_REDISTRIBUTION_ROUNDS - round) as nat,
            );
            lemma_redistribute_split(
                start,
                lo,
                hi,
                round as nat,
                (MAX_REDISTRIBUTION_ROUNDS - round) as nat,
            );
        }
    }
    let total = sum_shares(&shares);
    if sum_is_within_tolerance(total) {
        return shares;
    }
    let even: u64 = SHARE_ONE / (n as u64);
    assert(n * even <= SHARE_ONE) by (nonlinear_arith)
        requires
            even == SHARE_ONE as int / n as int,
            n > 0,
    ;
    if sum_is_within_tolerance(n as u128 * even as u128) {
        even_share_values(n)
    } else {
        equal_split_shares(n)
    }
}

/// One more round after `rounds` rounds makes `rounds + 1` rounds.
proof fn lemma_redistribute_append(shares: Seq<int>, lo: int, hi: int, rounds: nat)
    ensures
        redistribute(shares, lo, hi, rounds + 1) == redistribute_once(
            redistribute(shares, lo, hi, rounds),
            lo,
            hi,
        ),
    decreases rounds,
{
    let next = redistribute_once(shares, lo, hi);
    assert(redistribute(shares, lo, hi, rounds + 1) == redistribute(next, lo, hi, rounds));
    if rounds > 0 {
        lemma_redistribute_append(next, lo, hi, (rounds - 1) as nat);
        assert(redistribute(shares, lo, hi, rounds) == redistribute(
            next,
            lo,
            hi,
            (rounds - 1) as nat,
        ));
    } else {
        assert(redistribute(next, lo, hi, 0) == next);
        assert(redistribute(shares, lo, hi, 0) == shares);
    }
}

/// Rounds made one after another add up.
proof fn lemma_redistribute_split(shares: Seq<int>, lo: int, hi: int, first: nat, then: nat)
    ensures
        redistribute(shares, lo, hi, first + then) == redistribute(
            redistribute(shares, lo, hi, first),
            lo,
            hi,
            then,
        ),
    decreases first,
{
    if first > 0 {
        lemma_redistribute_split(
            redistribute_once(shares, lo, hi),
            lo,
            hi,
            (first - 1) as nat,
            then,
        );
    }
}

// ---------------------------------------------------------------------------
// Proposals
// ---------------------------------------------------------------------------

/// A chunk's name and the share proposed for it, in millionths.
#[derive(Debug, Clone)]
pub struct ChunkWeight {
    pub name: String,
    pub weight: u64,
}

/// The weight that a chunk enters the proposal with: its authored weight, or
/// one if that is not positive.
pub open spec fn baseline_weight(chunk: ChunkSchema) -> int {
    if chunk.weight > 0 {
        chunk.weight as int
    } else {
        WEIGHT_ONE as int
    }
}

/// The baseline weights of the first `n` chunks together.
pub open spec fn baseline_sum(chunks: Seq<ChunkSchema>, n: nat) -> int
    decreases n,
{
    if n == 0 {
        0
    } else {
        baseline_sum(chunks, (n - 1) as nat) + baseline_weight(chunks[n - 1])
    }
}

/// The share of the picks that chunk `i` should get: its baseline weight over
/// the baseline weight of all chunks.
pub open spec fn expected_share(chunks: Seq<ChunkSchema>, i: int) -> int {
    baseline_weight(chunks[i]) * SHARE_ONE as int / baseline_sum(chunks, chunks.len())
}

/// The share of the picks that chunk `i` got: the picks counted under its name
/// over all picks counted. Where nothing was counted, it is the expected share.
pub open spec fn observed_share(chunks: Seq<ChunkSchema>, observed: NameCounts, i: int) -> int {
    if observed.total() > 0 {
        observed.count(chunks[i].name@) as int * SHARE_ONE as int / observed.total() as int
    } else {
        expected_share(chunks, i)
    }
}

/// The factor by which a share is corrected: one plus three quarters of what
/// the observed share lacks to the expected one, and no less than a quarter
/// nor more than seven quarters.
pub open spec fn correction_factor(expected: int, observed: int) -> int {
    clamp_int(
        (4 * SHARE_ONE + 3 * (expected - observed)) / 4,
        SHARE_ONE as int / 4,
        7 * SHARE_ONE as int / 4,
    )
}

/// The share proposed for chunk `i` before normalisation.
pub open spec fn raw_proposal(chunks: Seq<ChunkSchema>, observed: NameCounts, i: int) -> int {
    let expected = expected_share(chunks, i);
    let corrected = expected * correction_factor(expected, observed_share(chunks, observed, i))
        / SHARE_ONE as int;
    if corrected < MIN_PROPOSAL {
        MIN_PROPOSAL as int
    } else {
        corrected
    }
}

/// The shares proposed for all chunks before normalisation.
pub open spec fn raw_proposals(chunks: Seq<ChunkSchema>, observed: NameCounts) -> Seq<int> {
    Seq::new(chunks.len(), |i: int| raw_proposal(chunks, observed, i))
}

/// Whether the bounds leave room for `n` shares that sum to one.
pub open spec fn bounds_are_feasible(n: nat, min_weight: int, max_weight: int) -> bool {
    &&& 0 <= min_weight <= max_weight <= SHARE_ONE
    &&& min_weight * n <= SHARE_ONE <= max_weight * n
}

/// The bounds that the proposal is held to: the bounds asked for, moved into
/// the range from nothing to the whole, or the even share for both if they
/// leave no room for `n` shares that sum to one.
pub open spec fn effective_bounds(n: nat, min_weight: int, max_weight: int) -> (int, int) {
    let lo = clamp_int(min_weight, 0, SHARE_ONE as int);
    let hi = clamp_int(max_weight, lo, SHARE_ONE as int);
    if lo * n > SHARE_ONE || hi * n < SHARE_ONE {
        (SHARE_ONE as int / n as int, SHARE_ONE as int / n as int)
    } else {
        (lo, hi)
    }
}

/// The shares proposed for the chunks of a library, in library order.
pub open spec fn proposed_shares(
    chunks: Seq<ChunkSchema>,
    observed: NameCounts,
    min_weight: int,
    max_weight: int,
) -> Seq<int> {
    let bounds = effective_bounds(chunks.len(), min_weight, max_weight);
    normalized_shares(raw_proposals(chunks, observed), bounds.0, bounds.1)
}

/// For any library that holds a chunk, any observed counts and any bounds, the
/// proposed shares sum to one within the tolerance; and each lies within the
/// bounds asked for, wherever these leave room for shares that sum to one.
pub proof fn lemma_proposed_shares_normalized_and_bounded(
    chunks: Seq<ChunkSchema>,
    observed: NameCounts,
    min_weight: int,
    max_weight: int,
)
    requires
        chunks.len() > 0,
    ensures
        proposed_shares(chunks, observed, min_weight, max_weight).len() == chunks.len(),
        SHARE_ONE - SUM_TOLERANCE <= share_sum(
            proposed_shares(chunks, observed, min_weight, max_weight),
        ) <= SHARE_ONE + SUM_TOLERANCE,
        bounds_are_feasible(chunks.len(), min_weight, max_weight) ==> all_within(
            proposed_shares(chunks, observed, min_weight, max_weight),
            min_weight,
            max_weight,
        ),
{
    let n = chunks.len();
    let bounds = effective_bounds(n, min_weight, max_weight);
    lemma_normalized_shares(raw_proposals(chunks, observed), bounds.0, bounds.1);
}

/// Of two chunks with the same baseline weight, the one that was picked more
/// often is proposed no larger a share before normalisation.
pub proof fn lemma_overpicked_raw_proposal_not_larger(
    chunks: Seq<ChunkSchema>,
    observed: NameCounts,
    over: int,
    under: int,
)
    requires
        observed.wf(),
        0 <= over < chunks.len(),
        0 <= under < chunks.len(),
        baseline_weight(chunks[over]) == baseline_weight(chunks[under]),
        observed.count(chunks[over].name@) >= observed.count(chunks[under].name@),
    ensures
        raw_proposal(chunks, observed, over) <= raw_proposal(chunks, observed, under),
{
    let expected = expected_share(chunks, over);
    assert(expected == expected_share(chunks, under));
    lemma_baseline_sum_bounds(chunks, over, chunks.len());
    let total = baseline_sum(chunks, chunks.len());
    assert(0 <= expected) by (nonlinear_arith)
        requires
            expected == baseline_weight(chunks[over]) * SHARE_ONE as int / total,
            baseline_weight(chunks[over]) > 0,
            total > 0,
    ;
    let share_over = observed_share(chunks, observed, over);
    let share_under = observed_share(chunks, observed, under);
    if observed.total() > 0 {
        let all = observed.total() as int;
        let a = observed.count(chunks[over].name@) as int;
        let b = observed.count(chunks[under].name@) as int;
        assert(a * SHARE_ONE as int / all >= b * SHARE_ONE as int / all) by (nonlinear_arith)
            requires
                a >= b,
                b >= 0,
                all > 0,
        ;
    }
    assert(share_over >= share_under);
    let factor_over = correction_factor(expected, share_over);
    let factor_under = correction_factor(expected, share_under);
    assert(factor_over <= factor_under);
    assert(expected * factor_over / SHARE_ONE as int <= expected * factor_under / SHARE_ONE as int)
        by (nonlinear_arith)
        requires
            0 <= expected,
            factor_over <= factor_under,
    ;
}

/// Whether the proposal for a library treats every share of one size alike:
/// it does unless normalisation has to fall back on the split with leftover
/// millionths, which takes more than a hundred chunks.
pub open spec fn proposes_evenly(
    chunks: Seq<ChunkSchema>,
    observed: NameCounts,
    min_weight: int,
    max_weight: int,
) -> bool {
    let bounds = effective_bounds(chunks.len(), min_weight, max_weight);
    normalizes_evenly(raw_proposals(chunks, observed), bounds.0, bounds.1)
}

/// Of two chunks with the same baseline weight, the one that was picked at
/// least as often is proposed no larger a share; so two such chunks that were
/// picked equally often are proposed the same share. This holds of every
/// library of up to a hundred and one chunks, and of every larger one whose
/// proposal treats shares of one size alike. In what is left, the split with
/// leftover millionths, the share is at most one millionth larger.
pub proof fn lemma_overpicked_share_not_larger(
    chunks: Seq<ChunkSchema>,
    observed: NameCounts,
    min_weight: int,
    max_weight: int,
    over: int,
    under: int,
)
    requires
        observed.wf(),
        0 <= over < chunks.len(),
        0 <= under < chunks.len(),
        baseline_weight(chunks[over]) == baseline_weight(chunks[under]),
        observed.count(chunks[over].name@) >= observed.count(chunks[under].name@),
    ensures
        proposed_shares(chunks, observed, min_weight, max_weight)[over] <= proposed_shares(
            chunks,
            observed,
            min_weight,
            max_weight,
        )[under] + 1,
        proposes_evenly(chunks, observed, min_weight, max_weight) ==> proposed_shares(
            chunks,
            observed,
            min_weight,
            max_weight,
        )[over] <= proposed_shares(chunks, observed, min_weight, max_weight)[under],
        chunks.len() <= SUM_TOLERANCE + 1 ==> proposes_evenly(
            chunks,
            observed,
            min_weight,
            max_weight,
        ),
{
    let raw = raw_proposals(chunks, observed);
    let bounds = effective_bounds(chunks.len(), min_weight, max_weight);
    lemma_overpicked_raw_proposal_not_larger(chunks, observed, over, under);
    assert(raw[over] <= raw[under]);
    lemma_normalized_shares_keep_order(raw, bounds.0, bounds.1, over, under);
}

/// Each baseline weight is positive and no more than the sum of all.
proof fn lemma_baseline_sum_bounds(chunks: Seq<ChunkSchema>, i: int, n: nat)
    requires
        0 <= i < n <= chunks.len(),
    ensures
        0 < baseline_weight(chunks[i]) <= baseline_sum(chunks, n),
        baseline_sum(chunks, n) <= n * i32::MAX,
    decreases n,
{
    lemma_baseline_sum_nonnegative(chunks, (n - 1) as nat);
    if n - 1 > i {
        lemma_baseline_sum_bounds(chunks, i, (n - 1) as nat);
    }
    assert((n - 1) * i32::MAX + i32::MAX == n * i32::MAX) by (nonlinear_arith);
}

proof fn lemma_baseline_sum_nonnegative(chunks: Seq<ChunkSchema>, n: nat)
    ensures
        0 <= baseline_sum(chunks, n) <= n * i32::MAX,
    decreases n,
{
    if n > 0 {
        lemma_baseline_sum_nonnegative(chunks, (n - 1) as nat);
        assert((n - 1) * i32::MAX + i32::MAX == n * i32::MAX) by (nonlinear_arith);
    }
}

fn baseline_of(chunk: &ChunkSchema) -> (weight: u64)
    ensures
        weight == baseline_weight(*chunk),
        0 < weight <= i32::MAX,
{
    if chunk.weight > 0 {
        chunk.weight as u64
    } else {
        WEIGHT_ONE as u64
    }
}

fn baseline_total(library: &ChunkLibrary) -> (total: u128)
    ensures
        total == baseline_sum(library.chunks@, library.chunks@.len()),
{
    let n = library.chunks.len();
    let mut total: u128 = 0;
    let mut i: usize = 0;
    while i < n
        invariant
            n == library.chunks@.len(),
            i <= n,
            total == baseline_sum(library.chunks@, i as nat),
        decreases n - i,
    {
        proof {
            lemma_baseline_sum_nonnegative(library.chunks@, (i + 1) as nat);
            assert((i + 1) * i32::MAX <= usize::MAX * i32::MAX) by (nonlinear_arith)
                requires
                    i + 1 <= usize::MAX,
            ;
        }
        total = total + baseline_of(&library.chunks[i]) as u128;
        i += 1;
    }
    total
}

fn effective_bound_values(n: usize, min_weight: i64, max_weight: i64) -> (bounds: (u64, u64))
    requires
        n > 0,
    ensures
        (bounds.0 as int, bounds.1 as int) == effective_bounds(
            n as nat,
            min_weight as int,
            max_weight as int,
        ),
        bounds.0 <= bounds.1 <= SHARE_ONE,
{
    let lo: u64 = if min_weight < 0 {
        0
    } else if min_weight > SHARE_ONE as i64 {
        SHARE_ONE
    } else {
        min_weight as u64
    };
    let hi: u64 = if max_weight < lo as i64 {
        lo
    } else if max_weight > SHARE_ONE as i64 {
        SHARE_ONE
    } else {
        max_weight as u64
    };
    assert(lo * n <= SHARE_ONE * usize::MAX && hi * n <= SHARE_ONE * usize::MAX)
        by (nonlinear_arith)
        requires
            lo <= SHARE_ONE,
            hi <= SHARE_ONE,
            n <= usize::MAX,
    ;
    if lo as u128 * n as u128 > SHARE_ONE as u128 || (hi as u128 * n as u128) < SHARE_ONE as u128 {
        let even: u64 = SHARE_ONE / (n as u64);
        (even, even)
    } else {
        (lo, hi)
    }
}

fn raw_proposal_value(
    library: &ChunkLibrary,
    observed: &NameCounts,
    baseline_all: u128,
    observed_all: u128,
    i: usize,
) -> (raw: u64)
    requires
        observed.wf(),
        i < library.chunks@.len(),
        baseline_all == baseline_sum(library.chunks@, library.chunks@.len()),
        observed_all == observed.total(),
    ensures
        raw == raw_proposal(library.chunks@, *observed, i as int),
{
    let chunk = &library.chunks[i];
    let baseline = baseline_of(chunk);
    proof {
        lemma_baseline_sum_bounds(library.chunks@, i as int, library.chunks@.len());
        assert(baseline * SHARE_ONE / baseline_all as int <= SHARE_ONE) by (nonlinear_arith)
            requires
                0 < baseline <= baseline_all,
        ;
        assert(baseline * SHARE_ONE <= i32::MAX * SHARE_ONE) by (nonlinear_arith)
            requires
                baseline <= i32::MAX,
        ;
    }
    let expected: u64 = (baseline as u128 * SHARE_ONE as u128 / baseline_all) as u64;
    let share: u64 = if observed_all > 0 {
        let count = observed.get(chunk.name.as_str());
        proof {
            observed.lemma_count_at_most_total(chunk.name@);
            assert(count * SHARE_ONE / observed_all as int <= SHARE_ONE) by (nonlinear_arith)
                requires
                    0 <= count <= observed_all,
                    observed_all > 0,
            ;
            assert(count * SHARE_ONE <= u64::MAX * SHARE_ONE) by (nonlinear_arith)
                requires
                    count <= u64::MAX,
            ;
        }
        (count as u128 * SHARE_ONE as u128 / observed_all) as u64
    } else {
        expected
    };
    let uncapped: u64 = (4 * SHARE_ONE + 3 * expected - 3 * share) / 4;
    let factor = clamp_share(uncapped, SHARE_ONE / 4, 7 * SHARE_ONE / 4);
    assert(expected * factor <= SHARE_ONE * (7 * SHARE_ONE / 4)) by (nonlinear_arith)
        requires
            expected <= SHARE_ONE,
            factor <= 7 * SHARE_ONE / 4,
    ;
    let corrected: u64 = expected * factor / SHARE_ONE;
    if corrected < MIN_PROPOSAL {
        MIN_PROPOSAL
    } else {
        corrected
    }
}

/// Proposes a share for each chunk of the library, from the picks observed in
/// a soak run.
///
/// A chunk that was picked less often than its weight calls for is proposed a
/// larger share, one that was picked more often a smaller one, by three
/// quarters of the gap. The proposals are then normalised within the bounds:
/// see `normalize_with_bounds`. Bounds outside the range from nothing to the
/// whole are moved into it, and bounds that leave no room for shares that sum
/// to one are both replaced by the even share. An empty library gets an empty
/// proposal. In a library of up to a hundred and one chunks, chunks of one
/// weight that were picked equally often are proposed the same share.
pub fn rebalance_chunk_weights(
    library: &ChunkLibrary,
    observed_pick_counts: &NameCounts,
    min_weight: i64,
    max_weight: i64,
) -> (proposal: Vec<ChunkWeight>)
    requires
        observed_pick_counts.wf(),
    ensures
        proposal@.len() == library.chunks@.len(),
        forall|i: int|
            0 <= i < proposal@.len() ==> (#[trigger] proposal@[i]).name@
                == library.chunks@[i].name@,
        library.chunks@.len() > 0 ==> Seq::new(
            proposal@.len(),
            |i: int| proposal@[i].weight as int,
        ) == proposed_shares(
            library.chunks@,
            *observed_pick_counts,
            min_weight as int,
            max_weight as int,
        ),
{
    let n = library.chunks.len();
    if n == 0 {
        return Vec::new();
    }
    let (lo, hi) = effective_bound_values(n, min_weight, max_weight);
    let baseline_all = baseline_total(library);
    let observed_all = observed_pick_counts.sum();
    let mut raw: Vec<u64> = Vec::new();
    let mut i: usize = 0;
    while i < n
        invariant
            n == library.chunks@.len(),
            observed_pick_counts.wf(),
            baseline_all == baseline_sum(library.chunks@, library.chunks@.len()),
            observed_all == observed_pick_counts.total(),
            i <= n,
            raw@.len() == i,
            forall|k: int|
                0 <= k < i ==> #[trigger] raw@[k] == raw_proposal(
                    library.chunks@,
                    *observed_pick_counts,
                    k,
                ),
        decreases n - i,
    {
        raw.push(raw_proposal_value(library, observed_pick_counts, baseline_all, observed_all, i));
        i += 1;
    }
    assert(as_ints(raw@) =~= raw_proposals(library.chunks@, *observed_pick_counts));
    let shares = normalize_with_bounds(&raw, lo, hi);
    proof {
        lemma_normalized_shares(as_ints(raw@), lo as int, hi as int);
        assert(shares@.len() == as_ints(shares@).len());
    }
    let mut proposal: Vec<ChunkWeight> = Vec::new();
    let mut i: usize = 0;
    while i < n
        invariant
            n == library.chunks@.len(),
            shares@.len() == n,
            i <= n,
            proposal@.len() == i,
            forall|k: int|
                0 <= k < i ==> (#[trigger] proposal@[k]).name@ == library.chunks@[k].name@
                    && proposal@[k].weight == shares@[k],
        decreases n - i,
    {
        proposal.push(ChunkWeight { name: library.chunks[i].name.clone(), weight: shares[i] });
        i += 1;
    }
    assert(Seq::new(proposal@.len(), |i: int| proposal@[i].weight as int) =~= as_ints(shares@));
    proposal
}

} // verus!
