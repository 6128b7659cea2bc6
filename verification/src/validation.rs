//! Edge-profile continuity and anti-softlock geometry checks.
//!
//! A chunk may follow another only if its top edge repeats the bottom edge of
//! the chunk before it, slot for slot. Its walls must not form a pocket or a
//! corridor that can hold a fast bouncing projectile: every pair of walls is
//! checked, in the order `(i, j)` with `i < j`, and the first offending pair is
//! reported.

use vstd::prelude::*;
use crate::schema::{ChunkSchema, EdgeProfile, MilliVec2, WallDef, PROFILE_RESOLUTION};
use crate::text::{decimal, flag_text, push_decimal, push_flag};

verus! {

/// Half a turn (pi radians), in microradians.
pub const HALF_TURN_MICRORADIANS: i32 = 3_141_593;

/// A full turn, in microradians: twice the half turn.
pub const FULL_TURN_MICRORADIANS: i32 = 6_283_186;

/// A right angle, in microradians.
pub const RIGHT_ANGLE_MICRORADIANS: i32 = 1_570_796;

/// Default minimum exit angle: 0.55 rad.
pub const MIN_EXIT_ANGLE_MICRORADIANS: i32 = 550_000;

/// Default distance within which the exit angle is checked: 150 world units.
pub const EXIT_ANGLE_CHECK_DISTANCE: i32 = 150_000;

/// Default tolerance around a right angle for the concave-trap check: 0.22 rad.
pub const CONCAVE_TRAP_RIGHT_ANGLE_TOLERANCE_MICRORADIANS: i32 = 220_000;

/// Default distance within which a concave trap is recognised: 110 world units.
pub const CONCAVE_TRAP_MAX_DISTANCE: i32 = 110_000;

/// Why a chunk failed validation.
#[derive(Debug, Clone, Copy, PartialEq, Eq, Structural)]
pub enum ChunkValidationReason {
    /// The top edge differs from the required profile.
    ProfileMismatch,
    /// Two nearby walls meet at a near-right angle.
    ConcaveTrap,
    /// Two nearby walls are almost, but not exactly, parallel.
    ExitAngleFail,
}

/// A validation failure: the reason, and a line of text for the designer.
#[derive(Debug, Clone)]
pub struct ChunkValidationError {
    pub reason: ChunkValidationReason,
    pub detail: String,
}

/// Outcome of a validation that reports only the text of a failure.
#[derive(Debug, Clone)]
pub enum ValidationResult {
    Pass,
    Fail(String),
}

/// Thresholds of the geometric checks.
#[derive(Debug, Clone, Copy, PartialEq, Eq, Structural)]
pub struct ProcgenValidationPolicy {
    /// Two nearby walls whose relative rotation is above zero and below this
    /// angle fail the exit-angle check. In microradians.
    pub min_exit_angle_microradians: i32,
    /// Largest distance between wall centres at which the exit angle is
    /// checked. In thousandths of a world unit.
    pub exit_angle_check_distance: i32,
    /// Largest distance between wall centres at which a concave trap is
    /// recognised. In thousandths of a world unit.
    pub concave_trap_max_distance: i32,
    /// How far from a right angle the relative rotation of a concave trap may
    /// be. In microradians.
    pub concave_right_angle_tolerance_microradians: i32,
}

impl ProcgenValidationPolicy {
    /// The documented default thresholds.
    pub open spec fn default_spec() -> ProcgenValidationPolicy {
        ProcgenValidationPolicy {
            min_exit_angle_microradians: MIN_EXIT_ANGLE_MICRORADIANS,
            exit_angle_check_distance: EXIT_ANGLE_CHECK_DISTANCE,
            concave_trap_max_distance: CONCAVE_TRAP_MAX_DISTANCE,
            concave_right_angle_tolerance_microradians:
                CONCAVE_TRAP_RIGHT_ANGLE_TOLERANCE_MICRORADIANS,
        }
    }
}

impl Default for ProcgenValidationPolicy {
    fn default() -> (policy: ProcgenValidationPolicy)
        ensures
            policy == ProcgenValidationPolicy::default_spec(),
    {
        ProcgenValidationPolicy {
            min_exit_angle_microradians: MIN_EXIT_ANGLE_MICRORADIANS,
            exit_angle_check_distance: EXIT_ANGLE_CHECK_DISTANCE,
            concave_trap_max_distance: CONCAVE_TRAP_MAX_DISTANCE,
            concave_right_angle_tolerance_microradians:
                CONCAVE_TRAP_RIGHT_ANGLE_TOLERANCE_MICRORADIANS,
        }
    }
}

// ---------------------------------------------------------------------------
// Edge profiles
// ---------------------------------------------------------------------------

/// `i` is the first slot at which the two profiles differ.
pub open spec fn is_first_mismatch(top: Seq<bool>, bottom: Seq<bool>, i: int) -> bool {
    &&& 0 <= i < top.len()
    &&& i < bottom.len()
    &&& top[i] != bottom[i]
    &&& forall|k: int| 0 <= k < i ==> top[k] == bottom[k]
}

/// The first slot at which the two profiles differ, where there is one.
pub open spec fn first_mismatch(top: Seq<bool>, bottom: Seq<bool>) -> int {
    choose|i: int| is_first_mismatch(top, bottom, i)
}

/// The text that reports a profile mismatch at slot `index`.
pub open spec fn profile_mismatch_detail(index: int, expected: bool, got: bool) -> Seq<char> {
    "Profile mismatch at index "@ + decimal(index as nat) + " (expected="@ + flag_text(expected)
        + ", got="@ + flag_text(got) + ")"@
}

/// Two slots cannot both be the first mismatch.
pub proof fn lemma_first_mismatch_unique(top: Seq<bool>, bottom: Seq<bool>, i: int, j: int)
    requires
        is_first_mismatch(top, bottom, i),
        is_first_mismatch(top, bottom, j),
    ensures
        i == j,
{
    if i < j {
        assert(top[i] == bottom[i]);
    } else if j < i {
        assert(top[j] == bottom[j]);
    }
}

fn profile_mismatch_error(index: usize, expected: bool, got: bool) -> (err: ChunkValidationError)
    ensures
        err.reason == ChunkValidationReason::ProfileMismatch,
        err.detail@ == profile_mismatch_detail(index as int, expected, got),
{
    let mut detail = String::from_str("Profile mismatch at index ");
    push_decimal(&mut detail, index as u128);
    detail.append(" (expected=");
    push_flag(&mut detail, expected);
    detail.append(", got=");
    push_flag(&mut detail, got);
    detail.append(")");
    ChunkValidationError { reason: ChunkValidationReason::ProfileMismatch, detail }
}

/// Compares a chunk's top edge with the bottom edge it has to continue.
///
/// The profiles match only if they agree at every slot, in order. Otherwise
/// the error names the first slot at which they differ and the two values
/// found there.
pub fn validate_edge_match_detailed(top: &EdgeProfile, bottom: &EdgeProfile) -> (res: Result<
    (),
    ChunkValidationError,
>)
    ensures
        res is Ok <==> top@ == bottom@,
        res is Err <==> exists|k: int| 0 <= k < PROFILE_RESOLUTION && top@[k] != bottom@[k],
        res matches Err(err) ==> {
            let i = first_mismatch(top@, bottom@);
            &&& is_first_mismatch(top@, bottom@, i)
            &&& err.reason == ChunkValidationReason::ProfileMismatch
            &&& err.detail@ == profile_mismatch_detail(i, bottom@[i], top@[i])
        },
{
    let mut i: usize = 0;
    while i < top.len()
        invariant
            i <= top@.len(),
            top@.len() == bottom@.len(),
            forall|k: int| 0 <= k < i ==> top@[k] == bottom@[k],
        decreases top@.len() - i,
    {
        if top[i] != bottom[i] {
            proof {
                assert(is_first_mismatch(top@, bottom@, i as int));
                lemma_first_mismatch_unique(
                    top@,
                    bottom@,
                    i as int,
                    first_mismatch(top@, bottom@),
                );
            }
            return Err(profile_mismatch_error(i, bottom[i], top[i]));
        }
        i += 1;
    }
    assert(top@ =~= bottom@);
    Ok(())
}

/// Compares two edge profiles and reports a mismatch as text.
pub fn validate_edge_match(top: &EdgeProfile, bottom: &EdgeProfile) -> (res: ValidationResult)
    ensures
        res is Pass <==> top@ == bottom@,
        res matches ValidationResult::Fail(detail) ==> {
            let i = first_mismatch(top@, bottom@);
            &&& is_first_mismatch(top@, bottom@, i)
            &&& detail@ == profile_mismatch_detail(i, bottom@[i], top@[i])
        },
{
    match validate_edge_match_detailed(top, bottom) {
        Ok(()) => ValidationResult::Pass,
        Err(err) => ValidationResult::Fail(err.detail),
    }
}

// ---------------------------------------------------------------------------
// Wall geometry
// ---------------------------------------------------------------------------

/// The relative rotation of two walls, folded into the range from zero to half
/// a turn.
pub open spec fn angle_diff(a: int, b: int) -> int {
    let raw = if a >= b {
        a - b
    } else {
        b - a
    };
    let wrapped = raw % (FULL_TURN_MICRORADIANS as int);
    if wrapped > HALF_TURN_MICRORADIANS {
        FULL_TURN_MICRORADIANS - wrapped
    } else {
        wrapped
    }
}

/// Whether two points are no farther apart than `limit`.
pub open spec fn within_distance(p: MilliVec2, q: MilliVec2, limit: int) -> bool {
    limit >= 0 && p.distance_squared_spec(q) <= limit * limit
}

/// How far the relative rotation of two walls is from a right angle.
pub open spec fn right_angle_delta(a: WallDef, b: WallDef) -> int {
    let diff = angle_diff(a.rotation as int, b.rotation as int);
    if diff >= RIGHT_ANGLE_MICRORADIANS {
        diff - RIGHT_ANGLE_MICRORADIANS
    } else {
        RIGHT_ANGLE_MICRORADIANS - diff
    }
}

/// Two walls that are close together and meet at a near-right angle: a pocket
/// that can wedge a projectile.
pub open spec fn is_concave_trap(a: WallDef, b: WallDef, policy: ProcgenValidationPolicy) -> bool {
    &&& within_distance(a.position, b.position, policy.concave_trap_max_distance as int)
    &&& right_angle_delta(a, b) <= policy.concave_right_angle_tolerance_microradians
}

/// Two walls that are close together and almost, but not exactly, parallel: a
/// corridor too narrow for a rebound to leave.
pub open spec fn fails_exit_angle(a: WallDef, b: WallDef, policy: ProcgenValidationPolicy) -> bool {
    &&& within_distance(a.position, b.position, policy.exit_angle_check_distance as int)
    &&& 0 < angle_diff(a.rotation as int, b.rotation as int) < policy.min_exit_angle_microradians
}

/// The rule that a pair of walls breaks, if any. The concave-trap rule is
/// checked first.
pub open spec fn pair_violation(
    a: WallDef,
    b: WallDef,
    policy: ProcgenValidationPolicy,
) -> Option<ChunkValidationReason> {
    if is_concave_trap(a, b, policy) {
        Some(ChunkValidationReason::ConcaveTrap)
    } else if fails_exit_angle(a, b, policy) {
        Some(ChunkValidationReason::ExitAngleFail)
    } else {
        None
    }
}

/// No pair of walls breaks a rule.
pub open spec fn softlock_free(walls: Seq<WallDef>, policy: ProcgenValidationPolicy) -> bool {
    forall|a: int, b: int|
        0 <= a < b < walls.len() ==> (#[trigger] pair_violation(walls[a], walls[b], policy)) is None
}

/// Whether the pair `(a, b)` is checked before the pair `(i, j)`.
pub open spec fn pair_precedes(a: int, b: int, i: int, j: int) -> bool {
    a < i || (a == i && b < j)
}

/// `(i, j)` is the first pair of walls, in checking order, that breaks a rule.
pub open spec fn is_first_violation(
    walls: Seq<WallDef>,
    policy: ProcgenValidationPolicy,
    i: int,
    j: int,
) -> bool {
    &&& 0 <= i < j < walls.len()
    &&& pair_violation(walls[i], walls[j], policy) is Some
    &&& forall|a: int, b: int|
        0 <= a < b < walls.len() && pair_precedes(a, b, i, j) ==> (#[trigger] pair_violation(
            walls[a],
            walls[b],
            policy,
        )) is None
}

/// The first pair of walls that breaks a rule, where there is one.
pub open spec fn first_violation(walls: Seq<WallDef>, policy: ProcgenValidationPolicy) -> (int, int) {
    choose|p: (int, int)| is_first_violation(walls, policy, p.0, p.1)
}

/// The reason for which a wall list is rejected, or `None` if it is accepted.
pub open spec fn softlock_verdict(
    walls: Seq<WallDef>,
    policy: ProcgenValidationPolicy,
) -> Option<ChunkValidationReason> {
    if softlock_free(walls, policy) {
        None
    } else {
        let (i, j) = first_violation(walls, policy);
        pair_violation(walls[i], walls[j], policy)
    }
}

/// The text that reports a concave trap between walls `i` and `j`.
pub open spec fn concave_trap_detail(i: int, j: int, a: WallDef, b: WallDef) -> Seq<char> {
    "Concave trap candidate at walls "@ + decimal(i as nat) + "-"@ + decimal(j as nat)
        + " (dist_sq="@ + decimal(a.position.distance_squared_spec(b.position) as nat)
        + ", angle="@ + decimal(angle_diff(a.rotation as int, b.rotation as int) as nat)
        + " urad)"@
}

/// The text that reports a failed exit angle between walls `i` and `j`.
pub open spec fn exit_angle_detail(
    i: int,
    j: int,
    a: WallDef,
    b: WallDef,
    policy: ProcgenValidationPolicy,
) -> Seq<char> {
    "Exit angle fail at walls "@ + decimal(i as nat) + "-"@ + decimal(j as nat) + " (angle="@
        + decimal(angle_diff(a.rotation as int, b.rotation as int) as nat) + " urad, min="@
        + decimal(policy.min_exit_angle_microradians as nat) + " urad, dist_sq="@ + decimal(
        a.position.distance_squared_spec(b.position) as nat,
    ) + ")"@
}

/// The text that reports the rule broken by walls `i` and `j`.
pub open spec fn softlock_detail(
    i: int,
    j: int,
    a: WallDef,
    b: WallDef,
    policy: ProcgenValidationPolicy,
) -> Seq<char> {
    if is_concave_trap(a, b, policy) {
        concave_trap_detail(i, j, a, b)
    } else {
        exit_angle_detail(i, j, a, b, policy)
    }
}

/// Two pairs cannot both be the first violation.
pub proof fn lemma_first_violation_unique(
    walls: Seq<WallDef>,
    policy: ProcgenValidationPolicy,
    i: int,
    j: int,
    a: int,
    b: int,
)
    requires
        is_first_violation(walls, policy, i, j),
        is_first_violation(walls, policy, a, b),
    ensures
        i == a,
        j == b,
{
    if pair_precedes(a, b, i, j) {
        assert(pair_violation(walls[a], walls[b], policy) is None);
    } else if pair_precedes(i, j, a, b) {
        assert(pair_violation(walls[i], walls[j], policy) is None);
    }
}

/// Once a first violation is known, it is the one that `first_violation`
/// names, and the wall list is rejected for the rule that it breaks.
pub proof fn lemma_first_violation_found(
    walls: Seq<WallDef>,
    policy: ProcgenValidationPolicy,
    i: int,
    j: int,
)
    requires
        is_first_violation(walls, policy, i, j),
    ensures
        first_violation(walls, policy) == (i, j),
        !softlock_free(walls, policy),
        softlock_verdict(walls, policy) == pair_violation(walls[i], walls[j], policy),
{
    let found = (i, j);
    assert(is_first_violation(walls, policy, found.0, found.1));
    let p = first_violation(walls, policy);
    lemma_first_violation_unique(walls, policy, i, j, p.0, p.1);
}

/// Any two walls that lie within the concave-trap distance and whose relative
/// rotation is within the tolerance of a right angle are rejected as a concave
/// trap.
pub proof fn lemma_concave_trap_pair_rejected(
    a: WallDef,
    b: WallDef,
    policy: ProcgenValidationPolicy,
)
    requires
        is_concave_trap(a, b, policy),
    ensures
        softlock_verdict(seq![a, b], policy) == Some(ChunkValidationReason::ConcaveTrap),
{
    lemma_first_violation_found(seq![a, b], policy, 0, 1);
}

/// Any two walls that lie within the exit-angle distance and whose relative
/// rotation is above zero and below the minimum exit angle are rejected for
/// their exit angle, unless the same pair is a concave trap, which is reported
/// first.
pub proof fn lemma_narrow_exit_pair_rejected(
    a: WallDef,
    b: WallDef,
    policy: ProcgenValidationPolicy,
)
    requires
        fails_exit_angle(a, b, policy),
        !is_concave_trap(a, b, policy),
    ensures
        softlock_verdict(seq![a, b], policy) == Some(ChunkValidationReason::ExitAngleFail),
{
    lemma_first_violation_found(seq![a, b], policy, 0, 1);
}

/// Under the default thresholds no pair of walls breaks both rules, so a pair
/// that fails the exit-angle rule is always reported as such.
pub proof fn lemma_default_policy_rules_disjoint(a: WallDef, b: WallDef)
    requires
        fails_exit_angle(a, b, ProcgenValidationPolicy::default_spec()),
    ensures
        !is_concave_trap(a, b, ProcgenValidationPolicy::default_spec()),
        softlock_verdict(seq![a, b], ProcgenValidationPolicy::default_spec()) == Some(
            ChunkValidationReason::ExitAngleFail,
        ),
{
    lemma_narrow_exit_pair_rejected(a, b, ProcgenValidationPolicy::default_spec());
}

/// A wall list that holds a rule-breaking pair anywhere is rejected.
pub proof fn lemma_violating_pair_rejects(
    walls: Seq<WallDef>,
    policy: ProcgenValidationPolicy,
    i: int,
    j: int,
)
    requires
        0 <= i < j < walls.len(),
        pair_violation(walls[i], walls[j], policy) is Some,
    ensures
        !softlock_free(walls, policy),
{
}

/// Computes the relative rotation of two walls, folded into the range from
/// zero to half a turn.
pub fn normalize_angle_diff(a: i32, b: i32) -> (diff: i32)
    ensures
        diff == angle_diff(a as int, b as int),
        0 <= diff <= HALF_TURN_MICRORADIANS,
{
    let raw: u64 = if a >= b {
        (a as i64 - b as i64) as u64
    } else {
        (b as i64 - a as i64) as u64
    };
    let wrapped: u64 = raw % (FULL_TURN_MICRORADIANS as u64);
    if wrapped > HALF_TURN_MICRORADIANS as u64 {
        (FULL_TURN_MICRORADIANS as u64 - wrapped) as i32
    } else {
        wrapped as i32
    }
}

fn points_within(p: MilliVec2, q: MilliVec2, limit: i32) -> (near: bool)
    ensures
        near == within_distance(p, q, limit as int),
{
    if limit < 0 {
        return false;
    }
    let l: u128 = limit as u128;
    assert(l * l <= 0x7fff_ffff * 0x7fff_ffff) by (nonlinear_arith)
        requires
            l <= 0x7fff_ffff,
    ;
    p.distance_squared(q) <= l * l
}

fn check_wall_pair(
    i: usize,
    j: usize,
    a: &WallDef,
    b: &WallDef,
    policy: &ProcgenValidationPolicy,
) -> (res: Result<(), ChunkValidationError>)
    ensures
        res is Ok <==> pair_violation(*a, *b, *policy) is None,
        res matches Err(err) ==> {
            &&& Some(err.reason) == pair_violation(*a, *b, *policy)
            &&& err.detail@ == softlock_detail(i as int, j as int, *a, *b, *policy)
        },
{
    let diff: i32 = normalize_angle_diff(a.rotation, b.rotation);
    if points_within(a.position, b.position, policy.concave_trap_max_distance) {
        let delta: i32 = if diff >= RIGHT_ANGLE_MICRORADIANS {
            diff - RIGHT_ANGLE_MICRORADIANS
        } else {
            RIGHT_ANGLE_MICRORADIANS - diff
        };
        if delta <= policy.concave_right_angle_tolerance_microradians {
            let mut detail = String::from_str("Concave trap candidate at walls ");
            push_decimal(&mut detail, i as u128);
            detail.append("-");
            push_decimal(&mut detail, j as u128);
            detail.append(" (dist_sq=");
            push_decimal(&mut detail, a.position.distance_squared(b.position));
            detail.append(", angle=");
            push_decimal(&mut detail, diff as u128);
            detail.append(" urad)");
            return Err(ChunkValidationError { reason: ChunkValidationReason::ConcaveTrap, detail });
        }
    }
    if points_within(a.position, b.position, policy.exit_angle_check_distance) && diff > 0 && diff
        < policy.min_exit_angle_microradians {
        let mut detail = String::from_str("Exit angle fail at walls ");
        push_decimal(&mut detail, i as u128);
        detail.append("-");
        push_decimal(&mut detail, j as u128);
        detail.append(" (angle=");
        push_decimal(&mut detail, diff as u128);
        detail.append(" urad, min=");
        push_decimal(&mut detail, policy.min_exit_angle_microradians as u128);
        detail.append(" urad, dist_sq=");
        push_decimal(&mut detail, a.position.distance_squared(b.position));
        detail.append(")");
        return Err(ChunkValidationError { reason: ChunkValidationReason::ExitAngleFail, detail });
    }
    Ok(())
}

/// Checks every pair of walls against the two anti-softlock rules.
///
/// A pair is a concave trap if the wall centres are within
/// `concave_trap_max_distance` and the relative rotation is within
/// `concave_right_angle_tolerance_microradians` of a right angle. A pair fails
/// the exit-angle rule if the centres are within `exit_angle_check_distance`
/// and the relative rotation is above zero and below
/// `min_exit_angle_microradians`. Pairs are checked in the order `(i, j)` with
/// `i < j`, and the first pair that breaks a rule is reported.
pub fn validate_softlock_constraints_detailed(
    walls: &[WallDef],
    policy: &ProcgenValidationPolicy,
) -> (res: Result<(), ChunkValidationError>)
    ensures
        res is Ok <==> softlock_free(walls@, *policy),
        res matches Err(err) ==> {
            let (i, j) = first_violation(walls@, *policy);
            &&& is_first_violation(walls@, *policy, i, j)
            &&& Some(err.reason) == pair_violation(walls@[i], walls@[j], *policy)
            &&& Some(err.reason) == softlock_verdict(walls@, *policy)
            &&& err.detail@ == softlock_detail(i, j, walls@[i], walls@[j], *policy)
        },
        walls@.len() == 2 ==> {
            &&& res is Ok <==> pair_violation(walls@[0], walls@[1], *policy) is None
            &&& res matches Err(err) ==> Some(err.reason) == pair_violation(
                walls@[0],
                walls@[1],
                *policy,
            ) && err.detail@ == softlock_detail(0, 1, walls@[0], walls@[1], *policy)
        },
{
    let n = walls.len();
    let mut i: usize = 0;
    while i < n
        invariant
            n == walls@.len(),
            i <= n,
            forall|a: int, b: int|
                0 <= a < b < n && a < i ==> (#[trigger] pair_violation(
                    walls@[a],
                    walls@[b],
                    *policy,
                )) is None,
        decreases n - i,
    {
        let mut j: usize = i + 1;
        while j < n
            invariant
                n == walls@.len(),
                i < n,
                i < j <= n,
                forall|a: int, b: int|
                    0 <= a < b < n && pair_precedes(a, b, i as int, j as int) ==> (
                    #[trigger] pair_violation(walls@[a], walls@[b], *policy)) is None,
            decreases n - j,
        {
            match check_wall_pair(i, j, &walls[i], &walls[j], policy) {
                Ok(()) => {},
                Err(err) => {
                    proof {
                        lemma_first_violation_found(walls@, *policy, i as int, j as int);
                    }
                    return Err(err);
                },
            }
            j += 1;
        }
        i += 1;
    }
    proof {
        if n == 2 {
            assert(pair_violation(walls@[0], walls@[1], *policy) is None);
        }
    }
    Ok(())
}

/// Checks a wall list against the default thresholds and reports a failure as
/// text.
pub fn validate_softlock_constraints(walls: &[WallDef]) -> (res: ValidationResult)
    ensures
        res is Pass <==> softlock_free(walls@, ProcgenValidationPolicy::default_spec()),
        res matches ValidationResult::Fail(detail) ==> {
            let policy = ProcgenValidationPolicy::default_spec();
            let (i, j) = first_violation(walls@, policy);
            &&& is_first_violation(walls@, policy, i, j)
            &&& detail@ == softlock_detail(i, j, walls@[i], walls@[j], policy)
        },
        walls@.len() == 2 ==> {
            let policy = ProcgenValidationPolicy::default_spec();
            &&& res is Pass <==> pair_violation(walls@[0], walls@[1], policy) is None
            &&& res matches ValidationResult::Fail(detail) ==> detail@ == softlock_detail(
                0,
                1,
                walls@[0],
                walls@[1],
                policy,
            )
        },
{
    let policy = ProcgenValidationPolicy::default();
    match validate_softlock_constraints_detailed(walls, &policy) {
        Ok(()) => ValidationResult::Pass,
        Err(err) => ValidationResult::Fail(err.detail),
    }
}

// ---------------------------------------------------------------------------
// Whole chunks
// ---------------------------------------------------------------------------

/// The reason for which a chunk is rejected after a chunk whose bottom edge is
/// `required`, or `None` if it is accepted. The edge is compared first.
pub open spec fn chunk_verdict(
    chunk: ChunkSchema,
    required: Seq<bool>,
    policy: ProcgenValidationPolicy,
) -> Option<ChunkValidationReason> {
    if chunk.top_profile@ != required {
        Some(ChunkValidationReason::ProfileMismatch)
    } else {
        softlock_verdict(chunk.walls@, policy)
    }
}

/// The text that goes with the rejection of a chunk.
pub open spec fn chunk_rejection_detail(
    chunk: ChunkSchema,
    required: Seq<bool>,
    policy: ProcgenValidationPolicy,
) -> Seq<char> {
    if chunk.top_profile@ != required {
        let i = first_mismatch(chunk.top_profile@, required);
        profile_mismatch_detail(i, required[i], chunk.top_profile@[i])
    } else {
        let (i, j) = first_violation(chunk.walls@, policy);
        softlock_detail(i, j, chunk.walls@[i], chunk.walls@[j], policy)
    }
}

/// Validates a chunk as the successor of a chunk whose bottom edge is
/// `required_profile`: first the edge, then the wall geometry.
pub fn validate_chunk_schema(
    chunk: &ChunkSchema,
    required_profile: &EdgeProfile,
    policy: &ProcgenValidationPolicy,
) -> (res: Result<(), ChunkValidationError>)
    ensures
        res is Ok <==> chunk_verdict(*chunk, required_profile@, *policy) is None,
        res matches Err(err) ==> {
            &&& Some(err.reason) == chunk_verdict(*chunk, required_profile@, *policy)
            &&& err.detail@ == chunk_rejection_detail(*chunk, required_profile@, *policy)
        },
{
    match validate_edge_match_detailed(&chunk.top_profile, required_profile) {
        Ok(()) => {},
        Err(err) => {
            return Err(err);
        },
    }
    validate_softlock_constraints_detailed(chunk.walls.as_slice(), policy)
}

} // verus!
