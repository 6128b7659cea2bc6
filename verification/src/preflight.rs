//! Batch validation of a whole library before a run.
//!
//! Each chunk is validated against its own top edge: a smoke test of the
//! authored data, distinct from the validation at selection time, which holds
//! a chunk against the bottom edge of the chunk before it.

use vstd::prelude::*;
use crate::schema::{ChunkLibrary, ChunkSchema};
use crate::telemetry::{one_if, RejectionReason, ValidationCounters};
use crate::text::{decimal, push_decimal};
use crate::validation::{
    chunk_verdict, validate_chunk_schema, ChunkValidationReason, ProcgenValidationPolicy,
};

verus! {

/// What the validation of a library found. Of the counters only those of the
/// two geometric reasons can be above zero.
#[derive(Debug, Clone, Copy, PartialEq, Eq, Structural)]
pub struct ProcgenPreflightSummary {
    pub total_chunks: usize,
    pub valid_chunks: usize,
    pub invalid_chunks: usize,
    /// Invalid chunks by reason.
    pub counters: ValidationCounters,
}

/// The reason for which a chunk fails against its own top edge, or `None` if
/// it passes.
pub open spec fn preflight_verdict(
    chunk: ChunkSchema,
    policy: ProcgenValidationPolicy,
) -> Option<ChunkValidationReason> {
    chunk_verdict(chunk, chunk.top_profile@, policy)
}

/// How many of the first `n` chunks pass.
pub open spec fn preflight_passes(
    chunks: Seq<ChunkSchema>,
    policy: ProcgenValidationPolicy,
    n: nat,
) -> nat
    decreases n,
{
    if n == 0 {
        0
    } else {
        preflight_passes(chunks, policy, (n - 1) as nat) + one_if(
            preflight_verdict(chunks[n - 1], policy) is None,
        ) as nat
    }
}

/// How many of the first `n` chunks fail for `reason`.
pub open spec fn preflight_failures(
    chunks: Seq<ChunkSchema>,
    policy: ProcgenValidationPolicy,
    reason: ChunkValidationReason,
    n: nat,
) -> nat
    decreases n,
{
    if n == 0 {
        0
    } else {
        preflight_failures(chunks, policy, reason, (n - 1) as nat) + one_if(
            preflight_verdict(chunks[n - 1], policy) == Some(reason),
        ) as nat
    }
}

impl ProcgenPreflightSummary {
    /// Whether the summary is that of the validation of `chunks` under
    /// `policy`.
    pub open spec fn is_result_of(
        self,
        chunks: Seq<ChunkSchema>,
        policy: ProcgenValidationPolicy,
    ) -> bool {
        &&& self.total_chunks == chunks.len()
        &&& self.valid_chunks == preflight_passes(chunks, policy, chunks.len())
        &&& self.invalid_chunks == chunks.len() - preflight_passes(chunks, policy, chunks.len())
        &&& self.counters.profile_mismatch == 0
        &&& self.counters.invalid_weight == 0
        &&& self.counters.no_candidate == 0
        &&& self.counters.concave_trap == preflight_failures(
            chunks,
            policy,
            ChunkValidationReason::ConcaveTrap,
            chunks.len(),
        )
        &&& self.counters.exit_angle_fail == preflight_failures(
            chunks,
            policy,
            ChunkValidationReason::ExitAngleFail,
            chunks.len(),
        )
    }
}

/// Every chunk either passes or fails for one of the two geometric reasons:
/// no chunk mismatches its own edge.
pub proof fn lemma_preflight_counts_add_up(
    chunks: Seq<ChunkSchema>,
    policy: ProcgenValidationPolicy,
    n: nat,
)
    ensures
        preflight_failures(chunks, policy, ChunkValidationReason::ProfileMismatch, n) == 0,
        preflight_passes(chunks, policy, n) + preflight_failures(
            chunks,
            policy,
            ChunkValidationReason::ConcaveTrap,
            n,
        ) + preflight_failures(chunks, policy, ChunkValidationReason::ExitAngleFail, n) == n,
    decreases n,
{
    if n > 0 {
        lemma_preflight_counts_add_up(chunks, policy, (n - 1) as nat);
        let verdict = preflight_verdict(chunks[n - 1], policy);
        assert(verdict != Some(ChunkValidationReason::ProfileMismatch));
    }
}

/// Validates every chunk of the library against its own top edge and counts
/// the outcomes.
pub fn run_preflight_validation(
    library: &ChunkLibrary,
    policy: &ProcgenValidationPolicy,
) -> (summary: ProcgenPreflightSummary)
    ensures
        summary.is_result_of(library.chunks@, *policy),
        summary.valid_chunks + summary.invalid_chunks == summary.total_chunks,
        summary.counters.concave_trap + summary.counters.exit_angle_fail
            == summary.invalid_chunks,
{
    let mut counters = ValidationCounters::default();
    assert(counters.count(RejectionReason::ProfileMismatch) == 0);
    assert(counters.count(RejectionReason::ConcaveTrap) == 0);
    assert(counters.count(RejectionReason::ExitAngleFail) == 0);
    assert(counters.count(RejectionReason::InvalidWeight) == 0);
    let mut valid: usize = 0;
    let mut invalid: usize = 0;
    let n = library.chunks.len();
    let mut i: usize = 0;
    while i < n
        invariant
            n == library.chunks@.len(),
            i <= n,
            valid == preflight_passes(library.chunks@, *policy, i as nat),
            valid + invalid == i,
            counters.profile_mismatch == preflight_failures(
                library.chunks@,
                *policy,
                ChunkValidationReason::ProfileMismatch,
                i as nat,
            ),
            counters.concave_trap == preflight_failures(
                library.chunks@,
                *policy,
                ChunkValidationReason::ConcaveTrap,
                i as nat,
            ),
            counters.exit_angle_fail == preflight_failures(
                library.chunks@,
                *policy,
                ChunkValidationReason::ExitAngleFail,
                i as nat,
            ),
            counters.invalid_weight == 0,
            counters.no_candidate == 0,
        decreases n - i,
    {
        let chunk = &library.chunks[i];
        proof {
            lemma_preflight_counts_add_up(library.chunks@, *policy, i as nat);
        }
        match validate_chunk_schema(chunk, &chunk.top_profile, policy) {
            Ok(()) => {
                valid = valid + 1;
            },
            Err(err) => {
                invalid = invalid + 1;
                let ghost before = counters;
                counters.record(err.reason);
                assert(counters.count(RejectionReason::ProfileMismatch) == before.count(
                    RejectionReason::ProfileMismatch,
                ) + one_if(err.reason == ChunkValidationReason::ProfileMismatch));
                assert(counters.count(RejectionReason::ConcaveTrap) == before.count(
                    RejectionReason::ConcaveTrap,
                ) + one_if(err.reason == ChunkValidationReason::ConcaveTrap));
                assert(counters.count(RejectionReason::ExitAngleFail) == before.count(
                    RejectionReason::ExitAngleFail,
                ) + one_if(err.reason == ChunkValidationReason::ExitAngleFail));
                assert(counters.count(RejectionReason::InvalidWeight) == before.count(
                    RejectionReason::InvalidWeight,
                ));
            },
        }
        i += 1;
    }
    proof {
        lemma_preflight_counts_add_up(library.chunks@, *policy, n as nat);
    }
    ProcgenPreflightSummary { total_chunks: n, valid_chunks: valid, invalid_chunks: invalid, counters }
}

/// The text of a preflight report: a title and six lines, each a name and a
/// number.
pub open spec fn preflight_report(summary: ProcgenPreflightSummary) -> Seq<char> {
    "Procgen Preflight Summary\n"@ + "total_chunks: "@ + decimal(summary.total_chunks as nat)
        + "\n"@ + "valid_chunks: "@ + decimal(summary.valid_chunks as nat) + "\n"@
        + "invalid_chunks: "@ + decimal(summary.invalid_chunks as nat) + "\n"@
        + "rejections.profile_mismatch: "@ + decimal(summary.counters.profile_mismatch as nat)
        + "\n"@ + "rejections.concave_trap: "@ + decimal(summary.counters.concave_trap as nat)
        + "\n"@ + "rejections.exit_angle_fail: "@ + decimal(
        summary.counters.exit_angle_fail as nat,
    ) + "\n"@
}

fn push_report_line(out: &mut String, label: &str, value: u128)
    ensures
        final(out)@ == old(out)@ + label@ + decimal(value as nat) + "\n"@,
{
    out.append(label);
    push_decimal(out, value);
    out.append("\n");
}

/// Renders a preflight summary as plain text.
pub fn format_preflight_summary(summary: &ProcgenPreflightSummary) -> (report: String)
    ensures
        report@ == preflight_report(*summary),
{
    let mut report = String::from_str("Procgen Preflight Summary\n");
    push_report_line(&mut report, "total_chunks: ", summary.total_chunks as u128);
    push_report_line(&mut report, "valid_chunks: ", summary.valid_chunks as u128);
    push_report_line(&mut report, "invalid_chunks: ", summary.invalid_chunks as u128);
    push_report_line(
        &mut report,
        "rejections.profile_mismatch: ",
        summary.counters.profile_mismatch as u128,
    );
    push_report_line(
        &mut report,
        "rejections.concave_trap: ",
        summary.counters.concave_trap as u128,
    );
    push_report_line(
        &mut report,
        "rejections.exit_angle_fail: ",
        summary.counters.exit_angle_fail as u128,
    );
    report
}

} // verus!
