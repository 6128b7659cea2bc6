use nebula_procgen::generation::{plan_next_chunk, PlannedChunk};
use nebula_procgen::preflight::run_preflight_validation;
use nebula_procgen::validation::{ChunkValidationReason, ProcgenValidationPolicy};
use nebula_procgen::{
    ChunkLibrary, ChunkPacing, ChunkPlacement, ChunkSchema, LiveSource, MiniGame, ProcGenState,
    ProcgenValidatorTelemetry, SeededSource, ValidationCounters, PROFILE_RESOLUTION,
};

fn make_chunk(name: &str, pacing: ChunkPacing, weight: i32) -> ChunkSchema {
    ChunkSchema {
        name: name.to_string(),
        pacing,
        weight,
        top_profile: [false; PROFILE_RESOLUTION],
        bottom_profile: [false; PROFILE_RESOLUTION],
        ..ChunkSchema::default()
    }
}

#[test]
fn validation_counters_count_by_reason() {
    let mut counters = ValidationCounters::default();
    assert_eq!(
        counters,
        ValidationCounters {
            profile_mismatch: 0,
            concave_trap: 0,
            exit_angle_fail: 0,
            invalid_weight: 0,
            no_candidate: 0,
        }
    );
    counters.record(ChunkValidationReason::ConcaveTrap);
    counters.record(ChunkValidationReason::ProfileMismatch);
    counters.record(ChunkValidationReason::ConcaveTrap);
    counters.record(ChunkValidationReason::ExitAngleFail);
    counters.record_invalid_weight();
    counters.record_invalid_weight();
    counters.record_invalid_weight();
    counters.record_no_candidate();
    let expected = ValidationCounters {
        profile_mismatch: 1,
        concave_trap: 2,
        exit_angle_fail: 1,
        invalid_weight: 3,
        no_candidate: 1,
    };
    assert_eq!(counters, expected);
    let mut sum = expected;
    sum.absorb(&counters);
    assert_eq!(
        sum,
        ValidationCounters {
            profile_mismatch: 2,
            concave_trap: 4,
            exit_angle_fail: 2,
            invalid_weight: 6,
            no_candidate: 2,
        }
    );
}

#[test]
fn telemetry_accumulates_across_selections() {
    let mut telemetry = ProcgenValidatorTelemetry::default();
    let counters = ValidationCounters {
        profile_mismatch: 3,
        concave_trap: 2,
        exit_angle_fail: 1,
        invalid_weight: 4,
        no_candidate: 1,
    };
    telemetry.record_runtime_rejections(&counters);
    telemetry.record_runtime_rejections(&counters);
    telemetry.record_selection();
    telemetry.record_selection();
    telemetry.record_pacing_fallback();
    telemetry.record_selection();
    assert_eq!(telemetry.profile_mismatch_rejections, 6);
    assert_eq!(telemetry.concave_trap_rejections, 4);
    assert_eq!(telemetry.exit_angle_fail_rejections, 2);
    assert_eq!(telemetry.invalid_weight_rejections, 8);
    assert_eq!(telemetry.no_candidate_rejections, 2);
    assert_eq!(telemetry.selected_chunks, 3);
    assert_eq!(telemetry.pacing_fallback_picks, 1);
    assert_eq!(telemetry.preflight_summary_path, None);

    let library = ChunkLibrary {
        chunks: vec![make_chunk("a", ChunkPacing::Open, 1_000_000)],
    };
    let summary = run_preflight_validation(&library, &ProcgenValidationPolicy::default());
    telemetry.set_preflight(&summary, "reports/preflight.txt".to_string());
    assert_eq!(telemetry.preflight_total_chunks, 1);
    assert_eq!(telemetry.preflight_invalid_chunks, 0);
    assert_eq!(telemetry.preflight_summary_path.as_deref(), Some("reports/preflight.txt"));
    assert_eq!(telemetry.selected_chunks, 3);
}

#[test]
fn planning_moves_the_cursor_once_per_selection() {
    let mut second = make_chunk("transition", ChunkPacing::Transition, 1_000_000);
    second.height = 400_000;
    let library = ChunkLibrary {
        chunks: vec![
            make_chunk("open", ChunkPacing::Open, 1_000_000),
            second,
            make_chunk("dense", ChunkPacing::Dense, 1_000_000),
            make_chunk("weightless", ChunkPacing::Dense, 0),
        ],
    };
    let policy = ProcgenValidationPolicy::default();
    let mut state = ProcGenState::default();
    state.begin_run();
    let mut telemetry = ProcgenValidatorTelemetry::default();
    let mut source = SeededSource::new(state.global_seed);

    let mut planned = Vec::new();
    for _ in 0..5 {
        planned.push(
            plan_next_chunk(&mut state, &library, &policy, &mut telemetry, &mut source).unwrap(),
        );
    }
    assert_eq!(
        planned,
        vec![
            PlannedChunk {
                index: 0,
                placement: ChunkPlacement {
                    center_y: 400_000,
                    sequence_number: 0
                },
                used_pacing_fallback: false,
            },
            PlannedChunk {
                index: 0,
                placement: ChunkPlacement {
                    center_y: 1_200_000,
                    sequence_number: 1
                },
                used_pacing_fallback: false,
            },
            PlannedChunk {
                index: 1,
                placement: ChunkPlacement {
                    center_y: 1_800_000,
                    sequence_number: 2
                },
                used_pacing_fallback: false,
            },
            PlannedChunk {
                index: 2,
                placement: ChunkPlacement {
                    center_y: 2_400_000,
                    sequence_number: 3
                },
                used_pacing_fallback: false,
            },
            PlannedChunk {
                index: 1,
                placement: ChunkPlacement {
                    center_y: 3_000_000,
                    sequence_number: 4
                },
                used_pacing_fallback: false,
            },
        ]
    );
    assert_eq!(state.chunks_spawned, 5);
    assert_eq!(state.next_spawn_y, 3_200_000);
    assert_eq!(state.current_pacing, ChunkPacing::Transition);
    assert_eq!(state.previous_pacing, ChunkPacing::Dense);
    assert_eq!(state.chunks_in_current_pacing, 1);
    assert_eq!(telemetry.selected_chunks, 5);
    assert_eq!(telemetry.pacing_fallback_picks, 0);
    assert_eq!(telemetry.invalid_weight_rejections, 5);
    assert_eq!(telemetry.no_candidate_rejections, 0);
}

#[test]
fn planning_without_a_candidate_leaves_the_cursor_alone() {
    let mut dead_end = make_chunk("dead_end", ChunkPacing::Dense, 1_000_000);
    dead_end.bottom_profile[9] = true;
    let library = ChunkLibrary {
        chunks: vec![dead_end],
    };
    let policy = ProcgenValidationPolicy::default();
    let mut state = ProcGenState::default();
    let mut telemetry = ProcgenValidatorTelemetry::default();
    let mut source = LiveSource::new();

    let first = plan_next_chunk(&mut state, &library, &policy, &mut telemetry, &mut source);
    assert_eq!(
        first,
        Some(PlannedChunk {
            index: 0,
            placement: ChunkPlacement {
                center_y: 400_000,
                sequence_number: 0
            },
            used_pacing_fallback: true,
        })
    );
    assert_eq!(telemetry.pacing_fallback_picks, 1);
    let after_first = state;

    for attempt in 1..=3u64 {
        let next = plan_next_chunk(&mut state, &library, &policy, &mut telemetry, &mut source);
        assert_eq!(next, None);
        assert_eq!(state.next_spawn_y, after_first.next_spawn_y);
        assert_eq!(state.chunks_spawned, 1);
        assert_eq!(state.current_pacing, ChunkPacing::Dense);
        assert_eq!(state.previous_pacing, ChunkPacing::Open);
        assert_eq!(state.chunks_in_current_pacing, 1);
        assert_eq!(state.last_chunk_bottom_profile, after_first.last_chunk_bottom_profile);
        assert_eq!(telemetry.selected_chunks, 1);
        assert_eq!(telemetry.no_candidate_rejections, attempt);
        assert_eq!(telemetry.profile_mismatch_rejections, attempt);
    }
}

struct Fixture;

impl MiniGame for Fixture {
    fn name(&self) -> &'static str {
        "Fixture"
    }

    fn completion_threshold(&self) -> u64 {
        5000
    }
}

struct HardFixture;

impl MiniGame for HardFixture {
    fn name(&self) -> &'static str {
        "Hard"
    }

    fn completion_threshold(&self) -> u64 {
        1
    }

    fn starting_lives(&self) -> i32 {
        1
    }
}

#[test]
fn mini_games_start_with_three_lives_unless_they_say_otherwise() {
    assert_eq!(Fixture.name(), "Fixture");
    assert_eq!(Fixture.completion_threshold(), 5000);
    assert_eq!(Fixture.starting_lives(), 3);
    assert_eq!(HardFixture.starting_lives(), 1);
}
