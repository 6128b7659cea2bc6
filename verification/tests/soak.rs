use nebula_procgen::selector::pick_weighted_index;
use nebula_procgen::soak::{simulate_procgen_soak, ProcgenSoakConfig};
use nebula_procgen::{
    determine_target_pacing, ChunkLibrary, ChunkPacing, ChunkSchema, MilliVec2, RandomSource,
    ValidationCounters, SeededSource, WallDef, PROFILE_RESOLUTION,
};

fn make_chunk(name: &str, pacing: ChunkPacing, weight: i32) -> ChunkSchema {
    ChunkSchema {
        name: name.to_string(),
        pacing,
        weight,
        top_profile: [false; PROFILE_RESOLUTION],
        bottom_profile: [false; PROFILE_RESOLUTION],
        ..ChunkSchema::default()
    }
}

#[test]
fn test_soak_same_seed_produces_identical_sequence() {
    let library = ChunkLibrary {
        chunks: vec![
            make_chunk("open_a", ChunkPacing::Open, 1_000_000),
            make_chunk("open_b", ChunkPacing::Open, 1_000_000),
            make_chunk("open_c", ChunkPacing::Open, 1_000_000),
        ],
    };

    let config = ProcgenSoakConfig {
        seed: 1337,
        steps: 40,
        ..Default::default()
    };

    let run_a = simulate_procgen_soak(&library, &config);
    let run_b = simulate_procgen_soak(&library, &config);

    assert_eq!(run_a.chunk_sequence, run_b.chunk_sequence);
    assert_eq!(run_a.pacing_sequence, run_b.pacing_sequence);
    assert_eq!(run_a.rejection_counts, run_b.rejection_counts);
}

#[test]
fn test_soak_different_seed_produces_divergent_sequence() {
    let library = ChunkLibrary {
        chunks: vec![
            make_chunk("open_a", ChunkPacing::Open, 1_000_000),
            make_chunk("open_b", ChunkPacing::Open, 1_000_000),
            make_chunk("open_c", ChunkPacing::Open, 1_000_000),
        ],
    };

    let config_a = ProcgenSoakConfig {
        seed: 7,
        steps: 48,
        ..Default::default()
    };
    let config_b = ProcgenSoakConfig {
        seed: 987654,
        steps: 48,
        ..Default::default()
    };

    let run_a = simulate_procgen_soak(&library, &config_a);
    let run_b = simulate_procgen_soak(&library, &config_b);

    assert_ne!(run_a.chunk_sequence, run_b.chunk_sequence);
}

#[test]
fn test_soak_pacing_progression_constraints_hold() {
    let library = ChunkLibrary {
        chunks: vec![
            make_chunk("open", ChunkPacing::Open, 1_000_000),
            make_chunk("transition", ChunkPacing::Transition, 1_000_000),
            make_chunk("dense", ChunkPacing::Dense, 1_000_000),
        ],
    };

    let summary = simulate_procgen_soak(
        &library,
        &ProcgenSoakConfig {
            seed: 11,
            steps: 9,
            ..Default::default()
        },
    );

    let expected = vec![
        ChunkPacing::Open,
        ChunkPacing::Open,
        ChunkPacing::Transition,
        ChunkPacing::Dense,
        ChunkPacing::Transition,
        ChunkPacing::Open,
        ChunkPacing::Open,
        ChunkPacing::Transition,
        ChunkPacing::Dense,
    ];

    assert_eq!(summary.steps_completed, expected.len());
    assert_eq!(summary.pacing_sequence, expected);
    assert_eq!(summary.longest_same_pacing_streak, 2);
    assert_eq!(summary.pacing_fallback_count, 0);
}

#[test]
fn default_soak_config_is_seed_one_and_128_steps() {
    let config = ProcgenSoakConfig::default();
    assert_eq!(config.seed, 1);
    assert_eq!(config.steps, 128);
    assert_eq!(config.start_profile, [false; PROFILE_RESOLUTION]);
    assert_eq!(config.start_current_pacing, ChunkPacing::Open);
    assert_eq!(config.start_previous_pacing, ChunkPacing::Open);
    assert_eq!(config.start_chunks_in_current_pacing, 0);
}

#[test]
fn soak_summary_counts_follow_from_its_sequences() {
    let library = ChunkLibrary {
        chunks: vec![
            make_chunk("open_a", ChunkPacing::Open, 1_000_000),
            make_chunk("open_b", ChunkPacing::Open, 3_000_000),
            make_chunk("transition_a", ChunkPacing::Transition, 1_000_000),
            make_chunk("transition_b", ChunkPacing::Transition, 1_000_000),
            make_chunk("dense_a", ChunkPacing::Dense, 2_000_000),
            make_chunk("dense_b", ChunkPacing::Dense, 1_000_000),
            make_chunk("unused", ChunkPacing::Dense, 0),
        ],
    };
    let config = ProcgenSoakConfig {
        seed: 2024,
        steps: 200,
        ..Default::default()
    };
    let summary = simulate_procgen_soak(&library, &config);
    assert_eq!(summary.seed, 2024);
    assert_eq!(summary.steps_requested, 200);
    assert_eq!(summary.steps_completed, 200);
    assert_eq!(summary.pacing_sequence.len(), 200);
    assert_eq!(summary.chunk_sequence.len(), 200);
    for pacing in [ChunkPacing::Open, ChunkPacing::Transition, ChunkPacing::Dense] {
        let count = summary.pacing_sequence.iter().filter(|p| **p == pacing).count();
        assert_eq!(summary.pacing_pick_counts.get(pacing), count as u64);
    }
    // Five chunks make a cycle: two open, one transition, one dense, one transition.
    assert_eq!(summary.pacing_pick_counts.open, 80);
    assert_eq!(summary.pacing_pick_counts.transition, 80);
    assert_eq!(summary.pacing_pick_counts.dense, 40);
    let mut total = 0;
    for chunk in &library.chunks {
        let count = summary.chunk_sequence.iter().filter(|n| **n == chunk.name).count();
        assert_eq!(summary.chunk_pick_counts.get(&chunk.name), count as u64);
        total += count;
    }
    assert_eq!(total, 200);
    assert_eq!(summary.chunk_pick_counts.sum(), 200);
    assert_eq!(summary.chunk_pick_counts.get("unused"), 0);
    assert_eq!(summary.chunk_pick_counts.len(), 6);
    assert_eq!(summary.longest_same_pacing_streak, 2);
    assert_eq!(summary.pacing_fallback_count, 0);
    assert_eq!(
        summary.rejection_counts,
        ValidationCounters {
            profile_mismatch: 0,
            concave_trap: 0,
            exit_angle_fail: 0,
            invalid_weight: 200,
            no_candidate: 0,
        }
    );
    for (k, name) in summary.chunk_sequence.iter().enumerate() {
        let chunk = library.chunks.iter().find(|c| c.name == *name).unwrap();
        assert_eq!(chunk.pacing, summary.pacing_sequence[k]);
    }
}

#[test]
fn soak_run_is_the_selector_driven_by_the_seeded_words() {
    let library = ChunkLibrary {
        chunks: vec![
            make_chunk("open_a", ChunkPacing::Open, 1_000_000),
            make_chunk("open_b", ChunkPacing::Open, 2_000_000),
            make_chunk("open_c", ChunkPacing::Open, 3_000_000),
        ],
    };
    let config = ProcgenSoakConfig {
        seed: 77,
        steps: 60,
        ..Default::default()
    };
    let summary = simulate_procgen_soak(&library, &config);
    let mut source = SeededSource::new(77);
    let weights = vec![1_000_000, 2_000_000, 3_000_000];
    let mut expected = Vec::new();
    for _ in 0..60 {
        let index = pick_weighted_index(&weights, source.draw()).unwrap();
        expected.push(library.chunks[index].name.clone());
    }
    assert_eq!(summary.chunk_sequence, expected);
    // With open chunks only, the target leaves the open tier after two chunks
    // and every later pick is a fallback.
    assert_eq!(summary.pacing_fallback_count, 58);
    assert_eq!(summary.longest_same_pacing_streak, 60);
    assert_eq!(summary.pacing_pick_counts.open, 60);
}

#[test]
fn soak_stops_early_when_a_step_finds_no_candidate() {
    let mut dead_end = make_chunk("dead_end", ChunkPacing::Open, 1_000_000);
    dead_end.bottom_profile[3] = true;
    let library = ChunkLibrary {
        chunks: vec![dead_end, make_chunk("weightless", ChunkPacing::Open, 0)],
    };
    let summary = simulate_procgen_soak(
        &library,
        &ProcgenSoakConfig {
            seed: 5,
            steps: 10,
            ..Default::default()
        },
    );
    assert_eq!(summary.steps_requested, 10);
    assert_eq!(summary.steps_completed, 1);
    assert_eq!(summary.chunk_sequence, vec!["dead_end".to_string()]);
    assert_eq!(summary.pacing_sequence, vec![ChunkPacing::Open]);
    assert_eq!(summary.longest_same_pacing_streak, 1);
    assert_eq!(summary.pacing_fallback_count, 0);
    assert_eq!(
        summary.rejection_counts,
        ValidationCounters {
            profile_mismatch: 2,
            concave_trap: 0,
            exit_angle_fail: 0,
            invalid_weight: 1,
            no_candidate: 1,
        }
    );
}

#[test]
fn soak_on_an_empty_library_or_with_no_steps_selects_nothing() {
    let empty = ChunkLibrary::default();
    let summary = simulate_procgen_soak(&empty, &ProcgenSoakConfig::default());
    assert_eq!(summary.steps_requested, 128);
    assert_eq!(summary.steps_completed, 0);
    assert!(summary.chunk_sequence.is_empty());
    assert!(summary.pacing_sequence.is_empty());
    assert_eq!(summary.longest_same_pacing_streak, 0);
    assert_eq!(summary.rejection_counts.no_candidate, 1);
    assert_eq!(summary.chunk_pick_counts.len(), 0);

    let library = ChunkLibrary {
        chunks: vec![make_chunk("open", ChunkPacing::Open, 1_000_000)],
    };
    let none = simulate_procgen_soak(
        &library,
        &ProcgenSoakConfig {
            steps: 0,
            ..Default::default()
        },
    );
    assert_eq!(none.steps_completed, 0);
    assert_eq!(none.rejection_counts, ValidationCounters::default());
}

#[test]
fn soak_starts_from_the_configured_cursor() {
    let mut start_profile = [false; PROFILE_RESOLUTION];
    start_profile[2] = true;
    let mut entry = make_chunk("entry", ChunkPacing::Dense, 1_000_000);
    entry.top_profile = start_profile;
    let library = ChunkLibrary {
        chunks: vec![
            entry,
            make_chunk("open", ChunkPacing::Open, 1_000_000),
            make_chunk("transition", ChunkPacing::Transition, 1_000_000),
            make_chunk("dense", ChunkPacing::Dense, 1_000_000),
        ],
    };
    let summary = simulate_procgen_soak(
        &library,
        &ProcgenSoakConfig {
            seed: 1,
            steps: 4,
            start_profile,
            start_current_pacing: ChunkPacing::Transition,
            start_previous_pacing: ChunkPacing::Open,
            start_chunks_in_current_pacing: 1,
        },
    );
    assert_eq!(
        determine_target_pacing(ChunkPacing::Transition, ChunkPacing::Open, 1),
        ChunkPacing::Dense
    );
    assert_eq!(
        summary.chunk_sequence,
        vec!["entry", "transition", "open", "open"]
    );
    assert_eq!(summary.pacing_fallback_count, 0);
    assert_eq!(summary.rejection_counts.profile_mismatch, 3 + 1 + 1 + 1);
}

#[test]
fn soak_with_a_saturated_run_length_keeps_going() {
    let library = ChunkLibrary {
        chunks: vec![make_chunk("open", ChunkPacing::Open, 1_000_000)],
    };
    let summary = simulate_procgen_soak(
        &library,
        &ProcgenSoakConfig {
            seed: 1,
            steps: 5,
            start_chunks_in_current_pacing: usize::MAX,
            ..Default::default()
        },
    );
    assert_eq!(summary.steps_completed, 5);
    assert_eq!(summary.pacing_fallback_count, 5);
}

#[test]
fn soak_counts_geometric_rejections_at_every_step() {
    let mut trapped = make_chunk("trapped", ChunkPacing::Open, 1_000_000);
    trapped.walls = vec![
        WallDef {
            position: MilliVec2::new(0, 0),
            size: MilliVec2::new(100_000, 20_000),
            rotation: 0,
        },
        WallDef {
            position: MilliVec2::new(40_000, 35_000),
            size: MilliVec2::new(100_000, 20_000),
            rotation: 1_570_796,
        },
    ];
    let mut narrow = make_chunk("narrow", ChunkPacing::Open, 1_000_000);
    narrow.walls = vec![
        WallDef {
            position: MilliVec2::new(0, 0),
            size: MilliVec2::new(50_000, 10_000),
            rotation: 0,
        },
        WallDef {
            position: MilliVec2::new(90_000, 10_000),
            size: MilliVec2::new(50_000, 10_000),
            rotation: 300_000,
        },
    ];
    let library = ChunkLibrary {
        chunks: vec![trapped, make_chunk("fine", ChunkPacing::Open, 1_000_000), narrow],
    };
    let summary = simulate_procgen_soak(
        &library,
        &ProcgenSoakConfig {
            seed: 3,
            steps: 12,
            ..Default::default()
        },
    );
    assert_eq!(summary.steps_completed, 12);
    assert_eq!(summary.rejection_counts.concave_trap, 12);
    assert_eq!(summary.rejection_counts.exit_angle_fail, 12);
    assert_eq!(summary.chunk_pick_counts.get("fine"), 12);
}
