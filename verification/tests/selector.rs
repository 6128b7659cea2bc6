use nebula_procgen::selector::{
    collect_candidates, pick_weighted_index, select_chunk, select_chunk_validated,
    select_chunk_with, ChunkSelection,
};
use nebula_procgen::validation::ProcgenValidationPolicy;
use nebula_procgen::{
    ChunkLibrary, ChunkPacing, ChunkSchema, LiveSource, MilliVec2, ValidationCounters,
    SeededSource, WallDef, DRAW_DENOMINATOR, PROFILE_RESOLUTION,
};

fn make_chunk(name: &str, pacing: ChunkPacing, weight: i32) -> ChunkSchema {
    ChunkSchema {
        name: name.to_string(),
        pacing,
        weight,
        top_profile: [false; PROFILE_RESOLUTION],
        bottom_profile: [false; PROFILE_RESOLUTION],
        ..ChunkSchema::default()
    }
}

fn trap_walls() -> Vec<WallDef> {
    vec![
        WallDef {
            position: MilliVec2::new(0, 0),
            size: MilliVec2::new(100_000, 20_000),
            rotation: 0,
        },
        WallDef {
            position: MilliVec2::new(40_000, 35_000),
            size: MilliVec2::new(100_000, 20_000),
            rotation: 1_570_796,
        },
    ]
}

fn corridor_walls() -> Vec<WallDef> {
    vec![
        WallDef {
            position: MilliVec2::new(0, 0),
            size: MilliVec2::new(50_000, 10_000),
            rotation: 0,
        },
        WallDef {
            position: MilliVec2::new(90_000, 10_000),
            size: MilliVec2::new(50_000, 10_000),
            rotation: 300_000,
        },
    ]
}

/// The least word whose fraction is `fraction`.
fn word_of(fraction: u32) -> u32 {
    fraction * 256
}

#[test]
fn test_select_chunk_with_pacing() {
    let chunk_open = ChunkSchema {
        name: "Open1".to_string(),
        pacing: ChunkPacing::Open,
        top_profile: [false; PROFILE_RESOLUTION],
        walls: vec![WallDef {
            position: MilliVec2::new(0, 0),
            size: MilliVec2::new(100_000, 12_000),
            rotation: 0,
        }],
        ..ChunkSchema::default()
    };
    let chunk_dense = ChunkSchema {
        name: "Dense1".to_string(),
        pacing: ChunkPacing::Dense,
        top_profile: [false; PROFILE_RESOLUTION],
        walls: vec![WallDef {
            position: MilliVec2::new(220_000, 0),
            size: MilliVec2::new(100_000, 12_000),
            rotation: 1_570_796,
        }],
        ..ChunkSchema::default()
    };

    let library = ChunkLibrary {
        chunks: vec![chunk_open, chunk_dense],
    };

    let current_profile = [false; PROFILE_RESOLUTION];

    let selected = select_chunk(&library, &current_profile, ChunkPacing::Open).unwrap();
    assert_eq!(selected.pacing, ChunkPacing::Open);
}

#[test]
fn candidates_are_sorted_by_reason() {
    let mut mismatched = make_chunk("mismatched", ChunkPacing::Open, 1_000_000);
    mismatched.top_profile[5] = true;
    let mut trapped = make_chunk("trapped", ChunkPacing::Open, 1_000_000);
    trapped.walls = trap_walls();
    let mut narrow = make_chunk("narrow", ChunkPacing::Dense, 1_000_000);
    narrow.walls = corridor_walls();
    // The edge is compared first: this chunk counts as a profile mismatch.
    let mut mismatched_and_trapped = make_chunk("both", ChunkPacing::Open, 0);
    mismatched_and_trapped.top_profile[0] = true;
    mismatched_and_trapped.walls = trap_walls();
    // Validation comes before the weight: this chunk counts as a concave trap.
    let mut trapped_and_weightless = make_chunk("trapped0", ChunkPacing::Open, 0);
    trapped_and_weightless.walls = trap_walls();
    let library = ChunkLibrary {
        chunks: vec![
            make_chunk("open_a", ChunkPacing::Open, 1_000_000),
            mismatched,
            make_chunk("zero", ChunkPacing::Open, 0),
            trapped,
            make_chunk("dense_a", ChunkPacing::Dense, 2_000_000),
            make_chunk("negative", ChunkPacing::Dense, -5),
            narrow,
            make_chunk("open_b", ChunkPacing::Open, 1),
            mismatched_and_trapped,
            trapped_and_weightless,
        ],
    };
    let policy = ProcgenValidationPolicy::default();
    let set = collect_candidates(
        &library,
        &[false; PROFILE_RESOLUTION],
        ChunkPacing::Open,
        &policy,
    );
    assert_eq!(set.eligible, vec![0, 4, 7]);
    assert_eq!(set.preferred, vec![0, 7]);
    assert_eq!(
        set.rejections,
        ValidationCounters {
            profile_mismatch: 2,
            concave_trap: 2,
            exit_angle_fail: 1,
            invalid_weight: 2,
            no_candidate: 0,
        }
    );
    let dense = collect_candidates(
        &library,
        &[false; PROFILE_RESOLUTION],
        ChunkPacing::Dense,
        &policy,
    );
    assert_eq!(dense.eligible, vec![0, 4, 7]);
    assert_eq!(dense.preferred, vec![4]);
    let transition = collect_candidates(
        &library,
        &[false; PROFILE_RESOLUTION],
        ChunkPacing::Transition,
        &policy,
    );
    assert_eq!(transition.eligible, vec![0, 4, 7]);
    assert!(transition.preferred.is_empty());
}

#[test]
fn draw_denominator_is_two_to_the_24() {
    assert_eq!(DRAW_DENOMINATOR, 1 << 24);
}

#[test]
fn roulette_picks_by_cumulative_weight() {
    let equal = vec![1_000_000, 1_000_000, 1_000_000];
    // A third of two to the power 24 is 5592405 and a third.
    assert_eq!(pick_weighted_index(&equal, 0), Some(0));
    assert_eq!(pick_weighted_index(&equal, 255), Some(0));
    assert_eq!(pick_weighted_index(&equal, word_of(5_592_405)), Some(0));
    assert_eq!(pick_weighted_index(&equal, word_of(5_592_405) + 255), Some(0));
    assert_eq!(pick_weighted_index(&equal, word_of(5_592_406)), Some(1));
    assert_eq!(pick_weighted_index(&equal, word_of(11_184_810)), Some(1));
    assert_eq!(pick_weighted_index(&equal, word_of(11_184_811)), Some(2));
    assert_eq!(pick_weighted_index(&equal, u32::MAX), Some(2));
    assert_eq!(pick_weighted_index(&Vec::new(), 12345), None);
    assert_eq!(pick_weighted_index(&vec![5], 0), Some(0));
    assert_eq!(pick_weighted_index(&vec![5], u32::MAX), Some(0));
}

#[test]
fn roulette_follows_uneven_weights() {
    let uneven = vec![1, 3];
    // The mark is fraction * 4 / 2^24; the first weight ends at 1.
    assert_eq!(pick_weighted_index(&uneven, word_of(0)), Some(0));
    assert_eq!(pick_weighted_index(&uneven, word_of(1 << 22)), Some(0));
    assert_eq!(pick_weighted_index(&uneven, word_of((1 << 22) + 1)), Some(1));
    assert_eq!(pick_weighted_index(&uneven, u32::MAX), Some(1));
}

#[test]
fn roulette_skips_weightless_candidates_unless_the_mark_is_at_the_start() {
    let mixed = vec![0, -7, 10];
    assert_eq!(pick_weighted_index(&mixed, 0), Some(0));
    assert_eq!(pick_weighted_index(&mixed, 256), Some(2));
    assert_eq!(pick_weighted_index(&mixed, u32::MAX), Some(2));
    // Without any usable weight the mark is at the start.
    let weightless = vec![0, -7];
    assert_eq!(pick_weighted_index(&weightless, 0), Some(0));
    assert_eq!(pick_weighted_index(&weightless, u32::MAX), Some(0));
}

#[test]
fn roulette_takes_the_largest_weights() {
    let largest = vec![i32::MAX, i32::MAX];
    assert_eq!(pick_weighted_index(&largest, word_of(1 << 23)), Some(0));
    assert_eq!(pick_weighted_index(&largest, word_of((1 << 23) + 1)), Some(1));
}

#[test]
fn selection_walks_the_candidates_in_library_order() {
    let library = ChunkLibrary {
        chunks: vec![
            make_chunk("rare", ChunkPacing::Open, 1),
            make_chunk("other_tier", ChunkPacing::Dense, 1_000_000),
            make_chunk("common", ChunkPacing::Open, 3),
        ],
    };
    let policy = ProcgenValidationPolicy::default();
    let weights = vec![1, 3];
    for seed in 0..40u64 {
        let mut words = SeededSource::new(seed);
        let word = nebula_procgen::RandomSource::draw(&mut words);
        let mut source = SeededSource::new(seed);
        let (selection, _) = select_chunk_with(
            &library,
            &[false; PROFILE_RESOLUTION],
            ChunkPacing::Open,
            &policy,
            &mut source,
        );
        let expected = if pick_weighted_index(&weights, word) == Some(0) { 0 } else { 2 };
        assert_eq!(selection.unwrap().index, expected);
    }
}

#[test]
fn selection_prefers_the_target_tier() {
    let library = ChunkLibrary {
        chunks: vec![
            make_chunk("open", ChunkPacing::Open, 1_000_000),
            make_chunk("dense", ChunkPacing::Dense, 1_000_000),
        ],
    };
    let policy = ProcgenValidationPolicy::default();
    for seed in 0..32u64 {
        let mut source = SeededSource::new(seed);
        let (selection, rejections) = select_chunk_with(
            &library,
            &[false; PROFILE_RESOLUTION],
            ChunkPacing::Dense,
            &policy,
            &mut source,
        );
        assert_eq!(
            selection,
            Some(ChunkSelection {
                index: 1,
                used_pacing_fallback: false
            })
        );
        assert_eq!(rejections, ValidationCounters::default());
    }
}

#[test]
fn selection_falls_back_across_tiers_and_says_so() {
    let mut mismatched = make_chunk("dense", ChunkPacing::Dense, 1_000_000);
    mismatched.top_profile[0] = true;
    let library = ChunkLibrary {
        chunks: vec![make_chunk("open", ChunkPacing::Open, 1_000_000), mismatched],
    };
    let policy = ProcgenValidationPolicy::default();
    let mut source = SeededSource::new(3);
    let (selection, rejections) = select_chunk_with(
        &library,
        &[false; PROFILE_RESOLUTION],
        ChunkPacing::Dense,
        &policy,
        &mut source,
    );
    assert_eq!(
        selection,
        Some(ChunkSelection {
            index: 0,
            used_pacing_fallback: true
        })
    );
    assert_eq!(rejections.profile_mismatch, 1);
    assert_eq!(rejections.no_candidate, 0);
}

#[test]
fn selection_never_returns_a_chunk_whose_top_edge_mismatches() {
    let mut required = [false; PROFILE_RESOLUTION];
    required[1] = true;
    required[8] = true;
    let mut fitting_dense = make_chunk("fit_dense", ChunkPacing::Dense, 1_000_000);
    fitting_dense.top_profile = required;
    let mut fitting_open = make_chunk("fit_open", ChunkPacing::Open, 3_000_000);
    fitting_open.top_profile = required;
    let library = ChunkLibrary {
        chunks: vec![
            make_chunk("flat_open", ChunkPacing::Open, 9_000_000),
            fitting_dense,
            make_chunk("flat_transition", ChunkPacing::Transition, 9_000_000),
            fitting_open,
        ],
    };
    let policy = ProcgenValidationPolicy::default();
    for seed in 0..64u64 {
        for target in [ChunkPacing::Open, ChunkPacing::Transition, ChunkPacing::Dense] {
            let mut source = SeededSource::new(seed);
            let (selection, rejections) =
                select_chunk_with(&library, &required, target, &policy, &mut source);
            let selection = selection.unwrap();
            assert_eq!(library.chunks[selection.index].top_profile, required);
            assert_eq!(selection.used_pacing_fallback, target == ChunkPacing::Transition);
            if target != ChunkPacing::Transition {
                assert_eq!(library.chunks[selection.index].pacing, target);
            }
            assert_eq!(rejections.profile_mismatch, 2);
        }
    }
    for _ in 0..64 {
        let (chunk, _) =
            select_chunk_validated(&library, &required, ChunkPacing::Transition, &policy);
        assert_eq!(chunk.unwrap().top_profile, required);
    }
}

#[test]
fn selection_with_no_candidate_selects_nothing_and_counts_it() {
    let mut trapped = make_chunk("trapped", ChunkPacing::Open, 1_000_000);
    trapped.walls = trap_walls();
    let library = ChunkLibrary {
        chunks: vec![trapped, make_chunk("zero", ChunkPacing::Open, 0)],
    };
    let policy = ProcgenValidationPolicy::default();
    let mut source = SeededSource::new(9);
    let (selection, rejections) = select_chunk_with(
        &library,
        &[false; PROFILE_RESOLUTION],
        ChunkPacing::Open,
        &policy,
        &mut source,
    );
    assert_eq!(selection, None);
    assert_eq!(
        rejections,
        ValidationCounters {
            profile_mismatch: 0,
            concave_trap: 1,
            exit_angle_fail: 0,
            invalid_weight: 1,
            no_candidate: 1,
        }
    );
    // Nothing was drawn: the source still yields its first word.
    let mut fresh = SeededSource::new(9);
    assert_eq!(
        nebula_procgen::RandomSource::draw(&mut source),
        nebula_procgen::RandomSource::draw(&mut fresh)
    );

    let (chunk, live_rejections) = select_chunk_validated(
        &library,
        &[false; PROFILE_RESOLUTION],
        ChunkPacing::Open,
        &policy,
    );
    assert!(chunk.is_none());
    assert_eq!(live_rejections, rejections);
    assert!(select_chunk(&library, &[false; PROFILE_RESOLUTION], ChunkPacing::Open).is_none());

    let empty = ChunkLibrary::default();
    let mut live = LiveSource::new();
    let (selection, rejections) = select_chunk_with(
        &empty,
        &[false; PROFILE_RESOLUTION],
        ChunkPacing::Open,
        &policy,
        &mut live,
    );
    assert_eq!(selection, None);
    assert_eq!(rejections.no_candidate, 1);
}

#[test]
fn selection_draws_exactly_one_word_when_it_selects() {
    let library = ChunkLibrary {
        chunks: vec![
            make_chunk("a", ChunkPacing::Open, 1_000_000),
            make_chunk("b", ChunkPacing::Open, 1_000_000),
            make_chunk("c", ChunkPacing::Open, 1_000_000),
        ],
    };
    let policy = ProcgenValidationPolicy::default();
    for seed in [1u64, 2, 3, 1337] {
        let mut source = SeededSource::new(seed);
        let mut words = SeededSource::new(seed);
        for _ in 0..20 {
            let word = nebula_procgen::RandomSource::draw(&mut words);
            let (selection, _) = select_chunk_with(
                &library,
                &[false; PROFILE_RESOLUTION],
                ChunkPacing::Open,
                &policy,
                &mut source,
            );
            let expected = pick_weighted_index(&vec![1_000_000; 3], word);
            assert_eq!(selection.map(|s| s.index), expected);
        }
    }
}

#[test]
fn live_selection_reaches_every_candidate() {
    let library = ChunkLibrary {
        chunks: vec![
            make_chunk("a", ChunkPacing::Open, 1_000_000),
            make_chunk("b", ChunkPacing::Open, 1_000_000),
        ],
    };
    let mut seen = [false, false];
    for _ in 0..400 {
        let chunk = select_chunk(&library, &[false; PROFILE_RESOLUTION], ChunkPacing::Open).unwrap();
        if chunk.name == "a" {
            seen[0] = true;
        } else {
            seen[1] = true;
        }
    }
    assert_eq!(seen, [true, true]);
}

/// The roulette walk on floating-point weights: the uniform value times the
/// total is worked off candidate by candidate.
fn float_walk(weights: &[f32], uniform: f32) -> usize {
    let total: f32 = weights.iter().map(|w| w.max(0.0)).sum();
    let mut pick = uniform * total;
    for (i, w) in weights.iter().enumerate() {
        pick -= w.max(0.0);
        if pick <= 0.0 {
            return i;
        }
    }
    weights.len() - 1
}

#[test]
fn roulette_agrees_with_the_floating_point_walk() {
    // Weights whose multiples of a 24-bit fraction are exact in 32-bit
    // floating point, so that the walk on floats has no rounding to differ by.
    let cases: [(&[f32], &[i32]); 3] = [
        (&[1.0, 1.0, 1.0], &[1_000_000, 1_000_000, 1_000_000]),
        (&[1.0, 2.0, 1.0], &[1_000_000, 2_000_000, 1_000_000]),
        (&[4.0, 0.0, 2.0, 2.0], &[4_000_000, 0, 2_000_000, 2_000_000]),
    ];
    for (floats, millionths) in cases {
        let weights = millionths.to_vec();
        let mut source = SeededSource::new(99);
        for _ in 0..20_000 {
            let word = nebula_procgen::RandomSource::draw(&mut source);
            let uniform = ((word >> 8) as f32) / 16_777_216.0;
            assert_eq!(
                pick_weighted_index(&weights, word),
                Some(float_walk(floats, uniform)),
                "word={word}"
            );
        }
        for fraction in [0u32, 1, (1 << 22) - 1, 1 << 22, (1 << 22) + 1, (1 << 23), (1 << 24) - 1] {
            let word = word_of(fraction);
            let uniform = (fraction as f32) / 16_777_216.0;
            assert_eq!(
                pick_weighted_index(&weights, word),
                Some(float_walk(floats, uniform)),
                "fraction={fraction}"
            );
        }
    }
}
