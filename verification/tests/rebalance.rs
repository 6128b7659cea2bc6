use nebula_procgen::rebalance::{normalize_with_bounds, rebalance_chunk_weights, ChunkWeight};
use nebula_procgen::soak::{simulate_procgen_soak, ProcgenSoakConfig};
use nebula_procgen::{
    ChunkLibrary, ChunkPacing, ChunkSchema, NameCounts, MAX_REDISTRIBUTION_ROUNDS, MIN_PROPOSAL,
    PROFILE_RESOLUTION, SHARE_ONE, SUM_TOLERANCE,
};

fn make_chunk(name: &str, pacing: ChunkPacing, weight: i32) -> ChunkSchema {
    ChunkSchema {
        name: name.to_string(),
        pacing,
        weight,
        top_profile: [false; PROFILE_RESOLUTION],
        bottom_profile: [false; PROFILE_RESOLUTION],
        ..ChunkSchema::default()
    }
}

fn weight_of(proposal: &[ChunkWeight], name: &str) -> u64 {
    proposal.iter().find(|p| p.name == name).unwrap().weight
}

fn weights(proposal: &[ChunkWeight]) -> Vec<u64> {
    proposal.iter().map(|p| p.weight).collect()
}

#[test]
fn test_rebalance_output_is_normalized_and_bounded() {
    let library = ChunkLibrary {
        chunks: vec![
            make_chunk("open_a", ChunkPacing::Open, 600_000),
            make_chunk("open_b", ChunkPacing::Open, 300_000),
            make_chunk("open_c", ChunkPacing::Open, 100_000),
        ],
    };

    let mut observed = NameCounts::new();
    observed.add("open_a", 10);
    observed.add("open_b", 50);
    observed.add("open_c", 40);

    let rebalance = rebalance_chunk_weights(&library, &observed, 100_000, 700_000);

    let sum = rebalance.iter().map(|p| p.weight as f64 / 1e6).sum::<f64>();
    assert!((sum - 1.0).abs() < 1e-4, "sum={sum}");
    for value in rebalance.iter().map(|p| p.weight as f64 / 1e6) {
        assert!((value >= 0.1 - 1e-6) && (value <= 0.7 + 1e-6));
    }
    assert!(weight_of(&rebalance, "open_a") > weight_of(&rebalance, "open_b"));
}

#[test]
fn share_constants_are_in_millionths() {
    assert_eq!(SHARE_ONE, 1_000_000);
    assert_eq!(SUM_TOLERANCE, 100);
    assert_eq!(MIN_PROPOSAL, 100);
    assert_eq!(MAX_REDISTRIBUTION_ROUNDS, 64);
}

#[test]
fn rebalance_corrects_by_three_quarters_of_the_gap() {
    let library = ChunkLibrary {
        chunks: vec![
            make_chunk("open_a", ChunkPacing::Open, 600_000),
            make_chunk("open_b", ChunkPacing::Open, 300_000),
            make_chunk("open_c", ChunkPacing::Open, 100_000),
        ],
    };
    let mut observed = NameCounts::new();
    observed.add("open_a", 10);
    observed.add("open_b", 50);
    observed.add("open_c", 40);
    // Expected shares 0.6, 0.3, 0.1; observed 0.1, 0.5, 0.4; factors 1.375,
    // 0.85, 0.775; raw shares 0.825, 0.255, 0.0775, which sum to 1.1575.
    // Scaled: 0.712742, 0.220302, 0.066954; within the bounds: 0.7, 0.220302,
    // 0.1, which sum to 1.020302. The excess is taken in halves from the two
    // shares above the lower bound.
    let proposal = rebalance_chunk_weights(&library, &observed, 100_000, 700_000);
    assert_eq!(weights(&proposal), vec![689_849, 210_151, 100_000]);
    assert_eq!(proposal[0].name, "open_a");
    assert_eq!(proposal[1].name, "open_b");
    assert_eq!(proposal[2].name, "open_c");
}

#[test]
fn rebalance_without_observations_keeps_the_authored_shares() {
    let library = ChunkLibrary {
        chunks: vec![
            make_chunk("a", ChunkPacing::Open, 500_000),
            make_chunk("b", ChunkPacing::Open, 300_000),
            make_chunk("c", ChunkPacing::Open, 200_000),
        ],
    };
    let proposal = rebalance_chunk_weights(&library, &NameCounts::new(), 0, 1_000_000);
    assert_eq!(weights(&proposal), vec![500_000, 300_000, 200_000]);

    let mut zeros = NameCounts::new();
    zeros.add("a", 0);
    zeros.add("b", 0);
    let proposal = rebalance_chunk_weights(&library, &zeros, 0, 1_000_000);
    assert_eq!(weights(&proposal), vec![500_000, 300_000, 200_000]);
}

#[test]
fn rebalance_of_balanced_observations_changes_nothing() {
    let library = ChunkLibrary {
        chunks: vec![
            make_chunk("a", ChunkPacing::Open, 1_000_000),
            make_chunk("b", ChunkPacing::Open, 1_000_000),
            make_chunk("c", ChunkPacing::Open, 2_000_000),
        ],
    };
    let mut observed = NameCounts::new();
    observed.add("a", 25);
    observed.add("b", 25);
    observed.add("c", 50);
    let proposal = rebalance_chunk_weights(&library, &observed, 0, 1_000_000);
    assert_eq!(weights(&proposal), vec![250_000, 250_000, 500_000]);
}

#[test]
fn rebalance_treats_weightless_chunks_as_weight_one() {
    let library = ChunkLibrary {
        chunks: vec![
            make_chunk("a", ChunkPacing::Open, 0),
            make_chunk("b", ChunkPacing::Open, -3),
            make_chunk("c", ChunkPacing::Open, 2_000_000),
        ],
    };
    let proposal = rebalance_chunk_weights(&library, &NameCounts::new(), 0, 1_000_000);
    assert_eq!(weights(&proposal), vec![250_000, 250_000, 500_000]);
}

#[test]
fn rebalance_of_an_empty_library_is_empty() {
    let mut observed = NameCounts::new();
    observed.add("ghost", 3);
    let proposal = rebalance_chunk_weights(&ChunkLibrary::default(), &observed, 100_000, 700_000);
    assert!(proposal.is_empty());
}

#[test]
fn rebalance_collapses_infeasible_bounds_to_the_even_share() {
    let library = ChunkLibrary {
        chunks: vec![
            make_chunk("a", ChunkPacing::Open, 900_000),
            make_chunk("b", ChunkPacing::Open, 50_000),
            make_chunk("c", ChunkPacing::Open, 50_000),
            make_chunk("d", ChunkPacing::Open, 50_000),
        ],
    };
    let mut observed = NameCounts::new();
    observed.add("a", 1);
    observed.add("b", 99);
    // Four shares of at least 0.3 cannot sum to one.
    let high_floor = rebalance_chunk_weights(&library, &observed, 300_000, 900_000);
    assert_eq!(weights(&high_floor), vec![250_000; 4]);
    // Four shares of at most 0.2 cannot either.
    let low_ceiling = rebalance_chunk_weights(&library, &observed, 0, 200_000);
    assert_eq!(weights(&low_ceiling), vec![250_000; 4]);
    // A lower bound above the upper one pulls the upper one up.
    let crossed = rebalance_chunk_weights(&library, &observed, 250_000, 10);
    assert_eq!(weights(&crossed), vec![250_000; 4]);
    // Bounds outside the range from nothing to the whole are moved into it.
    let wide = rebalance_chunk_weights(&library, &NameCounts::new(), -5, 7_000_000);
    assert_eq!(weights(&wide).iter().sum::<u64>(), 999_999);
    assert_eq!(weights(&wide), vec![857_142, 47_619, 47_619, 47_619]);
}

#[test]
fn rebalance_sums_to_one_and_keeps_feasible_bounds_for_many_libraries() {
    let bounds = [
        (0i64, 1_000_000i64),
        (100_000, 700_000),
        (50_000, 400_000),
        (1, 999_999),
        (200_000, 200_000),
        (0, 0),
        (900_000, 1_000_000),
        (333_333, 333_334),
    ];
    for n in 1..=12usize {
        for variant in 0..6u64 {
            let chunks: Vec<ChunkSchema> = (0..n)
                .map(|i| {
                    let weight = ((i as u64 * 7919 + variant * 104_729) % 2_000_001) as i32 - 3;
                    make_chunk(&format!("chunk_{}", i), ChunkPacing::Open, weight)
                })
                .collect();
            let library = ChunkLibrary { chunks };
            let mut observed = NameCounts::new();
            for i in 0..n {
                if (i as u64 + variant) % 3 != 0 {
                    observed.add(
                        &format!("chunk_{}", i),
                        (i as u64 * 31 + variant * 17) % 101,
                    );
                }
            }
            observed.add("not_in_library", variant * 13);
            for (lo, hi) in bounds {
                let proposal = rebalance_chunk_weights(&library, &observed, lo, hi);
                assert_eq!(proposal.len(), n);
                let sum: u64 = proposal.iter().map(|p| p.weight).sum();
                assert!(
                    sum >= SHARE_ONE - SUM_TOLERANCE && sum <= SHARE_ONE + SUM_TOLERANCE,
                    "n={n} variant={variant} lo={lo} hi={hi} sum={sum}"
                );
                let feasible = lo * n as i64 <= 1_000_000 && hi * n as i64 >= 1_000_000 && lo <= hi;
                if feasible {
                    for p in &proposal {
                        assert!(
                            p.weight as i64 >= lo && p.weight as i64 <= hi,
                            "n={n} variant={variant} lo={lo} hi={hi} weight={}",
                            p.weight
                        );
                    }
                }
            }
        }
    }
}

#[test]
fn rebalance_consumes_the_pick_counts_of_a_soak_run() {
    let library = ChunkLibrary {
        chunks: vec![
            make_chunk("open_a", ChunkPacing::Open, 1_000_000),
            make_chunk("open_b", ChunkPacing::Open, 1_000_000),
            make_chunk("open_c", ChunkPacing::Open, 1_000_000),
        ],
    };
    let summary = simulate_procgen_soak(
        &library,
        &ProcgenSoakConfig {
            seed: 21,
            steps: 300,
            ..Default::default()
        },
    );
    let proposal = rebalance_chunk_weights(&library, &summary.chunk_pick_counts, 100_000, 700_000);
    let sum: u64 = proposal.iter().map(|p| p.weight).sum();
    assert!(sum >= SHARE_ONE - 2 && sum <= SHARE_ONE, "sum={sum}");
    let mut by_count: Vec<(u64, u64)> = proposal
        .iter()
        .map(|p| (summary.chunk_pick_counts.get(&p.name), p.weight))
        .collect();
    by_count.sort();
    // The more a chunk was picked, the less it is proposed.
    assert!(by_count[0].1 >= by_count[1].1);
    assert!(by_count[1].1 >= by_count[2].1);
    assert!(by_count[0].0 == by_count[2].0 || by_count[0].1 > by_count[2].1);
}

#[test]
fn normalize_scales_clamps_and_redistributes() {
    assert_eq!(normalize_with_bounds(&Vec::new(), 0, 1_000_000), Vec::<u64>::new());
    // Three equal shares: a third each, and the millionth left over stays out.
    assert_eq!(
        normalize_with_bounds(&vec![1, 1, 1], 0, 1_000_000),
        vec![333_333, 333_333, 333_333]
    );
    // Shares that sum to nothing count as equal.
    assert_eq!(
        normalize_with_bounds(&vec![0, 0, 0, 0], 0, 1_000_000),
        vec![250_000, 250_000, 250_000, 250_000]
    );
    // What the upper bound cuts off goes to the others in equal parts.
    assert_eq!(
        normalize_with_bounds(&vec![8, 1, 1], 0, 500_000),
        vec![500_000, 250_000, 250_000]
    );
    // What the lower bound adds is taken from the others in equal parts.
    assert_eq!(
        normalize_with_bounds(&vec![98, 1, 1], 100_000, 1_000_000),
        vec![800_000, 100_000, 100_000]
    );
    // A single share is the whole.
    assert_eq!(normalize_with_bounds(&vec![5], 0, 1_000_000), vec![1_000_000]);
    // Bounds that leave no room: the even share for each.
    assert_eq!(
        normalize_with_bounds(&vec![5, 1], 0, 400_000),
        vec![500_000, 500_000]
    );
    assert_eq!(
        normalize_with_bounds(&vec![5, 1], 600_000, 1_000_000),
        vec![500_000, 500_000]
    );
    // Large raw shares do not overflow.
    assert_eq!(
        normalize_with_bounds(&vec![u64::MAX, u64::MAX], 0, 1_000_000),
        vec![500_000, 500_000]
    );
}

#[test]
fn normalize_accepts_a_sum_within_the_tolerance() {
    // Seven shares pinned at 0.142857 sum to 0.999999: within the tolerance.
    assert_eq!(
        normalize_with_bounds(&vec![1; 7], 142_857, 142_857),
        vec![142_857; 7]
    );
    // 7000 shares pinned at 0.000142 sum to 0.994, and so do 7000 even
    // shares: the split with leftover millionths instead.
    let split = normalize_with_bounds(&vec![1; 7000], 142, 142);
    assert_eq!(split.iter().sum::<u64>(), 1_000_000);
    assert_eq!(split[0], 143);
    assert_eq!(split[5999], 143);
    assert_eq!(split[6000], 142);
    assert_eq!(split[6999], 142);
}

#[test]
fn normalize_treats_equal_shares_alike() {
    // Shares of one size end as shares of one size.
    assert_eq!(
        normalize_with_bounds(&vec![3, 3, 1, 1], 0, 400_000),
        vec![375_000, 375_000, 125_000, 125_000]
    );
    // What is missing is split in whole parts; the two millionths left over
    // stay out.
    assert_eq!(
        normalize_with_bounds(&vec![7, 1, 1, 1], 0, 500_000),
        vec![500_000, 166_666, 166_666, 166_666]
    );
    // A hundred and one even shares sum to 0.999999 and stay as they are.
    assert_eq!(normalize_with_bounds(&vec![5; 101], 0, 1_000_000), vec![9_900; 101]);
    // Even shares take the place of shares that did not settle, where they
    // sum to one within the tolerance.
    assert_eq!(normalize_with_bounds(&vec![9, 1, 1], 0, 200_000), vec![333_333; 3]);
}

#[test]
fn overpicked_chunk_never_ends_above_an_underpicked_one_of_equal_weight() {
    let library = ChunkLibrary {
        chunks: vec![
            make_chunk("x", ChunkPacing::Open, 1),
            make_chunk("y", ChunkPacing::Open, 1),
            make_chunk("p", ChunkPacing::Open, 500_000),
            make_chunk("q", ChunkPacing::Open, 1_000_000),
        ],
    };
    let mut observed = NameCounts::new();
    observed.add("x", 2);
    observed.add("p", 3);
    observed.add("q", 4);
    let proposal = rebalance_chunk_weights(&library, &observed, 0, 300_000);
    assert_eq!(weights(&proposal), vec![200_000, 200_000, 300_000, 300_000]);
}

#[test]
fn rebalance_orders_equal_weights_by_their_picks() {
    for n in 2..=9usize {
        for variant in 0..5u64 {
            let chunks: Vec<ChunkSchema> = (0..n)
                .map(|i| make_chunk(&format!("c{}", i), ChunkPacing::Open, 1_000 + (i % 3) as i32))
                .collect();
            let library = ChunkLibrary { chunks };
            let mut observed = NameCounts::new();
            for i in 0..n {
                observed.add(&format!("c{}", i), (i as u64 * 7 + variant * 3) % 11);
            }
            for (lo, hi) in [(0i64, 1_000_000i64), (50_000, 400_000), (100_000, 150_000)] {
                let proposal = rebalance_chunk_weights(&library, &observed, lo, hi);
                for a in 0..n {
                    for b in 0..n {
                        let same_weight = library.chunks[a].weight == library.chunks[b].weight;
                        let count_a = observed.get(&proposal[a].name);
                        let count_b = observed.get(&proposal[b].name);
                        if same_weight && count_a >= count_b {
                            assert!(
                                proposal[a].weight <= proposal[b].weight,
                                "n={n} variant={variant} a={a} b={b}"
                            );
                        }
                    }
                }
            }
        }
    }
}

#[test]
fn large_library_falls_back_on_a_split_that_differs_by_one_millionth() {
    let chunks: Vec<ChunkSchema> = (0..7000)
        .map(|i| make_chunk(&format!("c{}", i), ChunkPacing::Open, 1_000_000))
        .collect();
    let library = ChunkLibrary { chunks };
    let proposal = rebalance_chunk_weights(&library, &NameCounts::new(), 0, 1_000_000);
    let shares = weights(&proposal);
    assert_eq!(shares.iter().sum::<u64>(), 1_000_000);
    assert_eq!(*shares.iter().max().unwrap(), 143);
    assert_eq!(*shares.iter().min().unwrap(), 142);
}
