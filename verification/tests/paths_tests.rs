use std::collections::HashMap;

use arb_paths::amm::get_amount_out;
use arb_paths::generate::generate_triangular_paths;
use arb_paths::paths::{contains_token, ArbPath, Hop};
use arb_paths::pool::{Pool, Reserve};

const TOKEN_A: u64 = 1;
const TOKEN_B: u64 = 2;
const TOKEN_C: u64 = 3;

fn pool(address: u64, token0: u64, token1: u64, decimals: u8, fee: u64) -> Pool {
    Pool {
        address,
        token0,
        token1,
        decimals0: decimals,
        decimals1: decimals,
        fee,
    }
}

fn triangle_pools() -> Vec<Pool> {
    vec![
        pool(100, TOKEN_A, TOKEN_B, 18, 3),
        pool(200, TOKEN_B, TOKEN_C, 18, 3),
        pool(300, TOKEN_C, TOKEN_A, 18, 3),
    ]
}

fn triangle_reserves() -> HashMap<u64, Reserve> {
    let mut reserves = HashMap::new();
    for address in [100, 200, 300] {
        reserves.insert(
            address,
            Reserve {
                reserve0: 1000,
                reserve1: 1000,
            },
        );
    }
    reserves
}

fn triangle_path() -> ArbPath {
    ArbPath {
        nhop: 3,
        hops: vec![
            Hop {
                pool: pool(100, TOKEN_A, TOKEN_B, 18, 3),
                zero_for_one: true,
            },
            Hop {
                pool: pool(200, TOKEN_B, TOKEN_C, 18, 3),
                zero_for_one: true,
            },
            Hop {
                pool: pool(300, TOKEN_C, TOKEN_A, 18, 3),
                zero_for_one: true,
            },
        ],
    }
}

#[test]
fn amm_output_matches_constant_product_formula() {
    // 10^18 in, reserves 1000/1000, fee 3/1000:
    // floor(997e18 * 1000 / (1e6 + 997e18)) = 999.
    assert_eq!(
        get_amount_out(1_000_000_000_000_000_000, 1000, 1000, 3),
        Some(999)
    );
    assert_eq!(get_amount_out(999, 1000, 1000, 3), Some(498));
    assert_eq!(get_amount_out(498, 1000, 1000, 3), Some(331));
}

#[test]
fn amm_zero_input_gives_zero_output() {
    assert_eq!(get_amount_out(0, 1000, 1000, 3), Some(0));
}

#[test]
fn amm_zero_reserves_give_no_output() {
    // Zero input-side reserve and zero input amount: the denominator is zero.
    assert_eq!(get_amount_out(0, 0, 1000, 3), None);
}

#[test]
fn amm_overflow_gives_no_output() {
    assert_eq!(get_amount_out(u128::MAX, u128::MAX, u128::MAX, 0), None);
}

#[test]
fn simulate_compounds_three_formula_applications() {
    let paths = generate_triangular_paths(&triangle_pools(), TOKEN_A);
    let reserves = triangle_reserves();
    assert!(!paths.is_empty());
    for path in &paths {
        // One whole token in, scaled by 10^18, then three swaps at
        // symmetric reserves: 10^18 -> 999 -> 498 -> 331.
        assert_eq!(path.simulate_v2_path(1, &reserves), Some(331));
    }
    // The same result by manual sequential application of the formula.
    let scaled: u128 = 10u128.pow(18);
    let out1 = get_amount_out(scaled, 1000, 1000, 3).unwrap();
    let out2 = get_amount_out(out1, 1000, 1000, 3).unwrap();
    let out3 = get_amount_out(out2, 1000, 1000, 3).unwrap();
    assert_eq!(out3, 331);
    assert_eq!(paths[0].simulate_v2_path(1, &reserves), Some(out3));
}

#[test]
fn simulate_zero_input_gives_zero_output() {
    let path = triangle_path();
    assert_eq!(path.simulate_v2_path(0, &triangle_reserves()), Some(0));
}

#[test]
fn simulate_missing_first_reserve_gives_none() {
    let path = triangle_path();
    let mut reserves = triangle_reserves();
    reserves.remove(&100);
    assert_eq!(path.simulate_v2_path(1, &reserves), None);
}

#[test]
fn simulate_missing_last_reserve_gives_none() {
    let path = triangle_path();
    let mut reserves = triangle_reserves();
    reserves.remove(&300);
    assert_eq!(path.simulate_v2_path(1, &reserves), None);
}

#[test]
fn simulate_scaling_overflow_gives_none() {
    // 10^39 does not fit the amount type, so even one whole token
    // cannot be scaled.
    let mut path = triangle_path();
    path.hops[0].pool.decimals0 = 39;
    assert_eq!(path.simulate_v2_path(1, &triangle_reserves()), None);
}

#[test]
fn simulate_zero_decimals_skips_scaling() {
    let mut path = triangle_path();
    path.hops[0].pool.decimals0 = 0;
    // 500 base units in: 500 -> 332 -> 248 -> 198.
    let out1 = get_amount_out(500, 1000, 1000, 3).unwrap();
    let out2 = get_amount_out(out1, 1000, 1000, 3).unwrap();
    let out3 = get_amount_out(out2, 1000, 1000, 3).unwrap();
    assert_eq!(
        path.simulate_v2_path(500, &triangle_reserves()),
        Some(out3)
    );
}

#[test]
fn has_pool_finds_each_hop_address() {
    let path = triangle_path();
    assert!(path.has_pool(100));
    assert!(path.has_pool(200));
    assert!(path.has_pool(300));
    assert!(!path.has_pool(400));
}

#[test]
fn should_blacklist_sees_every_hop() {
    let path = triangle_path();
    // TOKEN_C is only traded by the second and third hops: a scan that
    // stopped at the first hop would miss it.
    assert!(path.should_blacklist(&vec![TOKEN_C]));
    assert!(path.should_blacklist(&vec![TOKEN_A]));
    assert!(path.should_blacklist(&vec![99, TOKEN_B]));
    assert!(!path.should_blacklist(&vec![99, 98]));
    assert!(!path.should_blacklist(&vec![]));
}

#[test]
fn contains_token_finds_members_only() {
    assert!(contains_token(&vec![5, 6, 7], 6));
    assert!(!contains_token(&vec![5, 6, 7], 8));
    assert!(!contains_token(&vec![], 8));
}

#[test]
fn generator_finds_both_orientations_of_a_triangle() {
    let paths = generate_triangular_paths(&triangle_pools(), TOKEN_A);
    assert_eq!(paths.len(), 2);
    // Enumeration follows the input order: the forward orientation first.
    assert_eq!(paths[0].nhop, 3);
    assert_eq!(paths[0].hops[0].pool.address, 100);
    assert_eq!(paths[0].hops[1].pool.address, 200);
    assert_eq!(paths[0].hops[2].pool.address, 300);
    assert!(paths[0].hops[0].zero_for_one);
    assert!(paths[0].hops[1].zero_for_one);
    assert!(paths[0].hops[2].zero_for_one);
    // Then the reverse orientation, trading each pool token1 -> token0.
    assert_eq!(paths[1].hops[0].pool.address, 300);
    assert_eq!(paths[1].hops[1].pool.address, 200);
    assert_eq!(paths[1].hops[2].pool.address, 100);
    assert!(!paths[1].hops[0].zero_for_one);
    assert!(!paths[1].hops[1].zero_for_one);
    assert!(!paths[1].hops[2].zero_for_one);
}

#[test]
fn generator_final_hop_direction_follows_token0_comparison() {
    // The third pool lists the base token as token0 and the second
    // intermediate token as token1, so the final hop must trade
    // token1 -> token0: its direction flag must be false.
    let pools = vec![
        pool(100, TOKEN_A, TOKEN_B, 18, 3),
        pool(200, TOKEN_B, TOKEN_C, 18, 3),
        pool(300, TOKEN_A, TOKEN_C, 18, 3),
    ];
    let paths = generate_triangular_paths(&pools, TOKEN_A);
    let forward: Vec<&ArbPath> = paths
        .iter()
        .filter(|p| p.hops[0].pool.address == 100)
        .collect();
    assert_eq!(forward.len(), 1);
    assert!(forward[0].hops[0].zero_for_one);
    assert!(forward[0].hops[1].zero_for_one);
    assert!(!forward[0].hops[2].zero_for_one);
}

#[test]
fn generator_with_no_closing_cycle_returns_nothing() {
    let pools = vec![
        pool(100, TOKEN_A, TOKEN_B, 18, 3),
        pool(200, TOKEN_B, TOKEN_C, 18, 3),
    ];
    let paths = generate_triangular_paths(&pools, TOKEN_A);
    assert!(paths.is_empty());
}

#[test]
fn generator_excludes_paths_reusing_a_pool_address() {
    // A cycle exists over the tokens, but two of its pools share one
    // address, so it must be rejected.
    let pools = vec![
        pool(100, TOKEN_A, TOKEN_B, 18, 3),
        pool(200, TOKEN_B, TOKEN_C, 18, 3),
        pool(100, TOKEN_C, TOKEN_A, 18, 3),
    ];
    let paths = generate_triangular_paths(&pools, TOKEN_A);
    assert!(paths.is_empty());
}

fn many_pools() -> Vec<Pool> {
    // Several overlapping triangles, duplicate token pairs under distinct
    // addresses, and one pool unrelated to the base token.
    vec![
        pool(100, TOKEN_A, TOKEN_B, 18, 3),
        pool(200, TOKEN_B, TOKEN_C, 18, 3),
        pool(300, TOKEN_C, TOKEN_A, 18, 3),
        pool(400, TOKEN_A, TOKEN_C, 18, 3),
        pool(500, TOKEN_B, TOKEN_A, 18, 3),
        pool(600, 7, 8, 18, 3),
    ]
}

#[test]
fn generated_paths_use_three_distinct_pool_addresses() {
    let paths = generate_triangular_paths(&many_pools(), TOKEN_A);
    assert!(!paths.is_empty());
    for path in &paths {
        let a0 = path.hops[0].pool.address;
        let a1 = path.hops[1].pool.address;
        let a2 = path.hops[2].pool.address;
        assert_ne!(a0, a1);
        assert_ne!(a0, a2);
        assert_ne!(a1, a2);
    }
}

#[test]
fn generated_direction_flags_match_input_tokens() {
    let paths = generate_triangular_paths(&many_pools(), TOKEN_A);
    assert!(!paths.is_empty());
    for path in &paths {
        let mut token = TOKEN_A;
        for hop in &path.hops {
            assert_eq!(hop.zero_for_one, hop.pool.token0 == token);
            token = if hop.zero_for_one {
                hop.pool.token1
            } else {
                hop.pool.token0
            };
        }
        assert_eq!(token, TOKEN_A);
    }
}

#[test]
fn generated_paths_start_and_end_at_the_base_token() {
    let paths = generate_triangular_paths(&triangle_pools(), TOKEN_A);
    assert!(!paths.is_empty());
    for path in &paths {
        let first = &path.hops[0];
        let last = &path.hops[path.nhop - 1];
        let input = if first.zero_for_one {
            first.pool.token0
        } else {
            first.pool.token1
        };
        let output = if last.zero_for_one {
            last.pool.token1
        } else {
            last.pool.token0
        };
        assert_eq!(input, TOKEN_A);
        assert_eq!(output, TOKEN_A);
    }
}
