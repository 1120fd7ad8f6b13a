//! Enumeration of all 3-hop cycles that start and end at a base token.

use vstd::prelude::*;

use crate::paths::{hop_input_token, hop_output_token, ArbPath, Hop};
use crate::pool::Pool;

verus! {

/// True iff the pool can trade the given token on either side.
pub open spec fn can_trade(p: Pool, t: u64) -> bool {
    p.token0 == t || p.token1 == t
}

/// The direction flag of a hop that feeds the given token into the pool:
/// true iff `token0` is the input token.
pub open spec fn trade_dir(p: Pool, t: u64) -> bool {
    p.token0 == t
}

/// The token the pool produces when fed the given token.
pub open spec fn trade_out(p: Pool, t: u64) -> u64 {
    if trade_dir(p, t) {
        p.token1
    } else {
        p.token0
    }
}

/// The first hop's pool can trade the base token.
pub open spec fn lvl1_ok(pools: Seq<Pool>, token_in: u64, i: int) -> bool {
    can_trade(pools[i], token_in)
}

/// The intermediate token after the first hop.
pub open spec fn t1_of(pools: Seq<Pool>, token_in: u64, i: int) -> u64 {
    trade_out(pools[i], token_in)
}

/// The second hop's pool can trade the first intermediate token.
pub open spec fn lvl2_ok(pools: Seq<Pool>, token_in: u64, i: int, j: int) -> bool {
    lvl1_ok(pools, token_in, i) && can_trade(pools[j], t1_of(pools, token_in, i))
}

/// The intermediate token after the second hop.
pub open spec fn t2_of(pools: Seq<Pool>, token_in: u64, i: int, j: int) -> u64 {
    trade_out(pools[j], t1_of(pools, token_in, i))
}

/// True iff the pools at indices `i`, `j`, `k` form an accepted cycle:
/// each hop can trade the token produced so far, the third hop's output is
/// the base token again, and the three pool addresses are pairwise distinct.
pub open spec fn accepts(pools: Seq<Pool>, token_in: u64, i: int, j: int, k: int) -> bool {
    &&& lvl2_ok(pools, token_in, i, j)
    &&& can_trade(pools[k], t2_of(pools, token_in, i, j))
    &&& trade_out(pools[k], t2_of(pools, token_in, i, j)) == token_in
    &&& pools[i].address != pools[j].address
    &&& pools[i].address != pools[k].address
    &&& pools[j].address != pools[k].address
}

/// The hop sequence of the cycle through the pools at indices `i`, `j`,
/// `k`, with every hop's direction flag derived from comparing the pool's
/// `token0` against the token supplied into that hop.
pub open spec fn path_at(pools: Seq<Pool>, token_in: u64, i: int, j: int, k: int) -> Seq<Hop> {
    let t1 = t1_of(pools, token_in, i);
    let t2 = t2_of(pools, token_in, i, j);
    seq![
        Hop { pool: pools[i], zero_for_one: trade_dir(pools[i], token_in) },
        Hop { pool: pools[j], zero_for_one: trade_dir(pools[j], t1) },
        Hop { pool: pools[k], zero_for_one: trade_dir(pools[k], t2) },
    ]
}

/// The cycles accepted with first hop `i`, second hop `j`, and third hop
/// index below `k`, in index order.
pub open spec fn gen3(pools: Seq<Pool>, token_in: u64, i: int, j: int, k: int) -> Seq<Seq<Hop>>
    decreases k,
{
    if k <= 0 {
        Seq::empty()
    } else if accepts(pools, token_in, i, j, k - 1) {
        gen3(pools, token_in, i, j, k - 1).push(path_at(pools, token_in, i, j, k - 1))
    } else {
        gen3(pools, token_in, i, j, k - 1)
    }
}

/// The cycles accepted with first hop `i` and second hop index below `j`,
/// in nested index order.
pub open spec fn gen2(pools: Seq<Pool>, token_in: u64, i: int, j: int) -> Seq<Seq<Hop>>
    decreases j,
{
    if j <= 0 {
        Seq::empty()
    } else {
        gen2(pools, token_in, i, j - 1) + gen3(pools, token_in, i, j - 1, pools.len() as int)
    }
}

/// The cycles accepted with first hop index below `i`, in nested index
/// order.
pub open spec fn gen1(pools: Seq<Pool>, token_in: u64, i: int) -> Seq<Seq<Hop>>
    decreases i,
{
    if i <= 0 {
        Seq::empty()
    } else {
        gen1(pools, token_in, i - 1) + gen2(pools, token_in, i - 1, pools.len() as int)
    }
}

/// Every accepted 3-hop cycle over the pool list, in the order the nested
/// index iteration accepts them.
pub open spec fn gen_spec(pools: Seq<Pool>, token_in: u64) -> Seq<Seq<Hop>> {
    gen1(pools, token_in, pools.len() as int)
}

/// The produced paths realize the model hop sequences one for one, each
/// with exactly three used hops.
pub open spec fn paths_match(ps: Seq<ArbPath>, model: Seq<Seq<Hop>>) -> bool {
    &&& ps.len() == model.len()
    &&& forall|n: int|
        0 <= n < ps.len() ==> (#[trigger] ps[n])@ == model[n] && ps[n].nhop == 3
            && ps[n].hops@.len() == 3
}

/// No cycle is accepted through a second hop whose pool cannot trade the
/// first intermediate token.
proof fn lemma_gen3_all_empty(pools: Seq<Pool>, token_in: u64, i: int, j: int, k: int)
    requires
        !lvl2_ok(pools, token_in, i, j),
    ensures
        gen3(pools, token_in, i, j, k).len() == 0,
    decreases k,
{
    if k <= 0 {
    } else {
        lemma_gen3_all_empty(pools, token_in, i, j, k - 1);
    }
}

/// No cycle is accepted through a first hop whose pool cannot trade the
/// base token.
proof fn lemma_gen2_all_empty(pools: Seq<Pool>, token_in: u64, i: int, j: int)
    requires
        !lvl1_ok(pools, token_in, i),
    ensures
        gen2(pools, token_in, i, j).len() == 0,
    decreases j,
{
    if j <= 0 {
    } else {
        lemma_gen2_all_empty(pools, token_in, i, j - 1);
        lemma_gen3_all_empty(pools, token_in, i, j - 1, pools.len() as int);
    }
}

/// One-for-one realization is kept when a path realizing the next model
/// sequence is appended.
proof fn lemma_paths_match_push(ps: Seq<ArbPath>, model: Seq<Seq<Hop>>, p: ArbPath, s: Seq<Hop>)
    requires
        paths_match(ps, model),
        p@ == s,
        p.nhop == 3,
        p.hops@.len() == 3,
    ensures
        paths_match(ps.push(p), model.push(s)),
{
    assert forall|n: int| 0 <= n < ps.push(p).len() implies (#[trigger] ps.push(p)[n])@
        == model.push(s)[n] && ps.push(p)[n].nhop == 3 && ps.push(p)[n].hops@.len() == 3 by {
        if n < ps.len() {
            assert(ps.push(p)[n] == ps[n]);
            assert(model.push(s)[n] == model[n]);
        } else {
            assert(ps.push(p)[n] == p);
            assert(model.push(s)[n] == s);
        }
    }
}

/// Every entry of `gen3` is the path of some accepted third-hop index.
proof fn lemma_gen3_elem(pools: Seq<Pool>, token_in: u64, i: int, j: int, k: int, n: int) -> (kk:
    int)
    requires
        0 <= n < gen3(pools, token_in, i, j, k).len(),
    ensures
        0 <= kk < k,
        accepts(pools, token_in, i, j, kk),
        gen3(pools, token_in, i, j, k)[n] == path_at(pools, token_in, i, j, kk),
    decreases k,
{
    if accepts(pools, token_in, i, j, k - 1) && n == gen3(pools, token_in, i, j, k - 1).len() {
        k - 1
    } else {
        lemma_gen3_elem(pools, token_in, i, j, k - 1, n)
    }
}

/// Every entry of `gen2` is the path of some accepted second- and
/// third-hop index pair.
proof fn lemma_gen2_elem(pools: Seq<Pool>, token_in: u64, i: int, j: int, n: int) -> (r: (int, int))
    requires
        0 <= n < gen2(pools, token_in, i, j).len(),
    ensures
        0 <= r.0 < j,
        0 <= r.1 < pools.len(),
        accepts(pools, token_in, i, r.0, r.1),
        gen2(pools, token_in, i, j)[n] == path_at(pools, token_in, i, r.0, r.1),
    decreases j,
{
    if j > 0 && n >= gen2(pools, token_in, i, j - 1).len() {
        let kk = lemma_gen3_elem(
            pools,
            token_in,
            i,
            j - 1,
            pools.len() as int,
            n - gen2(pools, token_in, i, j - 1).len(),
        );
        (j - 1, kk)
    } else {
        lemma_gen2_elem(pools, token_in, i, j - 1, n)
    }
}

/// Every entry of `gen1` is the path of some accepted index triple.
proof fn lemma_gen1_elem(pools: Seq<Pool>, token_in: u64, i: int, n: int) -> (r: (int, int, int))
    requires
        0 <= n < gen1(pools, token_in, i).len(),
    ensures
        0 <= r.0 < i,
        0 <= r.1 < pools.len(),
        0 <= r.2 < pools.len(),
        accepts(pools, token_in, r.0, r.1, r.2),
        gen1(pools, token_in, i)[n] == path_at(pools, token_in, r.0, r.1, r.2),
    decreases i,
{
    if i > 0 && n >= gen1(pools, token_in, i - 1).len() {
        let (jj, kk) = lemma_gen2_elem(
            pools,
            token_in,
            i - 1,
            pools.len() as int,
            n - gen1(pools, token_in, i - 1).len(),
        );
        (i - 1, jj, kk)
    } else {
        lemma_gen1_elem(pools, token_in, i - 1, n)
    }
}

/// Every generated hop sequence is the path of some accepted index triple
/// over the pool list.
pub proof fn lemma_gen_elem(pools: Seq<Pool>, token_in: u64, n: int) -> (r: (int, int, int))
    requires
        0 <= n < gen_spec(pools, token_in).len(),
    ensures
        0 <= r.0 < pools.len(),
        0 <= r.1 < pools.len(),
        0 <= r.2 < pools.len(),
        accepts(pools, token_in, r.0, r.1, r.2),
        gen_spec(pools, token_in)[n] == path_at(pools, token_in, r.0, r.1, r.2),
{
    lemma_gen1_elem(pools, token_in, pools.len() as int, n)
}

/// The path of an accepted index triple is a chained cycle on the base
/// token, over three pairwise-distinct pool addresses, with every hop's
/// direction flag agreeing with its input token.
pub proof fn lemma_path_at_props(pools: Seq<Pool>, token_in: u64, i: int, j: int, k: int)
    requires
        accepts(pools, token_in, i, j, k),
    ensures
        ({
            let hops = path_at(pools, token_in, i, j, k);
            &&& hops.len() == 3
            &&& hop_input_token(hops[0]) == token_in
            &&& hop_output_token(hops[2]) == token_in
            &&& hop_output_token(hops[0]) == hop_input_token(hops[1])
            &&& hop_output_token(hops[1]) == hop_input_token(hops[2])
            &&& hops[0].pool.address != hops[1].pool.address
            &&& hops[0].pool.address != hops[2].pool.address
            &&& hops[1].pool.address != hops[2].pool.address
            &&& hops[0].zero_for_one == (hops[0].pool.token0 == hop_input_token(hops[0]))
            &&& hops[1].zero_for_one == (hops[1].pool.token0 == hop_input_token(hops[1]))
            &&& hops[2].zero_for_one == (hops[2].pool.token0 == hop_input_token(hops[2]))
        }),
{
    let hops = path_at(pools, token_in, i, j, k);
    assert(hops[0] == Hop { pool: pools[i], zero_for_one: trade_dir(pools[i], token_in) });
    assert(hops[1] == Hop {
        pool: pools[j],
        zero_for_one: trade_dir(pools[j], t1_of(pools, token_in, i)),
    });
    assert(hops[2] == Hop {
        pool: pools[k],
        zero_for_one: trade_dir(pools[k], t2_of(pools, token_in, i, j)),
    });
}

/// Law: every generated path is a closed cycle on the base token: its first
/// hop consumes the base token, its last hop produces it, and each hop's
/// output token feeds the next hop's input token.
pub proof fn lemma_generated_path_cycles_on_base(
    ps: Seq<ArbPath>,
    pools: Seq<Pool>,
    token_in: u64,
    n: int,
)
    requires
        paths_match(ps, gen_spec(pools, token_in)),
        0 <= n < ps.len(),
    ensures
        ps[n]@.len() == 3,
        hop_input_token(ps[n]@[0]) == token_in,
        hop_output_token(ps[n]@[2]) == token_in,
        ps[n].chained(),
        ps[n].closed(),
{
    let r = lemma_gen_elem(pools, token_in, n);
    lemma_path_at_props(pools, token_in, r.0, r.1, r.2);
}

/// Law: the three pool addresses of every generated path are pairwise
/// distinct.
pub proof fn lemma_generated_pools_distinct(
    ps: Seq<ArbPath>,
    pools: Seq<Pool>,
    token_in: u64,
    n: int,
)
    requires
        paths_match(ps, gen_spec(pools, token_in)),
        0 <= n < ps.len(),
    ensures
        ps[n]@.len() == 3,
        ps[n]@[0].pool.address != ps[n]@[1].pool.address,
        ps[n]@[0].pool.address != ps[n]@[2].pool.address,
        ps[n]@[1].pool.address != ps[n]@[2].pool.address,
{
    let r = lemma_gen_elem(pools, token_in, n);
    lemma_path_at_props(pools, token_in, r.0, r.1, r.2);
}

/// Law: in every generated path, every hop's `zero_for_one` flag is true
/// exactly when the hop's pool has `token0` as the hop's input token.
pub proof fn lemma_generated_direction_flags(
    ps: Seq<ArbPath>,
    pools: Seq<Pool>,
    token_in: u64,
    n: int,
)
    requires
        paths_match(ps, gen_spec(pools, token_in)),
        0 <= n < ps.len(),
    ensures
        ps[n]@.len() == 3,
        forall|m: int|
            0 <= m < 3 ==> (#[trigger] ps[n]@[m]).zero_for_one == (ps[n]@[m].pool.token0
                == hop_input_token(ps[n]@[m])),
{
    let r = lemma_gen_elem(pools, token_in, n);
    lemma_path_at_props(pools, token_in, r.0, r.1, r.2);
    assert forall|m: int| 0 <= m < 3 implies (#[trigger] ps[n]@[m]).zero_for_one == (
    ps[n]@[m].pool.token0 == hop_input_token(ps[n]@[m])) by {
        let hops = path_at(pools, token_in, r.0, r.1, r.2);
        assert(ps[n]@[m] == hops[m]);
    }
}

/// Law: every generated path is well formed whenever every pool in the
/// input list keeps its fee numerator within the fee denominator, so it can
/// be handed straight to simulation.
pub proof fn lemma_generated_path_wf(ps: Seq<ArbPath>, pools: Seq<Pool>, token_in: u64, n: int)
    requires
        paths_match(ps, gen_spec(pools, token_in)),
        0 <= n < ps.len(),
        forall|m: int| 0 <= m < pools.len() ==> (#[trigger] pools[m]).fee <= crate::pool::FEE_DENOM,
    ensures
        ps[n].wf(),
{
    let r = lemma_gen_elem(pools, token_in, n);
    let hops = path_at(pools, token_in, r.0, r.1, r.2);
    assert(hops[0].pool == pools[r.0]);
    assert(hops[1].pool == pools[r.1]);
    assert(hops[2].pool == pools[r.2]);
    assert forall|m: int| 0 <= m < ps[n]@.len() implies (#[trigger] ps[n]@[m]).pool.fee
        <= crate::pool::FEE_DENOM by {
        assert(ps[n]@[m] == hops[m]);
    }
}

/// Generates every distinct 3-hop cycle over the pool list that starts and
/// ends at the base token: an exhaustive triple iteration in input order,
/// pruned at each level by whether the pool can trade the token produced so
/// far, accepting a triple only when the third hop returns to the base
/// token and the three pool addresses are pairwise distinct. Every hop's
/// direction flag, the final hop's included, is derived from comparing the
/// pool's `token0` against the token supplied into that hop.
pub fn generate_triangular_paths(pools: &Vec<Pool>, token_in: u64) -> (paths: Vec<ArbPath>)
    ensures
        paths_match(paths@, gen_spec(pools@, token_in)),
{
    let n = pools.len();
    let mut paths: Vec<ArbPath> = Vec::new();
    let mut i: usize = 0;
    while i < n
        invariant
            n == pools@.len(),
            i <= n,
            paths_match(paths@, gen1(pools@, token_in, i as int)),
        decreases n - i,
    {
        let pool_1 = pools[i];
        if pool_1.token0 == token_in || pool_1.token1 == token_in {
            let zero_for_one_1 = pool_1.token0 == token_in;
            let token_out_1 = if zero_for_one_1 {
                pool_1.token1
            } else {
                pool_1.token0
            };
            let mut j: usize = 0;
            while j < n
                invariant
                    n == pools@.len(),
                    i < n,
                    j <= n,
                    lvl1_ok(pools@, token_in, i as int),
                    pool_1 == pools@[i as int],
                    zero_for_one_1 == trade_dir(pool_1, token_in),
                    token_out_1 == t1_of(pools@, token_in, i as int),
                    paths_match(
                        paths@,
                        gen1(pools@, token_in, i as int) + gen2(
                            pools@,
                            token_in,
                            i as int,
                            j as int,
                        ),
                    ),
                decreases n - j,
            {
                let pool_2 = pools[j];
                if pool_2.token0 == token_out_1 || pool_2.token1 == token_out_1 {
                    let zero_for_one_2 = pool_2.token0 == token_out_1;
                    let token_out_2 = if zero_for_one_2 {
                        pool_2.token1
                    } else {
                        pool_2.token0
                    };
                    proof {
                        assert(gen1(pools@, token_in, i as int) + gen2(
                            pools@,
                            token_in,
                            i as int,
                            j as int,
                        ) + gen3(pools@, token_in, i as int, j as int, 0) =~= gen1(
                            pools@,
                            token_in,
                            i as int,
                        ) + gen2(pools@, token_in, i as int, j as int));
                    }
                    let mut k: usize = 0;
                    while k < n
                        invariant
                            n == pools@.len(),
                            i < n,
                            j < n,
                            k <= n,
                            lvl2_ok(pools@, token_in, i as int, j as int),
                            pool_1 == pools@[i as int],
                            pool_2 == pools@[j as int],
                            zero_for_one_1 == trade_dir(pool_1, token_in),
                            token_out_1 == t1_of(pools@, token_in, i as int),
                            zero_for_one_2 == trade_dir(pool_2, token_out_1),
                            token_out_2 == t2_of(pools@, token_in, i as int, j as int),
                            paths_match(
                                paths@,
                                gen1(pools@, token_in, i as int) + gen2(
                                    pools@,
                                    token_in,
                                    i as int,
                                    j as int,
                                ) + gen3(pools@, token_in, i as int, j as int, k as int),
                            ),
                        decreases n - k,
                    {
                        let pool_3 = pools[k];
                        if pool_3.token0 == token_out_2 || pool_3.token1 == token_out_2 {
                            let zero_for_one_3 = pool_3.token0 == token_out_2;
                            let token_out_3 = if zero_for_one_3 {
                                pool_3.token1
                            } else {
                                pool_3.token0
                            };
                            if token_out_3 == token_in {
                                if pool_1.address != pool_2.address && pool_1.address
                                    != pool_3.address && pool_2.address != pool_3.address {
                                    assert(accepts(
                                        pools@,
                                        token_in,
                                        i as int,
                                        j as int,
                                        k as int,
                                    ));
                                    let mut hops: Vec<Hop> = Vec::new();
                                    hops.push(Hop { pool: pool_1, zero_for_one: zero_for_one_1 });
                                    hops.push(Hop { pool: pool_2, zero_for_one: zero_for_one_2 });
                                    hops.push(Hop { pool: pool_3, zero_for_one: zero_for_one_3 });
                                    let path = ArbPath { nhop: 3, hops };
                                    proof {
                                        assert(path@ =~= path_at(
                                            pools@,
                                            token_in,
                                            i as int,
                                            j as int,
                                            k as int,
                                        ));
                                        lemma_paths_match_push(
                                            paths@,
                                            gen1(pools@, token_in, i as int) + gen2(
                                                pools@,
                                                token_in,
                                                i as int,
                                                j as int,
                                            ) + gen3(pools@, token_in, i as int, j as int, k as int),
                                            path,
                                            path_at(pools@, token_in, i as int, j as int, k as int),
                                        );
                                    }
                                    paths.push(path);
                                    proof {
                                        assert(gen1(pools@, token_in, i as int) + gen2(
                                            pools@,
                                            token_in,
                                            i as int,
                                            j as int,
                                        ) + gen3(
                                            pools@,
                                            token_in,
                                            i as int,
                                            j as int,
                                            k as int + 1,
                                        ) =~= (gen1(pools@, token_in, i as int) + gen2(
                                            pools@,
                                            token_in,
                                            i as int,
                                            j as int,
                                        ) + gen3(
                                            pools@,
                                            token_in,
                                            i as int,
                                            j as int,
                                            k as int,
                                        )).push(
                                            path_at(pools@, token_in, i as int, j as int, k as int),
                                        ));
                                    }
                                }
                            }
                        }
                        k += 1;
                    }
                } else {
                    proof {
                        lemma_gen3_all_empty(pools@, token_in, i as int, j as int, n as int);
                        assert(gen1(pools@, token_in, i as int) + gen2(
                            pools@,
                            token_in,
                            i as int,
                            j as int + 1,
                        ) =~= gen1(pools@, token_in, i as int) + gen2(
                            pools@,
                            token_in,
                            i as int,
                            j as int,
                        ));
                    }
                }
                proof {
                    assert(gen1(pools@, token_in, i as int) + gen2(
                        pools@,
                        token_in,
                        i as int,
                        j as int + 1,
                    ) =~= gen1(pools@, token_in, i as int) + gen2(
                        pools@,
                        token_in,
                        i as int,
                        j as int,
                    ) + gen3(pools@, token_in, i as int, j as int, n as int));
                }
                j += 1;
            }
        } else {
            proof {
                lemma_gen2_all_empty(pools@, token_in, i as int, n as int);
                assert(gen1(pools@, token_in, i as int + 1) =~= gen1(pools@, token_in, i as int));
            }
        }
        proof {
            assert(gen1(pools@, token_in, i as int + 1) =~= gen1(pools@, token_in, i as int) + gen2(
                pools@,
                token_in,
                i as int,
                n as int,
            ));
        }
        i += 1;
    }
    paths
}

} // verus!
