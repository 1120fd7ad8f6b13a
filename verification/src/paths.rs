//! Arbitrage paths: ordered cycles of pool hops, with membership queries
//! and reserve-snapshot simulation.

use std::collections::HashMap;
use vstd::prelude::*;

use crate::amm::{amount_out_spec, get_amount_out};
use crate::pool::{Pool, Reserve, FEE_DENOM};

verus! {

use vstd::arithmetic::power::pow;

broadcast use vstd::std_specs::hash::group_hash_axioms;

/// One swap through one pool. `zero_for_one` true means the hop consumes
/// `token0` and produces `token1`.
#[derive(Clone, Copy, Debug, PartialEq, Eq, Structural)]
pub struct Hop {
    pub pool: Pool,
    pub zero_for_one: bool,
}

/// The token a hop consumes.
pub open spec fn hop_input_token(h: Hop) -> u64 {
    if h.zero_for_one {
        h.pool.token0
    } else {
        h.pool.token1
    }
}

/// The token a hop produces.
pub open spec fn hop_output_token(h: Hop) -> u64 {
    if h.zero_for_one {
        h.pool.token1
    } else {
        h.pool.token0
    }
}

/// The reserve on the input side of a hop.
pub open spec fn hop_reserve_in(h: Hop, r: Reserve) -> u128 {
    if h.zero_for_one {
        r.reserve0
    } else {
        r.reserve1
    }
}

/// The reserve on the output side of a hop.
pub open spec fn hop_reserve_out(h: Hop, r: Reserve) -> u128 {
    if h.zero_for_one {
        r.reserve1
    } else {
        r.reserve0
    }
}

/// An ordered cycle of `nhop` pool hops. Slots beyond `nhop` never
/// participate in any operation: the view of a path is its first `nhop`
/// hops, and every query and simulation is stated over that view.
#[derive(Clone, Debug)]
pub struct ArbPath {
    pub nhop: usize,
    pub hops: Vec<Hop>,
}

impl View for ArbPath {
    type V = Seq<Hop>;

    open spec fn view(&self) -> Seq<Hop> {
        self.hops@.take(self.nhop as int)
    }
}

impl ArbPath {
    /// Structural well-formedness: at least one hop, the hop storage holds
    /// every used slot, and every traversed pool's fee numerator stays
    /// within the fee denominator.
    pub open spec fn wf(&self) -> bool {
        &&& 1 <= self.nhop <= self.hops.len()
        &&& forall|i: int| 0 <= i < self@.len() ==> (#[trigger] self@[i]).pool.fee <= FEE_DENOM
    }

    /// Each hop's output token feeds the next hop's input token.
    pub open spec fn chained(&self) -> bool {
        forall|i: int|
            0 <= i < self@.len() - 1 ==> hop_output_token(#[trigger] self@[i]) == hop_input_token(
                self@[i + 1],
            )
    }

    /// The final hop's output token equals the first hop's input token.
    pub open spec fn closed(&self) -> bool {
        self@.len() > 0 && hop_output_token(self@[self@.len() - 1]) == hop_input_token(self@[0])
    }

    /// True iff some hop of the path trades through the given pool address.
    pub fn has_pool(&self, pool: u64) -> (r: bool)
        requires
            self.nhop <= self.hops.len(),
        ensures
            r == exists|i: int| 0 <= i < self@.len() && (#[trigger] self@[i]).pool.address == pool,
    {
        let mut i: usize = 0;
        while i < self.nhop
            invariant
                self.nhop <= self.hops.len(),
                i <= self.nhop,
                forall|j: int| 0 <= j < i ==> (#[trigger] self@[j]).pool.address != pool,
            decreases self.nhop - i,
        {
            if self.hops[i].pool.address == pool {
                assert(self@[i as int].pool.address == pool);
                return true;
            }
            i += 1;
        }
        false
    }

    /// True iff a hop's pool has either of its tokens in the blacklist.
    pub open spec fn hop_touches(h: Hop, blacklist: Seq<u64>) -> bool {
        blacklist.contains(h.pool.token0) || blacklist.contains(h.pool.token1)
    }

    /// True iff any hop of the path, anywhere in the cycle, touches a
    /// blacklisted token. Every hop up to `nhop` is evaluated.
    pub fn should_blacklist(&self, blacklist_tokens: &Vec<u64>) -> (r: bool)
        requires
            self.nhop <= self.hops.len(),
        ensures
            r == exists|i: int|
                0 <= i < self@.len() && ArbPath::hop_touches(#[trigger] self@[i], blacklist_tokens@),
    {
        let mut i: usize = 0;
        while i < self.nhop
            invariant
                self.nhop <= self.hops.len(),
                i <= self.nhop,
                forall|j: int|
                    0 <= j < i ==> !ArbPath::hop_touches(#[trigger] self@[j], blacklist_tokens@),
            decreases self.nhop - i,
        {
            let h = self.hops[i];
            if contains_token(blacklist_tokens, h.pool.token0) || contains_token(
                blacklist_tokens,
                h.pool.token1,
            ) {
                assert(ArbPath::hop_touches(self@[i as int], blacklist_tokens@));
                return true;
            }
            i += 1;
        }
        false
    }
}

/// The decimal scale of a path's input token: the scale of the side of the
/// first hop's pool that the path consumes.
pub open spec fn input_decimals(p: ArbPath) -> u8
    recommends
        p@.len() > 0,
{
    if p@[0].zero_for_one {
        p@[0].pool.decimals0
    } else {
        p@[0].pool.decimals1
    }
}

/// A whole-token amount scaled to base units by `10^decimals`, or `None`
/// when the scaled amount does not fit in the amount type.
pub open spec fn scaled_amount(amount_in: u128, decimals: u8) -> Option<u128> {
    if amount_in as int * pow(10, decimals as nat) > u128::MAX as int {
        None
    } else {
        Some((amount_in as int * pow(10, decimals as nat)) as u128)
    }
}

/// The amount a sequence of hops yields for an already-scaled input amount,
/// threading each hop's output into the next hop. `None` as soon as a hop's
/// pool address is absent from the snapshot or its swap fails.
pub open spec fn hops_out_spec(hops: Seq<Hop>, amount: u128, reserves: Map<u64, Reserve>) -> Option<
    u128,
>
    decreases hops.len(),
{
    if hops.len() == 0 {
        Some(amount)
    } else {
        let h = hops[0];
        if !reserves.contains_key(h.pool.address) {
            None
        } else {
            let r = reserves[h.pool.address];
            match amount_out_spec(amount, hop_reserve_in(h, r), hop_reserve_out(h, r), h.pool.fee) {
                Some(a) => hops_out_spec(hops.skip(1), a, reserves),
                None => None,
            }
        }
    }
}

/// What a whole simulation returns: the input amount scaled to base units,
/// then piped through every hop of the path against the snapshot.
pub open spec fn simulate_spec(p: ArbPath, amount_in: u128, reserves: Map<u64, Reserve>) -> Option<
    u128,
>
    recommends
        p.wf(),
{
    match scaled_amount(amount_in, input_decimals(p)) {
        None => None,
        Some(a) => hops_out_spec(p@, a, reserves),
    }
}

impl ArbPath {
    /// Simulates the path against a reserve snapshot: scales `amount_in`
    /// (a whole-token amount) to base units by the input token's decimals,
    /// then applies the constant-product output function once per hop.
    /// `None` when any hop's pool is missing from the snapshot or any
    /// arithmetic step is infeasible.
    pub fn simulate_v2_path(&self, amount_in: u128, reserves: &HashMap<u64, Reserve>) -> (r: Option<
        u128,
    >)
        requires
            self.wf(),
        ensures
            r == simulate_spec(*self, amount_in, reserves@),
    {
        let decimals: u8 = if self.hops[0].zero_for_one {
            self.hops[0].pool.decimals0
        } else {
            self.hops[0].pool.decimals1
        };
        assert(decimals == input_decimals(*self));

        let mut scaled: u128 = amount_in;
        let mut d: u8 = 0;
        proof {
            vstd::arithmetic::power::lemma_pow0(10);
        }
        while d < decimals
            invariant
                d <= decimals,
                decimals == input_decimals(*self),
                self.wf(),
                scaled as int == amount_in as int * pow(10, d as nat),
            decreases decimals - d,
        {
            scaled = match scaled.checked_mul(10) {
                Some(v) => v,
                None => {
                    proof {
                        lemma_scaling_overflows(amount_in, d, decimals, scaled);
                    }
                    return None;
                },
            };
            proof {
                lemma_pow10_step(d as nat);
                vstd::arithmetic::mul::lemma_mul_is_associative(
                    amount_in as int,
                    pow(10, d as nat),
                    10,
                );
            }
            d += 1;
        }
        assert(scaled_amount(amount_in, decimals) == Some(scaled));
        assert(self@.skip(0) =~= self@);

        let mut amount: u128 = scaled;
        let mut i: usize = 0;
        while i < self.nhop
            invariant
                self.wf(),
                i <= self.nhop,
                hops_out_spec(self@.skip(i as int), amount, reserves@) == hops_out_spec(
                    self@,
                    scaled,
                    reserves@,
                ),
                simulate_spec(*self, amount_in, reserves@) == hops_out_spec(
                    self@,
                    scaled,
                    reserves@,
                ),
            decreases self.nhop - i,
        {
            assert(self@.skip(i as int).len() > 0);
            assert(self@.skip(i as int)[0] == self@[i as int]);
            let h = self.hops[i];
            assert(h == self@[i as int]);
            let rsv: Reserve = match reserves.get(&h.pool.address) {
                Some(rv) => *rv,
                None => {
                    assert(!reserves@.contains_key(h.pool.address));
                    return None;
                },
            };
            assert(reserves@.contains_key(h.pool.address) && reserves@[h.pool.address] == rsv);
            let rin: u128 = if h.zero_for_one {
                rsv.reserve0
            } else {
                rsv.reserve1
            };
            let rout: u128 = if h.zero_for_one {
                rsv.reserve1
            } else {
                rsv.reserve0
            };
            let next: u128 = match get_amount_out(amount, rin, rout, h.pool.fee) {
                Some(v) => v,
                None => {
                    return None;
                },
            };
            proof {
                assert(self@.skip(i as int).skip(1) =~= self@.skip(i as int + 1));
            }
            amount = next;
            i += 1;
        }
        assert(self@.skip(self.nhop as int).len() == 0);
        Some(amount)
    }
}

/// When one more factor of ten overflows the amount type, the full scaling
/// by `10^decimals` overflows it too.
proof fn lemma_scaling_overflows(amount_in: u128, d: u8, decimals: u8, scaled: u128)
    requires
        d < decimals,
        scaled as int == amount_in as int * pow(10, d as nat),
        scaled as int * 10 > u128::MAX as int,
    ensures
        amount_in as int * pow(10, decimals as nat) > u128::MAX as int,
{
    broadcast use vstd::arithmetic::mul::lemma_mul_is_commutative;

    lemma_pow10_step(d as nat);
    vstd::arithmetic::mul::lemma_mul_is_associative(amount_in as int, pow(10, d as nat), 10);
    assert(amount_in as int * pow(10, (d + 1) as nat) > u128::MAX as int);
    vstd::arithmetic::power::lemma_pow_increases(10, (d + 1) as nat, decimals as nat);
    vstd::arithmetic::mul::lemma_mul_inequality(
        pow(10, (d + 1) as nat),
        pow(10, decimals as nat),
        amount_in as int,
    );
}

/// One more power of ten is one more factor of ten.
proof fn lemma_pow10_step(d: nat)
    ensures
        pow(10, d + 1) == pow(10, d) * 10,
{
    vstd::arithmetic::power::lemma_pow_adds(10, d, 1);
    vstd::arithmetic::power::lemma_pow1(10);
}

/// Law: a zero input amount simulates to a zero output amount whenever every
/// hop's pool is present in the snapshot, every hop's input-side reserve is
/// positive, and scaling that reserve by the fee denominator stays within the
/// amount type.
pub proof fn lemma_simulate_zero_input(p: ArbPath, reserves: Map<u64, Reserve>)
    requires
        p.wf(),
        forall|i: int|
            0 <= i < p@.len() ==> reserves.contains_key((#[trigger] p@[i]).pool.address),
        forall|i: int|
            0 <= i < p@.len() ==> hop_reserve_in(#[trigger] p@[i], reserves[p@[i].pool.address])
                >= 1,
        forall|i: int|
            0 <= i < p@.len() ==> hop_reserve_in(
                #[trigger] p@[i],
                reserves[p@[i].pool.address],
            ) as int * FEE_DENOM as int <= u128::MAX as int,
    ensures
        simulate_spec(p, 0u128, reserves) == Some(0u128),
{
    assert(0 as int * pow(10, input_decimals(p) as nat) == 0);
    lemma_hops_zero(p@, reserves);
}

/// A zero amount stays zero through any sequence of hops whose pools are all
/// present with positive, non-overflowing input-side reserves.
proof fn lemma_hops_zero(hops: Seq<Hop>, reserves: Map<u64, Reserve>)
    requires
        forall|i: int|
            0 <= i < hops.len() ==> reserves.contains_key((#[trigger] hops[i]).pool.address),
        forall|i: int|
            0 <= i < hops.len() ==> hop_reserve_in(
                #[trigger] hops[i],
                reserves[hops[i].pool.address],
            ) >= 1,
        forall|i: int|
            0 <= i < hops.len() ==> hop_reserve_in(
                #[trigger] hops[i],
                reserves[hops[i].pool.address],
            ) as int * FEE_DENOM as int <= u128::MAX as int,
    ensures
        hops_out_spec(hops, 0u128, reserves) == Some(0u128),
    decreases hops.len(),
{
    if hops.len() == 0 {
    } else {
        let h = hops[0];
        let r = reserves[h.pool.address];
        assert(hop_reserve_in(h, r) >= 1);
        assert(0 as int * (FEE_DENOM - h.pool.fee) as int == 0);
        assert(amount_out_spec(0u128, hop_reserve_in(h, r), hop_reserve_out(h, r), h.pool.fee)
            == Some(0u128));
        assert forall|i: int| 0 <= i < hops.skip(1).len() implies reserves.contains_key(
            (#[trigger] hops.skip(1)[i]).pool.address,
        ) && hop_reserve_in(hops.skip(1)[i], reserves[hops.skip(1)[i].pool.address]) >= 1
            && hop_reserve_in(hops.skip(1)[i], reserves[hops.skip(1)[i].pool.address]) as int
            * FEE_DENOM as int <= u128::MAX as int by {
            assert(hops.skip(1)[i] == hops[i + 1]);
        }
        lemma_hops_zero(hops.skip(1), reserves);
    }
}

/// Law: the simulation returns no value whenever some hop's pool address is
/// absent from the reserve snapshot, whatever the input amount.
pub proof fn lemma_simulate_missing_reserve(
    p: ArbPath,
    amount_in: u128,
    reserves: Map<u64, Reserve>,
    i: int,
)
    requires
        p.wf(),
        0 <= i < p@.len(),
        !reserves.contains_key(p@[i].pool.address),
    ensures
        simulate_spec(p, amount_in, reserves) is None,
{
    match scaled_amount(amount_in, input_decimals(p)) {
        None => {},
        Some(a) => {
            lemma_hops_missing(p@, a, reserves, i);
        },
    }
}

/// A hop sequence with an absent pool address yields no value.
proof fn lemma_hops_missing(hops: Seq<Hop>, amount: u128, reserves: Map<u64, Reserve>, i: int)
    requires
        0 <= i < hops.len(),
        !reserves.contains_key(hops[i].pool.address),
    ensures
        hops_out_spec(hops, amount, reserves) is None,
    decreases hops.len(),
{
    let h = hops[0];
    if !reserves.contains_key(h.pool.address) {
    } else {
        let r = reserves[h.pool.address];
        match amount_out_spec(amount, hop_reserve_in(h, r), hop_reserve_out(h, r), h.pool.fee) {
            Some(a) => {
                assert(hops.skip(1)[i - 1] == hops[i]);
                lemma_hops_missing(hops.skip(1), a, reserves, i - 1);
            },
            None => {},
        }
    }
}

/// The set of token identifiers that a path's hops touch: both tokens of
/// every pool in the used hop sequence.
pub open spec fn path_token_set(p: ArbPath) -> Set<u64> {
    Set::new(
        |t: u64|
            exists|i: int|
                0 <= i < p@.len() && ((#[trigger] p@[i]).pool.token0 == t || p@[i].pool.token1
                    == t),
    )
}

/// Law: a path touches a blacklisted token exactly when the blacklist
/// intersects the set of token identifiers across the path's hops.
pub proof fn lemma_blacklist_intersects_tokens(p: ArbPath, blacklist: Seq<u64>)
    ensures
        (exists|i: int| 0 <= i < p@.len() && ArbPath::hop_touches(#[trigger] p@[i], blacklist))
            <==> (exists|t: u64| blacklist.contains(t) && path_token_set(p).contains(t)),
{
    if exists|i: int| 0 <= i < p@.len() && ArbPath::hop_touches(#[trigger] p@[i], blacklist) {
        let i = choose|i: int|
            0 <= i < p@.len() && ArbPath::hop_touches(#[trigger] p@[i], blacklist);
        if blacklist.contains(p@[i].pool.token0) {
            assert(path_token_set(p).contains(p@[i].pool.token0));
        } else {
            assert(path_token_set(p).contains(p@[i].pool.token1));
        }
    }
    if exists|t: u64| blacklist.contains(t) && path_token_set(p).contains(t) {
        let t = choose|t: u64| blacklist.contains(t) && path_token_set(p).contains(t);
        let i = choose|i: int|
            0 <= i < p@.len() && ((#[trigger] p@[i]).pool.token0 == t || p@[i].pool.token1 == t);
        assert(ArbPath::hop_touches(p@[i], blacklist));
    }
}

/// True iff the token occurs in the list.
pub fn contains_token(tokens: &Vec<u64>, token: u64) -> (r: bool)
    ensures
        r == tokens@.contains(token),
{
    let mut i: usize = 0;
    while i < tokens.len()
        invariant
            i <= tokens@.len(),
            forall|j: int| 0 <= j < i ==> tokens@[j] != token,
        decreases tokens@.len() - i,
    {
        if tokens[i] == token {
            assert(tokens@[i as int] == token);
            return true;
        }
        i += 1;
    }
    false
}

} // verus!
