use std::collections::HashMap;
use std::hash::Hash;
use vstd::prelude::*;
use vstd::arithmetic::power2::{pow2, lemma_pow2_unfold, lemma_pow2_strictly_increases, lemma2_to64};
use vstd::std_specs::hash::obeys_key_model;

verus! {

broadcast use vstd::std_specs::hash::group_hash_axioms;

/// The timeout, in milliseconds, for a destination with no round-trip sample yet.
pub const DEFAULT_RTO: u32 = 1000;

/// The largest timeout, in milliseconds, that an estimate ever gives (RFC 6298
/// allows sixty seconds; a shorter ceiling is used here).
pub const MAX_RTO: u32 = 10 * 1000;

/// The round-trip estimate kept for one destination, in the fixed-point
/// form of RFC 6298 implementations: `srtt` is eight times the smoothed
/// round-trip time and `rttvar` four times the round-trip variation, both
/// in milliseconds.
#[derive(Clone, Copy)]
pub struct State {
    pub srtt: i32,
    pub rttvar: i32,
}

/// The absolute value of `x`.
pub open spec fn abs(x: int) -> int {
    if x < 0 {
        -x
    } else {
        x
    }
}

/// The larger of `a` and `b`.
pub open spec fn max_int(a: int, b: int) -> int {
    if a < b {
        b
    } else {
        a
    }
}

/// The smaller of `a` and `b`.
pub open spec fn min_int(a: int, b: int) -> int {
    if a < b {
        a
    } else {
        b
    }
}

/// The first sample `rtt` fits the fixed-point form without overflow.
pub open spec fn first_sample_fits(rtt: u32) -> bool {
    rtt * 8 <= u32::MAX
}

/// The estimate after the first sample: SRTT = R and RTTVAR = R / 2.
pub open spec fn initial_estimate(rtt: u32) -> State {
    State { srtt: (rtt * 8) as i32, rttvar: (rtt * 2) as i32 }
}

/// The measurement error R - SRTT of a new sample, where R is the sample
/// read as a signed 32-bit number.
pub open spec fn sample_error(s: State, rtt: u32) -> int {
    (rtt as i32) as int - s.srtt as int / 8
}

/// Folding the sample `rtt` into `s` stays within signed 32-bit arithmetic.
pub open spec fn update_fits(s: State, rtt: u32) -> bool {
    let e = sample_error(s, rtt);
    &&& i32::MIN < e <= i32::MAX
    &&& i32::MIN <= s.srtt + e <= i32::MAX
    &&& i32::MIN <= s.rttvar / 4 - abs(e) <= i32::MAX
    &&& i32::MIN <= s.rttvar - (s.rttvar / 4 - abs(e)) <= i32::MAX
}

/// The estimate after a later sample: SRTT += (R - SRTT) / 8 and
/// RTTVAR += (|R - SRTT| - RTTVAR) / 4, in the fixed-point form.
pub open spec fn updated_estimate(s: State, rtt: u32) -> State {
    let e = sample_error(s, rtt);
    State { srtt: (s.srtt + e) as i32, rttvar: (s.rttvar - (s.rttvar / 4 - abs(e))) as i32 }
}

/// SRTT + max(G, 4 * RTTVAR), each read as an unsigned 32-bit number.
pub open spec fn raw_rto(s: State, clock_granularity: u32) -> int {
    ((s.srtt as int / 8) as u32) as int + max_int(clock_granularity as int, (s.rttvar as u32) as int)
}

/// The timeout an estimate gives: the raw value raised to `min_rto` and
/// capped at `MAX_RTO`.
pub open spec fn estimate_rto(s: State, clock_granularity: u32, min_rto: u32) -> int {
    min_int(MAX_RTO as int, max_int(min_rto as int, raw_rto(s, clock_granularity)))
}

impl State {
    /// The estimate after the first round-trip sample `rtt`.
    pub fn new(rtt: u32) -> (s: State)
        requires
            first_sample_fits(rtt),
        ensures
            s == initial_estimate(rtt),
    {
        State { srtt: (rtt * 8) as i32, rttvar: (rtt * 2) as i32 }
    }

    /// Folds a later round-trip sample `rtt` into the estimate.
    pub fn update(&mut self, rtt: u32)
        requires
            update_fits(*old(self), rtt),
        ensures
            *final(self) == updated_estimate(*old(self), rtt),
    {
        proof {
            shift_is_floor_div(self.srtt);
            shift_is_floor_div(self.rttvar);
        }
        let mut e: i32 = (rtt as i32) - (self.srtt >> 3);
        self.srtt = self.srtt + e;
        if e < 0 {
            e = -e;
        }
        self.rttvar = self.rttvar - ((self.rttvar >> 2) - e);
    }

    /// Whether folding in `rtt` stays within signed 32-bit arithmetic.
    pub fn update_in_range(&self, rtt: u32) -> (ok: bool)
        ensures
            ok == update_fits(*self, rtt),
    {
        proof {
            shift_is_floor_div(self.srtt);
            shift_is_floor_div(self.rttvar);
        }
        let e: i64 = (rtt as i32) as i64 - (self.srtt >> 3) as i64;
        if !((i32::MIN as i64) < e && e <= i32::MAX as i64) {
            return false;
        }
        let srtt = self.srtt as i64 + e;
        if !((i32::MIN as i64) <= srtt && srtt <= i32::MAX as i64) {
            return false;
        }
        let a = if e < 0 {
            -e
        } else {
            e
        };
        let d = (self.rttvar >> 2) as i64 - a;
        if !((i32::MIN as i64) <= d && d <= i32::MAX as i64) {
            return false;
        }
        let v = self.rttvar as i64 - d;
        (i32::MIN as i64) <= v && v <= i32::MAX as i64
    }

    /// Whether SRTT + max(G, 4 * RTTVAR) fits in 32 bits.
    pub fn raw_rto_in_range(&self, clock_granularity: u32) -> (ok: bool)
        ensures
            ok == (raw_rto(*self, clock_granularity) <= u32::MAX),
    {
        proof {
            shift_is_floor_div(self.srtt);
        }
        let var = self.rttvar as u32;
        let spread = if clock_granularity < var {
            var
        } else {
            clock_granularity
        };
        ((self.srtt >> 3) as u32) as u64 + spread as u64 <= u32::MAX as u64
    }

    /// The timeout this estimate gives, in milliseconds.
    pub fn get_rto(&self, clock_granularity: u32, min_rto: u32) -> (rto: u32)
        requires
            raw_rto(*self, clock_granularity) <= u32::MAX,
        ensures
            rto == estimate_rto(*self, clock_granularity, min_rto),
    {
        proof {
            shift_is_floor_div(self.srtt);
        }
        let var = self.rttvar as u32;
        let spread = if clock_granularity < var {
            var
        } else {
            clock_granularity
        };
        let raw = (self.srtt >> 3) as u32 + spread;
        let floored = if min_rto < raw {
            raw
        } else {
            min_rto
        };
        if MAX_RTO < floored {
            MAX_RTO
        } else {
            floored
        }
    }
}

/// An arithmetic shift right divides a signed number, rounding down.
proof fn shift_is_floor_div(x: i32)
    ensures
        (x >> 3u32) as int == x as int / 8,
        (x >> 2u32) as int == x as int / 4,
{
    assert((x >> 3u32) as int == x as int / 8) by (bit_vector);
    assert((x >> 2u32) as int == x as int / 4) by (bit_vector);
}

/// 2 to the power `n`.
fn pow2_u32(n: u32) -> (p: u32)
    requires
        n < 32,
    ensures
        p == pow2(n as nat),
{
    proof {
        lemma2_to64();
    }
    let mut p: u32 = 1;
    let mut i: u32 = 0;
    while i < n
        invariant
            i <= n < 32,
            p == pow2(i as nat),
        decreases n - i,
    {
        proof {
            lemma_pow2_unfold((i + 1) as nat);
            if i + 1 < 31 {
                lemma_pow2_strictly_increases((i + 1) as nat, 31);
            }
            lemma2_to64();
        }
        p = p * 2;
        i = i + 1;
    }
    p
}


/// The estimates after a sample `rtt` for `key` sent `retransmit_cnt` times
/// before it was answered: a sample from a retransmitted request is ignored
/// (Karn's algorithm), the first sample for a key starts its estimate, and a
/// later one is folded into it.
pub open spec fn sampled<K>(est: Map<K, State>, key: K, rtt: u32, retransmit_cnt: u32) -> Map<K, State> {
    if retransmit_cnt > 0 {
        est
    } else if est.contains_key(key) {
        est.insert(key, updated_estimate(est[key], rtt))
    } else {
        est.insert(key, initial_estimate(rtt))
    }
}

/// The sample can be folded into the estimates without overflow.
pub open spec fn sample_fits<K>(est: Map<K, State>, key: K, rtt: u32, retransmit_cnt: u32) -> bool {
    retransmit_cnt == 0 ==> if est.contains_key(key) {
        update_fits(est[key], rtt)
    } else {
        first_sample_fits(rtt)
    }
}

/// The timeout for a first transmission to `key`.
pub open spec fn base_timeout<K>(est: Map<K, State>, key: K, clock_granularity: u32, min_rto: u32) -> int {
    if est.contains_key(key) {
        estimate_rto(est[key], clock_granularity, min_rto)
    } else {
        DEFAULT_RTO as int
    }
}

/// The timeout for a request to `key` that was already sent `retransmit_count`
/// times: the base timeout doubled for each retransmission.
pub open spec fn backed_off_timeout<K>(
    est: Map<K, State>,
    key: K,
    clock_granularity: u32,
    min_rto: u32,
    retransmit_count: u32,
) -> int {
    let base = base_timeout(est, key, clock_granularity, min_rto);
    if retransmit_count == 0 {
        base
    } else {
        base * pow2(retransmit_count as nat)
    }
}

/// The timeout can be computed without overflow.
pub open spec fn timeout_fits<K>(
    est: Map<K, State>,
    key: K,
    clock_granularity: u32,
    min_rto: u32,
    retransmit_count: u32,
) -> bool {
    &&& est.contains_key(key) ==> raw_rto(est[key], clock_granularity) <= u32::MAX
    &&& retransmit_count > 0 ==> {
        &&& retransmit_count < 32
        &&& backed_off_timeout(est, key, clock_granularity, min_rto, retransmit_count) <= u32::MAX
    }
}

/// An algorithm that chooses the retransmission timeout of a request from
/// the round trips observed so far.
pub trait RetransmissionTimerAlgorithm<T>: Sized {
    /// Adding this sample stays within the algorithm's arithmetic.
    spec fn accepts_sample(&self, key: T, rtt: u32, retransmit_cnt: u32) -> bool;

    /// Computing this timeout stays within the algorithm's arithmetic.
    spec fn timeout_defined(&self, key: T, retransmit_count: u32) -> bool;

    /// `self` is `before` after the sample (`key`, `rtt`, `retransmit_cnt`)
    /// was recorded.
    spec fn records_sample(&self, before: Self, key: T, rtt: u32, retransmit_cnt: u32) -> bool;

    /// The timeout, in milliseconds, for a request to `key` already sent
    /// `retransmit_count` times.
    spec fn timeout(&self, key: T, retransmit_count: u32) -> int;

    /// Records a round trip: the request was first sent at `time` (ms), the
    /// answer came `rtt` ms after that, and the request had been resent
    /// `retransmit_cnt` times.
    fn add_sample(&mut self, key: &T, time: u64, rtt: u32, retransmit_cnt: u32)
        requires
            old(self).accepts_sample(*key, rtt, retransmit_cnt),
        ensures
            final(self).records_sample(*old(self), *key, rtt, retransmit_cnt),
    ;

    /// The retransmission timeout, in milliseconds.
    fn get_rto(&self, key: &T, retransmit_count: u32) -> (rto: u32)
        requires
            self.timeout_defined(*key, retransmit_count),
        ensures
            rto == self.timeout(*key, retransmit_count),
    ;

    /// Whether `add_sample` can take this sample.
    fn sample_in_range(&self, key: &T, rtt: u32, retransmit_cnt: u32) -> (ok: bool)
        ensures
            ok == self.accepts_sample(*key, rtt, retransmit_cnt),
    ;

    /// Whether `get_rto` can compute this timeout.
    fn timeout_in_range(&self, key: &T, retransmit_count: u32) -> (ok: bool)
        ensures
            ok == self.timeout_defined(*key, retransmit_count),
    ;
}

/// A retransmission-timeout estimator after RFC 6298, keeping one estimate
/// per destination.
pub struct RFC6298BasedRTO<K: Hash + Eq> {
    state: HashMap<K, State>,
    min_rto: u32,
    clock_granularity: u32,
}

impl<K: Hash + Eq> RFC6298BasedRTO<K> {
    /// The keys hash and compare as the model of hash maps expects.
    #[verifier::type_invariant]
    spec fn keys_behave(self) -> bool {
        obeys_key_model::<K>()
    }
}

impl<K: Copy + Hash + Eq> RFC6298BasedRTO<K> {
    /// The estimate kept for each destination.
    pub closed spec fn estimates(&self) -> Map<K, State> {
        self.state@
    }

    /// The least timeout that an estimate gives, in milliseconds.
    pub closed spec fn min_rto(&self) -> u32 {
        self.min_rto
    }

    /// The clock granularity G of RFC 6298, in milliseconds.
    pub closed spec fn clock_granularity(&self) -> u32 {
        self.clock_granularity
    }

    /// An estimator with no samples.
    pub fn new(min_rto: u32, clock_granularity: u32) -> (rto: RFC6298BasedRTO<K>)
        requires
            obeys_key_model::<K>(),
        ensures
            rto.estimates() == Map::<K, State>::empty(),
            rto.min_rto() == min_rto,
            rto.clock_granularity() == clock_granularity,
    {
        RFC6298BasedRTO { state: HashMap::new(), min_rto, clock_granularity }
    }
}

impl<K: Copy + Hash + Eq> RetransmissionTimerAlgorithm<K> for RFC6298BasedRTO<K> {
    open spec fn accepts_sample(&self, key: K, rtt: u32, retransmit_cnt: u32) -> bool {
        sample_fits(self.estimates(), key, rtt, retransmit_cnt)
    }

    open spec fn timeout_defined(&self, key: K, retransmit_count: u32) -> bool {
        timeout_fits(self.estimates(), key, self.clock_granularity(), self.min_rto(), retransmit_count)
    }

    open spec fn records_sample(&self, before: Self, key: K, rtt: u32, retransmit_cnt: u32) -> bool {
        &&& self.estimates() == sampled(before.estimates(), key, rtt, retransmit_cnt)
        &&& self.min_rto() == before.min_rto()
        &&& self.clock_granularity() == before.clock_granularity()
    }

    open spec fn timeout(&self, key: K, retransmit_count: u32) -> int {
        backed_off_timeout(self.estimates(), key, self.clock_granularity(), self.min_rto(), retransmit_count)
    }

    fn add_sample(&mut self, key: &K, time: u64, rtt: u32, retransmit_cnt: u32)
        ensures
            final(self).estimates() == sampled(old(self).estimates(), *key, rtt, retransmit_cnt),
            final(self).min_rto() == old(self).min_rto(),
            final(self).clock_granularity() == old(self).clock_granularity(),
    {
        proof {
            use_type_invariant(&*self);
        }
        if retransmit_cnt > 0 {
            return;
        }
        let next = match self.state.get(key) {
            Some(s) => {
                let mut s2 = *s;
                s2.update(rtt);
                s2
            },
            None => State::new(rtt),
        };
        let mut state = HashMap::new();
        std::mem::swap(&mut state, &mut self.state);
        state.insert(*key, next);
        self.state = state;
    }

    fn get_rto(&self, key: &K, retransmit_count: u32) -> (rto: u32) {
        proof {
            use_type_invariant(self);
        }
        let rto = match self.state.get(key) {
            Some(s) => s.get_rto(self.clock_granularity, self.min_rto),
            None => DEFAULT_RTO,
        };
        if retransmit_count == 0 {
            rto
        } else {
            let factor = pow2_u32(retransmit_count);
            rto * factor
        }
    }

    fn sample_in_range(&self, key: &K, rtt: u32, retransmit_cnt: u32) -> (ok: bool) {
        proof {
            use_type_invariant(self);
        }
        if retransmit_cnt > 0 {
            return true;
        }
        match self.state.get(key) {
            Some(s) => s.update_in_range(rtt),
            None => rtt <= u32::MAX / 8,
        }
    }

    fn timeout_in_range(&self, key: &K, retransmit_count: u32) -> (ok: bool) {
        proof {
            use_type_invariant(self);
        }
        let base: u64 = match self.state.get(key) {
            Some(s) => {
                if !s.raw_rto_in_range(self.clock_granularity) {
                    return false;
                }
                s.get_rto(self.clock_granularity, self.min_rto) as u64
            },
            None => DEFAULT_RTO as u64,
        };
        if retransmit_count == 0 {
            return true;
        }
        if retransmit_count >= 32 {
            return false;
        }
        let factor = pow2_u32(retransmit_count) as u64;
        proof {
            lemma2_to64();
            if retransmit_count < 31 {
                lemma_pow2_strictly_increases(retransmit_count as nat, 31);
            }
        }
        assert(base * factor <= 10000 * 0x8000_0000) by (nonlinear_arith)
            requires
                base <= 10000,
                factor <= 0x8000_0000,
        ;
        base * factor <= u32::MAX as u64
    }
}

/// Karn's algorithm: a round trip measured on a retransmitted request leaves
/// every estimate as it was.
pub proof fn lemma_retransmitted_sample_ignored<K>(est: Map<K, State>, key: K, rtt: u32, retransmit_cnt: u32)
    requires
        retransmit_cnt > 0,
    ensures
        sampled(est, key, rtt, retransmit_cnt) == est,
{
}

/// A sample for one destination changes the timeout of no other destination.
pub proof fn lemma_sample_touches_only_its_key<K>(
    est: Map<K, State>,
    key: K,
    rtt: u32,
    retransmit_cnt: u32,
    other: K,
    clock_granularity: u32,
    min_rto: u32,
    retransmit_count: u32,
)
    requires
        other != key,
    ensures
        backed_off_timeout(sampled(est, key, rtt, retransmit_cnt), other, clock_granularity, min_rto, retransmit_count)
            == backed_off_timeout(est, other, clock_granularity, min_rto, retransmit_count),
{
}

/// Exponential back-off: each further retransmission doubles the timeout.
pub proof fn lemma_backoff_doubles<K>(
    est: Map<K, State>,
    key: K,
    clock_granularity: u32,
    min_rto: u32,
    retransmit_count: u32,
)
    requires
        retransmit_count < u32::MAX,
    ensures
        backed_off_timeout(est, key, clock_granularity, min_rto, (retransmit_count + 1) as u32)
            == 2 * backed_off_timeout(est, key, clock_granularity, min_rto, retransmit_count),
{
    let base = base_timeout(est, key, clock_granularity, min_rto);
    lemma_pow2_unfold((retransmit_count + 1) as nat);
    if retransmit_count == 0 {
        lemma2_to64();
    }
    assert(base * pow2((retransmit_count + 1) as nat) == base * (2 * pow2(retransmit_count as nat)));
    assert(base * (2 * pow2(retransmit_count as nat)) == 2 * (base * pow2(retransmit_count as nat))) by (nonlinear_arith);
}

/// The timeout for a first transmission is `DEFAULT_RTO` for a destination
/// never measured, and otherwise lies between `min_rto` (or `MAX_RTO`, if
/// that is smaller) and `MAX_RTO`.
pub proof fn lemma_base_timeout_bounds<K>(est: Map<K, State>, key: K, clock_granularity: u32, min_rto: u32)
    ensures
        !est.contains_key(key) ==> base_timeout(est, key, clock_granularity, min_rto) == DEFAULT_RTO,
        est.contains_key(key) ==> {
            &&& base_timeout(est, key, clock_granularity, min_rto) <= MAX_RTO
            &&& base_timeout(est, key, clock_granularity, min_rto) >= min_int(min_rto as int, MAX_RTO as int)
        },
{
}

/// The timeout of an estimate is SRTT + max(G, 4 * RTTVAR) when that lies
/// between `min_rto` and `MAX_RTO`, `min_rto` when it is less (and
/// `min_rto` is at most `MAX_RTO`), and `MAX_RTO` when it is more.
pub proof fn lemma_estimate_is_clamped(s: State, clock_granularity: u32, min_rto: u32)
    ensures
        ({
            let srtt = ((s.srtt as int / 8) as u32) as int;
            let var = (s.rttvar as u32) as int;
            let raw = srtt + if clock_granularity < var {
                var
            } else {
                clock_granularity as int
            };
            &&& min_rto <= raw <= 10000 ==> estimate_rto(s, clock_granularity, min_rto) == raw
            &&& raw < min_rto <= 10000 ==> estimate_rto(s, clock_granularity, min_rto) == min_rto
            &&& raw > 10000 ==> estimate_rto(s, clock_granularity, min_rto) == 10000
            &&& min_rto > 10000 ==> estimate_rto(s, clock_granularity, min_rto) == 10000
        }),
{
}

/// RFC 6298, 2.2: after the first measurement R (small enough to stay
/// positive in the fixed-point form), RTO = R + max(G, 2R) before the floor
/// and the ceiling are applied.
pub proof fn lemma_first_sample_rto(rtt: u32, clock_granularity: u32)
    requires
        rtt * 8 <= i32::MAX,
    ensures
        raw_rto(initial_estimate(rtt), clock_granularity) == rtt + max_int(clock_granularity as int, 2 * rtt),
{
}

/// RFC 6298, 2.3, in the fixed-point form: with R the new sample and
/// SRTT = srtt / 8 (rounded down), the update gives
/// srtt' = srtt + (R - SRTT) and rttvar' = rttvar - rttvar / 4 + |R - SRTT|,
/// so the variation term grows by the size of the error, whichever side of
/// the smoothed time the sample falls on.
pub proof fn lemma_update_follows_rfc6298(s: State, rtt: u32)
    requires
        update_fits(s, rtt),
    ensures
        ({
            let r = (rtt as i32) as int;
            let srtt8 = s.srtt as int / 8;
            let err = r - srtt8;
            let size = if err < 0 {
                srtt8 - r
            } else {
                r - srtt8
            };
            &&& updated_estimate(s, rtt).srtt == s.srtt + err
            &&& updated_estimate(s, rtt).rttvar == s.rttvar - s.rttvar as int / 4 + size
        }),
{
}

/// The variation term depends on the error of a sample only through its
/// size: two samples equally far below and above the smoothed round-trip
/// time leave the same variation term.
pub proof fn lemma_variance_ignores_sign_of_error(s: State, below: u32, above: u32)
    requires
        update_fits(s, below),
        update_fits(s, above),
        (below as i32) as int - s.srtt as int / 8 == s.srtt as int / 8 - (above as i32) as int,
    ensures
        updated_estimate(s, below).rttvar == updated_estimate(s, above).rttvar,
{
    lemma_update_follows_rfc6298(s, below);
    lemma_update_follows_rfc6298(s, above);
}

/// A sample that differs from the smoothed round-trip time never lowers the
/// variation term below three quarters of what it was (rounding up), and a
/// sample far from it raises the term.
pub proof fn lemma_variance_grows_with_error(s: State, rtt: u32)
    requires
        update_fits(s, rtt),
    ensures
        updated_estimate(s, rtt).rttvar >= s.rttvar - s.rttvar as int / 4,
        ({
            let e = (rtt as i32) as int - s.srtt as int / 8;
            (e > s.rttvar as int / 4 || -e > s.rttvar as int / 4) ==> updated_estimate(s, rtt).rttvar > s.rttvar
        }),
{
    lemma_update_follows_rfc6298(s, rtt);
}

} // verus!
