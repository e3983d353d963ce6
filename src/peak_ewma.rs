//! Peak-EWMA: a moving average of round-trip time that follows spikes at once
//! and decays slowly otherwise.
use vstd::prelude::*;

verus! {

/// Fixed-point one for decay weights: a weight `w` stands for `w / WEIGHT_ONE`.
pub const WEIGHT_ONE: u64 = 65536;

/// Default decay, in nanoseconds (one second).
pub const DEFAULT_DECAY: u64 = 1_000_000_000;

/// Default round-trip estimate, in nanoseconds (50 milliseconds), high enough
/// that a new backend does not get all the traffic at once.
pub const DEFAULT_RTT: u64 = 50_000_000;

/// Exponentially weighted moving average with high sensitivity to latency bursts.
///
/// All times are nanoseconds. The blend weight `exp(-elapsed / decay)` is a
/// real number; callers hand it over in fixed point, in units of `1 / WEIGHT_ONE`.
#[derive(Debug, Clone, Copy, PartialEq, Eq, Structural)]
pub struct PeakEWMA {
    /// higher values make the average decay more slowly
    pub decay: u64,
    /// estimated round-trip time
    pub rtt: u64,
    /// instant of the last observation
    pub last_event: u64,
}

/// The estimate after observing `sample` at `now`, with blend weight `weight`.
pub open spec fn observed_rtt(e: PeakEWMA, sample: u64, now: u64, weight: u64) -> u64 {
    if sample > e.rtt {
        sample
    } else if now <= e.last_event {
        e.rtt
    } else {
        ((e.rtt * weight + sample * (WEIGHT_ONE - weight)) / WEIGHT_ONE as int) as u64
    }
}

/// Selection cost of a backend with `active_requests` in flight.
pub open spec fn ewma_cost(rtt: u64, active_requests: usize) -> int {
    (active_requests + 1) * rtt
}

impl PeakEWMA {
    pub fn new(now: u64) -> (r: PeakEWMA)
        ensures
            r.decay == DEFAULT_DECAY,
            r.rtt == DEFAULT_RTT,
            r.last_event == now,
    {
        PeakEWMA { decay: DEFAULT_DECAY, rtt: DEFAULT_RTT, last_event: now }
    }

    /// Folds one round-trip sample taken at `now` into the estimate.
    ///
    /// A sample above the estimate replaces it. Otherwise the estimate becomes
    /// `rtt * w + sample * (1 - w)` with `w = weight / WEIGHT_ONE`, the decay
    /// weight of the time elapsed since the last observation; when no time has
    /// elapsed `w` is one and the estimate stays.
    pub fn observe(&mut self, sample: u64, now: u64, weight: u64)
        requires
            weight <= WEIGHT_ONE,
        ensures
            final(self).rtt == observed_rtt(*old(self), sample, now, weight),
            final(self).last_event == now,
            final(self).decay == old(self).decay,
    {
        if sample > self.rtt {
            self.rtt = sample;
        } else if now > self.last_event {
            proof {
                lemma_product_fits(self.rtt, weight);
                lemma_product_fits(sample, (WEIGHT_ONE - weight) as u64);
            }
            let old_part = (self.rtt as u128) * (weight as u128);
            let new_part = (sample as u128) * ((WEIGHT_ONE - weight) as u128);
            proof {
                lemma_blend_bounds(self.rtt, sample, weight);
            }
            self.rtt = ((old_part + new_part) / (WEIGHT_ONE as u128)) as u64;
        }
        self.last_event = now;
    }

    /// Ages the estimate to `now` with a zero sample, then returns the cost
    /// `(active_requests + 1) * rtt`.
    pub fn get(&mut self, active_requests: usize, now: u64, weight: u64) -> (r: u128)
        requires
            weight <= WEIGHT_ONE,
        ensures
            final(self).rtt == observed_rtt(*old(self), 0, now, weight),
            final(self).last_event == now,
            final(self).decay == old(self).decay,
            r == ewma_cost(final(self).rtt, active_requests),
    {
        self.observe(0, now, weight);
        proof {
            lemma_cost_fits(self.rtt, active_requests);
        }
        (active_requests as u128 + 1) * (self.rtt as u128)
    }
}

proof fn lemma_blend_bounds(rtt: u64, sample: u64, weight: u64)
    requires
        weight <= WEIGHT_ONE,
        sample <= rtt,
    ensures
        rtt * weight + sample * (WEIGHT_ONE - weight) <= rtt * WEIGHT_ONE,
        (rtt * weight + sample * (WEIGHT_ONE - weight)) / (WEIGHT_ONE as int) <= rtt,
        0 <= rtt * weight,
        0 <= sample * (WEIGHT_ONE - weight),
{
    assert(sample * (WEIGHT_ONE - weight) <= rtt * (WEIGHT_ONE - weight)) by (nonlinear_arith)
        requires
            sample <= rtt,
            weight <= WEIGHT_ONE,
    ;
    assert(rtt * weight + rtt * (WEIGHT_ONE - weight) == rtt * WEIGHT_ONE) by (nonlinear_arith);
    assert(0 <= rtt * weight) by (nonlinear_arith);
    assert(0 <= sample * (WEIGHT_ONE - weight)) by (nonlinear_arith)
        requires
            weight <= WEIGHT_ONE,
    ;
    let t = rtt * weight + sample * (WEIGHT_ONE - weight);
    assert(t / (WEIGHT_ONE as int) <= rtt) by (nonlinear_arith)
        requires
            t <= rtt * WEIGHT_ONE,
            0 <= t,
    ;
}

proof fn lemma_product_fits(x: u64, w: u64)
    requires
        w <= WEIGHT_ONE,
    ensures
        0 <= x * w <= 0xffff_ffff_ffff_ffff * WEIGHT_ONE,
{
    assert(0 <= x * w <= 0xffff_ffff_ffff_ffff * WEIGHT_ONE) by (nonlinear_arith)
        requires
            w <= WEIGHT_ONE,
            x <= 0xffff_ffff_ffff_ffff,
    ;
}

pub(crate) proof fn lemma_cost_fits(rtt: u64, active_requests: usize)
    ensures
        (active_requests + 1) * rtt <= u128::MAX,
{
    assert((active_requests + 1) * rtt <= 0x1_0000_0000_0000_0000 * 0xffff_ffff_ffff_ffff)
        by (nonlinear_arith)
        requires
            active_requests + 1 <= 0x1_0000_0000_0000_0000,
            rtt <= 0xffff_ffff_ffff_ffff,
    ;
}

/// A burst raises the estimate to the sample at once, so the estimate never
/// goes down on an observation larger than it; and an observation made with
/// no time elapsed since the previous one leaves the estimate unchanged
/// unless it is a burst.
pub proof fn lemma_burst_and_idle(e: PeakEWMA, sample: u64, now: u64, weight: u64)
    requires
        weight <= WEIGHT_ONE,
    ensures
        sample > e.rtt ==> observed_rtt(e, sample, now, weight) == sample,
        sample > e.rtt ==> observed_rtt(e, sample, now, weight) >= e.rtt,
        sample <= e.rtt && now == e.last_event ==> observed_rtt(e, sample, now, weight) == e.rtt,
        observed_rtt(e, 0, e.last_event, weight) == e.rtt,
{
}

/// An observation that is not a burst keeps the estimate between the sample
/// and the previous estimate.
pub proof fn lemma_blend_between(e: PeakEWMA, sample: u64, now: u64, weight: u64)
    requires
        weight <= WEIGHT_ONE,
        sample <= e.rtt,
    ensures
        sample <= observed_rtt(e, sample, now, weight) <= e.rtt,
{
    if now > e.last_event {
        lemma_blend_bounds(e.rtt, sample, weight);
        let t = e.rtt * weight + sample * (WEIGHT_ONE - weight);
        assert(sample * WEIGHT_ONE <= t) by (nonlinear_arith)
            requires
                sample <= e.rtt,
                weight <= WEIGHT_ONE,
                t == e.rtt * weight + sample * (WEIGHT_ONE - weight),
        ;
        assert(sample <= t / (WEIGHT_ONE as int)) by (nonlinear_arith)
            requires
                sample * WEIGHT_ONE <= t,
        ;
    }
}

} // verus!
