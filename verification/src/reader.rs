//! Real-time pacing of decoded frames. The audio time emitted so far is kept
//! as an exact ratio of integers, so deadlines never drift.

use vstd::prelude::*;
use vstd::arithmetic::div_mod::{lemma_fundamental_div_mod, lemma_fundamental_div_mod_converse};
use crate::stream::Frame;

verus! {

/// Nanoseconds in one second.
pub const NANOS_PER_SECOND: u64 = 1_000_000_000;

/// `numer / denom` is a fraction in lowest terms with a positive denominator.
pub open spec fn lowest_terms(numer: nat, denom: nat) -> bool {
    &&& denom >= 1
    &&& forall|k: nat| k >= 2 ==> !(#[trigger] (numer % k) == 0 && denom % k == 0)
}

/// Two fractions with positive denominators denote the same number.
pub open spec fn same_ratio(a: (nat, nat), b: (nat, nat)) -> bool {
    a.0 * b.1 == b.0 * a.1
}

/// Exact sum of `samples / rate` over a sequence of `(samples, rate)` pairs,
/// as an unreduced numerator and denominator.
pub open spec fn total(frames: Seq<(nat, nat)>) -> (nat, nat)
    decreases frames.len(),
{
    if frames.len() == 0 {
        (0, 1)
    } else {
        let before = total(frames.drop_last());
        let last = frames.last();
        (before.0 * last.1 + last.0 * before.1, before.1 * last.1)
    }
}

/// Every pair of the sequence has a positive rate.
pub open spec fn rates_positive(frames: Seq<(nat, nat)>) -> bool {
    forall|i: int| 0 <= i < frames.len() ==> (#[trigger] frames[i]).1 >= 1
}

/// Whole nanoseconds in the exact sum of the frames' durations, rounded down.
pub open spec fn nanos_of(frames: Seq<(nat, nat)>) -> nat {
    ((total(frames).0 * 1_000_000_000) / total(frames).1) as nat
}

/// The sum of durations has a positive denominator when every rate is
/// positive.
pub proof fn lemma_total_denominator(frames: Seq<(nat, nat)>)
    requires
        rates_positive(frames),
    ensures
        total(frames).1 >= 1,
    decreases frames.len(),
{
    if frames.len() > 0 {
        let init = frames.drop_last();
        assert forall|i: int| 0 <= i < init.len() implies (#[trigger] init[i]).1 >= 1 by {
            assert(init[i] == frames[i]);
        }
        lemma_total_denominator(init);
        let d = total(init).1;
        let r = frames.last().1;
        assert(d * r >= 1) by (nonlinear_arith)
            requires
                d >= 1,
                r >= 1,
        ;
    }
}

/// `count` frames of `samples` samples per channel each, all at one `rate`.
pub open spec fn uniform(count: nat, samples: nat, rate: nat) -> Seq<(nat, nat)> {
    Seq::new(count, |i: int| (samples, rate))
}

/// The sum of `count` frames of `samples` samples each at one `rate` is
/// `count * samples / rate` exactly.
pub proof fn lemma_total_uniform(count: nat, samples: nat, rate: nat)
    requires
        rate >= 1,
    ensures
        same_ratio(total(uniform(count, samples, rate)), (count * samples, rate)),
        total(uniform(count, samples, rate)).1 >= 1,
    decreases count,
{
    let frames = uniform(count, samples, rate);
    if count > 0 {
        let init = uniform((count - 1) as nat, samples, rate);
        assert(frames.drop_last() =~= init);
        lemma_total_uniform((count - 1) as nat, samples, rate);
        let n = total(init).0 as int;
        let d = total(init).1 as int;
        let c = count as int;
        let s = samples as int;
        let r = rate as int;
        assert(frames.last() == (samples, rate));
        assert(total(frames) == ((n * r + s * d) as nat, (d * r) as nat));
        assert(n * r == ((c - 1) * s) * d);
        assert((n * r + s * d) * r == (c * s) * (d * r)) by (nonlinear_arith)
            requires
                n * r == ((c - 1) * s) * d,
        ;
        assert(d * r >= 1) by (nonlinear_arith)
            requires
                d >= 1,
                r >= 1,
        ;
        assert(total(frames).0 * rate == (count * samples) * total(frames).1);
    } else {
        assert(count * samples == 0) by (nonlinear_arith)
            requires
                count == 0,
        ;
        assert(total(frames) == (0nat, 1nat));
    }
}

/// Fractions that denote the same number have the same whole part.
pub proof fn lemma_same_ratio_same_floor(a: (nat, nat), b: (nat, nat))
    requires
        a.1 >= 1,
        b.1 >= 1,
        same_ratio(a, b),
    ensures
        a.0 / a.1 == b.0 / b.1,
{
    let n = a.0 as int;
    let d = a.1 as int;
    let m = b.0 as int;
    let e = b.1 as int;
    let q = n / d;
    lemma_fundamental_div_mod(n, d);
    assert(0 <= n % d < d);
    assert(n == d * q + n % d);
    assert(q >= 0) by (nonlinear_arith)
        requires
            n == d * q + n % d,
            n % d < d,
            n >= 0,
            d >= 1,
    ;
    assert(q * e <= m) by (nonlinear_arith)
        requires
            d * q <= n,
            n * e == m * d,
            d >= 1,
            e >= 1,
            q >= 0,
    ;
    assert(m < (q + 1) * e) by (nonlinear_arith)
        requires
            n < d * q + d,
            n * e == m * d,
            d >= 1,
            e >= 1,
    ;
    let r = m - q * e;
    assert((q + 1) * e == q * e + e) by (nonlinear_arith);
    lemma_fundamental_div_mod_converse(m, e, q, r);
}

/// Adding the same number to fractions that denote the same number gives
/// fractions that denote the same number.
proof fn lemma_sum_same_ratio(
    cur: (nat, nat),
    hist: (nat, nat),
    step: (nat, nat),
    frame: (nat, nat),
    next: (nat, nat),
)
    requires
        cur.1 >= 1,
        hist.1 >= 1,
        step.1 >= 1,
        frame.1 >= 1,
        next.1 >= 1,
        same_ratio(cur, hist),
        same_ratio(step, frame),
        same_ratio(next, (cur.0 * step.1 + step.0 * cur.1, cur.1 * step.1)),
    ensures
        same_ratio(next, (hist.0 * frame.1 + frame.0 * hist.1, hist.1 * frame.1)),
{
    let a = cur.0 as int;
    let b = cur.1 as int;
    let n = hist.0 as int;
    let d = hist.1 as int;
    let f = step.0 as int;
    let g = step.1 as int;
    let s = frame.0 as int;
    let r = frame.1 as int;
    let x = next.0 as int;
    let y = next.1 as int;
    // Scale both sides of the goal by b * g and compare.
    let lhs = x * (d * r);
    let rhs = (n * r + s * d) * y;
    assert(lhs * (b * g) == (a * g + f * b) * y * (d * r)) by (nonlinear_arith)
        requires
            lhs == x * (d * r),
            x * (b * g) == (a * g + f * b) * y,
    ;
    let ad = a * d;
    let nb = n * b;
    let fr = f * r;
    let sg = s * g;
    assert((a * g) * (d * r) == ad * (g * r)) by (nonlinear_arith)
        requires
            ad == a * d,
    ;
    assert((n * r) * (b * g) == nb * (g * r)) by (nonlinear_arith)
        requires
            nb == n * b,
    ;
    assert((f * b) * (d * r) == fr * (b * d)) by (nonlinear_arith)
        requires
            fr == f * r,
    ;
    assert((s * d) * (b * g) == sg * (b * d)) by (nonlinear_arith)
        requires
            sg == s * g,
    ;
    assert((a * g + f * b) * (d * r) == (a * g) * (d * r) + (f * b) * (d * r)) by (nonlinear_arith);
    assert((n * r + s * d) * (b * g) == (n * r) * (b * g) + (s * d) * (b * g)) by (nonlinear_arith);
    assert((a * g + f * b) * (d * r) == (n * r + s * d) * (b * g));
    assert((a * g + f * b) * y * (d * r) == rhs * (b * g)) by (nonlinear_arith)
        requires
            (a * g + f * b) * (d * r) == (n * r + s * d) * (b * g),
            rhs == (n * r + s * d) * y,
    ;
    assert(lhs == rhs) by (nonlinear_arith)
        requires
            lhs * (b * g) == rhs * (b * g),
            b >= 1,
            g >= 1,
    ;
}

/// `num_rational::Ratio::<u64>::new`: the fraction `numer / denom` brought to
/// lowest terms. Neither part grows.
#[verifier::external_body]
fn ratio_new(numer: u64, denom: u64) -> (r: (u64, u64))
    requires
        denom >= 1,
    ensures
        lowest_terms(r.0 as nat, r.1 as nat),
        same_ratio((r.0 as nat, r.1 as nat), (numer as nat, denom as nat)),
        r.0 <= numer,
        r.1 <= denom,
{
    num_rational::Ratio::new(numer, denom).into_raw()
}

/// `AddAssign` of `num_rational::Ratio<u64>`: the sum of two fractions, in
/// lowest terms. The inputs are kept small enough for the cross products the
/// addition forms.
#[verifier::external_body]
fn ratio_add(a: (u64, u64), b: (u64, u64)) -> (r: (u64, u64))
    requires
        a.1 >= 1,
        b.1 >= 1,
        a.1 * b.1 <= u64::MAX,
        a.0 * b.1 + b.0 * a.1 <= u64::MAX,
    ensures
        lowest_terms(r.0 as nat, r.1 as nat),
        same_ratio(
            (r.0 as nat, r.1 as nat),
            ((a.0 * b.1 + b.0 * a.1) as nat, (a.1 * b.1) as nat),
        ),
{
    let mut sum = num_rational::Ratio::new_raw(a.0, a.1);
    sum += num_rational::Ratio::new_raw(b.0, b.1);
    sum.into_raw()
}

/// `Mul` of `num_rational::Ratio<u64>`: the product of two fractions, in
/// lowest terms. The inputs are kept small enough for the products the
/// multiplication forms.
#[verifier::external_body]
fn ratio_mul(a: (u64, u64), b: (u64, u64)) -> (r: (u64, u64))
    requires
        a.1 >= 1,
        b.1 >= 1,
        a.0 * b.0 <= u64::MAX,
        a.1 * b.1 <= u64::MAX,
    ensures
        lowest_terms(r.0 as nat, r.1 as nat),
        same_ratio((r.0 as nat, r.1 as nat), ((a.0 * b.0) as nat, (a.1 * b.1) as nat)),
{
    let product = num_rational::Ratio::new_raw(a.0, a.1) * num_rational::Ratio::new_raw(b.0, b.1);
    product.into_raw()
}

/// `num_rational::Ratio::<u64>::to_integer`: the fraction rounded towards
/// zero.
#[verifier::external_body]
fn ratio_to_integer(a: (u64, u64)) -> (r: u64)
    requires
        a.1 >= 1,
    ensures
        r == a.0 / a.1,
{
    num_rational::Ratio::new_raw(a.0, a.1).to_integer()
}

/// The pacing state of one track: the exact audio time emitted so far.
pub struct Reader {
    numer: u64,
    denom: u64,
    frames: Ghost<Seq<(nat, nat)>>,
}

impl Reader {
    /// The `(samples per channel, sample rate)` pairs of the frames read so
    /// far, oldest first.
    pub closed spec fn history(&self) -> Seq<(nat, nat)> {
        self.frames@
    }

    /// The audio time emitted so far, in seconds, as numerator and
    /// denominator.
    pub closed spec fn spec_elapsed(&self) -> (nat, nat) {
        (self.numer as nat, self.denom as nat)
    }

    /// The elapsed time is in lowest terms and is exactly the sum of the
    /// durations of the frames read so far.
    pub open spec fn well_formed(&self) -> bool {
        &&& rates_positive(self.history())
        &&& lowest_terms(self.spec_elapsed().0, self.spec_elapsed().1)
        &&& same_ratio(self.spec_elapsed(), total(self.history()))
    }

    /// The integer arithmetic of one more frame stays within 64 bits.
    pub open spec fn fits(&self, frame: &Frame) -> bool {
        let e = self.spec_elapsed();
        let samples = frame.spec_samples_per_channel();
        &&& frame.channels >= 1
        &&& frame.sample_rate >= 1
        &&& e.0 * 1_000_000_000 <= u64::MAX
        &&& e.1 * frame.sample_rate <= u64::MAX
        &&& e.0 * frame.sample_rate + samples * e.1 <= u64::MAX
    }

    /// A reader that has emitted nothing: elapsed time `0/1`.
    pub fn new() -> (reader: Self)
        ensures
            reader.well_formed(),
            reader.history() == Seq::<(nat, nat)>::empty(),
            reader.spec_elapsed() == (0nat, 1nat),
    {
        let (numer, denom) = ratio_new(0, 1);
        assert(denom == 1);
        assert(numer == 0);
        Reader { numer, denom, frames: Ghost(Seq::empty()) }
    }

    /// The audio time emitted so far, in seconds, as numerator and
    /// denominator in lowest terms.
    pub fn elapsed(&self) -> (e: (u64, u64))
        ensures
            (e.0 as nat, e.1 as nat) == self.spec_elapsed(),
    {
        (self.numer, self.denom)
    }

    /// Whether one more frame can be read without leaving 64-bit arithmetic.
    pub fn can_read(&self, frame: &Frame) -> (b: bool)
        ensures
            b == self.fits(frame),
    {
        if frame.channels < 1 || frame.sample_rate < 1 {
            return false;
        }
        let samples: u128 = (frame.data.len() / frame.channels) as u128;
        let rate: u128 = frame.sample_rate as u128;
        let numer: u128 = self.numer as u128;
        let denom: u128 = self.denom as u128;
        let limit: u128 = u64::MAX as u128;
        assert(numer * 1_000_000_000 <= 0xffff_ffff_ffff_ffff * 1_000_000_000) by (nonlinear_arith)
            requires
                numer <= 0xffff_ffff_ffff_ffff,
        ;
        assert(denom * rate <= 0xffff_ffff_ffff_ffff * 0x7fff_ffff) by (nonlinear_arith)
            requires
                denom <= 0xffff_ffff_ffff_ffff,
                rate <= 0x7fff_ffff,
        ;
        assert(numer * rate <= 0xffff_ffff_ffff_ffff * 0x7fff_ffff) by (nonlinear_arith)
            requires
                numer <= 0xffff_ffff_ffff_ffff,
                rate <= 0x7fff_ffff,
        ;
        assert(samples * denom <= 0xffff_ffff_ffff_ffff * 0xffff_ffff_ffff_ffff) by (nonlinear_arith)
            requires
                denom <= 0xffff_ffff_ffff_ffff,
                samples <= 0xffff_ffff_ffff_ffff,
        ;
        let cross: u128 = samples * denom;
        if cross > limit {
            return false;
        }
        numer * 1_000_000_000 <= limit && denom * rate <= limit && numer * rate + cross <= limit
    }

    /// Takes the next decoded frame into account. Returns the frame's
    /// deadline, in whole nanoseconds after the reader's epoch: the exact sum
    /// of the durations of all frames read before it, rounded down. The
    /// elapsed time then grows by the frame's own duration,
    /// `samples per channel / sample rate`.
    pub fn read(&mut self, frame: &Frame) -> (deadline: u64)
        requires
            old(self).well_formed(),
            old(self).fits(frame),
        ensures
            final(self).well_formed(),
            final(self).history() == old(self).history().push(
                (frame.spec_samples_per_channel(), frame.sample_rate as nat),
            ),
            deadline == nanos_of(old(self).history()),
    {
        let ghost hist = total(self.frames@);
        proof {
            lemma_total_denominator(self.frames@);
        }
        let giga = ratio_mul((self.numer, self.denom), (NANOS_PER_SECOND, 1));
        let deadline = ratio_to_integer(giga);
        proof {
            let scaled = ((self.numer * 1_000_000_000) as nat, self.denom as nat);
            lemma_same_ratio_same_floor((giga.0 as nat, giga.1 as nat), scaled);
            let exact = (hist.0 * 1_000_000_000, hist.1);
            assert(same_ratio(scaled, exact)) by (nonlinear_arith)
                requires
                    self.numer * hist.1 == hist.0 * self.denom,
                    scaled.0 == self.numer * 1_000_000_000,
                    scaled.1 == self.denom,
                    exact.0 == hist.0 * 1_000_000_000,
                    exact.1 == hist.1,
            ;
            lemma_same_ratio_same_floor(scaled, exact);
        }
        let samples: u64 = (frame.data.len() / frame.channels) as u64;
        let rate: u64 = frame.sample_rate as u64;
        let step = ratio_new(samples, rate);
        proof {
            let a = self.numer as int;
            let b = self.denom as int;
            assert(b * step.1 <= b * rate) by (nonlinear_arith)
                requires
                    step.1 <= rate,
                    b >= 0,
            ;
            assert(a * step.1 <= a * rate) by (nonlinear_arith)
                requires
                    step.1 <= rate,
                    a >= 0,
            ;
            assert(step.0 * b <= samples * b) by (nonlinear_arith)
                requires
                    step.0 <= samples,
                    b >= 0,
            ;
        }
        let next = ratio_add((self.numer, self.denom), step);
        proof {
            let pair = (samples as nat, rate as nat);
            let grown = self.frames@.push(pair);
            assert(grown.drop_last() =~= self.frames@);
            assert(grown.last() == pair);
            assert(total(grown) == (hist.0 * pair.1 + pair.0 * hist.1, hist.1 * pair.1));
            lemma_sum_same_ratio(
                (self.numer as nat, self.denom as nat),
                hist,
                (step.0 as nat, step.1 as nat),
                pair,
                (next.0 as nat, next.1 as nat),
            );
            assert forall|i: int| 0 <= i < grown.len() implies (#[trigger] grown[i]).1 >= 1 by {
                if i < self.frames@.len() {
                    assert(grown[i] == self.frames@[i]);
                }
            }
            self.frames@ = grown;
        }
        self.numer = next.0;
        self.denom = next.1;
        deadline
    }
}

/// How long to sleep before emitting a frame: the time left until its
/// deadline when that lies in the future, else nothing. Both instants are
/// nanoseconds after the reader's epoch.
pub fn sleep_for(deadline: u64, now: u64) -> (wait: Option<u64>)
    ensures
        wait == if deadline > now {
            Some((deadline - now) as u64)
        } else {
            None
        },
{
    if deadline > now {
        Some(deadline - now)
    } else {
        None
    }
}

} // verus!
