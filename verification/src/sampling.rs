//! Oversampling of an analog input: a reading is the mean of ten samples
//! without the smallest and the largest, and a voltage is the mean of 64
//! readings scaled by the reference voltage.

use vstd::prelude::*;

verus! {

/// Samples that make one reading.
pub const SAMPLES: usize = 10;

/// Readings that make one voltage.
pub const READINGS: usize = 64;

/// Number of steps of the converter: its resolution is twelve bits.
pub const FULL_SCALE: u32 = 4096;

/// Sum of the values.
pub open spec fn sum(values: Seq<u16>) -> int
    decreases values.len(),
{
    if values.len() == 0 {
        0
    } else {
        sum(values.drop_last()) + values.last()
    }
}

/// Smallest of the values; the largest number of the type if there is none.
pub open spec fn minimum(values: Seq<u16>) -> int
    decreases values.len(),
{
    if values.len() == 0 {
        0xffff
    } else if values.last() < minimum(values.drop_last()) {
        values.last() as int
    } else {
        minimum(values.drop_last())
    }
}

/// Largest of the values; zero if there is none.
pub open spec fn maximum(values: Seq<u16>) -> int
    decreases values.len(),
{
    if values.len() == 0 {
        0
    } else if values.last() > maximum(values.drop_last()) {
        values.last() as int
    } else {
        maximum(values.drop_last())
    }
}

/// Mean of ten samples after the smallest and the largest are taken out.
pub open spec fn trimmed_mean(samples: Seq<u16>) -> int {
    (sum(samples) - minimum(samples) - maximum(samples)) / 8
}

/// The voltage in millivolts for a mean reading: the reading times the
/// reference voltage, over the converter's number of steps.
pub open spec fn millivolts(readings: Seq<u16>, ref_mv: u16) -> int {
    (sum(readings) / 64) * ref_mv / 4096
}

/// The smallest and the largest value bound each value, and both are
/// values of the sequence.
pub proof fn lemma_extremes(values: Seq<u16>)
    requires
        values.len() > 0,
    ensures
        forall|i: int| 0 <= i < values.len() ==> minimum(values) <= #[trigger] values[i] <= maximum(values),
        exists|i: int| 0 <= i < values.len() && #[trigger] values[i] == minimum(values),
        exists|i: int| 0 <= i < values.len() && #[trigger] values[i] == maximum(values),
    decreases values.len(),
{
    let before = values.drop_last();
    let last = values.len() - 1;
    if before.len() == 0 {
        assert(values[0] == minimum(values));
        assert(values[0] == maximum(values));
    } else {
        lemma_extremes(before);
        let at_min = choose|i: int| 0 <= i < before.len() && #[trigger] before[i] == minimum(before);
        let at_max = choose|i: int| 0 <= i < before.len() && #[trigger] before[i] == maximum(before);
        assert(values[at_min] == before[at_min]);
        assert(values[at_max] == before[at_max]);
        assert(values[last] == values.last());
        assert forall|i: int| 0 <= i < values.len() implies minimum(values) <= #[trigger] values[i]
            <= maximum(values) by {
            if i < last {
                assert(values[i] == before[i]);
            }
        }
    }
}

/// What is left of the sum without the smallest and the largest value is
/// the sum of the other values: it lies between as many times the
/// smallest and as many times the largest value.
pub proof fn lemma_trimmed_sum(values: Seq<u16>)
    requires
        values.len() >= 2,
    ensures
        (values.len() - 2) * minimum(values) <= sum(values) - minimum(values) - maximum(values),
        sum(values) - minimum(values) - maximum(values) <= (values.len() - 2) * maximum(values),
    decreases values.len(),
{
    let before = values.drop_last();
    let x = values.last() as int;
    let n = values.len() as int;
    if values.len() == 2 {
        let none = before.drop_last();
        assert(none.len() == 0);
        assert(sum(none) == 0 && minimum(none) == 0xffff && maximum(none) == 0);
        assert(before.last() == before[0]);
        assert(sum(before) == before[0]);
        assert(minimum(before) == before[0]);
        assert(maximum(before) == before[0]);
    } else {
        lemma_trimmed_sum(before);
        lemma_extremes(before);
        let lo = minimum(before);
        let hi = maximum(before);
        let rest = sum(before) - lo - hi;
        assert(lo <= hi);
        assert((n - 3) * lo <= rest <= (n - 3) * hi);
        let lo2 = minimum(values);
        let hi2 = maximum(values);
        assert(lo2 <= lo && hi <= hi2);
        assert((n - 3) * lo2 <= (n - 3) * lo) by (nonlinear_arith)
            requires
                lo2 <= lo,
                n >= 3,
        ;
        assert((n - 3) * hi <= (n - 3) * hi2) by (nonlinear_arith)
            requires
                hi <= hi2,
                n >= 3,
        ;
        assert((n - 2) * lo2 == (n - 3) * lo2 + lo2) by (nonlinear_arith);
        assert((n - 2) * hi2 == (n - 3) * hi2 + hi2) by (nonlinear_arith);
    }
}

/// A reading lies between the smallest and the largest of its samples.
pub proof fn lemma_trimmed_mean_bounds(samples: Seq<u16>)
    requires
        samples.len() == 10,
    ensures
        minimum(samples) <= trimmed_mean(samples) <= maximum(samples),
        0 <= trimmed_mean(samples) <= 0xffff,
{
    lemma_trimmed_sum(samples);
    lemma_extremes(samples);
    assert(0 <= minimum(samples) <= maximum(samples) <= 0xffff) by {
        assert(minimum(samples) <= samples[0] <= maximum(samples));
    }
}

/// Readings that stay within the converter's range give a voltage that
/// stays below the reference voltage.
pub proof fn lemma_millivolts_below_reference(readings: Seq<u16>, ref_mv: u16)
    requires
        readings.len() == 64,
        forall|i: int| 0 <= i < 64 ==> #[trigger] readings[i] < FULL_SCALE,
    ensures
        0 <= millivolts(readings, ref_mv) <= ref_mv,
{
    lemma_sum_below(readings, 4095);
    let mean = sum(readings) / 64;
    assert(0 <= mean <= 4095);
    assert(0 <= mean * ref_mv <= 4095 * ref_mv) by (nonlinear_arith)
        requires
            0 <= mean <= 4095,
            0 <= ref_mv,
    ;
}

/// Values that are all at most `bound` sum up to at most as many times `bound`.
pub proof fn lemma_sum_below(values: Seq<u16>, bound: int)
    requires
        forall|i: int| 0 <= i < values.len() ==> #[trigger] values[i] <= bound,
    ensures
        0 <= sum(values) <= values.len() * bound,
    decreases values.len(),
{
    let n = values.len() as int;
    if n > 0 {
        let before = values.drop_last();
        assert forall|i: int| 0 <= i < before.len() implies #[trigger] before[i] <= bound by {
            assert(before[i] == values[i]);
        }
        lemma_sum_below(before, bound);
        assert(values.last() == values[n - 1]);
        assert((n - 1) * bound + bound == n * bound) by (nonlinear_arith);
    } else {
        assert(n * bound == 0) by (nonlinear_arith)
            requires
                n == 0,
        ;
    }
}

/// One reading from ten samples: their mean after the smallest and the
/// largest sample are taken out.
pub fn read(samples: &[u16; 10]) -> (reading: u16)
    ensures
        reading == trimmed_mean(samples@),
        minimum(samples@) <= reading <= maximum(samples@),
{
    let mut sum_so_far: u32 = 0;
    let mut min: u16 = u16::MAX;
    let mut max: u16 = u16::MIN;
    let mut k: usize = 0;
    while k < 10
        invariant
            k <= 10,
            sum_so_far == sum(samples@.take(k as int)),
            min == minimum(samples@.take(k as int)),
            max == maximum(samples@.take(k as int)),
            sum_so_far <= k * 0xffff,
        decreases 10 - k,
    {
        let result: u16 = samples[k];
        proof {
            assert(samples@.take(k + 1).drop_last() =~= samples@.take(k as int));
            assert(samples@.take(k + 1).last() == result);
        }
        if result < min {
            min = result;
        }
        if result > max {
            max = result;
        }
        sum_so_far += result as u32;
        k += 1;
    }
    proof {
        assert(samples@.take(10) =~= samples@);
        lemma_trimmed_sum(samples@);
        lemma_trimmed_mean_bounds(samples@);
    }
    sum_so_far -= min as u32;
    sum_so_far -= max as u32;
    (sum_so_far / 8) as u16
}

/// The voltage in millivolts from 64 readings and the reference voltage
/// of the input's attenuation.
pub fn read_mean(readings: &[u16; 64], ref_mv: u16) -> (mv: u32)
    ensures
        mv == millivolts(readings@, ref_mv),
{
    let mut total: u32 = 0;
    let mut k: usize = 0;
    while k < 64
        invariant
            k <= 64,
            total == sum(readings@.take(k as int)),
            total <= k * 0xffff,
        decreases 64 - k,
    {
        proof {
            assert(readings@.take(k + 1).drop_last() =~= readings@.take(k as int));
            assert(readings@.take(k + 1).last() == readings[k as int]);
        }
        total += readings[k] as u32;
        k += 1;
    }
    proof {
        assert(readings@.take(64) =~= readings@);
    }
    let mean: u32 = total / 64;
    assert(mean * ref_mv <= 0xffff * 0xffff) by (nonlinear_arith)
        requires
            0 <= mean <= 0xffff,
            0 <= ref_mv <= 0xffff,
    ;
    mean * (ref_mv as u32) / 4096
}

} // verus!
