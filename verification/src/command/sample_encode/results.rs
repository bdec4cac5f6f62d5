//! The results of the sample encodes and the predictions drawn from them.
//!
//! Sizes are in bytes, scores in millionths, percentages in millionths of a
//! percent; ratios are rounded to the nearest, halves up.
use vstd::prelude::*;
use crate::command::sample_encode::ScoreKind;
use crate::duration::{Duration, NANOS_PER_SEC, max_total_nanos, lemma_total_bounded};
use crate::ratio::{capped, lemma_round_div_parts, mul_div_round, round_div};

verus! {

/// One sample's encode and score result.
#[derive(Debug, Clone, Copy, PartialEq, Eq, Structural)]
pub struct EncodeResult {
    pub sample_size: u64,
    pub encoded_size: u64,
    /// The score, in millionths.
    pub score: i64,
    pub score_kind: ScoreKind,
    pub encode_time: Duration,
    /// Duration of the sample.
    pub sample_duration: Duration,
    /// Result read from cache.
    pub from_cache: bool,
}

impl EncodeResult {
    /// Both durations are well formed.
    pub open spec fn wf(self) -> bool {
        self.encode_time.wf() && self.sample_duration.wf()
    }
}

/// Every result is well formed.
pub open spec fn all_wf(s: Seq<EncodeResult>) -> bool {
    forall|k: int| 0 <= k < s.len() ==> (#[trigger] s[k]).wf()
}

/// The sum of `f` over the results.
pub open spec fn sum_of(s: Seq<EncodeResult>, f: spec_fn(EncodeResult) -> int) -> int
    decreases s.len(),
{
    if s.len() == 0 {
        0
    } else {
        sum_of(s.drop_last(), f) + f(s.last())
    }
}

/// Total encoded size.
pub open spec fn encoded_total(s: Seq<EncodeResult>) -> int {
    sum_of(s, |r: EncodeResult| r.encoded_size as int)
}

/// Total sample size.
pub open spec fn sample_size_total(s: Seq<EncodeResult>) -> int {
    sum_of(s, |r: EncodeResult| r.sample_size as int)
}

/// Total score.
pub open spec fn score_total(s: Seq<EncodeResult>) -> int {
    sum_of(s, |r: EncodeResult| r.score as int)
}

/// Total sample duration, in nanoseconds.
pub open spec fn sample_nanos_total(s: Seq<EncodeResult>) -> int {
    sum_of(s, |r: EncodeResult| r.sample_duration.total_nanos())
}

/// Total encode time, in nanoseconds.
pub open spec fn encode_nanos_total(s: Seq<EncodeResult>) -> int {
    sum_of(s, |r: EncodeResult| r.encode_time.total_nanos())
}

/// Summing one more result.
proof fn lemma_sum_of_take(s: Seq<EncodeResult>, f: spec_fn(EncodeResult) -> int, i: int)
    requires
        0 <= i < s.len(),
    ensures
        sum_of(s.take(i + 1), f) == sum_of(s.take(i), f) + f(s[i]),
{
    assert(s.take(i + 1).drop_last() =~= s.take(i));
}

/// Where every term lies in `[lo, hi]`, the sum of `n` terms lies in `[n lo, n hi]`.
proof fn lemma_sum_of_bounds(s: Seq<EncodeResult>, f: spec_fn(EncodeResult) -> int, lo: int, hi: int)
    requires
        forall|k: int| 0 <= k < s.len() ==> lo <= #[trigger] f(s[k]) <= hi,
    ensures
        s.len() * lo <= sum_of(s, f) <= s.len() * hi,
    decreases s.len(),
{
    if s.len() > 0 {
        let t = s.drop_last();
        assert forall|k: int| 0 <= k < t.len() implies lo <= #[trigger] f(t[k]) <= hi by {
            assert(t[k] == s[k]);
        }
        lemma_sum_of_bounds(t, f, lo, hi);
        assert(f(s.last()) == f(s[s.len() - 1]));
        assert(s.len() * lo == t.len() * lo + lo && s.len() * hi == t.len() * hi + hi) by (nonlinear_arith)
            requires
                s.len() == t.len() + 1,
        ;
    }
}

/// The byte totals, which a `u128` always holds.
fn size_totals(results: &Vec<EncodeResult>) -> (r: (u128, u128))
    ensures
        r.0 == encoded_total(results@),
        r.1 == sample_size_total(results@),
{
    let ghost fe = |r: EncodeResult| r.encoded_size as int;
    let ghost fs = |r: EncodeResult| r.sample_size as int;
    let mut encoded: u128 = 0;
    let mut sample: u128 = 0;
    let mut i: usize = 0;
    while i < results.len()
        invariant
            i <= results.len(),
            fe == (|r: EncodeResult| r.encoded_size as int),
            fs == (|r: EncodeResult| r.sample_size as int),
            encoded == sum_of(results@.take(i as int), fe),
            sample == sum_of(results@.take(i as int), fs),
            encoded <= i * 0xffff_ffff_ffff_ffff,
            sample <= i * 0xffff_ffff_ffff_ffff,
        decreases results.len() - i,
    {
        let r = results[i];
        proof {
            lemma_sum_of_take(results@, fe, i as int);
            lemma_sum_of_take(results@, fs, i as int);
            assert(i * 0xffff_ffff_ffff_ffff + 0xffff_ffff_ffff_ffff == (i + 1) * 0xffff_ffff_ffff_ffff)
                by (nonlinear_arith);
            assert((i + 1) * 0xffff_ffff_ffff_ffff <= 0x1_0000_0000_0000_0000 * 0xffff_ffff_ffff_ffff)
                by (nonlinear_arith)
                requires
                    i + 1 <= 0x1_0000_0000_0000_0000,
            ;
        }
        encoded = encoded + r.encoded_size as u128;
        sample = sample + r.sample_size as u128;
        i = i + 1;
    }
    assert(results@.take(results.len() as int) =~= results@);
    (encoded, sample)
}

/// The total of the scores, which an `i128` always holds.
fn score_sum(results: &Vec<EncodeResult>) -> (r: i128)
    ensures
        r == score_total(results@),
{
    let ghost fsc = |r: EncodeResult| r.score as int;
    let mut total: i128 = 0;
    let mut i: usize = 0;
    while i < results.len()
        invariant
            i <= results.len(),
            fsc == (|r: EncodeResult| r.score as int),
            total == sum_of(results@.take(i as int), fsc),
            -0x8000_0000_0000_0000 * i <= total <= 0x7fff_ffff_ffff_ffff * i,
        decreases results.len() - i,
    {
        let r = results[i];
        proof {
            lemma_sum_of_take(results@, fsc, i as int);
            assert(-0x8000_0000_0000_0000 * (i + 1) == -0x8000_0000_0000_0000 * i - 0x8000_0000_0000_0000
                && 0x7fff_ffff_ffff_ffff * (i + 1) == 0x7fff_ffff_ffff_ffff * i + 0x7fff_ffff_ffff_ffff)
                by (nonlinear_arith);
            assert(0x8000_0000_0000_0000 * (i + 1) <= 0x8000_0000_0000_0000 * 0x1_0000_0000_0000_0000)
                by (nonlinear_arith)
                requires
                    i + 1 <= 0x1_0000_0000_0000_0000,
            ;
        }
        total = total + r.score as i128;
        i = i + 1;
    }
    assert(results@.take(results.len() as int) =~= results@);
    total
}

/// The sum of `f` over a prefix never exceeds the sum over a longer prefix,
/// where `f` is never negative.
proof fn lemma_sum_of_prefix_grows(s: Seq<EncodeResult>, f: spec_fn(EncodeResult) -> int, i: int, j: int)
    requires
        0 <= i <= j <= s.len(),
        forall|k: int| 0 <= k < s.len() ==> 0 <= #[trigger] f(s[k]),
    ensures
        sum_of(s.take(i), f) <= sum_of(s.take(j), f),
    decreases j - i,
{
    if i < j {
        lemma_sum_of_prefix_grows(s, f, i, j - 1);
        lemma_sum_of_take(s, f, j - 1);
    }
}

/// The total of a duration over the results, in nanoseconds: `None` where it
/// exceeds the longest duration.
fn nanos_total(results: &Vec<EncodeResult>, encode: bool) -> (r: Option<u128>)
    requires
        all_wf(results@),
    ensures
        ({
            let total = if encode {
                encode_nanos_total(results@)
            } else {
                sample_nanos_total(results@)
            };
            match r {
                Some(n) => n == total && total <= max_total_nanos(),
                None => total > max_total_nanos(),
            }
        }),
{
    let ghost f = if encode {
        |r: EncodeResult| r.encode_time.total_nanos()
    } else {
        |r: EncodeResult| r.sample_duration.total_nanos()
    };
    assert forall|k: int| 0 <= k < results@.len() implies 0 <= #[trigger] f(results@[k]) by {
        lemma_total_bounded(results@[k].encode_time);
        lemma_total_bounded(results@[k].sample_duration);
    }
    let mut total: u128 = 0;
    let mut i: usize = 0;
    while i < results.len()
        invariant
            i <= results.len(),
            all_wf(results@),
            forall|k: int| 0 <= k < results@.len() ==> 0 <= #[trigger] f(results@[k]),
            f == (if encode {
                |r: EncodeResult| r.encode_time.total_nanos()
            } else {
                |r: EncodeResult| r.sample_duration.total_nanos()
            }),
            total == sum_of(results@.take(i as int), f),
            total <= max_total_nanos(),
        decreases results.len() - i,
    {
        let r = results[i];
        assert(r.wf());
        let d = if encode {
            r.encode_time
        } else {
            r.sample_duration
        };
        let n = d.as_nanos();
        proof {
            lemma_sum_of_take(results@, f, i as int);
            lemma_total_bounded(d);
        }
        let sum = total + n;
        if sum > 0x3b9a_c9ff_ffff_ffff_ffff_ffff {
            proof {
                lemma_sum_of_prefix_grows(results@, f, i + 1, results@.len() as int);
                assert(results@.take(results.len() as int) =~= results@);
            }
            return None;
        }
        total = sum;
        i = i + 1;
    }
    assert(results@.take(results.len() as int) =~= results@);
    Some(total)
}


/// `total / n` rounded to the nearest, halves up, lies in `[lo, hi]` where the
/// total of `n` terms does.
proof fn lemma_round_div_within(total: int, n: int, lo: int, hi: int)
    requires
        n > 0,
        n * lo <= total <= n * hi,
    ensures
        lo <= round_div(total, n) <= hi,
{
    assert(2 * total + n >= lo * (2 * n) + n) by (nonlinear_arith)
        requires
            n * lo <= total,
    ;
    assert(2 * total + n <= hi * (2 * n) + n) by (nonlinear_arith)
        requires
            total <= n * hi,
    ;
    vstd::arithmetic::div_mod::lemma_div_is_ordered(lo * (2 * n) + n, 2 * total + n, 2 * n);
    vstd::arithmetic::div_mod::lemma_div_is_ordered(2 * total + n, hi * (2 * n) + n, 2 * n);
    vstd::arithmetic::div_mod::lemma_fundamental_div_mod_converse(lo * (2 * n) + n, 2 * n, lo, n);
    vstd::arithmetic::div_mod::lemma_fundamental_div_mod_converse(hi * (2 * n) + n, 2 * n, hi, n);
}

/// Sample mean score: the total score over the number of results; `0` for none.
pub open spec fn spec_mean_score(s: Seq<EncodeResult>) -> int {
    if s.len() == 0 {
        0
    } else {
        round_div(score_total(s), s.len() as int)
    }
}

/// The mean score of the results.
pub fn mean_score(results: &Vec<EncodeResult>) -> (r: i64)
    ensures
        r == spec_mean_score(results@),
{
    if results.len() == 0 {
        return 0;
    }
    let total = score_sum(results);
    let n = results.len() as i128;
    proof {
        lemma_sum_of_bounds(results@, |r: EncodeResult| r.score as int, i64::MIN as int, i64::MAX as int);
        lemma_round_div_within(total as int, n as int, i64::MIN as int, i64::MAX as int);
    }
    assert(-0x7fff_ffff_ffff_ffff_8000_0000_0000_0000 <= total <= 0x7fff_ffff_ffff_fffe_8000_0000_0000_0001)
        by (nonlinear_arith)
        requires
            n * i64::MIN <= total <= n * i64::MAX,
            0 < n <= 0xffff_ffff_ffff_ffff,
    ;
    // floor division of the total by the count, with its remainder
    let q: i128;
    let rem: i128;
    if total >= 0 {
        q = total / n;
        rem = total % n;
        assert(total == q * n + rem && 0 <= rem < n) by (nonlinear_arith)
            requires
                n > 0,
                total >= 0,
                q == total / n,
                rem == total % n,
        ;
    } else {
        let a: i128 = -total;
        let m = a / n;
        let k = a % n;
        assert(a == m * n + k && 0 <= k < n && 0 <= m <= a) by (nonlinear_arith)
            requires
                n > 0,
                a >= 0,
                m == a / n,
                k == a % n,
        ;
        if k == 0 {
            q = -m;
            rem = 0;
        } else {
            q = -m - 1;
            rem = n - k;
        }
        assert(total == q * n + rem && 0 <= rem < n) by (nonlinear_arith)
            requires
                a == m * n + k,
                a == -total,
                0 <= k < n,
                k == 0 ==> q == -m && rem == 0,
                k != 0 ==> q == -m - 1 && rem == n - k,
        ;
    }
    proof {
        lemma_round_div_parts(total as int, n as int, q as int, rem as int);
    }
    let mean = if 2 * rem >= n {
        q + 1
    } else {
        q
    };
    mean as i64
}

/// Where every score lies in `[lo, hi]`, so does the mean score.
pub proof fn lemma_mean_score_within(results: Seq<EncodeResult>, lo: int, hi: int)
    requires
        results.len() > 0,
        forall|k: int| 0 <= k < results.len() ==> lo <= #[trigger] results[k].score <= hi,
    ensures
        lo <= spec_mean_score(results) <= hi,
{
    let f = |r: EncodeResult| r.score as int;
    assert forall|k: int| 0 <= k < results.len() implies lo <= #[trigger] f(results[k]) <= hi by {
        assert(lo <= results[k].score <= hi);
    }
    lemma_sum_of_bounds(results, f, lo, hi);
    lemma_round_div_within(score_total(results), results.len() as int, lo, hi);
}


/// The byte totals fit in a `u64`, as the sums of sizes are taken.
pub open spec fn size_totals_fit(s: Seq<EncodeResult>) -> bool {
    encoded_total(s) <= u64::MAX && sample_size_total(s) <= u64::MAX
}

/// Sample mean encoded percentage: the total encoded size over the total sample
/// size, as a percentage; `100%` for no results and unbounded (`u64::MAX`) for
/// samples of no size.
pub open spec fn spec_encoded_percent(s: Seq<EncodeResult>) -> int {
    if s.len() == 0 {
        100_000_000
    } else if sample_size_total(s) == 0 {
        u64::MAX as int
    } else {
        capped(round_div(encoded_total(s) * 100_000_000, sample_size_total(s)), u64::MAX as int)
    }
}

/// The encoded percentage of the samples, in millionths of a percent; `None`
/// where a byte total overflows.
pub fn encoded_percent_size(results: &Vec<EncodeResult>) -> (r: Option<u64>)
    ensures
        match r {
            Some(p) => size_totals_fit(results@) && p == spec_encoded_percent(results@),
            None => !size_totals_fit(results@),
        },
{
    let (encoded, sample) = size_totals(results);
    if encoded > u64::MAX as u128 || sample > u64::MAX as u128 {
        return None;
    }
    if results.len() == 0 {
        return Some(100_000_000);
    }
    if sample == 0 {
        return Some(u64::MAX);
    }
    Some(mul_div_round(encoded, 100_000_000, sample, u64::MAX as u128) as u64)
}

/// The score kind of the results: that of the first, VMAF for none.
pub fn score_kind(results: &Vec<EncodeResult>) -> (r: ScoreKind)
    ensures
        r == (if results@.len() == 0 {
            ScoreKind::Vmaf
        } else {
            results@[0].score_kind
        }),
{
    if results.len() == 0 {
        ScoreKind::Vmaf
    } else {
        results[0].score_kind
    }
}

/// Estimated encoded video stream size: the single result of a full pass;
/// otherwise the total encoded size scaled by the input duration over the
/// total sample duration, capped at `u64::MAX` (unbounded where the samples
/// have no duration, `0` where nothing was encoded or the input has none).
pub open spec fn spec_size_by_duration(s: Seq<EncodeResult>, input: Duration, full_pass: bool) -> int {
    if s.len() == 0 {
        0
    } else if full_pass {
        s[0].encoded_size as int
    } else if sample_nanos_total(s) == 0 {
        if encoded_total(s) > 0 && input.total_nanos() > 0 {
            u64::MAX as int
        } else {
            0
        }
    } else {
        capped(round_div(encoded_total(s) * input.total_nanos(), sample_nanos_total(s)), u64::MAX as int)
    }
}

/// A scaled estimate needs the total sample duration: it must fit in a duration.
pub open spec fn needs_sample_total(s: Seq<EncodeResult>, full_pass: bool) -> bool {
    s.len() > 0 && !full_pass
}

/// Estimate the encoded video stream size from the sample results; `None` where
/// the total sample duration exceeds the longest duration.
pub fn estimate_encode_size_by_duration(
    results: &Vec<EncodeResult>,
    input_duration: Duration,
    single_full_pass: bool,
) -> (r: Option<u64>)
    requires
        all_wf(results@),
        input_duration.wf(),
    ensures
        match r {
            Some(size) => size == spec_size_by_duration(results@, input_duration, single_full_pass),
            None => needs_sample_total(results@, single_full_pass) && sample_nanos_total(results@)
                > max_total_nanos(),
        },
{
    if results.len() == 0 {
        return Some(0);
    }
    if single_full_pass {
        return Some(results[0].encoded_size);
    }
    let sample_nanos = match nanos_total(results, false) {
        Some(n) => n,
        None => return None,
    };
    let (encoded, _) = size_totals(results);
    let input = input_duration.as_nanos();
    proof {
        lemma_total_bounded(input_duration);
    }
    if sample_nanos == 0 {
        return Some(
            if encoded > 0 && input > 0 {
                u64::MAX
            } else {
                0
            },
        );
    }
    Some(mul_div_round(encoded, input, sample_nanos, u64::MAX as u128) as u64)
}

/// Estimated video stream size from the input size: the single result of a full
/// pass; otherwise the input size scaled by the total encoded size over the total
/// sample size, capped at `u64::MAX` (unbounded where the samples have no size,
/// `0` where nothing was encoded or the input is empty).
pub open spec fn spec_size_by_file_percent(s: Seq<EncodeResult>, input_size: u64, full_pass: bool) -> int {
    if s.len() == 0 {
        0
    } else if full_pass {
        s[0].encoded_size as int
    } else if sample_size_total(s) == 0 {
        if encoded_total(s) > 0 && input_size > 0 {
            u64::MAX as int
        } else {
            0
        }
    } else {
        capped(round_div(input_size * encoded_total(s), sample_size_total(s)), u64::MAX as int)
    }
}

/// Estimate the encoded video stream size from the input file size and the
/// encoded percentage of the samples; `None` where a byte total overflows.
pub fn estimate_encode_size_by_file_percent(
    results: &Vec<EncodeResult>,
    input_size: u64,
    single_full_pass: bool,
) -> (r: Option<u64>)
    ensures
        match r {
            Some(size) => size == spec_size_by_file_percent(results@, input_size, single_full_pass),
            None => needs_sample_total(results@, single_full_pass) && !size_totals_fit(results@),
        },
{
    if results.len() == 0 {
        return Some(0);
    }
    if single_full_pass {
        return Some(results[0].encoded_size);
    }
    let (encoded, sample) = size_totals(results);
    if encoded > u64::MAX as u128 || sample > u64::MAX as u128 {
        return None;
    }
    if sample == 0 {
        return Some(
            if encoded > 0 && input_size > 0 {
                u64::MAX
            } else {
                0
            },
        );
    }
    Some(mul_div_round(input_size as u128, encoded, sample, u64::MAX as u128) as u64)
}

/// Estimated full encode time, in nanoseconds: the single result of a full pass;
/// otherwise the total encode time scaled by the input duration over the total
/// sample duration, in whole seconds from one second on. `None` where a total or
/// the estimate exceeds the longest duration, or the samples have no duration.
pub open spec fn spec_encode_time(s: Seq<EncodeResult>, input: Duration, full_pass: bool) -> Option<int> {
    if s.len() == 0 {
        Some(0)
    } else if full_pass {
        Some(s[0].encode_time.total_nanos())
    } else if sample_nanos_total(s) > max_total_nanos() || encode_nanos_total(s) > max_total_nanos()
        || sample_nanos_total(s) == 0 {
        None
    } else {
        let estimate = round_div(encode_nanos_total(s) * input.total_nanos(), sample_nanos_total(s));
        if estimate > max_total_nanos() {
            None
        } else if estimate < NANOS_PER_SEC {
            Some(estimate)
        } else {
            Some(estimate / NANOS_PER_SEC as int * NANOS_PER_SEC)
        }
    }
}

/// Estimate the full encode time from the sample results.
pub fn estimate_encode_time(results: &Vec<EncodeResult>, input_duration: Duration, single_full_pass: bool) -> (r:
    Option<Duration>)
    requires
        all_wf(results@),
        input_duration.wf(),
    ensures
        match spec_encode_time(results@, input_duration, single_full_pass) {
            Some(n) => r matches Some(d) && d.wf() && d.total_nanos() == n,
            None => r is None,
        },
{
    if results.len() == 0 {
        return Some(Duration::zero());
    }
    if single_full_pass {
        assert(results@[0].wf());
        return Some(results[0].encode_time);
    }
    let sample_nanos = match nanos_total(results, false) {
        Some(n) => n,
        None => return None,
    };
    let encode_nanos = match nanos_total(results, true) {
        Some(n) => n,
        None => return None,
    };
    if sample_nanos == 0 {
        return None;
    }
    let input = input_duration.as_nanos();
    let max: u128 = 0x3b9a_c9ff_ffff_ffff_ffff_ffff;
    let estimate = mul_div_round(encode_nanos, input, sample_nanos, max + 1);
    if estimate > max {
        return None;
    }
    let d = Duration::from_total_nanos(estimate);
    if estimate < 1_000_000_000 {
        Some(d)
    } else {
        let secs = Duration::from_secs(d.as_secs());
        assert(d.spec_secs() == estimate as int / NANOS_PER_SEC as int) by (nonlinear_arith)
            requires
                d.total_nanos() == estimate,
                d.total_nanos() == d.spec_secs() * NANOS_PER_SEC + d.spec_nanos(),
                d.spec_nanos() < NANOS_PER_SEC,
        ;
        Some(secs)
    }
}

/// Every result was read from the cache.
pub open spec fn all_from_cache(s: Seq<EncodeResult>) -> bool {
    forall|k: int| 0 <= k < s.len() ==> (#[trigger] s[k]).from_cache
}

/// Sample encode result.
#[derive(Debug, Clone, Copy, PartialEq, Eq, Structural)]
pub struct Output {
    /// Sample mean score, in millionths.
    pub score: i64,
    pub score_kind: ScoreKind,
    /// Estimated full encoded video stream size.
    pub predicted_encode_size: u64,
    /// Sample mean encoded percentage, in millionths of a percent.
    pub encode_percent: u64,
    /// Estimated full encode time.
    pub predicted_encode_time: Duration,
    /// All sample results were read from the cache.
    pub from_cache: bool,
}

/// The output of a sample encode from its results: the mean score, the smaller of
/// the two size estimates, the encoded percentage and the time estimate; `None`
/// where one of these is not to be had.
pub fn summarize(
    results: &Vec<EncodeResult>,
    input_duration: Duration,
    input_size: u64,
    single_full_pass: bool,
) -> (r: Option<Output>)
    requires
        all_wf(results@),
        input_duration.wf(),
    ensures
        ({
            let s = results@;
            let ok = size_totals_fit(s) && !(needs_sample_total(s, single_full_pass) && sample_nanos_total(s)
                > max_total_nanos()) && spec_encode_time(s, input_duration, single_full_pass) is Some;
            match r {
                Some(out) => {
                    &&& ok
                    &&& out.score == spec_mean_score(s)
                    &&& out.score_kind == (if s.len() == 0 {
                        ScoreKind::Vmaf
                    } else {
                        s[0].score_kind
                    })
                    &&& out.predicted_encode_size == ({
                        let a = spec_size_by_duration(s, input_duration, single_full_pass);
                        let b = spec_size_by_file_percent(s, input_size, single_full_pass);
                        if a <= b {
                            a
                        } else {
                            b
                        }
                    })
                    &&& out.encode_percent == spec_encoded_percent(s)
                    &&& out.predicted_encode_time.wf()
                    &&& out.predicted_encode_time.total_nanos() == spec_encode_time(
                        s,
                        input_duration,
                        single_full_pass,
                    )->0
                    &&& out.from_cache == all_from_cache(s)
                },
                None => !ok,
            }
        }),
{
    let encode_percent = match encoded_percent_size(results) {
        Some(p) => p,
        None => return None,
    };
    let by_duration = match estimate_encode_size_by_duration(results, input_duration, single_full_pass) {
        Some(s) => s,
        None => return None,
    };
    let by_percent = match estimate_encode_size_by_file_percent(results, input_size, single_full_pass) {
        Some(s) => s,
        None => return None,
    };
    let predicted_encode_time = match estimate_encode_time(results, input_duration, single_full_pass) {
        Some(t) => t,
        None => return None,
    };
    let mut from_cache = true;
    let mut i: usize = 0;
    while i < results.len()
        invariant
            i <= results.len(),
            from_cache == (forall|k: int| 0 <= k < i ==> (#[trigger] results@[k]).from_cache),
        decreases results.len() - i,
    {
        from_cache = from_cache && results[i].from_cache;
        i = i + 1;
    }
    Some(
        Output {
            score: mean_score(results),
            score_kind: score_kind(results),
            predicted_encode_size: if by_duration <= by_percent {
                by_duration
            } else {
                by_percent
            },
            encode_percent,
            predicted_encode_time,
            from_cache,
        },
    )
}


/// The duration a sample result counts: that of the encoded sample where its
/// probe tells a non-zero one, otherwise the planned sample duration.
pub fn result_sample_duration(probed: Option<Duration>, planned: Duration) -> (r: Duration)
    requires
        probed matches Some(d) ==> d.wf(),
    ensures
        r == match probed {
            Some(d) => if d.total_nanos() == 0 {
                planned
            } else {
                d
            },
            None => planned,
        },
{
    match probed {
        Some(d) => if d.is_zero() {
            planned
        } else {
            d
        },
        None => planned,
    }
}

} // verus!
