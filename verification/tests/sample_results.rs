use ab_av1::command::sample_encode::results::{
    encoded_percent_size, estimate_encode_size_by_duration, estimate_encode_size_by_file_percent,
    estimate_encode_time, mean_score, result_sample_duration, score_kind, summarize, EncodeResult,
};
use ab_av1::command::sample_encode::ScoreKind;
use ab_av1::duration::Duration;
use ab_av1::ratio::mul_div_round;

fn result(sample_size: u64, encoded_size: u64, score: i64, encode_ms: u64, sample_secs: u64) -> EncodeResult {
    EncodeResult {
        sample_size,
        encoded_size,
        score,
        score_kind: ScoreKind::Vmaf,
        encode_time: Duration::from_millis(encode_ms),
        sample_duration: Duration::from_secs(sample_secs),
        from_cache: false,
    }
}

#[test]
fn mean_score_rounds_to_nearest() {
    assert_eq!(mean_score(&vec![]), 0);
    let r = vec![result(1, 1, 97_500_000, 1, 1), result(1, 1, 96_000_000, 1, 1)];
    assert_eq!(mean_score(&r), 96_750_000);
    // 1.5 millionths rounds up, -1.5 rounds up to -1
    assert_eq!(mean_score(&vec![result(1, 1, 1, 1, 1), result(1, 1, 2, 1, 1)]), 2);
    assert_eq!(mean_score(&vec![result(1, 1, -1, 1, 1), result(1, 1, -2, 1, 1)]), -1);
    assert_eq!(mean_score(&vec![result(1, 1, i64::MIN, 1, 1), result(1, 1, i64::MIN, 1, 1)]), i64::MIN);
}

#[test]
fn mean_score_lies_between_the_scores() {
    let r = vec![
        result(1, 1, 93_100_000, 1, 1),
        result(1, 1, 95_700_000, 1, 1),
        result(1, 1, 94_200_001, 1, 1),
    ];
    let m = mean_score(&r);
    assert!((93_100_000..=95_700_000).contains(&m));
    assert_eq!(m, 94_333_334);
}

#[test]
fn encoded_percent_of_samples() {
    assert_eq!(encoded_percent_size(&vec![]), Some(100_000_000));
    let r = vec![result(100, 20, 0, 1, 1), result(100, 30, 0, 1, 1)];
    assert_eq!(encoded_percent_size(&r), Some(25_000_000));
    // a third: 33.333333...%
    assert_eq!(encoded_percent_size(&vec![result(3, 1, 0, 1, 1)]), Some(33_333_333));
    // samples of no size: unbounded
    assert_eq!(encoded_percent_size(&vec![result(0, 5, 0, 1, 1)]), Some(u64::MAX));
    // byte totals that overflow
    assert_eq!(encoded_percent_size(&vec![result(u64::MAX, 1, 0, 1, 1), result(1, 1, 0, 1, 1)]), None);
}

#[test]
fn size_estimate_scales_by_duration() {
    let r = vec![result(5000, 1000, 0, 1, 2), result(5000, 1000, 0, 1, 2)];
    // 2000 bytes for 4s of a 100s input
    assert_eq!(estimate_encode_size_by_duration(&r, Duration::from_secs(100), false), Some(50_000));
    // a full pass is its own result
    assert_eq!(estimate_encode_size_by_duration(&r, Duration::from_secs(100), true), Some(1000));
    assert_eq!(estimate_encode_size_by_duration(&vec![], Duration::from_secs(100), false), Some(0));
    // samples of no duration
    let z = vec![result(5000, 1000, 0, 1, 0)];
    assert_eq!(estimate_encode_size_by_duration(&z, Duration::from_secs(100), false), Some(u64::MAX));
    assert_eq!(estimate_encode_size_by_duration(&z, Duration::zero(), false), Some(0));
    // sample durations that overflow a duration
    let o = vec![result(1, 1, 0, 1, u64::MAX), result(1, 1, 0, 1, 1)];
    assert_eq!(estimate_encode_size_by_duration(&o, Duration::from_secs(1), false), None);
}

#[test]
fn size_estimate_scales_by_file_size() {
    let r = vec![result(100, 20, 0, 1, 2), result(100, 30, 0, 1, 2)];
    assert_eq!(estimate_encode_size_by_file_percent(&r, 10_000, false), Some(2500));
    assert_eq!(estimate_encode_size_by_file_percent(&r, 10_000, true), Some(20));
    assert_eq!(estimate_encode_size_by_file_percent(&vec![result(0, 1, 0, 1, 1)], 7, false), Some(u64::MAX));
    assert_eq!(estimate_encode_size_by_file_percent(&vec![result(0, 1, 0, 1, 1)], 0, false), Some(0));
}

#[test]
fn time_estimate_scales_by_duration() {
    // 3s of encoding for 4s of samples of a 100s input: 75s
    let r = vec![result(1, 1, 0, 1000, 2), result(1, 1, 0, 2000, 2)];
    assert_eq!(estimate_encode_time(&r, Duration::from_secs(100), false), Some(Duration::from_secs(75)));
    // whole seconds from one second on: 1.5s of encoding for 2s of a 3s input is 2.25s
    let r = vec![result(1, 1, 0, 1500, 2)];
    assert_eq!(estimate_encode_time(&r, Duration::from_secs(3), false), Some(Duration::from_secs(2)));
    // under a second the estimate is kept whole: 1ms for 4s of 100s is 25ms
    let r = vec![result(1, 1, 0, 1, 4)];
    assert_eq!(estimate_encode_time(&r, Duration::from_secs(100), false), Some(Duration::from_millis(25)));
    // full pass, no results, samples of no duration
    assert_eq!(estimate_encode_time(&r, Duration::from_secs(100), true), Some(Duration::from_millis(1)));
    assert_eq!(estimate_encode_time(&vec![], Duration::from_secs(100), false), Some(Duration::zero()));
    assert_eq!(estimate_encode_time(&vec![result(1, 1, 0, 1, 0)], Duration::from_secs(100), false), None);
}

#[test]
fn summary_takes_the_smaller_size_estimate() {
    let mut r = vec![result(100, 20, 95_000_000, 1000, 2), result(100, 30, 97_000_000, 1000, 2)];
    // by duration: 50 bytes for 4s of 40s = 500; by file size: 25% of 1000 = 250
    let out = summarize(&r, Duration::from_secs(40), 1000, false).expect("summary");
    assert_eq!(out.predicted_encode_size, 250);
    assert_eq!(out.score, 96_000_000);
    assert_eq!(out.score_kind, ScoreKind::Vmaf);
    assert_eq!(out.encode_percent, 25_000_000);
    assert_eq!(out.predicted_encode_time, Duration::from_secs(20));
    assert!(!out.from_cache);
    r[0].from_cache = true;
    r[1].from_cache = true;
    assert!(summarize(&r, Duration::from_secs(40), 1000, false).expect("summary").from_cache);
    // by file size larger: the duration estimate
    let out = summarize(&r, Duration::from_secs(40), 100_000, false).expect("summary");
    assert_eq!(out.predicted_encode_size, 500);
    // an estimate that cannot be had
    assert!(summarize(&vec![result(1, 1, 0, 1, 0)], Duration::from_secs(40), 1, false).is_none());
}

#[test]
fn score_kind_of_the_first_result() {
    assert_eq!(score_kind(&vec![]), ScoreKind::Vmaf);
    let mut x = result(1, 1, 0, 1, 1);
    x.score_kind = ScoreKind::Xpsnr;
    assert_eq!(score_kind(&vec![x, result(1, 1, 0, 1, 1)]), ScoreKind::Xpsnr);
}

#[test]
fn scaling_is_exact_for_large_values() {
    // 2^100 * 3 / 7, rounded: no overflow on the way
    let big: u128 = 1 << 100;
    let exact = (big / 7) * 3 + ((big % 7) * 3 + 3) / 7;
    assert_eq!(mul_div_round(big, 3, 7, u128::MAX >> 1), exact);
    // halves round up
    assert_eq!(mul_div_round(3, 1, 2, 100), 2);
    assert_eq!(mul_div_round(5, 1, 4, 100), 1);
    // capped
    assert_eq!(mul_div_round(u128::MAX, u128::MAX, 1, 1000), 1000);
    assert_eq!(mul_div_round(10, 10, 1, 1000), 100);
}

#[test]
fn result_duration_prefers_the_probed_one() {
    let planned = Duration::from_secs(20);
    assert_eq!(result_sample_duration(Some(Duration::from_millis(19_960)), planned), Duration::from_millis(19_960));
    assert_eq!(result_sample_duration(Some(Duration::zero()), planned), planned);
    assert_eq!(result_sample_duration(None, planned), planned);
}
