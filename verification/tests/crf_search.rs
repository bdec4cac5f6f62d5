use ab_av1::command::crf_search::{
    cut_point, guess_progress, no_good_crf_reason, q_from_crf, to_crf, vmaf_lerp_q, within_tolerance,
    Attempt, CrfSearch, Step,
};
use ab_av1::command::encoders::EncoderString;

const MILLION: i64 = 1_000_000;

fn svt() -> EncoderString {
    EncoderString::from_str("libsvtav1")
}

#[test]
fn q_crf_conversions() {
    assert_eq!(q_from_crf(33_500, 100), 335);
    assert_eq!(q_from_crf(27_000, 1_000), 27);
}

#[test]
fn q_rounds_half_up_and_converts_back() {
    assert_eq!(q_from_crf(27_500, 1_000), 28);
    assert_eq!(q_from_crf(27_499, 1_000), 27);
    assert_eq!(to_crf(335, 100), 33_500);
}

#[test]
fn lerp_interpolates_to_the_min_score() {
    let worse = Attempt { q: 46, score: 94 * MILLION, encode_percent: 0 };
    let better = Attempt { q: 32, score: 95_500_000, encode_percent: 0 };
    assert_eq!(vmaf_lerp_q(95 * MILLION, &worse, &better), 37);
    // clamped strictly between the two
    let better_far = Attempt { q: 10, score: 99 * MILLION, encode_percent: 0 };
    let worse_near = Attempt { q: 12, score: 10 * MILLION, encode_percent: 0 };
    assert_eq!(vmaf_lerp_q(10 * MILLION, &worse_near, &better_far), 11);
}

#[test]
fn cut_point_is_forty_sixty() {
    assert_eq!(cut_point(32, 55), 46);
    assert_eq!(cut_point(32, 10), 19);
}

#[test]
fn tolerance_grows_with_runs() {
    // increment 1.0: 0.1, 0.2, 0.4, 0.8 ...
    assert!(within_tolerance(99_999, false, 1000, 1));
    assert!(!within_tolerance(100_000, false, 1000, 1));
    assert!(within_tolerance(399_999, false, 1000, 3));
    assert!(!within_tolerance(400_000, false, 1000, 3));
    // increment 0.1: 0.1, 0.1, 0.1, 0.1, 0.16 ...
    assert!(!within_tolerance(100_000, false, 100, 4));
    assert!(within_tolerance(159_999, false, 100, 5));
    // thorough: 0.05
    assert!(within_tolerance(49_999, true, 1000, 9));
    assert!(!within_tolerance(50_000, true, 1000, 9));
    // huge run counts
    assert!(within_tolerance(u64::MAX, false, 1000, 100));
}

#[test]
fn search_starts_in_the_middle() {
    let s = CrfSearch::new(&svt(), None, None, None, 95 * MILLION, 80 * MILLION as u64, false).unwrap();
    assert_eq!(s.q(), 32);
    assert_eq!(s.crf(), 32_000);
    assert_eq!(s.run_number(), 1);
    let cfg = s.config();
    assert_eq!((cfg.min_q, cfg.max_q, cfg.crf_increment), (10, 55, 1000));
    assert!(cfg.cut_on_iter2);
    assert!(s.attempts().is_empty());
}

#[test]
fn search_refuses_an_empty_crf_range() {
    let err = CrfSearch::new(&svt(), Some(40_000), Some(40_000), None, 95 * MILLION, 80 * MILLION as u64, false)
        .err()
        .unwrap();
    assert_eq!(err, "Invalid --min-crf & --max-crf");
    assert!(CrfSearch::new(&svt(), Some(50_000), Some(20_000), None, 0, 0, false).is_err());
}

#[test]
fn search_finds_a_crf_within_tolerance() {
    let mut s = CrfSearch::new(&svt(), None, None, None, 95 * MILLION, 80 * MILLION as u64, false).unwrap();
    assert_eq!(s.record(95_500_000, 50 * MILLION as u64), Step::Continue(46));
    assert_eq!(s.q(), 46);
    assert_eq!(s.record(94 * MILLION, 40 * MILLION as u64), Step::Continue(37));
    assert_eq!(s.record(95_050_000, 45 * MILLION as u64), Step::Done);
    assert!(s.is_finished());
    let best = s.attempts().last().unwrap();
    assert_eq!(best.q, 37);
    assert_eq!(s.attempt_crf(s.attempts().len() - 1), 37_000);
}

#[test]
fn search_ends_on_neighbouring_crfs() {
    // a narrow range: no second-iteration cut
    let mut s = CrfSearch::new(&svt(), Some(30_000), Some(33_000), None, 95 * MILLION, 80 * MILLION as u64, false).unwrap();
    assert!(!s.config().cut_on_iter2);
    assert_eq!(s.q(), 31);
    // good but far above the min score: try the max crf
    assert_eq!(s.record(99 * MILLION, 10 * MILLION as u64), Step::Continue(33));
    // bad: interpolate between 31 and 33
    assert_eq!(s.record(90 * MILLION, 10 * MILLION as u64), Step::Continue(32));
    // bad next to a good crf: the good one is the result
    assert_eq!(s.record(94 * MILLION, 10 * MILLION as u64), Step::DoneAfterRun(0));
    assert_eq!(s.attempts()[0].q, 31);
}

#[test]
fn search_reports_no_good_crf() {
    let mut s = CrfSearch::new(&svt(), None, None, None, 95 * MILLION, 80 * MILLION as u64, false).unwrap();
    // too large and too low a score
    assert_eq!(s.record(90 * MILLION, 90 * MILLION as u64), Step::NoGoodCrf);
    let last = s.attempts().last().unwrap();
    assert_eq!(no_good_crf_reason(last, 95 * MILLION, 80 * MILLION as u64), "score too low and encode too large");
    assert_eq!(
        no_good_crf_reason(&Attempt { q: 1, score: 96 * MILLION, encode_percent: 90 }, 95 * MILLION, 80),
        "encode too large"
    );
    assert_eq!(
        no_good_crf_reason(&Attempt { q: 1, score: 94 * MILLION, encode_percent: 10 }, 95 * MILLION, 80),
        "score too low"
    );
    assert_eq!(
        no_good_crf_reason(&Attempt { q: 1, score: 95 * MILLION, encode_percent: 10 }, 95 * MILLION, 80),
        "unknown"
    );
}

#[test]
fn search_never_repeats_a_crf() {
    let mut s = CrfSearch::new(&svt(), None, None, None, 95 * MILLION, 80 * MILLION as u64, true).unwrap();
    // scores fall with crf: score = 100 - crf / 5
    loop {
        let q = s.q() as i64;
        let score = 100 * MILLION - q * MILLION / 5;
        match s.record(score, 10 * MILLION as u64) {
            Step::Continue(next) => {
                assert!(s.attempts().iter().all(|a| a.q != next));
            }
            Step::Done | Step::DoneAfterRun(_) => break,
            Step::NoGoodCrf => panic!("a crf is good"),
        }
        assert!(s.attempts().len() <= 46);
    }
    // 25 gives exactly 95 (not above), so 24 is the best crf
    let best = s.attempts().iter().filter(|a| a.score > 95 * MILLION).map(|a| a.q).max().unwrap();
    assert_eq!(best, 24);
}

#[test]
fn progress_guess() {
    assert_eq!(guess_progress(1, 500_000, false, 1000), 125);
    assert_eq!(guess_progress(3, 0, true, 600), 200);
    assert_eq!(guess_progress(6, 0, false, 600), 500);
}
