//! The decisions of the interpolated binary search for the best crf.
//!
//! Crf values and increments are in thousandths of a crf unit, scores in
//! millionths and encoded sizes in millionths of a percent. The search works on
//! "q", a crf as an integer multiple of the crf increment.
use vstd::prelude::*;
use vstd::arithmetic::power2::pow2;
use crate::command::encoders::{EncoderString, spec_default_max_crf, spec_default_min_crf, spec_default_crf_increment};

verus! {

/// Largest crf value, in thousandths, that the search takes.
pub const MAX_CRF: u32 = u32::MAX;

/// Calculate "q" as a quality value integer multiple of crf: `round(crf / increment)`.
///
/// * crf=33.5, inc=0.1 -> q=335
/// * crf=27, inc=1 -> q=27
pub open spec fn spec_q_from_crf(crf: int, crf_increment: int) -> int {
    (2 * crf + crf_increment) / (2 * crf_increment)
}

/// `round(crf / crf_increment)`, both in thousandths.
pub fn q_from_crf(crf: u32, crf_increment: u32) -> (r: u64)
    requires
        crf_increment > 0,
    ensures
        r == spec_q_from_crf(crf as int, crf_increment as int),
        r <= crf as int + 1,
{
    let r = (2 * (crf as u64) + crf_increment as u64) / (2 * crf_increment as u64);
    assert(r <= crf as int + 1) by (nonlinear_arith)
        requires
            r == (2 * (crf as u64) + crf_increment as u64) / (2 * crf_increment as u64),
            crf_increment > 0,
    ;
    r
}

/// The crf of a q value, in thousandths.
pub open spec fn spec_to_crf(q: int, crf_increment: int) -> int {
    q * crf_increment
}

/// The crf of a q value: `q * crf_increment`, in thousandths.
pub fn to_crf(q: u64, crf_increment: u32) -> (r: u64)
    requires
        q * crf_increment <= u64::MAX,
    ensures
        r == spec_to_crf(q as int, crf_increment as int),
{
    q * crf_increment as u64
}

/// One sample encode result as the search sees it.
#[derive(Clone, Copy, Debug, PartialEq, Eq, Structural)]
pub struct Attempt {
    /// The crf tried, as a q value.
    pub q: u64,
    /// Mean sample score, in millionths.
    pub score: i64,
    /// Encoded size percentage of the input, in millionths of a percent.
    pub encode_percent: u64,
}

/// Produce a q value between given samples using score linear interpolation so the
/// output q value should produce `min_score`, clamped strictly between the two:
/// `round(worse.q - (worse.q - better.q) * (min - worse.score) / (better.score - worse.score))`.
pub open spec fn spec_lerp_q(min_score: int, worse: Attempt, better: Attempt) -> int {
    let d = better.score - worse.score;
    let n = worse.q * d - (worse.q - better.q) * (min_score - worse.score);
    let lerp = (2 * n + d) / (2 * d);
    if lerp < better.q + 1 {
        better.q + 1
    } else if lerp > worse.q - 1 {
        worse.q - 1
    } else {
        lerp
    }
}

/// Produce a q value between given samples using vmaf score linear interpolation
/// so the output q value should produce the `min_score`.
///
/// Note: `worse_q` will be a numerically higher q value (worse quality),
///       `better_q` a numerically lower q value (better quality).
pub fn vmaf_lerp_q(min_score: i64, worse_q: &Attempt, better_q: &Attempt) -> (r: u64)
    requires
        worse_q.score <= min_score,
        worse_q.score < better_q.score,
        worse_q.q > better_q.q + 1,
        worse_q.q <= 0x1_0000_0001,
    ensures
        r == spec_lerp_q(min_score as int, *worse_q, *better_q),
        better_q.q < r < worse_q.q,
{
    let d: i128 = better_q.score as i128 - worse_q.score as i128;
    let q_diff: i128 = worse_q.q as i128 - better_q.q as i128;
    let f: i128 = min_score as i128 - worse_q.score as i128;
    assert(0 <= f <= 0x1_0000_0000_0000_0000);
    assert(0 < d <= 0x1_0000_0000_0000_0000);
    assert(q_diff * f <= 0x1_0000_0001 * 0x1_0000_0000_0000_0000) by (nonlinear_arith)
        requires
            0 <= q_diff <= 0x1_0000_0001,
            0 <= f <= 0x1_0000_0000_0000_0000,
    ;
    assert(worse_q.q * d <= 0x1_0000_0001 * 0x1_0000_0000_0000_0000) by (nonlinear_arith)
        requires
            0 <= worse_q.q <= 0x1_0000_0001,
            0 <= d <= 0x1_0000_0000_0000_0000,
    ;
    assert(q_diff * f >= 0) by (nonlinear_arith)
        requires
            0 <= q_diff,
            0 <= f,
    ;
    assert(worse_q.q * d >= 0) by (nonlinear_arith)
        requires
            0 <= worse_q.q,
            0 <= d,
    ;
    let n: i128 = worse_q.q as i128 * d - q_diff * f;
    let lo: i128 = better_q.q as i128 + 1;
    let hi: i128 = worse_q.q as i128 - 1;
    assert(2 * d * lo <= 2 * 0x1_0000_0000_0000_0000 * 0x1_0000_0002) by (nonlinear_arith)
        requires
            0 < d <= 0x1_0000_0000_0000_0000,
            0 < lo <= 0x1_0000_0002,
    ;
    if 2 * n + d < 2 * d * lo {
        proof {
            let lerp = (2 * n + d) / (2 * d);
            assert(lerp < lo) by (nonlinear_arith)
                requires
                    lerp == (2 * n + d) / (2 * d),
                    2 * n + d < 2 * d * lo,
                    d > 0,
            ;
        }
        return lo as u64;
    }
    let lerp: i128 = (2 * n + d) / (2 * d);
    assert(lerp >= lo) by (nonlinear_arith)
        requires
            lerp == (2 * n + d) / (2 * d),
            2 * n + d >= 2 * d * lo,
            d > 0,
    ;
    let r = if lerp > hi {
        hi
    } else {
        lerp
    };
    r as u64
}

/// The index of the attempt with the lowest q above `q`.
pub open spec fn min_above(atts: Seq<Attempt>, q: u64) -> Option<int>
    decreases atts.len(),
{
    if atts.len() == 0 {
        None
    } else {
        let i = atts.len() - 1;
        let rest = min_above(atts.drop_last(), q);
        if atts[i].q > q {
            match rest {
                Some(j) => if atts[i].q < atts[j].q {
                    Some(i)
                } else {
                    Some(j)
                },
                None => Some(i),
            }
        } else {
            rest
        }
    }
}

/// The index of the attempt with the highest q below `q`.
pub open spec fn max_below(atts: Seq<Attempt>, q: u64) -> Option<int>
    decreases atts.len(),
{
    if atts.len() == 0 {
        None
    } else {
        let i = atts.len() - 1;
        let rest = max_below(atts.drop_last(), q);
        if atts[i].q < q {
            match rest {
                Some(j) => if atts[i].q >= atts[j].q {
                    Some(i)
                } else {
                    Some(j)
                },
                None => Some(i),
            }
        } else {
            rest
        }
    }
}

proof fn lemma_min_above(atts: Seq<Attempt>, q: u64)
    ensures
        min_above(atts, q) matches Some(i) ==> 0 <= i < atts.len() && atts[i].q > q && forall|j: int|
            0 <= j < atts.len() && atts[j].q > q ==> atts[i].q <= #[trigger] atts[j].q,
        min_above(atts, q) is None ==> forall|j: int| 0 <= j < atts.len() ==> #[trigger] atts[j].q <= q,
    decreases atts.len(),
{
    if atts.len() > 0 {
        let p = atts.drop_last();
        lemma_min_above(p, q);
        assert forall|j: int| 0 <= j < p.len() implies #[trigger] p[j] == atts[j] by {}
        let i = atts.len() - 1;
        match min_above(p, q) {
            Some(k) => {
                assert(p[k] == atts[k]);
            },
            None => {},
        }
        assert forall|j: int| 0 <= j < atts.len() && atts[j].q > q implies min_above(atts, q) is Some
            && atts[min_above(atts, q)->0].q <= #[trigger] atts[j].q by {
            if j < p.len() {
                assert(p[j] == atts[j]);
            }
        }
        assert forall|j: int| 0 <= j < atts.len() && min_above(atts, q) is None implies #[trigger] atts[j].q <= q by {
            if j < p.len() {
                assert(p[j] == atts[j]);
            }
        }
    }
}

proof fn lemma_max_below(atts: Seq<Attempt>, q: u64)
    ensures
        max_below(atts, q) matches Some(i) ==> 0 <= i < atts.len() && atts[i].q < q && forall|j: int|
            0 <= j < atts.len() && atts[j].q < q ==> atts[i].q >= #[trigger] atts[j].q,
        max_below(atts, q) is None ==> forall|j: int| 0 <= j < atts.len() ==> #[trigger] atts[j].q >= q,
    decreases atts.len(),
{
    if atts.len() > 0 {
        let p = atts.drop_last();
        lemma_max_below(p, q);
        assert forall|j: int| 0 <= j < p.len() implies #[trigger] p[j] == atts[j] by {}
        match max_below(p, q) {
            Some(k) => {
                assert(p[k] == atts[k]);
            },
            None => {},
        }
        assert forall|j: int| 0 <= j < atts.len() && atts[j].q < q implies max_below(atts, q) is Some
            && atts[max_below(atts, q)->0].q >= #[trigger] atts[j].q by {
            if j < p.len() {
                assert(p[j] == atts[j]);
            }
        }
        assert forall|j: int| 0 <= j < atts.len() && max_below(atts, q) is None implies #[trigger] atts[j].q >= q by {
            if j < p.len() {
                assert(p[j] == atts[j]);
            }
        }
    }
}

/// How much score above `min_score` is acceptable at run `run` (in millionths):
/// 0.05 when thorough, otherwise `crf_increment * 2^(run-1) * 0.1`, at least 0.1.
pub open spec fn spec_tolerance(thorough: bool, crf_increment: u32, run: u64) -> int {
    if thorough {
        50_000
    } else {
        let t = crf_increment * pow2((run - 1) as nat) * 100;
        if t > 100_000 {
            t
        } else {
            100_000
        }
    }
}

/// What the search does after an attempt.
#[derive(Clone, Copy, Debug, PartialEq, Eq, Structural)]
pub enum Step {
    /// Report the attempt and try this q next.
    Continue(u64),
    /// The search ends with the attempt just made.
    Done,
    /// Report the attempt, then end the search with the attempt at this index.
    DoneAfterRun(usize),
    /// No crf delivers both the score and the size: the attempt just made is the last.
    NoGoodCrf,
}

/// A running search tries a new q next: one in range that no attempt has tried.
pub proof fn lemma_next_q_is_new(cfg: SearchConfig, atts: Seq<Attempt>, run: u64, q: u64)
    requires
        search_inv(cfg, atts, run, q),
    ensures
        cfg.min_q <= q <= cfg.max_q,
        forall|i: int| 0 <= i < atts.len() ==> #[trigger] atts[i].q != q,
{
    assert forall|i: int| 0 <= i < atts.len() implies #[trigger] atts[i].q != q by {
        if atts[i].score > cfg.min_score {
            assert(atts[i].q < q);
        } else {
            assert(atts[i].q > q);
        }
    }
}

/// `round(0.4 * a + 0.6 * b)`.
pub open spec fn spec_cut(a: int, b: int) -> int {
    (2 * (2 * a + 3 * b) + 5) / 10
}

/// The search settings.
#[derive(Clone, Copy, Debug, PartialEq, Eq, Structural)]
pub struct SearchConfig {
    /// The q of the minimum crf.
    pub min_q: u64,
    /// The q of the maximum crf.
    pub max_q: u64,
    /// Make the 2nd attempt on the ~20%/~80% crf point rather than the edge.
    pub cut_on_iter2: bool,
    /// Crf increment, in thousandths.
    pub crf_increment: u32,
    /// The least acceptable mean score, in millionths.
    pub min_score: i64,
    /// The largest acceptable encoded size, in millionths of a percent.
    pub max_encoded_percent: u64,
    /// Keep going until a crf is found no more than 0.05 above the min score.
    pub thorough: bool,
}

/// The step the search takes after attempting `q` with result `new`, given the
/// earlier attempts `atts` at run `run`.
pub open spec fn spec_step(cfg: SearchConfig, atts: Seq<Attempt>, run: u64, new: Attempt) -> Step {
    let q = new.q;
    let small = new.encode_percent <= cfg.max_encoded_percent;
    let all = atts.push(new);
    if new.score > cfg.min_score {
        if small && new.score - cfg.min_score < spec_tolerance(cfg.thorough, cfg.crf_increment, run) {
            Step::Done
        } else {
            match min_above(all, q) {
                Some(u) => if all[u].q == q + 1 {
                    if small {
                        Step::Done
                    } else {
                        Step::NoGoodCrf
                    }
                } else {
                    Step::Continue(spec_lerp_q(cfg.min_score as int, all[u], new) as u64)
                },
                None => if q == cfg.max_q {
                    if small {
                        Step::Done
                    } else {
                        Step::NoGoodCrf
                    }
                } else if cfg.cut_on_iter2 && run == 1 && q + 1 < cfg.max_q {
                    Step::Continue(spec_cut(q as int, cfg.max_q as int) as u64)
                } else {
                    Step::Continue(cfg.max_q)
                },
            }
        }
    } else {
        if !small || q == cfg.min_q {
            Step::NoGoodCrf
        } else {
            match max_below(all, q) {
                Some(l) => if all[l].q + 1 == q {
                    if all[l].encode_percent <= cfg.max_encoded_percent {
                        Step::DoneAfterRun(l as usize)
                    } else {
                        Step::NoGoodCrf
                    }
                } else {
                    Step::Continue(spec_lerp_q(cfg.min_score as int, new, all[l]) as u64)
                },
                None => if cfg.cut_on_iter2 && run == 1 && q > cfg.min_q + 1 {
                    Step::Continue(spec_cut(q as int, cfg.min_q as int) as u64)
                } else {
                    Step::Continue(cfg.min_q)
                },
            }
        }
    }
}

/// The highest q of an attempt with a score above `min`, or `lo` where there is none.
pub open spec fn good_bound(atts: Seq<Attempt>, min: i64, lo: int) -> int
    decreases atts.len(),
{
    if atts.len() == 0 {
        lo
    } else {
        let rest = good_bound(atts.drop_last(), min, lo);
        if atts.last().score > min && atts.last().q > rest {
            atts.last().q as int
        } else {
            rest
        }
    }
}

/// The lowest q of an attempt with a score at most `min`, or `hi` where there is none.
pub open spec fn bad_bound(atts: Seq<Attempt>, min: i64, hi: int) -> int
    decreases atts.len(),
{
    if atts.len() == 0 {
        hi
    } else {
        let rest = bad_bound(atts.drop_last(), min, hi);
        if atts.last().score <= min && atts.last().q < rest {
            atts.last().q as int
        } else {
            rest
        }
    }
}

proof fn lemma_good_bound(atts: Seq<Attempt>, min: i64, lo: int)
    ensures
        good_bound(atts, min, lo) >= lo,
        forall|i: int|
            0 <= i < atts.len() && #[trigger] atts[i].score > min ==> atts[i].q <= good_bound(
                atts,
                min,
                lo,
            ),
        good_bound(atts, min, lo) == lo || exists|i: int|
            0 <= i < atts.len() && #[trigger] atts[i].score > min && atts[i].q == good_bound(
                atts,
                min,
                lo,
            ),
    decreases atts.len(),
{
    if atts.len() > 0 {
        let p = atts.drop_last();
        lemma_good_bound(p, min, lo);
        assert forall|i: int| 0 <= i < p.len() implies #[trigger] p[i] == atts[i] by {}
        let gb = good_bound(p, min, lo);
        if gb != lo {
            let w = choose|i: int| 0 <= i < p.len() && #[trigger] p[i].score > min && p[i].q == gb;
            assert(atts[w] == p[w]);
        }
        assert forall|i: int| 0 <= i < atts.len() && #[trigger] atts[i].score > min implies atts[i].q
            <= good_bound(atts, min, lo) by {
            if i < p.len() {
                assert(p[i] == atts[i]);
            }
        }
    }
}

proof fn lemma_bad_bound(atts: Seq<Attempt>, min: i64, hi: int)
    ensures
        bad_bound(atts, min, hi) <= hi,
        forall|i: int|
            0 <= i < atts.len() && #[trigger] atts[i].score <= min ==> atts[i].q >= bad_bound(
                atts,
                min,
                hi,
            ),
        bad_bound(atts, min, hi) == hi || exists|i: int|
            0 <= i < atts.len() && #[trigger] atts[i].score <= min && atts[i].q == bad_bound(
                atts,
                min,
                hi,
            ),
    decreases atts.len(),
{
    if atts.len() > 0 {
        let p = atts.drop_last();
        lemma_bad_bound(p, min, hi);
        assert forall|i: int| 0 <= i < p.len() implies #[trigger] p[i] == atts[i] by {}
        let bb = bad_bound(p, min, hi);
        if bb != hi {
            let w = choose|i: int| 0 <= i < p.len() && #[trigger] p[i].score <= min && p[i].q == bb;
            assert(atts[w] == p[w]);
        }
        assert forall|i: int| 0 <= i < atts.len() && #[trigger] atts[i].score <= min implies atts[i].q
            >= bad_bound(atts, min, hi) by {
            if i < p.len() {
                assert(p[i] == atts[i]);
            }
        }
    }
}

/// Highest q known good (score above the minimum), or one below the range.
pub open spec fn spec_lo(cfg: SearchConfig, atts: Seq<Attempt>) -> int {
    good_bound(atts, cfg.min_score, cfg.min_q - 1)
}

/// Lowest q known bad (score at most the minimum), or one above the range.
pub open spec fn spec_hi(cfg: SearchConfig, atts: Seq<Attempt>) -> int {
    bad_bound(atts, cfg.min_score, cfg.max_q + 1)
}

/// The number of q values that may still be tried.
pub open spec fn spec_remaining(cfg: SearchConfig, atts: Seq<Attempt>) -> int {
    spec_hi(cfg, atts) - spec_lo(cfg, atts) - 1
}

/// The invariant of a running search at run `run` that tries `q` next: `q` lies
/// in range, above every good attempt and below every bad one; the attempts made
/// and the q values left to try together fit in the range.
pub open spec fn search_inv(cfg: SearchConfig, atts: Seq<Attempt>, run: u64, q: u64) -> bool {
    &&& cfg.crf_increment >= 1
    &&& cfg.min_q <= q <= cfg.max_q
    &&& cfg.max_q <= 0x1_0000_0001
    &&& run == atts.len() + 1
    &&& forall|i: int| 0 <= i < atts.len() ==> cfg.min_q <= #[trigger] atts[i].q <= cfg.max_q
    &&& forall|i: int| 0 <= i < atts.len() && #[trigger] atts[i].score > cfg.min_score ==> atts[i].q < q
    &&& forall|i: int| 0 <= i < atts.len() && #[trigger] atts[i].score <= cfg.min_score ==> atts[i].q > q
    &&& spec_lo(cfg, atts) < q < spec_hi(cfg, atts)
    &&& atts.len() + spec_remaining(cfg, atts) <= cfg.max_q - cfg.min_q + 1
}

/// An interpolated binary search for the best crf: its settings, the attempts
/// made so far, the run number and the q to try next.
pub struct CrfSearch {
    cfg: SearchConfig,
    attempts: Vec<Attempt>,
    run: u64,
    q: u64,
    finished: bool,
}

impl CrfSearch {
    /// The settings.
    pub closed spec fn spec_cfg(self) -> SearchConfig {
        self.cfg
    }

    /// The attempts made so far, oldest first.
    pub closed spec fn spec_attempts(self) -> Seq<Attempt> {
        self.attempts@
    }

    /// The run number of the next attempt, from 1.
    pub closed spec fn spec_run(self) -> u64 {
        self.run
    }

    /// The q to attempt next.
    pub closed spec fn spec_q(self) -> u64 {
        self.q
    }

    /// The search has ended.
    pub closed spec fn spec_finished(self) -> bool {
        self.finished
    }

    /// A running search keeps its invariant.
    pub open spec fn wf(self) -> bool {
        search_inv(self.spec_cfg(), self.spec_attempts(), self.spec_run(), self.spec_q())
    }
}

/// The attempt that the search records when it tries `q` and gets `score` and
/// `encode_percent`.
pub open spec fn attempt_of(q: u64, score: i64, encode_percent: u64) -> Attempt {
    Attempt { q, score, encode_percent }
}

proof fn lemma_push_bounds(cfg: SearchConfig, atts: Seq<Attempt>, new: Attempt)
    requires
        spec_lo(cfg, atts) < new.q < spec_hi(cfg, atts),
    ensures
        atts.push(new).drop_last() == atts,
        atts.push(new).last() == new,
        new.score > cfg.min_score ==> spec_lo(cfg, atts.push(new)) == new.q && spec_hi(
            cfg,
            atts.push(new),
        ) == spec_hi(cfg, atts),
        new.score <= cfg.min_score ==> spec_hi(cfg, atts.push(new)) == new.q && spec_lo(
            cfg,
            atts.push(new),
        ) == spec_lo(cfg, atts),
{
    assert(atts.push(new).drop_last() =~= atts);
}

/// The cut point of the second attempt lies strictly between `a` and `b`, at
/// most at `b`.
proof fn lemma_cut_between(a: int, b: int)
    ensures
        a + 1 < b ==> a < spec_cut(a, b) <= b,
        b + 1 < a ==> b <= spec_cut(a, b) < a,
{
}

proof fn lemma_continue_good(cfg: SearchConfig, atts: Seq<Attempt>, run: u64, new: Attempt, nq: u64)
    requires
        search_inv(cfg, atts, run, new.q),
        new.score > cfg.min_score,
        spec_step(cfg, atts, run, new) == Step::Continue(nq),
    ensures
        search_inv(cfg, atts.push(new), (run + 1) as u64, nq),
        spec_remaining(cfg, atts.push(new)) < spec_remaining(cfg, atts),
{
    let all = atts.push(new);
    let q = new.q;
    lemma_push_bounds(cfg, atts, new);
    lemma_min_above(all, q);
    lemma_bad_bound(atts, cfg.min_score, cfg.max_q + 1);
    lemma_bad_bound(all, cfg.min_score, cfg.max_q + 1);
    lemma_good_bound(all, cfg.min_score, cfg.min_q - 1);
    assert forall|i: int| 0 <= i < atts.len() implies #[trigger] all[i] == atts[i] by {}
    let hi = spec_hi(cfg, atts);
    match min_above(all, q) {
        Some(u) => {
            assert(u < atts.len());
            assert(all[u].score <= cfg.min_score);
            if hi != cfg.max_q + 1 {
                let b = choose|i: int|
                    0 <= i < all.len() && #[trigger] all[i].score <= cfg.min_score && all[i].q
                        == hi;
                assert(all[b].q > q);
            }
            assert(all[u].q <= hi);
            assert(q < nq < all[u].q);
            assert forall|i: int|
                0 <= i < all.len() && #[trigger] all[i].score <= cfg.min_score implies all[i].q
                > nq by {
                assert(all[i].q > q);
            }
        },
        None => {
            if hi != cfg.max_q + 1 {
                let b = choose|i: int|
                    0 <= i < all.len() && #[trigger] all[i].score <= cfg.min_score && all[i].q
                        == hi;
                assert(all[b].q > q);
                assert(false);
            }
            lemma_cut_between(q as int, cfg.max_q as int);
            assert(q < nq <= cfg.max_q);
        },
    }
}

proof fn lemma_continue_bad(cfg: SearchConfig, atts: Seq<Attempt>, run: u64, new: Attempt, nq: u64)
    requires
        search_inv(cfg, atts, run, new.q),
        new.score <= cfg.min_score,
        spec_step(cfg, atts, run, new) == Step::Continue(nq),
    ensures
        search_inv(cfg, atts.push(new), (run + 1) as u64, nq),
        spec_remaining(cfg, atts.push(new)) < spec_remaining(cfg, atts),
{
    let all = atts.push(new);
    let q = new.q;
    lemma_push_bounds(cfg, atts, new);
    lemma_max_below(all, q);
    lemma_good_bound(atts, cfg.min_score, cfg.min_q - 1);
    lemma_good_bound(all, cfg.min_score, cfg.min_q - 1);
    lemma_bad_bound(all, cfg.min_score, cfg.max_q + 1);
    assert forall|i: int| 0 <= i < atts.len() implies #[trigger] all[i] == atts[i] by {}
    let lo = spec_lo(cfg, atts);
    match max_below(all, q) {
        Some(l) => {
            assert(l < atts.len());
            assert(all[l].score > cfg.min_score);
            if lo != cfg.min_q - 1 {
                let g = choose|i: int|
                    0 <= i < all.len() && #[trigger] all[i].score > cfg.min_score && all[i].q
                        == lo;
                assert(all[g].q < q);
            }
            assert(all[l].q >= lo);
            assert(all[l].q < nq < q);
            assert forall|i: int|
                0 <= i < all.len() && #[trigger] all[i].score > cfg.min_score implies all[i].q
                < nq by {
                assert(all[i].q < q);
            }
        },
        None => {
            if lo != cfg.min_q - 1 {
                let g = choose|i: int|
                    0 <= i < all.len() && #[trigger] all[i].score > cfg.min_score && all[i].q
                        == lo;
                assert(all[g].q < q);
                assert(false);
            }
            lemma_cut_between(q as int, cfg.min_q as int);
            assert(cfg.min_q <= nq < q);
        },
    }
}

/// Every q that the search goes on to try keeps its invariant: it lies in range
/// and strictly between the highest good and lowest bad attempt, so it was never
/// tried before, and the q values left to try get fewer.
pub proof fn lemma_step_keeps_inv(
    cfg: SearchConfig,
    atts: Seq<Attempt>,
    run: u64,
    q: u64,
    score: i64,
    encode_percent: u64,
)
    requires
        search_inv(cfg, atts, run, q),
    ensures
        spec_step(cfg, atts, run, attempt_of(q, score, encode_percent)) matches Step::Continue(nq)
            ==> {
            &&& search_inv(
                cfg,
                atts.push(attempt_of(q, score, encode_percent)),
                (run + 1) as u64,
                nq,
            )
            &&& spec_remaining(cfg, atts.push(attempt_of(q, score, encode_percent)))
                < spec_remaining(cfg, atts)
            &&& forall|i: int|
                0 <= i <= atts.len() ==> #[trigger] atts.push(
                    attempt_of(q, score, encode_percent),
                )[i].q != nq
        },
{
    let new = attempt_of(q, score, encode_percent);
    if let Step::Continue(nq) = spec_step(cfg, atts, run, new) {
        if score > cfg.min_score {
            lemma_continue_good(cfg, atts, run, new, nq);
        } else {
            lemma_continue_bad(cfg, atts, run, new, nq);
        }
        let all = atts.push(new);
        assert forall|i: int| 0 <= i <= atts.len() implies #[trigger] all[i].q != nq by {
            if all[i].score > cfg.min_score {
                assert(all[i].q < nq);
            } else {
                assert(all[i].q > nq);
            }
        }
    }
}

proof fn lemma_step_outcome(cfg: SearchConfig, atts: Seq<Attempt>, run: u64, new: Attempt)
    requires
        search_inv(cfg, atts, run, new.q),
    ensures
        spec_step(cfg, atts, run, new) is Done ==> new.score > cfg.min_score && new.encode_percent
            <= cfg.max_encoded_percent,
        spec_step(cfg, atts, run, new) is NoGoodCrf ==> new.score <= cfg.min_score
            || new.encode_percent > cfg.max_encoded_percent,
        spec_step(cfg, atts, run, new) is DoneAfterRun ==> new.score <= cfg.min_score && exists|
            l: int,
        |
            0 <= l < atts.len() && spec_step(cfg, atts, run, new) == Step::DoneAfterRun(l as usize)
                && atts[l].score > cfg.min_score && atts[l].encode_percent
                <= cfg.max_encoded_percent && atts[l].q + 1 == new.q,
{
    let all = atts.push(new);
    assert forall|i: int| 0 <= i < atts.len() implies #[trigger] all[i] == atts[i] by {}
    lemma_max_below(all, new.q);
    if new.score <= cfg.min_score {
        if let Some(l) = max_below(all, new.q) {
            assert(l < atts.len());
            assert(all[l] == atts[l]);
        }
    }
}

/// The search makes at most as many attempts as there are q values in its range:
/// a running search has made fewer.
pub proof fn lemma_attempts_bounded(cfg: SearchConfig, atts: Seq<Attempt>, run: u64, q: u64)
    requires
        search_inv(cfg, atts, run, q),
    ensures
        atts.len() < cfg.max_q - cfg.min_q + 1,
        spec_remaining(cfg, atts) >= 1,
{
}

/// `round(0.4 * a + 0.6 * b)`.
pub fn cut_point(a: u64, b: u64) -> (r: u64)
    requires
        a <= 0x1_0000_0001,
        b <= 0x1_0000_0001,
    ensures
        r == spec_cut(a as int, b as int),
{
    (2 * (2 * a + 3 * b) + 5) / 10
}

/// Whether a score `diff` above the minimum is within the tolerance of run `run`.
pub fn within_tolerance(diff: u64, thorough: bool, crf_increment: u32, run: u64) -> (r: bool)
    requires
        run >= 1,
    ensures
        r == (diff < spec_tolerance(thorough, crf_increment, run)),
        !thorough && diff < 100_000 ==> r,
        thorough ==> r == (diff < 50_000),
{
    if thorough {
        return diff < 50_000;
    }
    let k: u64 = run - 1;
    if k >= 64 {
        if crf_increment == 0 {
            return diff < 100_000;
        }
        proof {
            vstd::arithmetic::power2::lemma2_to64();
            if k > 64 {
                vstd::arithmetic::power2::lemma_pow2_strictly_increases(64, k as nat);
            }
            let p = pow2(k as nat);
            assert(crf_increment * p * 100 >= 0x1_0000_0000_0000_0000 * 100) by (nonlinear_arith)
                requires
                    crf_increment >= 1,
                    p >= 0x1_0000_0000_0000_0000,
            ;
        }
        return true;
    }
    let mut p: u128 = 1;
    let mut e: u64 = 0;
    proof {
        vstd::arithmetic::power2::lemma2_to64();
    }
    while e < k
        invariant
            e <= k < 64,
            p == pow2(e as nat),
            p <= 0x8000_0000_0000_0000,
        decreases k - e,
    {
        proof {
            vstd::arithmetic::power2::lemma_pow2_unfold((e + 1) as nat);
            vstd::arithmetic::power2::lemma2_to64_rest();
            if e + 1 < 63 {
                vstd::arithmetic::power2::lemma_pow2_strictly_increases((e + 1) as nat, 63);
            }
        }
        p = p * 2;
        e = e + 1;
    }
    assert(crf_increment * p <= 0xffff_ffff * 0x8000_0000_0000_0000) by (nonlinear_arith)
        requires
            crf_increment <= 0xffff_ffff,
            p <= 0x8000_0000_0000_0000,
    ;
    let t: u128 = crf_increment as u128 * p * 100;
    let tol: u128 = if t > 100_000 {
        t
    } else {
        100_000
    };
    (diff as u128) < tol
}

/// The index of the attempt with the lowest q above `q`, the first of equals.
pub fn find_min_above(atts: &Vec<Attempt>, q: u64) -> (r: Option<usize>)
    ensures
        match r {
            Some(i) => min_above(atts@, q) == Some(i as int),
            None => min_above(atts@, q) is None,
        },
{
    let mut best: Option<usize> = None;
    let mut i: usize = 0;
    while i < atts.len()
        invariant
            i <= atts.len(),
            match best {
                Some(b) => min_above(atts@.subrange(0, i as int), q) == Some(b as int) && b < i,
                None => min_above(atts@.subrange(0, i as int), q) is None,
            },
        decreases atts.len() - i,
    {
        let ghost pre = atts@.subrange(0, i as int);
        let ghost cur = atts@.subrange(0, i + 1);
        assert(cur.drop_last() =~= pre);
        if atts[i].q > q {
            match best {
                Some(b) => {
                    assert(pre[b as int] == atts@[b as int]);
                    if atts[i].q < atts[b].q {
                        best = Some(i);
                    }
                },
                None => {
                    best = Some(i);
                },
            }
        }
        i = i + 1;
    }
    assert(atts@.subrange(0, atts@.len() as int) =~= atts@);
    best
}

/// The index of the attempt with the highest q below `q`, the last of equals.
pub fn find_max_below(atts: &Vec<Attempt>, q: u64) -> (r: Option<usize>)
    ensures
        match r {
            Some(i) => max_below(atts@, q) == Some(i as int),
            None => max_below(atts@, q) is None,
        },
{
    let mut best: Option<usize> = None;
    let mut i: usize = 0;
    while i < atts.len()
        invariant
            i <= atts.len(),
            match best {
                Some(b) => max_below(atts@.subrange(0, i as int), q) == Some(b as int) && b < i,
                None => max_below(atts@.subrange(0, i as int), q) is None,
            },
        decreases atts.len() - i,
    {
        let ghost pre = atts@.subrange(0, i as int);
        let ghost cur = atts@.subrange(0, i + 1);
        assert(cur.drop_last() =~= pre);
        if atts[i].q < q {
            match best {
                Some(b) => {
                    assert(pre[b as int] == atts@[b as int]);
                    if atts[i].q >= atts[b].q {
                        best = Some(i);
                    }
                },
                None => {
                    best = Some(i);
                },
            }
        }
        i = i + 1;
    }
    assert(atts@.subrange(0, atts@.len() as int) =~= atts@);
    best
}

/// The crf range and increment the search takes, in thousandths, given the
/// options and the encoder's defaults: `(min_crf, max_crf, crf_increment)`.
pub open spec fn spec_crf_range(
    encoder: Seq<char>,
    min_crf: Option<u32>,
    max_crf: Option<u32>,
    crf_increment: Option<u32>,
) -> (u32, u32, u32) {
    let max = match max_crf {
        Some(c) => c,
        None => spec_default_max_crf(encoder),
    };
    let min = match min_crf {
        Some(c) => c,
        None => spec_default_min_crf(encoder),
    };
    let inc = match crf_increment {
        Some(c) => c,
        None => spec_default_crf_increment(encoder),
    };
    (min, max, if inc < 1 {
        1
    } else {
        inc
    })
}

/// The settings of a search over the given crf options, in thousandths.
pub open spec fn spec_search_config(
    encoder: Seq<char>,
    min_crf: Option<u32>,
    max_crf: Option<u32>,
    crf_increment: Option<u32>,
    min_score: i64,
    max_encoded_percent: u64,
    thorough: bool,
) -> SearchConfig {
    let (min, max, inc) = spec_crf_range(encoder, min_crf, max_crf, crf_increment);
    SearchConfig {
        min_q: spec_q_from_crf(min as int, inc as int) as u64,
        max_q: spec_q_from_crf(max as int, inc as int) as u64,
        cut_on_iter2: 2 * (max - min) > spec_default_max_crf(encoder) - spec_default_min_crf(
            encoder,
        ),
        crf_increment: inc,
        min_score,
        max_encoded_percent,
        thorough,
    }
}

impl CrfSearch {
    /// The bounds that hold of every search, running or ended.
    pub open spec fn valid(self) -> bool {
        let cfg = self.spec_cfg();
        &&& cfg.crf_increment >= 1
        &&& cfg.min_q <= self.spec_q() <= cfg.max_q
        &&& cfg.max_q <= 0x1_0000_0001
        &&& forall|i: int|
            0 <= i < self.spec_attempts().len() ==> cfg.min_q <= #[trigger] self.spec_attempts()[i].q
                <= cfg.max_q
    }

    /// Start a search for the best crf of `encoder` between `min_crf` and `max_crf`
    /// (thousandths; the encoder's defaults where `None`) in steps of
    /// `crf_increment` (at least 0.001), delivering a score above `min_score`
    /// (millionths) and an encoded size of at most `max_encoded_percent`
    /// (millionths of a percent). The first attempt is the middle of the range.
    pub fn new(
        encoder: &EncoderString,
        min_crf: Option<u32>,
        max_crf: Option<u32>,
        crf_increment: Option<u32>,
        min_score: i64,
        max_encoded_percent: u64,
        thorough: bool,
    ) -> (r: Result<CrfSearch, String>)
        ensures
            r is Err <== !(spec_crf_range(encoder.0@, min_crf, max_crf, crf_increment).0
                < spec_crf_range(encoder.0@, min_crf, max_crf, crf_increment).1),
            r is Ok <== spec_crf_range(encoder.0@, min_crf, max_crf, crf_increment).0
                < spec_crf_range(encoder.0@, min_crf, max_crf, crf_increment).1,
            r matches Err(e) ==> e@ == "Invalid --min-crf & --max-crf"@,
            r matches Ok(s) ==> {
                &&& s.wf()
                &&& !s.spec_finished()
                &&& s.spec_cfg() == spec_search_config(
                    encoder.0@,
                    min_crf,
                    max_crf,
                    crf_increment,
                    min_score,
                    max_encoded_percent,
                    thorough,
                )
                &&& s.spec_attempts().len() == 0
                &&& s.spec_run() == 1
                &&& s.spec_q() == (s.spec_cfg().min_q + s.spec_cfg().max_q) / 2
            },
    {
        let default_max_crf = encoder.default_max_crf();
        let max_crf = match max_crf {
            Some(c) => c,
            None => default_max_crf,
        };
        let default_min_crf = encoder.default_min_crf();
        let min_crf = match min_crf {
            Some(c) => c,
            None => default_min_crf,
        };
        if !(min_crf < max_crf) {
            return Err(String::from_str("Invalid --min-crf & --max-crf"));
        }
        let cut_on_iter2 = 2 * (max_crf as u64 - min_crf as u64) > default_max_crf as u64
            - default_min_crf as u64;
        let inc = match crf_increment {
            Some(c) => c,
            None => encoder.default_crf_increment(),
        };
        let inc = if inc < 1 {
            1
        } else {
            inc
        };
        let min_q = q_from_crf(min_crf, inc);
        let max_q = q_from_crf(max_crf, inc);
        proof {
            vstd::arithmetic::div_mod::lemma_div_is_ordered(
                2 * min_crf + inc,
                2 * max_crf + inc,
                2 * inc as int,
            );
        }
        let cfg = SearchConfig {
            min_q,
            max_q,
            cut_on_iter2,
            crf_increment: inc,
            min_score,
            max_encoded_percent,
            thorough,
        };
        let s = CrfSearch { cfg, attempts: Vec::new(), run: 1, q: (min_q + max_q) / 2, finished: false };
        proof {
            assert(s.spec_attempts().len() == 0);
        }
        Ok(s)
    }

    /// The q to attempt next.
    pub fn q(&self) -> (r: u64)
        ensures
            r == self.spec_q(),
    {
        self.q
    }

    /// The crf to attempt next, in thousandths.
    pub fn crf(&self) -> (r: u64)
        requires
            self.valid(),
        ensures
            r == spec_to_crf(self.spec_q() as int, self.spec_cfg().crf_increment as int),
    {
        assert(self.q * self.cfg.crf_increment <= 0x1_0000_0001 * 0xffff_ffff) by (nonlinear_arith)
            requires
                self.q <= 0x1_0000_0001,
                self.cfg.crf_increment <= 0xffff_ffff,
        ;
        to_crf(self.q, self.cfg.crf_increment)
    }

    /// The run number of the next attempt, from 1.
    pub fn run_number(&self) -> (r: u64)
        ensures
            r == self.spec_run(),
    {
        self.run
    }

    /// The settings.
    pub fn config(&self) -> (r: SearchConfig)
        ensures
            r == self.spec_cfg(),
    {
        self.cfg
    }

    /// The attempts made so far, oldest first.
    pub fn attempts(&self) -> (r: &Vec<Attempt>)
        ensures
            r@ == self.spec_attempts(),
    {
        &self.attempts
    }

    /// Whether the search has ended.
    pub fn is_finished(&self) -> (r: bool)
        ensures
            r == self.spec_finished(),
    {
        self.finished
    }

    /// The crf of attempt `i`, in thousandths.
    pub fn attempt_crf(&self, i: usize) -> (r: u64)
        requires
            self.valid(),
            i < self.spec_attempts().len(),
        ensures
            r == spec_to_crf(self.spec_attempts()[i as int].q as int, self.spec_cfg().crf_increment as int),
    {
        let q = self.attempts[i].q;
        assert(q * self.cfg.crf_increment <= 0x1_0000_0001 * 0xffff_ffff) by (nonlinear_arith)
            requires
                q <= 0x1_0000_0001,
                self.cfg.crf_increment <= 0xffff_ffff,
        ;
        to_crf(q, self.cfg.crf_increment)
    }
}

impl CrfSearch {
    /// Record the result of attempting the current q: its mean `score`
    /// (millionths) and `encode_percent` (millionths of a percent), and decide
    /// what comes next. On `Continue(q)` the search tries `q` next; any other
    /// step ends it.
    pub fn record(&mut self, score: i64, encode_percent: u64) -> (step: Step)
        requires
            old(self).wf(),
            !old(self).spec_finished(),
        ensures
            step == spec_step(
                old(self).spec_cfg(),
                old(self).spec_attempts(),
                old(self).spec_run(),
                attempt_of(old(self).spec_q(), score, encode_percent),
            ),
            final(self).spec_cfg() == old(self).spec_cfg(),
            final(self).spec_attempts() == old(self).spec_attempts().push(
                attempt_of(old(self).spec_q(), score, encode_percent),
            ),
            final(self).spec_run() == old(self).spec_run() + 1,
            final(self).valid(),
            step matches Step::Continue(nq) ==> {
                &&& final(self).wf()
                &&& !final(self).spec_finished()
                &&& final(self).spec_q() == nq
                &&& spec_remaining(final(self).spec_cfg(), final(self).spec_attempts())
                    < spec_remaining(old(self).spec_cfg(), old(self).spec_attempts())
            },
            step !is Continue ==> final(self).spec_finished() && final(self).spec_q() == old(
                self,
            ).spec_q(),
            step is Done ==> score > old(self).spec_cfg().min_score && encode_percent <= old(
                self,
            ).spec_cfg().max_encoded_percent,
            step is NoGoodCrf ==> score <= old(self).spec_cfg().min_score || encode_percent > old(
                self,
            ).spec_cfg().max_encoded_percent,
            step matches Step::DoneAfterRun(l) ==> {
                &&& score <= old(self).spec_cfg().min_score
                &&& l < old(self).spec_attempts().len()
                &&& old(self).spec_attempts()[l as int].score > old(self).spec_cfg().min_score
                &&& old(self).spec_attempts()[l as int].encode_percent <= old(
                    self,
                ).spec_cfg().max_encoded_percent
                &&& old(self).spec_attempts()[l as int].q + 1 == old(self).spec_q()
            },
    {
        let q = self.q;
        let new = Attempt { q, score, encode_percent };
        let cfg = self.cfg;
        let run = self.run;
        let ghost atts = self.attempts@;
        proof {
            lemma_step_keeps_inv(cfg, atts, run, q, score, encode_percent);
            lemma_step_outcome(cfg, atts, run, new);
            lemma_attempts_bounded(cfg, atts, run, q);
        }
        self.attempts.push(new);
        let ghost all = self.attempts@;
        assert(all == atts.push(new));
        assert forall|i: int| 0 <= i < atts.len() implies #[trigger] all[i] == atts[i] by {}
        proof {
            lemma_min_above(all, q);
            lemma_max_below(all, q);
        }
        let small = encode_percent <= cfg.max_encoded_percent;
        let step = if score > cfg.min_score {
            let diff: u64 = (score as i128 - cfg.min_score as i128) as u64;
            if small && within_tolerance(diff, cfg.thorough, cfg.crf_increment, run) {
                Step::Done
            } else {
                match find_min_above(&self.attempts, q) {
                    Some(u) => {
                        let upper = self.attempts[u];
                        if upper.q == q + 1 {
                            if small {
                                Step::Done
                            } else {
                                Step::NoGoodCrf
                            }
                        } else {
                            proof {
                                assert(u < atts.len());
                                assert(upper.score <= cfg.min_score);
                            }
                            Step::Continue(vmaf_lerp_q(cfg.min_score, &upper, &new))
                        }
                    },
                    None => {
                        if q == cfg.max_q {
                            if small {
                                Step::Done
                            } else {
                                Step::NoGoodCrf
                            }
                        } else if cfg.cut_on_iter2 && run == 1 && q + 1 < cfg.max_q {
                            Step::Continue(cut_point(q, cfg.max_q))
                        } else {
                            Step::Continue(cfg.max_q)
                        }
                    },
                }
            }
        } else {
            if !small || q == cfg.min_q {
                Step::NoGoodCrf
            } else {
                match find_max_below(&self.attempts, q) {
                    Some(l) => {
                        let lower = self.attempts[l];
                        if lower.q + 1 == q {
                            if lower.encode_percent <= cfg.max_encoded_percent {
                                Step::DoneAfterRun(l)
                            } else {
                                Step::NoGoodCrf
                            }
                        } else {
                            proof {
                                assert(l < atts.len());
                                assert(lower.score > cfg.min_score);
                            }
                            Step::Continue(vmaf_lerp_q(cfg.min_score, &new, &lower))
                        }
                    },
                    None => {
                        if cfg.cut_on_iter2 && run == 1 && q > cfg.min_q + 1 {
                            Step::Continue(cut_point(q, cfg.min_q))
                        } else {
                            Step::Continue(cfg.min_q)
                        }
                    },
                }
            }
        };
        self.run = run + 1;
        match step {
            Step::Continue(nq) => {
                self.q = nq;
            },
            _ => {
                self.finished = true;
            },
        }
        step
    }
}

/// Stdout message format of a crf search.
#[derive(Debug, Clone, Copy, PartialEq, Eq, Structural)]
pub enum StdoutFormat {
    Human,
}

/// Why no crf delivers the score and size: the last attempt's score is below the
/// minimum, its size above the maximum, both, or (where neither) unknown.
pub open spec fn spec_no_good_crf_reason(last: Attempt, min_score: i64, max_encoded_percent: u64) -> Seq<char> {
    let score_too_low = last.score < min_score;
    let encode_too_large = last.encode_percent > max_encoded_percent;
    if score_too_low && encode_too_large {
        "score too low and encode too large"@
    } else if score_too_low {
        "score too low"@
    } else if encode_too_large {
        "encode too large"@
    } else {
        "unknown"@
    }
}

/// The reason of a failed search, from its last attempt.
pub fn no_good_crf_reason(last: &Attempt, min_score: i64, max_encoded_percent: u64) -> (r: &'static str)
    ensures
        r@ == spec_no_good_crf_reason(*last, min_score, max_encoded_percent),
{
    let score_too_low = last.score < min_score;
    let encode_too_large = last.encode_percent > max_encoded_percent;
    if score_too_low && encode_too_large {
        "score too low and encode too large"
    } else if score_too_low {
        "score too low"
    } else if encode_too_large {
        "encode too large"
    } else {
        "unknown"
    }
}

/// A progress guess of a search: `((run - 1) + sample_progress) / total`, where
/// the total is 6 runs for a thorough search before run 7, 4 runs before run 5,
/// otherwise the current run; scaled to `bar_len`. `sample_progress` is in
/// millionths.
pub open spec fn spec_guess_progress(run: u64, sample_progress: u64, thorough: bool, bar_len: u64) -> int {
    let total: int = if thorough && run < 7 {
        6
    } else if run < 5 {
        4
    } else {
        run as int
    };
    ((run - 1) * 1_000_000 + sample_progress) * bar_len / (total * 1_000_000)
}

/// Guess the progress bar position of a search at run `run` (from 1) with the
/// current sample `sample_progress` millionths done.
pub fn guess_progress(run: u64, sample_progress: u64, thorough: bool, bar_len: u64) -> (r: u128)
    requires
        1 <= run <= 0xffff_ffff,
        sample_progress <= 1_000_000,
        bar_len <= 0xffff_ffff_ffff,
    ensures
        r == spec_guess_progress(run, sample_progress, thorough, bar_len),
{
    let total: u128 = if thorough && run < 7 {
        6
    } else if run < 5 {
        4
    } else {
        run as u128
    };
    let done: u128 = (run as u128 - 1) * 1_000_000 + sample_progress as u128;
    assert(done * bar_len <= 0x10_0000_0000_0000 * 0xffff_ffff_ffff) by (nonlinear_arith)
        requires
            done <= 0x10_0000_0000_0000,
            bar_len <= 0xffff_ffff_ffff,
    ;
    done * bar_len as u128 / (total * 1_000_000)
}

/// The score tolerance never shrinks from one run to the next: 0.1, 0.2, 0.4 ...
/// for a crf increment of 1, constant 0.05 when thorough.
pub proof fn lemma_tolerance_grows(thorough: bool, crf_increment: u32, run: u64)
    requires
        run >= 1,
        run < u64::MAX,
    ensures
        spec_tolerance(thorough, crf_increment, run) <= spec_tolerance(
            thorough,
            crf_increment,
            (run + 1) as u64,
        ),
{
    if !thorough {
        let k = (run - 1) as nat;
        vstd::arithmetic::power2::lemma_pow2_unfold(k + 1);
        let p = pow2(k);
        assert(crf_increment * p * 100 <= crf_increment * (2 * p) * 100) by (nonlinear_arith)
            requires
                p >= 0,
                crf_increment >= 0,
        ;
    }
}

/// The non-thorough score tolerance is never below 0.1 (100_000 millionths), and
/// above that it is `crf_increment * 2^(run-1) * 0.1`; a thorough search
/// tolerates 0.05 at every run.
pub proof fn lemma_tolerance_floor(crf_increment: u32, run: u64)
    requires
        run >= 1,
    ensures
        spec_tolerance(false, crf_increment, run) >= 100_000,
        spec_tolerance(false, crf_increment, run) >= crf_increment * pow2((run - 1) as nat) * 100,
        spec_tolerance(false, crf_increment, run) == 100_000 || spec_tolerance(false, crf_increment, run)
            == crf_increment * pow2((run - 1) as nat) * 100,
        spec_tolerance(true, crf_increment, run) == 50_000,
{
}

/// The search takes the crf options it is given: a given `min_crf` and
/// `max_crf` are its bounds, a given increment of at least 0.001 is its step,
/// and only where no increment is given does it step by the encoder's default.
/// Its q bounds are the bounds divided by the step, rounded to nearest.
pub proof fn lemma_search_takes_options(
    encoder: Seq<char>,
    min_crf: Option<u32>,
    max_crf: Option<u32>,
    crf_increment: Option<u32>,
    min_score: i64,
    max_encoded_percent: u64,
    thorough: bool,
)
    ensures
        min_crf is Some ==> spec_crf_range(encoder, min_crf, max_crf, crf_increment).0 == min_crf->0,
        max_crf is Some ==> spec_crf_range(encoder, min_crf, max_crf, crf_increment).1 == max_crf->0,
        crf_increment is Some && crf_increment->0 >= 1 ==> spec_crf_range(
            encoder,
            min_crf,
            max_crf,
            crf_increment,
        ).2 == crf_increment->0,
        crf_increment is None ==> spec_crf_range(encoder, min_crf, max_crf, crf_increment).2 == (
        if spec_default_crf_increment(encoder) < 1 {
            1
        } else {
            spec_default_crf_increment(encoder)
        }),
        spec_crf_range(encoder, min_crf, max_crf, crf_increment).2 >= 1,
        ({
            let (lo, hi, inc) = spec_crf_range(encoder, min_crf, max_crf, crf_increment);
            let cfg = spec_search_config(
                encoder,
                min_crf,
                max_crf,
                crf_increment,
                min_score,
                max_encoded_percent,
                thorough,
            );
            &&& cfg.crf_increment == inc
            &&& cfg.min_q == (2 * lo + inc) / (2 * inc)
            &&& cfg.max_q == (2 * hi + inc) / (2 * inc)
        }),
{
    let (lo, hi, inc) = spec_crf_range(encoder, min_crf, max_crf, crf_increment);
    assert((2 * lo + inc) / (2 * inc) <= 0x1_0000_0000) by (nonlinear_arith)
        requires
            inc >= 1,
            lo <= 0xffff_ffff,
    {
        vstd::arithmetic::div_mod::lemma_div_is_ordered_by_denominator(2 * lo + inc, 2, 2 * inc);
    }
    assert((2 * hi + inc) / (2 * inc) <= 0x1_0000_0000) by (nonlinear_arith)
        requires
            inc >= 1,
            hi <= 0xffff_ffff,
    {
        vstd::arithmetic::div_mod::lemma_div_is_ordered_by_denominator(2 * hi + inc, 2, 2 * inc);
    }
}

/// A q value's crf converts back to the same q.
pub proof fn lemma_q_round_trip(q: nat, crf_increment: nat)
    requires
        crf_increment >= 1,
    ensures
        spec_q_from_crf(spec_to_crf(q as int, crf_increment as int), crf_increment as int) == q,
{
    let c = crf_increment as int;
    assert((2 * (q * c) + c) / (2 * c) == q) by (nonlinear_arith)
        requires
            c >= 1,
            q >= 0,
    {
        assert(2 * (q * c) + c == q * (2 * c) + c);
        vstd::arithmetic::div_mod::lemma_fundamental_div_mod_converse(2 * (q * c) + c, 2 * c, q as int, c);
    }
}

} // verus!
