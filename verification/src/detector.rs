//! Regression detection: each benchmark has a window of past values, against which a
//! new value is judged.

use crate::arith::{floor_div, root, root_is_below, word, Wide};
use crate::detector_laws::severity_follows_the_threshold;
use crate::natural::{floor_root, Natural};
use crate::profiler::last_items;
use crate::samples::{dispersion, mean, moments_give_deviation, no_stats, stats_of, sum, Stats};
use crate::samples::{magnitude, moments, Moments};
use crate::samples::{std_dev, stats_give_mean_and_deviation, sum_is_bounded};
use crate::series::vec_of;
use std::collections::VecDeque;
use vstd::arithmetic::mul::*;
use vstd::prelude::*;

verus! {

/// How many values of a benchmark are kept.
pub const WINDOW: usize = 1000;

/// The past values of a benchmark, the latest one last, with their times.
#[derive(Debug)]
pub struct HistoricalData {
    /// The values, in thousandths.
    pub values: VecDeque<i64>,
    /// When each of them was measured.
    pub timestamps: VecDeque<u64>,
    /// The moments of the values, once there are enough of them.
    pub moments: Moments,
}

/// The past values of a benchmark as mathematical sequences, with the stored moments.
#[verifier::ext_equal]
pub struct History {
    pub values: Seq<i64>,
    pub timestamps: Seq<u64>,
    pub stats: Stats,
}

/// A history whose moments were computed anew, if it has as many values as are needed.
pub open spec fn updated(h: History, needed: int) -> History {
    History {
        stats: if h.values.len() >= needed {
            stats_of(h.values)
        } else {
            h.stats
        },
        ..h
    }
}

/// A history with one more value, cut to the window and brought up to date.
pub open spec fn appended(h: History, value: i64, timestamp: u64, needed: int) -> History {
    updated(
        History {
            values: last_items(h.values.push(value), WINDOW as int),
            timestamps: last_items(h.timestamps.push(timestamp), WINDOW as int),
            stats: h.stats,
        },
        needed,
    )
}

/// A history without values.
pub open spec fn empty_history() -> History {
    History { values: Seq::empty(), timestamps: Seq::empty(), stats: no_stats() }
}

/// Whether values and times go together within the window, and the stored moments are
/// those of the values once there are as many as are needed, and zero before.
pub open spec fn is_window(h: History, needed: int) -> bool {
    &&& h.values.len() == h.timestamps.len() <= WINDOW
    &&& h.stats == (if h.values.len() >= needed {
        stats_of(h.values)
    } else {
        no_stats()
    })
}

impl View for HistoricalData {
    type V = History;

    open spec fn view(&self) -> History {
        History { values: self.values@, timestamps: self.timestamps@, stats: self.moments@ }
    }
}

impl HistoricalData {
    /// The history is a window with its moments.
    pub open spec fn wf(self, min_samples: int) -> bool {
        is_window(self@, min_samples)
    }

    /// A history without values.
    pub fn new() -> (r: HistoricalData)
        ensures
            r@ == empty_history(),
            forall|n: int| #[trigger] r.wf(n),
    {
        HistoricalData {
            values: VecDeque::new(),
            timestamps: VecDeque::new(),
            moments: Moments::none(),
        }
    }

    /// Adds a value, drops the oldest ones beyond the window, and brings the moments up
    /// to date.
    pub fn add(&mut self, value: i64, timestamp: u64, min_samples: usize)
        requires
            old(self).wf(min_samples as int),
        ensures
            final(self).wf(min_samples as int),
            final(self)@ == appended(old(self)@, value, timestamp, min_samples as int),
            final(self).values@.len() < min_samples ==> final(self).moments == (Moments {
                count: 0,
                sum: 0,
                sum_of_squares: Wide { hi: 0, lo: 0 },
            }),
    {
        let ghost all = self.values@.push(value);
        let ghost times = self.timestamps@.push(timestamp);
        self.values.push_back(value);
        self.timestamps.push_back(timestamp);
        if self.values.len() > WINDOW {
            let _ = self.values.pop_front();
            let _ = self.timestamps.pop_front();
            assert(self.values@ =~= all.skip(1));
            assert(self.timestamps@ =~= times.skip(1));
        }
        self.update_stats(min_samples);
        proof {
            if self.values@.len() < min_samples {
                let zero = Moments { count: 0, sum: 0, sum_of_squares: Wide { hi: 0, lo: 0 } };
                self.moments.are_unique(zero);
            }
        }
    }

    /// Computes the moments anew, once there are enough values.
    pub fn update_stats(&mut self, min_samples: usize)
        ensures
            final(self)@ == updated(old(self)@, min_samples as int),
    {
        if self.values.len() >= min_samples {
            let copy: Vec<i64> = vec_of(&self.values, 0, self.values.len());
            assert(copy@ =~= self.values@);
            self.moments = moments(copy.as_slice());
        }
    }
}

/// How far a new value is from the mean of the values, times their number.
pub open spec fn offset(values: Seq<i64>, new_value: int) -> int {
    values.len() * new_value - sum(values)
}

/// The absolute value.
pub open spec fn abs(x: int) -> int {
    if x < 0 {
        -x
    } else {
        x
    }
}

/// Whether a new value differs from the mean by more than `threshold` thousandths of a
/// percent of the mean.
pub open spec fn exceeds(values: Seq<i64>, new_value: int, threshold: int) -> bool {
    abs(offset(values, new_value)) * 100_000 > threshold * abs(sum(values))
}

/// The change from the mean to a new value, in thousandths of a percent of the mean,
/// rounded down; there is none where the mean is zero.
pub open spec fn change_percent(values: Seq<i64>, new_value: int) -> Option<int> {
    let total = sum(values);
    let a = offset(values, new_value);
    if total > 0 {
        Some(a * 100_000 / total)
    } else if total < 0 {
        Some((-a) * 100_000 / (-total))
    } else {
        None
    }
}

/// The distance of a new value from the mean in thousandths of the standard deviation,
/// rounded towards zero; there is none where all values are equal.
pub open spec fn z_score(values: Seq<i64>, new_value: int) -> Option<int> {
    let a = offset(values, new_value);
    let size = root(dispersion(values), (1000 * abs(a)) * (1000 * abs(a)));
    if dispersion(values) == 0 {
        None
    } else if a < 0 {
        Some(-size)
    } else {
        Some(size)
    }
}

/// Whether `k` thousandths are at most `df / (t + df)`, where `t` is the distance from
/// the mean in standard errors and `df` is one less than the number of values. Both
/// sides of `k * t <= (1000 - k) * df` are squared.
pub open spec fn confidence_reaches(values: Seq<i64>, new_value: int, k: int) -> bool {
    let a = abs(offset(values, new_value));
    let n = values.len() as int;
    (k * a) * (k * a) * n <= ((1000 - k) * (n - 1)) * ((1000 - k) * (n - 1)) * dispersion(values)
}

/// Whether `k` is the confidence in thousandths, rounded down.
pub open spec fn is_confidence(values: Seq<i64>, new_value: int, k: int) -> bool {
    &&& 0 <= k <= 1000
    &&& confidence_reaches(values, new_value, k)
    &&& k < 1000 ==> !confidence_reaches(values, new_value, k + 1)
}

/// How serious a change is that exceeds the threshold.
pub open spec fn severity(values: Seq<i64>, new_value: int, threshold: int) -> Seq<char> {
    if exceeds(values, new_value, threshold * 3) {
        "CRITICAL"@
    } else if exceeds(values, new_value, threshold * 2) {
        "SEVERE"@
    } else {
        "WARNING"@
    }
}

/// A change that exceeds the threshold. Numbers are in thousandths.
#[derive(Debug)]
pub struct RegressionInfo {
    /// The benchmark.
    pub benchmark_id: String,
    /// The mean of its past values.
    pub baseline_mean: i128,
    /// The new value.
    pub new_value: i64,
    /// The change in percent of the mean.
    pub change_percent: Option<i128>,
    /// The change in standard deviations.
    pub z_score: Option<i128>,
    /// How serious the change is.
    pub severity: String,
    /// How well the new value fits the past ones, from 0 to 1.
    pub confidence: Option<u64>,
}

/// Whether the report is the one of a new value against the past ones.
pub open spec fn is_report(
    info: RegressionInfo,
    id: Seq<char>,
    values: Seq<i64>,
    new_value: i64,
    threshold: int,
) -> bool {
    &&& info.benchmark_id@ == id
    &&& info.baseline_mean == mean(values)
    &&& info.new_value == new_value
    &&& match change_percent(values, new_value as int) {
        Some(c) => info.change_percent is Some && info.change_percent->0 == c,
        None => info.change_percent is None,
    }
    &&& match z_score(values, new_value as int) {
        Some(z) => info.z_score is Some && info.z_score->0 == z,
        None => info.z_score is None,
    }
    &&& info.severity@ == severity(values, new_value as int, threshold)
    &&& match info.confidence {
        Some(k) => dispersion(values) != 0 && is_confidence(values, new_value as int, k as int),
        None => dispersion(values) == 0,
    }
}

/// The recent course of a benchmark. Numbers are in thousandths.
#[derive(Debug)]
pub struct TrendInfo {
    /// The benchmark.
    pub benchmark_id: String,
    /// How much the mean grew per value.
    pub slope: i128,
    /// `increasing`, `decreasing` or `stable`.
    pub direction: String,
    /// The mean of the latest values.
    pub recent_mean: i128,
    /// The mean of those before them.
    pub older_mean: i128,
}

/// The latest `window` values.
pub open spec fn recent_values(values: Seq<i64>, window: int) -> Seq<i64> {
    values.skip(values.len() - window)
}

/// Up to `window` values before the latest ones.
pub open spec fn older_values(values: Seq<i64>, window: int) -> Seq<i64> {
    last_items(values.take(values.len() - window), window)
}

/// The difference of the two means, times the numbers of values.
pub open spec fn rise(values: Seq<i64>, window: int) -> int {
    let older = older_values(values, window);
    sum(recent_values(values, window)) * older.len() - sum(older) * window
}

/// The number by which a rise is divided to give the slope.
pub open spec fn rise_scale(values: Seq<i64>, window: int) -> int {
    window * window * older_values(values, window).len()
}

/// The direction of a slope: it is stable within a hundredth per value.
pub open spec fn direction(values: Seq<i64>, window: int) -> Seq<char> {
    if rise(values, window) > 10 * rise_scale(values, window) {
        "increasing"@
    } else if rise(values, window) < -10 * rise_scale(values, window) {
        "decreasing"@
    } else {
        "stable"@
    }
}

/// Whether there are values for both windows.
pub open spec fn has_trend(values: Seq<i64>, window: int) -> bool {
    0 < window < values.len()
}

/// Whether the trend is the one of the values.
pub open spec fn is_trend(t: TrendInfo, id: Seq<char>, values: Seq<i64>, window: int) -> bool {
    &&& t.benchmark_id@ == id
    &&& t.slope == rise(values, window) / rise_scale(values, window)
    &&& t.direction@ == direction(values, window)
    &&& t.recent_mean == mean(recent_values(values, window))
    &&& t.older_mean == mean(older_values(values, window))
}

/// Judges new values of benchmarks by their past ones.
#[derive(Debug)]
pub struct RegressionDetector {
    baseline: Vec<(String, HistoricalData)>,
    threshold_percent: i64,
    min_samples: usize,
}

impl View for RegressionDetector {
    type V = Map<Seq<char>, History>;

    closed spec fn view(&self) -> Map<Seq<char>, History> {
        Map::new(
            |id: Seq<char>| exists|i: int| self.is_at(id, i),
            |id: Seq<char>| self.baseline@[choose|i: int| self.is_at(id, i)].1@,
        )
    }
}

impl RegressionDetector {
    spec fn is_at(self, id: Seq<char>, i: int) -> bool {
        0 <= i < self.baseline@.len() && self.baseline@[i].0@ == id
    }

    /// The accepted change, in thousandths of a percent.
    pub closed spec fn threshold(self) -> int {
        self.threshold_percent as int
    }

    /// How many past values a judgement needs.
    pub closed spec fn samples_needed(self) -> int {
        self.min_samples as int
    }

    /// Every benchmark has one history, which is well formed and not empty.
    pub closed spec fn wf(self) -> bool {
        &&& forall|i: int, j: int|
            0 <= i < j < self.baseline@.len() ==> self.baseline@[i].0@ != self.baseline@[j].0@
        &&& forall|i: int|
            #![trigger self.baseline@[i]]
            0 <= i < self.baseline@.len() ==> self.baseline@[i].1.wf(self.min_samples as int)
                && self.baseline@[i].1.values@.len() > 0
    }

    proof fn lemma_at(self, id: Seq<char>, i: int)
        requires
            self.wf(),
            self.is_at(id, i),
        ensures
            self@.contains_key(id),
            self@[id] == self.baseline@[i].1@,
    {
        let k = choose|k: int| self.is_at(id, k);
        assert(self.is_at(id, k));
        assert(k == i) by {
            if k < i {
                assert(self.baseline@[k].0@ != self.baseline@[i].0@);
            } else if i < k {
                assert(self.baseline@[i].0@ != self.baseline@[k].0@);
            }
        }
    }

    /// Every history of the detector has from 1 to 1000 values, each with its time. The
    /// stored moments are zero while there are fewer values than a judgement needs. From
    /// then on they are those of the values, and give their mean and their deviation.
    pub proof fn histories_are_windows(self, id: Seq<char>)
        requires
            self.wf(),
            self@.contains_key(id),
        ensures
            0 < self@[id].values.len() <= WINDOW,
            self@[id].timestamps.len() == self@[id].values.len(),
            self@[id].values.len() < self.samples_needed() ==> self@[id].stats == no_stats(),
            self@[id].values.len() >= self.samples_needed() ==> {
                &&& self@[id].stats == stats_of(self@[id].values)
                &&& self@[id].stats.mean() == mean(self@[id].values)
                &&& self@[id].stats.std_dev() == std_dev(self@[id].values)
            },
    {
        let i = choose|i: int| self.is_at(id, i);
        self.lemma_at(id, i);
        stats_give_mean_and_deviation(self@[id].values);
    }

    /// A detector without past values.
    pub fn new(threshold_percent: i64, min_samples: usize) -> (r: RegressionDetector)
        ensures
            r.wf(),
            r@ == Map::<Seq<char>, History>::empty(),
            r.threshold() == threshold_percent,
            r.samples_needed() == min_samples,
    {
        let r = RegressionDetector { baseline: Vec::new(), threshold_percent, min_samples };
        assert(r@ =~= Map::<Seq<char>, History>::empty());
        r
    }

    fn find(&self, benchmark_id: &str) -> (r: Option<usize>)
        requires
            self.wf(),
        ensures
            match r {
                Some(i) => self.is_at(benchmark_id@, i as int),
                None => !self@.contains_key(benchmark_id@) && forall|i: int|
                    0 <= i < self.baseline@.len() ==> #[trigger] self.baseline@[i].0@
                        != benchmark_id@,
            },
    {
        let wanted: String = benchmark_id.to_owned();
        let mut i: usize = 0;
        while i < self.baseline.len()
            invariant
                i <= self.baseline@.len(),
                wanted@ == benchmark_id@,
                forall|j: int| 0 <= j < i ==> #[trigger] self.baseline@[j].0@ != benchmark_id@,
            decreases self.baseline@.len() - i,
        {
            if self.baseline[i].0 == wanted {
                return Some(i);
            }
            i = i + 1;
        }
        None
    }

    /// Adds a value to the history of a benchmark. All other histories stay as they are.
    pub fn add_sample(&mut self, benchmark_id: &str, value: i64, timestamp: u64)
        requires
            old(self).wf(),
        ensures
            final(self).wf(),
            final(self).threshold() == old(self).threshold(),
            final(self).samples_needed() == old(self).samples_needed(),
            final(self)@ == old(self)@.insert(
                benchmark_id@,
                appended(
                    if old(self)@.contains_key(benchmark_id@) {
                        old(self)@[benchmark_id@]
                    } else {
                        empty_history()
                    },
                    value,
                    timestamp,
                    old(self).samples_needed(),
                ),
            ),
    {
        let min_samples: usize = self.min_samples;
        let ghost before = *self;
        let at: usize = match self.find(benchmark_id) {
            Some(i) => {
                proof {
                    self.lemma_at(benchmark_id@, i as int);
                }
                self.baseline[i].1.add(value, timestamp, min_samples);
                i
            },
            None => {
                let mut data = HistoricalData::new();
                data.add(value, timestamp, min_samples);
                self.baseline.push((benchmark_id.to_owned(), data));
                self.baseline.len() - 1
            },
        };
        proof {
            assert(self.wf());
            assert(self.is_at(benchmark_id@, at as int));
            self.lemma_at(benchmark_id@, at as int);
            let expected = before@.insert(benchmark_id@, self.baseline@[at as int].1@);
            assert forall|id: Seq<char>| #[trigger]
                self@.contains_key(id) == expected.contains_key(id) && (self@.contains_key(id)
                    ==> self@[id] == expected[id]) by {
                if id != benchmark_id@ {
                    if self@.contains_key(id) {
                        let i = choose|i: int| self.is_at(id, i);
                        assert(before.is_at(id, i));
                        before.lemma_at(id, i);
                        self.lemma_at(id, i);
                    }
                    if before@.contains_key(id) {
                        let i = choose|i: int| before.is_at(id, i);
                        assert(self.is_at(id, i));
                        before.lemma_at(id, i);
                        self.lemma_at(id, i);
                    }
                }
            }
            assert(self@ =~= expected);
        }
    }

    /// Judges a new value of a benchmark. It is reported where there are enough past
    /// values and it differs from their mean by more than the threshold.
    pub fn check_regression(&self, benchmark_id: &str, new_value: i64) -> (r: Option<
        RegressionInfo,
    >)
        requires
            self.wf(),
        ensures
            r is Some <==> self@.contains_key(benchmark_id@) && self@[benchmark_id@].values.len()
                >= self.samples_needed() && exceeds(
                self@[benchmark_id@].values,
                new_value as int,
                self.threshold(),
            ),
            r matches Some(info) ==> is_report(
                info,
                benchmark_id@,
                self@[benchmark_id@].values,
                new_value,
                self.threshold(),
            ),
            r matches Some(info) ==> {
                let values = self@[benchmark_id@].values;
                let distance = abs(values.len() * new_value - sum(values)) * 100_000;
                let mean = abs(sum(values));
                &&& distance > self.threshold() * mean
                &&& info.severity@ == "CRITICAL"@ <==> distance > 3 * self.threshold() * mean
                &&& info.severity@ == "SEVERE"@ <==> distance <= 3 * self.threshold() * mean
                    && distance > 2 * self.threshold() * mean
            },
    {
        let at: usize = match self.find(benchmark_id) {
            Some(i) => i,
            None => {
                return None;
            },
        };
        proof {
            self.lemma_at(benchmark_id@, at as int);
        }
        let data: &HistoricalData = &self.baseline[at].1;
        if data.values.len() < self.min_samples {
            return None;
        }
        let ghost values = data.values@;
        let m: Moments = data.moments;
        let threshold: i128 = self.threshold_percent as i128;
        proof {
            moments_give_deviation(m, values);
            sum_is_bounded(values, 0x8000_0000_0000_0000);
            let n = values.len() as int;
            let b = 0x8000_0000_0000_0000int;
            assert(-(1000 * b) <= n * new_value <= 1000 * b && n * b <= 1000 * b)
                by (nonlinear_arith)
                requires
                    0 <= n <= 1000,
                    -b <= new_value <= b,
                    b > 0,
            ;
        }
        let a: i128 = m.count as i128 * new_value as i128 - m.sum;
        if !moments_exceed(m.sum, a, threshold) {
            return None;
        }
        let severity: &str = if moments_exceed(m.sum, a, threshold * 3) {
            "CRITICAL"
        } else if moments_exceed(m.sum, a, threshold * 2) {
            "SEVERE"
        } else {
            "WARNING"
        };
        let change: Option<i128> = if m.sum > 0 {
            Some(floor_div(a * 100_000, m.sum))
        } else if m.sum < 0 {
            Some(floor_div(-a * 100_000, -m.sum))
        } else {
            None
        };
        let info = RegressionInfo {
            benchmark_id: benchmark_id.to_owned(),
            baseline_mean: m.mean(),
            new_value,
            change_percent: change,
            z_score: z_score_of(&m, a),
            severity: severity.to_owned(),
            confidence: self.calculate_confidence(&data.values, new_value),
        };
        proof {
            severity_follows_the_threshold(
                info,
                benchmark_id@,
                values,
                new_value,
                self.threshold(),
            );
        }
        Some(info)
    }

    /// How well a new value fits the samples, in thousandths; nothing where all samples
    /// are equal.
    pub fn calculate_confidence(&self, samples: &VecDeque<i64>, new_value: i64) -> (r: Option<u64>)
        ensures
            match r {
                Some(k) => dispersion(samples@) != 0 && is_confidence(
                    samples@,
                    new_value as int,
                    k as int,
                ),
                None => dispersion(samples@) == 0,
            },
    {
        let copy: Vec<i64> = vec_of(samples, 0, samples.len());
        assert(copy@ =~= samples@);
        let m: Moments = moments(copy.as_slice());
        proof {
            moments_give_deviation(m, copy@);
        }
        let d = m.dispersion_of();
        if d.at_most(&Natural::from_word(0)) {
            proof {
                m.dispersion_is_small();
            }
            return None;
        }
        proof {
            let n = samples@.len() as int;
            let b = 0x8000_0000_0000_0000int;
            assert(-(0xffff_ffff_ffff_ffff * b) <= n * new_value <= 0xffff_ffff_ffff_ffff * b)
                by (nonlinear_arith)
                requires
                    0 <= n <= 0xffff_ffff_ffff_ffff,
                    -b <= new_value <= b,
                    b > 0,
            ;
            if n == 0 {
                assert(0 * m.sum_of_squares.value() == 0) by (nonlinear_arith);
            }
        }
        let n = Natural::from_word(m.count as u128);
        let a = Natural::from_word(distance(m.count as i128 * new_value as i128, m.sum));
        let mut k: u64 = 0;
        assert(confidence_reaches(samples@, new_value as int, 0)) by {
            let e = 1000 * (samples@.len() - 1);
            assert((0 * a.value()) * (0 * a.value()) * n.value() == 0) by (nonlinear_arith);
            assert(0 <= e * e * d.value()) by (nonlinear_arith)
                requires
                    d.value() >= 0,
            ;
        }
        while k < 1000
            invariant_except_break
                k <= 1000,
                confidence_reaches(samples@, new_value as int, k as int),
            invariant
                0 < samples@.len(),
                m.count == samples@.len(),
                n.value() == samples@.len(),
                d.value() == dispersion(samples@),
                a.value() == abs(offset(samples@, new_value as int)),
            ensures
                is_confidence(samples@, new_value as int, k as int),
            decreases 1000 - k,
        {
            let next: u64 = k + 1;
            let near = Natural::from_word(next as u128).times(&a);
            let side = Natural::from_word((1000 - next) as u128).times(
                &Natural::from_word((m.count - 1) as u128),
            );
            if !near.times(&near).times(&n).at_most(&side.times(&side).times(&d)) {
                break ;
            }
            k = next;
        }
        Some(k)
    }

    /// Compares the mean of the latest `window` values with that of up to `window` values
    /// before them. There is no trend without values in both.
    pub fn get_trend(&self, benchmark_id: &str, window: usize) -> (r: Option<TrendInfo>)
        requires
            self.wf(),
        ensures
            r is Some <==> self@.contains_key(benchmark_id@) && has_trend(
                self@[benchmark_id@].values,
                window as int,
            ),
            r matches Some(t) ==> is_trend(
                t,
                benchmark_id@,
                self@[benchmark_id@].values,
                window as int,
            ),
            r matches Some(t) ==> {
                let values = self@[benchmark_id@].values;
                let split = values.len() - window;
                let m = if split < window {
                    split
                } else {
                    window as int
                };
                let recent = sum(values.subrange(split, values.len() as int));
                let older = sum(values.subrange(split - m, split));
                &&& m > 0
                &&& t.recent_mean * window <= recent < (t.recent_mean + 1) * window
                &&& t.older_mean * m <= older < (t.older_mean + 1) * m
            },
    {
        let at: usize = match self.find(benchmark_id) {
            Some(i) => i,
            None => {
                return None;
            },
        };
        proof {
            self.lemma_at(benchmark_id@, at as int);
        }
        let data: &HistoricalData = &self.baseline[at].1;
        let len: usize = data.values.len();
        if len <= window || window == 0 {
            return None;
        }
        let split: usize = len - window;
        let older_count: usize = if split < window {
            split
        } else {
            window
        };
        let ghost values = data.values@;
        let recent: Vec<i64> = vec_of(&data.values, split, len);
        let older: Vec<i64> = vec_of(&data.values, split - older_count, split);
        assert(recent@ =~= recent_values(values, window as int));
        assert(older@ =~= older_values(values, window as int));
        proof {
            sum_is_bounded(recent@, 0x8000_0000_0000_0000);
            sum_is_bounded(older@, 0x8000_0000_0000_0000);
        }
        proof {
            crate::arith::quotient_is_near(sum(recent@), window as int);
            crate::arith::quotient_is_near(sum(older@), older_count as int);
        }
        let w: i128 = window as i128;
        let m: i128 = older_count as i128;
        let recent_sum: i128 = sum_of(&recent);
        let older_sum: i128 = sum_of(&older);
        proof {
            let b = 0x8000_0000_0000_0000int;
            let rs = recent_sum as int;
            let os = older_sum as int;
            let wi = window as int;
            let mi = older_count as int;
            assert(-(1_000_000 * b) <= rs * mi <= 1_000_000 * b) by (nonlinear_arith)
                requires
                    -(wi * b) <= rs <= wi * b,
                    0 <= wi <= 1000,
                    0 <= mi <= 1000,
                    b >= 0,
            ;
            assert(-(1_000_000 * b) <= os * wi <= 1_000_000 * b) by (nonlinear_arith)
                requires
                    -(mi * b) <= os <= mi * b,
                    0 <= wi <= 1000,
                    0 <= mi <= 1000,
                    b >= 0,
            ;
            assert(0 < wi * wi <= 1_000_000) by (nonlinear_arith)
                requires
                    0 < wi <= 1000,
            ;
            assert(0 < wi * wi * mi <= 1_000_000_000) by (nonlinear_arith)
                requires
                    0 < wi * wi <= 1_000_000,
                    0 < mi <= 1000,
            ;
        }
        let up: i128 = recent_sum * m - older_sum * w;
        let scale: i128 = w * w * m;
        let direction: &str = if up > 10 * scale {
            "increasing"
        } else if up < -(10 * scale) {
            "decreasing"
        } else {
            "stable"
        };
        Some(
            TrendInfo {
                benchmark_id: benchmark_id.to_owned(),
                slope: floor_div(up, scale),
                direction: direction.to_owned(),
                recent_mean: floor_div(recent_sum, w),
                older_mean: floor_div(older_sum, m),
            },
        )
    }
}

/// How far two numbers are apart.
fn distance(x: i128, y: i128) -> (r: u128)
    ensures
        r == abs(x - y),
{
    if (x < 0) == (y < 0) {
        magnitude(x - y)
    } else {
        magnitude(x) + magnitude(y)
    }
}

/// Whether a change from a total is more than `threshold` thousandths of a percent of it.
fn moments_exceed(total: i128, a: i128, threshold: i128) -> (r: bool)
    ensures
        r == (abs(a as int) * 100_000 > threshold * abs(total as int)),
{
    let size: u128 = magnitude(total);
    if threshold < 0 {
        proof {
            let t = threshold as int;
            assert(abs(total as int) == size);
            if size > 0 {
                assert(t * size < 0) by (nonlinear_arith)
                    requires
                        t < 0,
                        size > 0,
                ;
            } else {
                assert(t * size == 0) by (nonlinear_arith)
                    requires
                        size == 0,
                ;
            }
        }
        return a != 0 || total != 0;
    }
    let change = Natural::from_word(magnitude(a)).times(&Natural::from_word(100_000));
    let limit = Natural::from_word(threshold as u128).times(&Natural::from_word(size));
    !change.at_most(&limit)
}

/// The distance from the mean in thousandths of the standard deviation.
fn z_score_of(m: &Moments, a: i128) -> (r: Option<i128>)
    requires
        m.consistent(),
        -0x1_0000_0000_0000_0000_0000_0000 <= a <= 0x1_0000_0000_0000_0000_0000_0000,
    ensures
        match r {
            Some(z) => m.dispersion() != 0 && z == (if a < 0 {
                -root(m.dispersion(), (1000 * abs(a as int)) * (1000 * abs(a as int)))
            } else {
                root(m.dispersion(), (1000 * abs(a as int)) * (1000 * abs(a as int)))
            }),
            None => m.dispersion() == 0,
        },
{
    proof {
        m.dispersion_is_small();
    }
    let d = m.dispersion_of();
    if d.at_most(&Natural::from_word(0)) {
        return None;
    }
    let size: u128 = 1000 * magnitude(a);
    let n = Natural::from_word(size);
    let t = n.times(&n);
    proof {
        let c = 0x1000_0000_0000_0000_0000_0000_0000int;
        assert(size * size < c * c) by (nonlinear_arith)
            requires
                0 <= size < c,
        ;
        lemma_mul_inequality(1, d.value(), word() * word());
        lemma_mul_is_commutative(d.value(), word() * word());
    }
    let k: u128 = floor_root(&d, &t);
    proof {
        root_is_below(
            k as int,
            d.value(),
            t.value(),
            0x1000_0000_0000_0000_0000_0000_0000,
        );
    }
    if a < 0 {
        Some(-(k as i128))
    } else {
        Some(k as i128)
    }
}

fn sum_of(s: &Vec<i64>) -> (r: i128)
    requires
        s.len() <= WINDOW,
    ensures
        r == sum(s@),
{
    let mut total: i128 = 0;
    let mut i: usize = 0;
    while i < s.len()
        invariant
            i <= s.len() <= WINDOW,
            -(i * 0x8000_0000_0000_0000) <= total <= i * 0x8000_0000_0000_0000,
            total == sum(s@.take(i as int)),
        decreases s.len() - i,
    {
        assert(s@.take(i + 1).drop_last() =~= s@.take(i as int));
        total = total + s[i] as i128;
        i = i + 1;
    }
    assert(s@.take(s.len() as int) =~= s@);
    total
}

} // verus!
