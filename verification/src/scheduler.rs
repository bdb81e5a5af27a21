//! The benchmarks of the agent, and when they run.

use crate::agent::{are_judgements, judge_result, with_results, BenchmarkResult, Judgement};
use crate::benchmark::{Benchmark, BenchmarkConfig};
use crate::detector::{History, RegressionDetector};
use vstd::prelude::*;

verus! {

/// A benchmark that runs again and again. Times are in nanoseconds since the agent
/// started.
#[derive(Debug)]
pub struct ScheduledRun {
    pub benchmark_id: String,
    pub interval_secs: u64,
    pub last_run_ns: Option<u64>,
    pub next_run_ns: u64,
    pub tags: Vec<(String, String)>,
}

/// The first benchmark of this name.
pub open spec fn first_named(benchmarks: Seq<Benchmark>, id: Seq<char>) -> Option<int>
    decreases benchmarks.len(),
{
    if benchmarks.len() == 0 {
        None
    } else {
        match first_named(benchmarks.drop_last(), id) {
            Some(i) => Some(i),
            None => if benchmarks.last().config.id@ == id {
                Some(benchmarks.len() - 1)
            } else {
                None
            },
        }
    }
}

/// The benchmarks that are due, in the order of the schedule. One that is not known is
/// left out.
pub open spec fn due(
    schedule: Seq<ScheduledRun>,
    benchmarks: Seq<Benchmark>,
    now_ns: int,
) -> Seq<int>
    decreases schedule.len(),
{
    if schedule.len() == 0 {
        seq![]
    } else {
        let before = due(schedule.drop_last(), benchmarks, now_ns);
        let last = schedule.last();
        match first_named(benchmarks, last.benchmark_id@) {
            Some(i) => if now_ns >= last.next_run_ns {
                before.push(i)
            } else {
                before
            },
            None => before,
        }
    }
}

/// A result and how it was judged when it came in.
#[derive(Debug)]
pub struct JudgedResult {
    pub result: BenchmarkResult,
    /// One for each mean execution time.
    pub judgements: Vec<Judgement>,
}

/// The results among some outcomes.
pub open spec fn successes(outcomes: Seq<Option<BenchmarkResult>>) -> Seq<BenchmarkResult>
    decreases outcomes.len(),
{
    if outcomes.len() == 0 {
        seq![]
    } else {
        match outcomes.last() {
            Some(r) => successes(outcomes.drop_last()).push(r),
            None => successes(outcomes.drop_last()),
        }
    }
}

/// The results that were judged.
pub open spec fn results_of(v: Seq<JudgedResult>) -> Seq<BenchmarkResult> {
    Seq::new(v.len(), |i: int| v[i].result)
}

/// Whether each result was judged by the histories after those before it.
pub open spec fn are_judged(
    v: Seq<JudgedResult>,
    m: Map<Seq<char>, History>,
    threshold: int,
    needed: int,
) -> bool {
    forall|i: int|
        0 <= i < v.len() ==> are_judgements(
            (#[trigger] v[i]).judgements@,
            v[i].result,
            with_results(m, results_of(v).take(i), needed),
            threshold,
            needed,
        )
}

/// The benchmarks of the agent, their schedule, and their past values.
#[derive(Debug)]
pub struct BenchmarkScheduler {
    pub benchmarks: Vec<Benchmark>,
    pub detector: RegressionDetector,
    pub schedule: Vec<ScheduledRun>,
}

impl BenchmarkScheduler {
    /// The past values are well formed.
    pub open spec fn wf(self) -> bool {
        self.detector.wf()
    }

    /// Without benchmarks. A change of more than five percent counts as a regression,
    /// once there are ten values.
    pub fn new() -> (r: BenchmarkScheduler)
        ensures
            r.wf(),
            r.benchmarks@.len() == 0,
            r.schedule@.len() == 0,
            r.detector@ == Map::<Seq<char>, History>::empty(),
            r.detector.threshold() == 5_000,
            r.detector.samples_needed() == 10,
    {
        BenchmarkScheduler {
            benchmarks: Vec::new(),
            detector: RegressionDetector::new(5_000, 10),
            schedule: Vec::new(),
        }
    }

    /// Adds a benchmark.
    pub fn add_benchmark(&mut self, config: BenchmarkConfig)
        ensures
            final(self).benchmarks@.len() == old(self).benchmarks@.len() + 1,
            final(self).benchmarks@.drop_last() == old(self).benchmarks@,
            final(self).benchmarks@.last().config == config,
            final(self).benchmarks@.last().profiler.sample_interval_ms == 100,
            final(self).benchmarks@.last().profiler.max_history == 1000,
            final(self).benchmarks@.last().profiler.history@.len() == 0,
            final(self).schedule == old(self).schedule,
            final(self).detector == old(self).detector,
    {
        let ghost before = self.benchmarks@;
        self.benchmarks.push(Benchmark::new(config));
        assert(self.benchmarks@.drop_last() =~= before);
    }

    /// Schedules a benchmark: it is due at once.
    pub fn schedule_benchmark(
        &mut self,
        benchmark_id: String,
        interval_secs: u64,
        tags: Vec<(String, String)>,
        now_ns: u64,
    )
        ensures
            final(self).schedule@ == old(self).schedule@.push(
                (ScheduledRun {
                    benchmark_id,
                    interval_secs,
                    last_run_ns: None,
                    next_run_ns: now_ns,
                    tags,
                }),
            ),
            final(self).benchmarks == old(self).benchmarks,
            final(self).detector == old(self).detector,
            final(self).schedule@.len() == old(self).schedule@.len() + 1,
            final(self).schedule@.last().benchmark_id == benchmark_id,
            final(self).schedule@.last().interval_secs == interval_secs,
            final(self).schedule@.last().next_run_ns <= now_ns,
    {
        self.schedule.push(
            ScheduledRun {
                benchmark_id,
                interval_secs,
                last_run_ns: None,
                next_run_ns: now_ns,
                tags,
            },
        );
    }

    /// Finds the first benchmark of this name.
    pub fn find_benchmark(&self, id: &String) -> (r: Option<usize>)
        ensures
            match r {
                Some(i) => first_named(self.benchmarks@, id@) == Some(i as int) && i
                    < self.benchmarks@.len(),
                None => first_named(self.benchmarks@, id@) is None,
            },
    {
        let mut i: usize = 0;
        while i < self.benchmarks.len()
            invariant
                i <= self.benchmarks@.len(),
                first_named(self.benchmarks@.take(i as int), id@) is None,
            decreases self.benchmarks@.len() - i,
        {
            assert(self.benchmarks@.take(i + 1).drop_last() =~= self.benchmarks@.take(i as int));
            if self.benchmarks[i].config.id == *id {
                proof {
                    first_named_stays(self.benchmarks@, i + 1, id@);
                }
                return Some(i);
            }
            i = i + 1;
        }
        assert(self.benchmarks@.take(self.benchmarks@.len() as int) =~= self.benchmarks@);
        None
    }

    /// The benchmarks that are due, in the order of the schedule.
    pub fn due_benchmarks(&self, now_ns: u64) -> (r: Vec<usize>)
        ensures
            r@.map_values(|i: usize| i as int) == due(
                self.schedule@,
                self.benchmarks@,
                now_ns as int,
            ),
            forall|k: int| 0 <= k < r@.len() ==> #[trigger] r@[k] < self.benchmarks@.len(),
    {
        let mut r: Vec<usize> = Vec::new();
        let mut i: usize = 0;
        assert(r@.map_values(|i: usize| i as int) =~= seq![]);
        while i < self.schedule.len()
            invariant
                i <= self.schedule@.len(),
                r@.map_values(|i: usize| i as int) == due(
                    self.schedule@.take(i as int),
                    self.benchmarks@,
                    now_ns as int,
                ),
                forall|k: int| 0 <= k < r@.len() ==> #[trigger] r@[k] < self.benchmarks@.len(),
            decreases self.schedule@.len() - i,
        {
            let ghost before = r@.map_values(|i: usize| i as int);
            assert(self.schedule@.take(i + 1).drop_last() =~= self.schedule@.take(i as int));
            let run: &ScheduledRun = &self.schedule[i];
            if now_ns >= run.next_run_ns {
                match self.find_benchmark(&run.benchmark_id) {
                    Some(at) => {
                        r.push(at);
                        assert(r@.map_values(|i: usize| i as int) =~= before.push(at as int));
                    },
                    None => {},
                }
            }
            i = i + 1;
        }
        assert(self.schedule@.take(self.schedule@.len() as int) =~= self.schedule@);
        r
    }

    /// Judges the results of a round, in which each benchmark ran once or failed. The
    /// results come back in their order, each with its judgements; the failures are left
    /// out.
    pub fn run_once(&mut self, outcomes: Vec<Option<BenchmarkResult>>) -> (r: Vec<JudgedResult>)
        requires
            old(self).wf(),
        ensures
            final(self).wf(),
            final(self).benchmarks == old(self).benchmarks,
            final(self).schedule == old(self).schedule,
            final(self).detector.threshold() == old(self).detector.threshold(),
            final(self).detector.samples_needed() == old(self).detector.samples_needed(),
            results_of(r@) == successes(outcomes@),
            final(self).detector@ == with_results(
                old(self).detector@,
                successes(outcomes@),
                old(self).detector.samples_needed(),
            ),
            are_judged(
                r@,
                old(self).detector@,
                old(self).detector.threshold(),
                old(self).detector.samples_needed(),
            ),
    {
        let ghost all = outcomes@;
        let ghost m = self.detector@;
        let mut r: Vec<JudgedResult> = Vec::new();
        assert(results_of(r@) =~= successes(all.take(0)));
        for outcome in it: outcomes
            invariant
                it.seq() == all,
                self.wf(),
                self.benchmarks == old(self).benchmarks,
                self.schedule == old(self).schedule,
                m == old(self).detector@,
                self.detector.threshold() == old(self).detector.threshold(),
                self.detector.samples_needed() == old(self).detector.samples_needed(),
                results_of(r@) == successes(all.take(it.index())),
                self.detector@ == with_results(m, results_of(r@), old(self).detector.samples_needed()),
                are_judged(
                    r@,
                    m,
                    old(self).detector.threshold(),
                    old(self).detector.samples_needed(),
                ),
        {
            let ghost before = r@;
            let ghost k = it.index();
            assert(all.take(k + 1).drop_last() =~= all.take(k));
            assert(all.take(k + 1).last() == outcome);
            match outcome {
                Some(result) => {
                    let judgements = judge_result(&mut self.detector, &result);
                    r.push(JudgedResult { result, judgements });
                    proof {
                        let done = results_of(before);
                        assert(results_of(r@) =~= done.push(result));
                        assert(results_of(r@).drop_last() =~= done);
                        assert forall|i: int| 0 <= i < r@.len() implies are_judgements(
                            (#[trigger] r@[i]).judgements@,
                            r@[i].result,
                            with_results(
                                m,
                                results_of(r@).take(i),
                                old(self).detector.samples_needed(),
                            ),
                            old(self).detector.threshold(),
                            old(self).detector.samples_needed(),
                        ) by {
                            if i < before.len() {
                                assert(r@[i] == before[i]);
                                assert(results_of(r@).take(i) =~= done.take(i));
                            } else {
                                assert(results_of(r@).take(i) =~= done);
                            }
                        }
                    }
                },
                None => {},
            }
        }
        assert(all.take(all.len() as int) =~= all);
        r
    }
}

proof fn first_named_stays(benchmarks: Seq<Benchmark>, k: int, id: Seq<char>)
    requires
        0 <= k <= benchmarks.len(),
        first_named(benchmarks.take(k), id) is Some,
    ensures
        first_named(benchmarks, id) == first_named(benchmarks.take(k), id),
    decreases benchmarks.len(),
{
    if k < benchmarks.len() {
        assert(benchmarks.drop_last().take(k) =~= benchmarks.take(k));
        first_named_stays(benchmarks.drop_last(), k, id);
    } else {
        assert(benchmarks.take(k) =~= benchmarks);
    }
}

/// A benchmark that is found has the name, and no earlier one has it.
pub proof fn first_named_is_first(benchmarks: Seq<Benchmark>, id: Seq<char>)
    ensures
        match first_named(benchmarks, id) {
            Some(i) => 0 <= i < benchmarks.len() && benchmarks[i].config.id@ == id && forall|j: int|
                0 <= j < i ==> (#[trigger] benchmarks[j]).config.id@ != id,
            None => forall|j: int|
                0 <= j < benchmarks.len() ==> (#[trigger] benchmarks[j]).config.id@ != id,
        },
    decreases benchmarks.len(),
{
    if benchmarks.len() > 0 {
        let rest = benchmarks.drop_last();
        first_named_is_first(rest, id);
        assert forall|j: int| 0 <= j < rest.len() implies (#[trigger] benchmarks[j]) == rest[j] by {}
        match first_named(rest, id) {
            Some(i) => {
                assert(benchmarks[i] == rest[i]);
                assert forall|j: int| 0 <= j < i implies (#[trigger] benchmarks[j]).config.id@
                    != id by {
                    assert(rest[j].config.id@ != id);
                }
            },
            None => {
                assert forall|j: int|
                    0 <= j < rest.len() implies (#[trigger] benchmarks[j]).config.id@ != id by {
                    assert(rest[j].config.id@ != id);
                }
            },
        }
    }
}

/// What was due stays due: the schedule is not moved on when a benchmark has run.
pub proof fn due_stays_due(
    schedule: Seq<ScheduledRun>,
    benchmarks: Seq<Benchmark>,
    earlier_ns: int,
    later_ns: int,
    i: int,
)
    requires
        earlier_ns <= later_ns,
        due(schedule, benchmarks, earlier_ns).contains(i),
    ensures
        due(schedule, benchmarks, later_ns).contains(i),
    decreases schedule.len(),
{
    if schedule.len() > 0 {
        let rest = schedule.drop_last();
        let before = due(rest, benchmarks, earlier_ns);
        let after = due(rest, benchmarks, later_ns);
        let now = due(schedule, benchmarks, later_ns);
        if before.contains(i) {
            due_stays_due(rest, benchmarks, earlier_ns, later_ns, i);
            let k = choose|k: int| 0 <= k < after.len() && after[k] == i;
            assert(now[k] == i);
        } else {
            let d = due(schedule, benchmarks, earlier_ns);
            let k = choose|k: int| 0 <= k < d.len() && d[k] == i;
            if k < before.len() {
                assert(before[k] == i);
            } else {
                assert(now[now.len() - 1] == i);
            }
        }
    }
}

/// What a schedule holds is due from its time on, where the benchmark is known.
pub proof fn scheduled_benchmarks_become_due(
    schedule: Seq<ScheduledRun>,
    benchmarks: Seq<Benchmark>,
    now_ns: int,
    k: int,
)
    requires
        0 <= k < schedule.len(),
        schedule[k].next_run_ns <= now_ns,
        first_named(benchmarks, schedule[k].benchmark_id@) is Some,
    ensures
        due(schedule, benchmarks, now_ns).contains(
            first_named(benchmarks, schedule[k].benchmark_id@)->0,
        ),
    decreases schedule.len(),
{
    let i = first_named(benchmarks, schedule[k].benchmark_id@)->0;
    let d = due(schedule, benchmarks, now_ns);
    if k == schedule.len() - 1 {
        assert(d[d.len() - 1] == i);
    } else {
        let rest = schedule.drop_last();
        assert(rest[k] == schedule[k]);
        scheduled_benchmarks_become_due(rest, benchmarks, now_ns, k);
        let before = due(rest, benchmarks, now_ns);
        let j = choose|j: int| 0 <= j < before.len() && before[j] == i;
        assert(d[j] == i);
    }
}

} // verus!
