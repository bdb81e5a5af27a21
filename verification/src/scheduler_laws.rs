//! What a round of benchmarks gives back, and which benchmarks are due.

use crate::agent::{are_judgements, with_results, BenchmarkResult};
use crate::benchmark::Benchmark;
use crate::detector::History;
use crate::scheduler::{are_judged, due, first_named, results_of, successes};
use crate::scheduler::{JudgedResult, ScheduledRun};
use vstd::prelude::*;

verus! {

/// The results of a round are the outcomes that are not failures, in their order.
pub proof fn successes_are_the_results(outcomes: Seq<Option<BenchmarkResult>>)
    ensures
        successes(outcomes) == outcomes.filter(|o: Option<BenchmarkResult>| o is Some).map_values(
            |o: Option<BenchmarkResult>| o->Some_0,
        ),
    decreases outcomes.len(),
{
    reveal(Seq::filter);
    let kept = |o: Option<BenchmarkResult>| o is Some;
    let value = |o: Option<BenchmarkResult>| o->Some_0;
    if outcomes.len() > 0 {
        successes_are_the_results(outcomes.drop_last());
    }
    assert(successes(outcomes) =~= outcomes.filter(kept).map_values(value));
}

/// A round gives back every outcome that is not a failure, once and in its order: as many
/// as there are, each of them is there, and a round that goes on adds its own at the end.
pub proof fn rounds_keep_every_success(
    v: Seq<JudgedResult>,
    outcomes: Seq<Option<BenchmarkResult>>,
    i: int,
)
    requires
        results_of(v) == successes(outcomes),
        0 <= i < outcomes.len(),
        outcomes[i] is Some,
    ensures
        v.len() == outcomes.filter(|o: Option<BenchmarkResult>| o is Some).len(),
        v[outcomes.take(i).filter(|o: Option<BenchmarkResult>| o is Some).len() as int].result
            == outcomes[i]->Some_0,
{
    let kept = |o: Option<BenchmarkResult>| o is Some;
    reveal(Seq::filter);
    successes_are_the_results(outcomes);
    let k = outcomes.take(i).filter(kept).len() as int;
    let front = outcomes.take(i + 1);
    assert(front.drop_last() =~= outcomes.take(i));
    assert(front.last() == outcomes[i]);
    assert(front.filter(kept)[k] == outcomes[i]);
    assert(outcomes =~= front + outcomes.skip(i + 1));
    Seq::filter_distributes_over_add(front, outcomes.skip(i + 1), kept);
    assert(outcomes.filter(kept)[k] == outcomes[i]);
    assert(results_of(v).len() == v.len());
    assert(results_of(v)[k] == v[k].result);
}

/// Each result of a round is judged once those before it, and no others, are in the
/// histories.
pub proof fn rounds_are_judged_in_order(
    v: Seq<JudgedResult>,
    m: Map<Seq<char>, History>,
    threshold: int,
    needed: int,
    i: int,
)
    requires
        are_judged(v, m, threshold, needed),
        0 <= i < v.len(),
    ensures
        are_judgements(
            v[i].judgements@,
            v[i].result,
            with_results(m, Seq::new(i as nat, |j: int| v[j].result), needed),
            threshold,
            needed,
        ),
{
    assert(results_of(v).take(i) =~= Seq::new(i as nat, |j: int| v[j].result));
}

/// The benchmarks that are due are those of the entries whose time has come and whose name
/// is known, in the order of the schedule.
pub proof fn due_benchmarks_are_due(
    schedule: Seq<ScheduledRun>,
    benchmarks: Seq<Benchmark>,
    now_ns: int,
)
    ensures
        due(schedule, benchmarks, now_ns) == schedule.filter(
            |e: ScheduledRun|
                e.next_run_ns <= now_ns && first_named(benchmarks, e.benchmark_id@) is Some,
        ).map_values(|e: ScheduledRun| first_named(benchmarks, e.benchmark_id@)->Some_0),
    decreases schedule.len(),
{
    reveal(Seq::filter);
    let ready = |e: ScheduledRun|
        e.next_run_ns <= now_ns && first_named(benchmarks, e.benchmark_id@) is Some;
    let place = |e: ScheduledRun| first_named(benchmarks, e.benchmark_id@)->Some_0;
    if schedule.len() > 0 {
        due_benchmarks_are_due(schedule.drop_last(), benchmarks, now_ns);
    }
    assert(due(schedule, benchmarks, now_ns) =~= schedule.filter(ready).map_values(place));
}

} // verus!
