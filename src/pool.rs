//! The task protocol between the producer and the worker pool: every file
//! task is queued first, then one shutdown task per worker; each worker takes
//! tasks until it takes a shutdown.
use vstd::prelude::*;
use vstd::set_lib::{lemma_int_range, lemma_map_size, lemma_subset_equality, set_int_range};

verus! {

/// A unit of work handed to a worker.
#[derive(Debug, PartialEq, Eq)]
pub enum Work {
    /// Rewrite the file at this path.
    File(String),
    /// Stop: the worker that takes it takes nothing more.
    Quit,
}

/// The outcome of one attempt to take a task from the shared queue.
#[derive(Debug)]
pub enum Stolen {
    /// No task is available at the moment.
    Empty,
    /// Another worker took the task first; try again.
    Abort,
    /// A task, which no other worker receives.
    Data(Work),
}

/// What a worker does after one attempt to take a task.
#[derive(Debug, PartialEq, Eq)]
pub enum Action {
    /// Try to take a task again.
    Retry,
    /// Rewrite the file at this path, then try again.
    Rewrite(String),
    /// Leave the loop.
    Stop,
}

/// A worker's decision on the outcome of one attempt to take a task.
pub fn next_action(outcome: Stolen) -> (r: Action)
    ensures
        match outcome {
            Stolen::Empty => r is Retry,
            Stolen::Abort => r is Retry,
            Stolen::Data(Work::File(p)) => r == Action::Rewrite(p),
            Stolen::Data(Work::Quit) => r is Stop,
        },
{
    match outcome {
        Stolen::Empty | Stolen::Abort => Action::Retry,
        Stolen::Data(Work::File(p)) => Action::Rewrite(p),
        Stolen::Data(Work::Quit) => Action::Stop,
    }
}

/// The queue of a run: a file task per path, in order, then `workers` shutdowns.
pub open spec fn plan(paths: Seq<String>, workers: nat) -> Seq<Work> {
    paths.map_values(|p: String| Work::File(p)) + Seq::new(workers, |i: int| Work::Quit)
}

/// Builds the queue of a run over `paths` with `workers` workers.
pub fn plan_tasks(paths: Vec<String>, workers: usize) -> (r: Vec<Work>)
    ensures
        r@ == plan(paths@, workers as nat),
{
    let mut tasks: Vec<Work> = Vec::new();
    for i in 0..paths.len()
        invariant
            tasks@ == paths@.take(i as int).map_values(|p: String| Work::File(p)),
    {
        tasks.push(Work::File(paths[i].clone()));
        proof {
            assert(paths@.take(i + 1) == paths@.take(i as int).push(paths@[i as int]));
            assert(tasks@ == paths@.take(i + 1).map_values(|p: String| Work::File(p)));
        }
    }
    let ghost files = tasks@;
    for k in 0..workers
        invariant
            files == paths@.map_values(|p: String| Work::File(p)),
            tasks@ == files + Seq::new(k as nat, |i: int| Work::Quit),
    {
        tasks.push(Work::Quit);
        proof {
            assert(tasks@ == files + Seq::new((k + 1) as nat, |i: int| Work::Quit));
        }
    }
    proof {
        assert(paths@.take(paths@.len() as int) == paths@);
    }
    tasks
}

/// The paths of the file tasks, in queue order.
pub open spec fn files_of(tasks: Seq<Work>) -> Seq<String>
    decreases tasks.len(),
{
    if tasks.len() == 0 {
        seq![]
    } else {
        match tasks.last() {
            Work::File(p) => files_of(tasks.drop_last()).push(p),
            Work::Quit => files_of(tasks.drop_last()),
        }
    }
}

/// How many shutdown tasks the queue holds.
pub open spec fn quit_count(tasks: Seq<Work>) -> nat
    decreases tasks.len(),
{
    if tasks.len() == 0 {
        0
    } else {
        match tasks.last() {
            Work::File(_) => quit_count(tasks.drop_last()),
            Work::Quit => quit_count(tasks.drop_last()) + 1,
        }
    }
}

proof fn lemma_quits_only(w: nat)
    ensures
        files_of(Seq::new(w, |i: int| Work::Quit)).len() == 0,
        quit_count(Seq::new(w, |i: int| Work::Quit)) == w,
    decreases w,
{
    if w > 0 {
        let q = Seq::new(w, |i: int| Work::Quit);
        assert(q.drop_last() == Seq::new((w - 1) as nat, |i: int| Work::Quit));
        lemma_quits_only((w - 1) as nat);
    }
}

proof fn lemma_plan_counts(paths: Seq<String>, w: nat)
    ensures
        files_of(plan(paths, w)) == paths,
        quit_count(plan(paths, w)) == w,
    decreases paths.len() + w,
{
    if w > 0 {
        lemma_plan_counts(paths, (w - 1) as nat);
        assert(plan(paths, w).drop_last() == plan(paths, (w - 1) as nat));
    } else if paths.len() > 0 {
        lemma_plan_counts(paths.drop_last(), 0);
        assert(plan(paths, 0).drop_last() == plan(paths.drop_last(), 0));
        assert(paths.drop_last().push(paths.last()) == paths);
    } else {
        assert(plan(paths, 0).len() == 0);
    }
}

/// Every path that the source produced is queued once as a file task, in
/// its order, and nothing else is: the file tasks are exactly the paths.
/// The queue holds one shutdown per worker, and no file task comes after a
/// shutdown.
pub proof fn lemma_plan_coverage(paths: Seq<String>, workers: nat)
    ensures
        files_of(plan(paths, workers)) == paths,
        quit_count(plan(paths, workers)) == workers,
        plan(paths, workers).len() == paths.len() + workers,
        forall|i: int, j: int|
            0 <= i < j < plan(paths, workers).len() && (#[trigger] plan(paths, workers)[i]) is Quit
                ==> (#[trigger] plan(paths, workers)[j]) is Quit,
{
    lemma_plan_counts(paths, workers);
}

/// Worker `w` has taken a shutdown among the first `j` tasks.
pub open spec fn stopped_before(tasks: Seq<Work>, owner: Seq<int>, w: int, j: int) -> bool {
    exists|i: int| 0 <= i < j && owner[i] == w && (#[trigger] tasks[i]) is Quit
}

/// Worker `w` took a shutdown somewhere in the queue.
pub open spec fn took_shutdown(tasks: Seq<Work>, owner: Seq<int>, w: int) -> bool {
    exists|j: int| 0 <= j < owner.len() && owner[j] == w && (#[trigger] tasks[j]) is Quit
}

/// Whatever the interleaving, when the queue of a run with `workers` workers
/// is drained by those workers (`owner[j]` took the j-th task), and no worker
/// takes a task after its shutdown, then every worker takes exactly one
/// shutdown: the pool ends, and only once all its workers have left.
pub proof fn lemma_one_shutdown_per_worker(paths: Seq<String>, workers: nat, owner: Seq<int>)
    requires
        owner.len() == plan(paths, workers).len(),
        forall|j: int| 0 <= j < owner.len() ==> 0 <= #[trigger] owner[j] < workers,
        forall|j: int|
            0 <= j < owner.len() ==> !stopped_before(plan(paths, workers), owner, #[trigger] owner[j], j),
    ensures
        forall|w: int| 0 <= w < workers ==> #[trigger] took_shutdown(plan(paths, workers), owner, w),
        forall|i: int, j: int|
            0 <= i < j < owner.len() && owner[i] == owner[j] && (#[trigger] plan(paths, workers)[i]) is Quit
                ==> !((#[trigger] plan(paths, workers)[j]) is Quit),
{
    let tasks = plan(paths, workers);
    let n = paths.len() as int;
    let quits = set_int_range(n, n + workers);
    let all = set_int_range(0, workers as int);
    let f = |j: int| owner[j];
    lemma_int_range(n, n + workers);
    lemma_int_range(0, workers as int);
    assert forall|i: int, j: int|
        0 <= i < j < owner.len() && owner[i] == owner[j] && (#[trigger] tasks[i]) is Quit
            implies !((#[trigger] tasks[j]) is Quit) by {
        assert(stopped_before(tasks, owner, owner[j], j));
    }
    assert forall|a: int, b: int| quits.contains(a) && quits.contains(b) && #[trigger] f(a) == #[trigger] f(b)
        implies a == b by {
        assert(tasks[a] is Quit && tasks[b] is Quit);
        if a < b {
            assert(stopped_before(tasks, owner, owner[b], b));
        } else if b < a {
            assert(stopped_before(tasks, owner, owner[a], a));
        }
    }
    let taken = quits.map(f);
    lemma_map_size(quits, taken, f);
    assert(taken.subset_of(all));
    lemma_subset_equality(taken, all);
    assert forall|w: int| 0 <= w < workers implies #[trigger] took_shutdown(tasks, owner, w) by {
        assert(all.contains(w));
        assert(taken.contains(w));
        let j = choose|j: int| quits.contains(j) && f(j) == w;
        assert(tasks[j] is Quit);
    }
}

} // verus!
