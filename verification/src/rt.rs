//! The scheduling decisions of the multi-threaded executor: how a worker backs off
//! when it finds no work, how it searches for work, where a woken task goes, and
//! how the set of worker threads grows and shrinks.

use vstd::prelude::*;

verus! {

/// Consecutive misses after which a worker stops yielding and starts sleeping.
pub const YIELDS: u32 = 3;

/// Further consecutive misses after which a worker stops sleeping and makes its
/// final check before it blocks on the reactor.
pub const SLEEPS: u32 = 10;

/// Consecutive runs after which a worker polls the reactor, takes from the global
/// queue and flushes its slot, so that no task is left behind.
pub const RUNS: u32 = 64;

/// Whether `s` is one or more ASCII decimal digits.
pub open spec fn is_decimal(s: Seq<char>) -> bool {
    &&& s.len() > 0
    &&& forall|i: int| 0 <= i < s.len() ==> '0' <= #[trigger] s[i] <= '9'
}

/// The number that the decimal digits `s` spell.
pub open spec fn decimal_value(s: Seq<char>) -> int
    decreases s.len(),
{
    if s.len() == 0 {
        0
    } else {
        decimal_value(s.drop_last()) * 10 + (s.last() as int - '0' as int)
    }
}

/// What parsing `s` as a `usize` gives: an optional `+` followed by decimal
/// digits whose value fits, and nothing else.
pub open spec fn parsed_usize(s: Seq<char>) -> Option<usize> {
    let digits = if s.len() > 0 && s[0] == '+' {
        s.drop_first()
    } else {
        s
    };
    if is_decimal(digits) && decimal_value(digits) <= usize::MAX {
        Some(decimal_value(digits) as usize)
    } else {
        None
    }
}

/// Calls `str::parse::<usize>`, which std documents as accepting an optional `+`
/// followed by decimal digits, and failing on anything else (whitespace included)
/// and on a value that does not fit.
#[verifier::external_body]
fn parse_usize(s: &str) -> (r: Option<usize>)
    ensures
        r == parsed_usize(s@),
{
    s.parse::<usize>().ok()
}

/// The number of worker threads the executor starts: the number that `setting`
/// spells, or the number of CPUs `cpus` when there is no setting, and at least
/// one. `None` when the setting is not a number, which the executor refuses.
pub fn thread_count(setting: Option<&str>, cpus: usize) -> (n: Option<usize>)
    ensures
        ({
            let chosen = match setting {
                None => Some(cpus),
                Some(s) => parsed_usize(s@),
            };
            match chosen {
                None => n.is_none(),
                Some(c) => n == Some(if c >= 1 { c } else { 1 }),
            }
        }),
{
    let chosen = match setting {
        None => Some(cpus),
        Some(s) => parse_usize(s),
    };
    match chosen {
        None => None,
        Some(c) => Some(if c >= 1 { c } else { 1 }),
    }
}

/// The order in which a worker tries the other workers' queues: all `len` of them,
/// from `start` to the end and then from the beginning up to `start`.
pub fn steal_order(len: usize, start: usize) -> (order: Vec<usize>)
    requires
        start <= len,
    ensures
        order@.len() == len,
        forall|k: int|
            0 <= k < len ==> #[trigger] order@[k] == if start + k < len {
                start + k
            } else {
                start + k - len
            },
{
    let mut order: Vec<usize> = Vec::new();
    let mut i: usize = start;
    while i < len
        invariant
            start <= i <= len,
            order@.len() == i - start,
            forall|k: int| 0 <= k < order@.len() ==> #[trigger] order@[k] == start + k,
        decreases len - i,
    {
        order.push(i);
        i = i + 1;
    }
    let mut j: usize = 0;
    while j < start
        invariant
            j <= start <= len,
            order@.len() == len - start + j,
            forall|k: int|
                0 <= k < order@.len() ==> #[trigger] order@[k] == if start + k < len {
                    start + k
                } else {
                    start + k - len
                },
        decreases start - j,
    {
        order.push(j);
        j = j + 1;
    }
    order
}

/// What an idle worker does after a search for work failed.
#[derive(Debug, Clone, Copy, PartialEq, Eq, Structural)]
pub enum IdleAction {
    /// Yield the thread and search again.
    Yield,
    /// Sleep briefly and search again.
    Sleep,
    /// Search once more, then block on the reactor unless another worker does.
    FinalCheck,
}

/// A worker's counts of runs in a row with work and of searches in a row without.
#[derive(Debug)]
pub struct Backoff {
    runs: u32,
    fails: u32,
}

impl Backoff {
    /// Runs in a row that found a task.
    pub closed spec fn runs(&self) -> nat {
        self.runs as nat
    }

    /// Searches in a row that found none; it stays at `u32::MAX` once there.
    pub closed spec fn fails(&self) -> nat {
        self.fails as nat
    }

    /// Both counts at zero.
    pub fn new() -> (b: Backoff)
        ensures
            b.runs() == 0,
            b.fails() == 0,
    {
        Backoff { runs: 0, fails: 0 }
    }

    /// Whether the periodic upkeep is due at the start of a round: it is after
    /// `RUNS` runs in a row, and the count of runs then starts over.
    pub fn upkeep_due(&mut self) -> (due: bool)
        ensures
            due == (old(self).runs() >= RUNS),
            due ==> final(self).runs() == 0,
            !due ==> final(self).runs() == old(self).runs(),
            final(self).runs() < RUNS,
            final(self).fails() == old(self).fails(),
    {
        if self.runs >= RUNS {
            self.runs = 0;
            true
        } else {
            false
        }
    }

    /// Takes in that a task was found and run.
    pub fn found(&mut self)
        requires
            old(self).runs() < RUNS,
        ensures
            final(self).runs() == old(self).runs() + 1,
            final(self).fails() == 0,
    {
        self.runs = self.runs + 1;
        self.fails = 0;
    }

    /// Takes in that no task was found, and says what to do: yield for the first
    /// `YIELDS` misses in a row, sleep for the next `SLEEPS`, then make the final
    /// check.
    pub fn missed(&mut self) -> (act: IdleAction)
        ensures
            final(self).runs() == old(self).runs(),
            final(self).fails() == if old(self).fails() < u32::MAX {
                old(self).fails() + 1
            } else {
                old(self).fails()
            },
            act == if final(self).fails() <= YIELDS {
                IdleAction::Yield
            } else if final(self).fails() <= YIELDS + SLEEPS {
                IdleAction::Sleep
            } else {
                IdleAction::FinalCheck
            },
    {
        self.fails = self.fails.saturating_add(1);
        if self.fails <= YIELDS {
            IdleAction::Yield
        } else if self.fails <= YIELDS + SLEEPS {
            IdleAction::Sleep
        } else {
            IdleAction::FinalCheck
        }
    }

    /// Takes in that this worker blocked on the reactor: both counts start over.
    pub fn polled(&mut self)
        ensures
            final(self).runs() == 0,
            final(self).fails() == 0,
    {
        self.runs = 0;
        self.fails = 0;
    }
}

/// What one attempt to take a task from a queue came back with.
#[derive(Debug, Clone, Copy, PartialEq, Eq, Structural)]
pub enum StealOutcome {
    /// The queue was empty.
    Empty,
    /// A task was taken.
    Success,
    /// The attempt lost a race and may succeed if repeated.
    Retry,
}

/// The place a search for a task looks next.
#[derive(Debug, Clone, Copy, PartialEq, Eq, Structural)]
pub enum SearchStep {
    /// The worker's own slot and queue.
    PopLocal,
    /// The global queue.
    StealGlobal,
    /// The reactor, polled without blocking.
    PollReactor,
    /// The worker's own slot and queue again, after the reactor woke tasks.
    PopLocalAgain,
    /// The other workers' queues.
    StealOthers,
    /// Nowhere: the search is over.
    Done,
}

/// How a search for a task ended.
#[derive(Debug, Clone, Copy, PartialEq, Eq, Structural)]
pub enum SearchResult {
    /// A task was found.
    Found,
    /// None was found, but an attempt lost a race.
    Retry,
    /// None was found.
    Empty,
}

/// A worker's search for a task, one place at a time.
#[derive(Debug)]
pub struct TaskSearch {
    step: SearchStep,
    retry: bool,
}

impl TaskSearch {
    /// Where the search looks next.
    pub closed spec fn at(&self) -> SearchStep {
        self.step
    }

    /// Whether an attempt so far lost a race.
    pub closed spec fn saw_retry(&self) -> bool {
        self.retry
    }

    /// A search that starts with the worker's own slot and queue.
    pub fn new() -> (s: TaskSearch)
        ensures
            s.at() == SearchStep::PopLocal,
            !s.saw_retry(),
    {
        TaskSearch { step: SearchStep::PopLocal, retry: false }
    }

    /// Where the search looks next.
    pub fn step(&self) -> (s: SearchStep)
        ensures
            s == self.at(),
    {
        self.step
    }

    /// The result of a search that is over.
    fn result(&self) -> (r: SearchResult)
        ensures
            r == if self.saw_retry() {
                SearchResult::Retry
            } else {
                SearchResult::Empty
            },
    {
        if self.retry {
            SearchResult::Retry
        } else {
            SearchResult::Empty
        }
    }

    /// Takes in whether the worker's own slot or queue gave a task. A task ends the
    /// search; otherwise the first look goes on to the global queue, and the second
    /// to the other workers' queues.
    pub fn record_pop(&mut self, found: bool) -> (r: Option<SearchResult>)
        requires
            old(self).at() == SearchStep::PopLocal || old(self).at() == SearchStep::PopLocalAgain,
        ensures
            final(self).saw_retry() == old(self).saw_retry(),
            found ==> r == Some(SearchResult::Found) && final(self).at() == SearchStep::Done,
            !found ==> r.is_none() && final(self).at() == if old(self).at()
                == SearchStep::PopLocal {
                SearchStep::StealGlobal
            } else {
                SearchStep::StealOthers
            },
    {
        if found {
            self.step = SearchStep::Done;
            Some(SearchResult::Found)
        } else {
            match self.step {
                SearchStep::PopLocal => {
                    self.step = SearchStep::StealGlobal;
                },
                _ => {
                    self.step = SearchStep::StealOthers;
                },
            }
            None
        }
    }

    /// Takes in what taking from the global queue, or from the other workers'
    /// queues, came back with. A task ends the search; a lost race is noted. After
    /// the global queue comes the reactor; after the other queues the search is
    /// over, with `Retry` if any attempt lost a race and `Empty` otherwise.
    pub fn record_steal(&mut self, outcome: StealOutcome) -> (r: Option<SearchResult>)
        requires
            old(self).at() == SearchStep::StealGlobal || old(self).at() == SearchStep::StealOthers,
        ensures
            final(self).saw_retry() == (old(self).saw_retry() || outcome == StealOutcome::Retry),
            outcome == StealOutcome::Success ==> r == Some(SearchResult::Found) && final(self).at()
                == SearchStep::Done,
            outcome != StealOutcome::Success && old(self).at() == SearchStep::StealGlobal ==> r.is_none()
                && final(self).at() == SearchStep::PollReactor,
            outcome != StealOutcome::Success && old(self).at() == SearchStep::StealOthers
                ==> final(self).at() == SearchStep::Done && r == Some(
                if final(self).saw_retry() {
                    SearchResult::Retry
                } else {
                    SearchResult::Empty
                },
            ),
    {
        match outcome {
            StealOutcome::Success => {
                self.step = SearchStep::Done;
                return Some(SearchResult::Found);
            },
            StealOutcome::Retry => {
                self.retry = true;
            },
            StealOutcome::Empty => {},
        }
        match self.step {
            SearchStep::StealGlobal => {
                self.step = SearchStep::PollReactor;
                None
            },
            _ => {
                self.step = SearchStep::Done;
                Some(self.result())
            },
        }
    }

    /// Takes in whether polling the reactor made progress: if it did, the worker's
    /// own queue is looked at again, since woken tasks land there; if not, the
    /// search goes on to the other workers' queues.
    pub fn record_poll(&mut self, progress: bool)
        requires
            old(self).at() == SearchStep::PollReactor,
        ensures
            final(self).saw_retry() == old(self).saw_retry(),
            final(self).at() == if progress {
                SearchStep::PopLocalAgain
            } else {
                SearchStep::StealOthers
            },
    {
        if progress {
            self.step = SearchStep::PopLocalAgain;
        } else {
            self.step = SearchStep::StealOthers;
        }
    }
}

/// What an idle worker does after its final search for a task.
#[derive(Debug, Clone, Copy, PartialEq, Eq, Structural)]
pub enum FinalStep {
    /// The search lost a race: search again.
    SearchAgain,
    /// A task was found: schedule it on this worker and go on.
    Schedule,
    /// Another worker is blocked on the reactor: sleep briefly and go on.
    Sleep,
    /// Block on the reactor, marking that a worker is blocked on it.
    Block,
}

/// The step after the final search came back with `result`, where
/// `another_polling` says whether another worker is blocked on the reactor (which
/// matters only when nothing was found): a lost race repeats the search, a task is
/// scheduled, and otherwise the worker sleeps if another one already blocks and
/// blocks itself if none does.
pub fn final_step(result: SearchResult, another_polling: bool) -> (step: FinalStep)
    ensures
        step == match result {
            SearchResult::Retry => FinalStep::SearchAgain,
            SearchResult::Found => FinalStep::Schedule,
            SearchResult::Empty => if another_polling {
                FinalStep::Sleep
            } else {
                FinalStep::Block
            },
        },
{
    match result {
        SearchResult::Retry => FinalStep::SearchAgain,
        SearchResult::Found => FinalStep::Schedule,
        SearchResult::Empty => {
            if another_polling {
                FinalStep::Sleep
            } else {
                FinalStep::Block
            }
        },
    }
}

/// The one-task slot in front of a worker's queue: a newly scheduled task takes the
/// slot, and the one it displaces goes to the queue.
#[derive(Debug)]
pub struct Slot<T> {
    task: Option<T>,
}

impl<T> Slot<T> {
    /// The task in the slot.
    pub closed spec fn held(&self) -> Option<T> {
        self.task
    }

    /// An empty slot.
    pub fn new() -> (s: Slot<T>)
        ensures
            s.held().is_none(),
    {
        Slot { task: None }
    }

    /// Puts `task` in the slot; returns the task it displaces, which goes to the
    /// worker's queue (and other workers are notified).
    pub fn schedule(&mut self, task: T) -> (displaced: Option<T>)
        ensures
            final(self).held() == Some(task),
            displaced == old(self).held(),
    {
        let mut t = Some(task);
        std::mem::swap(&mut self.task, &mut t);
        t
    }

    /// Empties the slot; returns its task, which goes to the worker's queue.
    pub fn flush(&mut self) -> (flushed: Option<T>)
        ensures
            final(self).held().is_none(),
            flushed == old(self).held(),
    {
        let mut t = None;
        std::mem::swap(&mut self.task, &mut t);
        t
    }
}

/// Where a task that becomes runnable goes.
#[derive(Debug, Clone, Copy, PartialEq, Eq, Structural)]
pub enum Route {
    /// The current worker's slot.
    Local,
    /// The global queue; a thread that is not a worker then notifies the workers.
    Global,
}

/// Where a task scheduled from the current thread goes: to the current worker, if
/// the thread is a worker that still takes tasks; else to the global queue.
pub fn route_task(on_worker: bool, drained: bool) -> (r: Route)
    ensures
        r == if on_worker && !drained {
            Route::Local
        } else {
            Route::Global
        },
{
    if on_worker && !drained {
        Route::Local
    } else {
        Route::Global
    }
}

/// The worker threads that are running, each with its handle and id, the counter
/// that ids come from, and how many workers have been asked to stop and have not
/// stopped yet.
#[derive(Debug)]
pub struct Registry<S> {
    workers: Vec<(S, usize)>,
    counter: usize,
    min_worker: usize,
    exiting: usize,
}

impl<S> Registry<S> {
    /// The ids of the running workers, in the order they started.
    pub closed spec fn ids(&self) -> Seq<usize> {
        self.workers@.map_values(|w: (S, usize)| w.1)
    }

    /// The handles of the running workers, in the order they started.
    pub closed spec fn handles(&self) -> Seq<S> {
        self.workers@.map_values(|w: (S, usize)| w.0)
    }

    /// The id the next worker gets.
    pub closed spec fn next_id(&self) -> usize {
        self.counter
    }

    /// The number of workers below which the pool does not shrink.
    pub closed spec fn min_workers(&self) -> usize {
        self.min_worker
    }

    /// The workers asked to stop that have not stopped yet.
    pub closed spec fn exiting(&self) -> nat {
        self.exiting as nat
    }

    /// The workers that stay once every worker asked to stop has stopped are at
    /// least the minimum (or none was asked to stop).
    pub open spec fn exits_leave_minimum(&self) -> bool {
        self.exiting() == 0 || self.ids().len() >= self.min_workers() + self.exiting()
    }

    /// No workers yet; the pool keeps at least `min_worker` of them.
    pub fn new(min_worker: usize) -> (r: Registry<S>)
        ensures
            r.ids().len() == 0,
            r.handles().len() == 0,
            r.next_id() == 0,
            r.min_workers() == min_worker,
            r.exiting() == 0,
    {
        let r = Registry { workers: Vec::new(), counter: 0, min_worker, exiting: 0 };
        assert(r.ids() =~= Seq::<usize>::empty());
        assert(r.handles() =~= Seq::<S>::empty());
        r
    }

    /// The handle of the `i`-th running worker.
    pub fn handle(&self, i: usize) -> (h: &S)
        requires
            i < self.ids().len(),
        ensures
            *h == self.handles()[i as int],
    {
        &self.workers[i].0
    }

    /// The number of running workers.
    pub fn len(&self) -> (n: usize)
        ensures
            n == self.ids().len(),
            n == self.handles().len(),
    {
        self.workers.len()
    }

    /// Adds a worker with handle `handle`; returns its id, taken from the counter,
    /// which moves on (wrapping around, as an atomic counter does).
    pub fn register(&mut self, handle: S) -> (id: usize)
        ensures
            id == old(self).next_id(),
            final(self).ids() == old(self).ids().push(id),
            final(self).handles() == old(self).handles().push(handle),
            final(self).next_id() == old(self).next_id().wrapping_add(1),
            final(self).min_workers() == old(self).min_workers(),
            final(self).exiting() == old(self).exiting(),
            old(self).exits_leave_minimum() ==> final(self).exits_leave_minimum(),
    {
        let id = self.counter;
        self.counter = self.counter.wrapping_add(1);
        let ghost h = handle;
        self.workers.push((handle, id));
        assert(self.ids() =~= old(self).ids().push(id));
        assert(self.handles() =~= old(self).handles().push(h));
        id
    }

    /// Removes the worker with id `id`, which stopped because it was asked to, if
    /// there is one: one fewer worker is then still to stop. Returns whether that
    /// left no worker running, in which case the executor terminates.
    pub fn deregister(&mut self, id: usize) -> (terminate: bool)
        ensures
            final(self).next_id() == old(self).next_id(),
            final(self).min_workers() == old(self).min_workers(),
            final(self).exiting() == if old(self).ids().contains(id) && old(self).exiting() > 0 {
                old(self).exiting() - 1
            } else {
                old(self).exiting() as int
            },
            old(self).exits_leave_minimum() && (old(self).exiting() > 0 || !old(self).ids().contains(
                id,
            )) ==> final(self).exits_leave_minimum(),
            !old(self).ids().contains(id) ==> final(self).ids() == old(self).ids()
                && final(self).handles() == old(self).handles() && !terminate,
            old(self).ids().contains(id) ==> exists|i: int|
                {
                    &&& 0 <= i < old(self).ids().len()
                    &&& old(self).ids()[i] == id
                    &&& forall|j: int| 0 <= j < i ==> old(self).ids()[j] != id
                    &&& final(self).ids() == old(self).ids().remove(i)
                    &&& final(self).handles() == old(self).handles().remove(i)
                    &&& terminate == (final(self).ids().len() == 0)
                },
    {
        let mut i: usize = 0;
        while i < self.workers.len()
            invariant
                i <= self.workers@.len(),
                self.workers@ == old(self).workers@,
                self.counter == old(self).counter,
                self.min_worker == old(self).min_worker,
                self.exiting == old(self).exiting,
                forall|j: int| 0 <= j < i ==> self.ids()[j] != id,
            decreases self.workers@.len() - i,
        {
            if self.workers[i].1 == id {
                proof {
                    assert(self.ids()[i as int] == id);
                }
                let _ = self.workers.remove(i);
                if self.exiting > 0 {
                    self.exiting = self.exiting - 1;
                }
                assert(self.ids() =~= old(self).ids().remove(i as int));
                assert(self.handles() =~= old(self).handles().remove(i as int));
                return self.workers.len() == 0;
            }
            i = i + 1;
        }
        proof {
            assert(self.handles() =~= old(self).handles());
            assert forall|j: int| 0 <= j < old(self).ids().len() implies old(self).ids()[j] != id by {
                assert(self.ids()[j] != id);
            }
        }
        false
    }

    /// Asks one worker to stop, if the pool stays above its minimum once every
    /// worker asked so far has stopped: returns whether it did.
    pub fn request_scale_down(&mut self) -> (asked: bool)
        ensures
            asked == (old(self).ids().len() > old(self).min_workers() + old(self).exiting()),
            final(self).exiting() == if asked {
                old(self).exiting() + 1
            } else {
                old(self).exiting()
            },
            final(self).ids() == old(self).ids(),
            final(self).handles() == old(self).handles(),
            final(self).next_id() == old(self).next_id(),
            final(self).min_workers() == old(self).min_workers(),
            asked || old(self).exits_leave_minimum() ==> final(self).exits_leave_minimum(),
    {
        if self.min_worker < self.workers.len() && self.exiting < self.workers.len() - self.min_worker {
            self.exiting = self.exiting + 1;
            true
        } else {
            false
        }
    }
}


/// Removing the worker that was just added, by the id it was given, leaves the
/// running workers as they were, provided that id was not already in use.
pub proof fn deregister_undoes_register(ids: Seq<usize>, id: usize)
    requires
        !ids.contains(id),
    ensures
        ids.push(id).contains(id),
        forall|i: int|
            0 <= i < ids.push(id).len() && ids.push(id)[i] == id && (forall|j: int|
                0 <= j < i ==> ids.push(id)[j] != id) ==> ids.push(id).remove(i) == ids,
{
    let after = ids.push(id);
    assert(after[ids.len() as int] == id);
    assert forall|i: int|
        0 <= i < after.len() && after[i] == id && (forall|j: int| 0 <= j < i ==> after[j] != id) implies after.remove(
        i,
    ) == ids by {
        if i < ids.len() {
            assert(ids[i] == id);
            assert(ids.contains(id));
        }
        assert(after.remove(i) =~= ids);
    }
}

/// The ids `ids` of the running workers are in increasing order, and all below
/// `next`, the id the next worker gets.
pub open spec fn ids_fresh(ids: Seq<usize>, next: usize) -> bool {
    &&& forall|i: int, j: int| 0 <= i < j < ids.len() ==> ids[i] < ids[j]
    &&& forall|i: int| 0 <= i < ids.len() ==> ids[i] < next
}

/// Worker ids stay distinct: while they are in order below the counter, no running
/// worker has the id that the next registration hands out, so removing that worker
/// by its id undoes the registration; a registration that does not wrap the
/// counter around, and any removal, keep them so. A registry starts with no ids.
pub proof fn registered_ids_stay_distinct(ids: Seq<usize>, next: usize, i: int)
    requires
        ids_fresh(ids, next),
    ensures
        !ids.contains(next),
        ids.no_duplicates(),
        next < usize::MAX ==> ids_fresh(ids.push(next), (next + 1) as usize),
        0 <= i < ids.len() ==> ids_fresh(ids.remove(i), next),
        ids_fresh(Seq::<usize>::empty(), 0),
{
    assert forall|a: int, b: int| 0 <= a < ids.len() && 0 <= b < ids.len() && a != b implies ids[a]
        != ids[b] by {
        if a < b {
            assert(ids[a] < ids[b]);
        } else {
            assert(ids[b] < ids[a]);
        }
    }
    if next < usize::MAX {
        let after = ids.push(next);
        assert forall|a: int, b: int| 0 <= a < b < after.len() implies after[a] < after[b] by {
            if b < ids.len() {
                assert(after[a] == ids[a] && after[b] == ids[b]);
            } else {
                assert(after[a] == ids[a]);
            }
        }
    }
    if 0 <= i < ids.len() {
        let after = ids.remove(i);
        assert forall|a: int, b: int| 0 <= a < b < after.len() implies after[a] < after[b] by {
            let a0 = if a < i { a } else { a + 1 };
            let b0 = if b < i { b } else { b + 1 };
            assert(after[a] == ids[a0] && after[b] == ids[b0]);
        }
        assert forall|a: int| 0 <= a < after.len() implies after[a] < next by {
            let a0 = if a < i { a } else { a + 1 };
            assert(after[a] == ids[a0]);
        }
    }
}

/// Decimal digits are read in positional notation with base ten: one digit is
/// worth itself, and digits `a` followed by digits `b` are worth `a` times ten to
/// the number of digits of `b`, plus `b`; so parsing the digits `d` followed by a
/// digit `c` gives ten times what `d` gives, plus `c`.
pub proof fn decimal_is_base_ten(a: Seq<char>, b: Seq<char>, c: char)
    requires
        '0' <= c <= '9',
    ensures
        decimal_value(Seq::<char>::empty()) == 0,
        decimal_value(seq![c]) == c as int - '0' as int,
        decimal_value(a.push(c)) == 10 * decimal_value(a) + (c as int - '0' as int),
        decimal_value(a + b) == decimal_value(a) * vstd::arithmetic::power::pow(10, b.len())
            + decimal_value(b),
    decreases b.len(),
{
    assert(seq![c].drop_last() =~= Seq::<char>::empty());
    assert(a.push(c).drop_last() =~= a);
    vstd::arithmetic::power::lemma_pow0(10);
    if b.len() == 0 {
        assert(a + b =~= a);
    } else {
        let b0 = b.drop_last();
        decimal_is_base_ten(a, b0, c);
        assert((a + b).drop_last() =~= a + b0);
        assert((a + b).last() == b.last());
        let p0 = vstd::arithmetic::power::pow(10, b0.len());
        assert(vstd::arithmetic::power::pow(10, b.len()) == 10 * p0) by {
            reveal(vstd::arithmetic::power::pow);
        }
        let va = decimal_value(a);
        let vb0 = decimal_value(b0);
        let d = b.last() as int - '0' as int;
        assert((va * p0 + vb0) * 10 + d == va * (10 * p0) + (vb0 * 10 + d)) by (nonlinear_arith);
    }
}

/// A setting is read as a decimal number: digits `d` (possibly none) followed by a
/// digit `c` parse to ten times the value of `d`, plus `c`, when that fits.
pub proof fn thread_count_reads_decimal(d: Seq<char>, c: char)
    requires
        '0' <= c <= '9',
        forall|i: int| 0 <= i < d.len() ==> '0' <= #[trigger] d[i] <= '9',
        10 * decimal_value(d) + (c as int - '0' as int) <= usize::MAX,
    ensures
        parsed_usize(d.push(c)) == Some((10 * decimal_value(d) + (c as int - '0' as int)) as usize),
{
    decimal_is_base_ten(d, Seq::<char>::empty(), c);
    let s = d.push(c);
    assert(s.len() > 0);
    if d.len() > 0 {
        assert(s[0] == d[0]);
        assert('0' <= d[0] <= '9');
    } else {
        assert(s[0] == c);
    }
    assert forall|i: int| 0 <= i < s.len() implies '0' <= #[trigger] s[i] <= '9' by {
        if i < d.len() {
            assert(s[i] == d[i]);
        }
    }
}

} // verus!
