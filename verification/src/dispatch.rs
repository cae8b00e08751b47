//! The life cycle of the workers of one run.
//!
//! A run starts a fixed number of workers. Each asks for admission until
//! it is let in, performs its one request, gives its admission back and
//! leaves its outcome. The [`Dispatcher`] keeps the admission gate and the
//! phase of every worker, and decides each step; starting threads,
//! sleeping and talking to the network are left to the caller, who holds
//! the dispatcher behind a lock and reports what happened.

use crate::admission::Admission;
use crate::config::Config;
use crate::request::{outcome, outcome_of};
use vstd::prelude::*;
use vstd::seq_lib::*;

verus! {

/// How long a worker that was not let in waits before it asks again.
pub const POLL_INTERVAL_MS: u64 = 10;

/// Where a worker stands. A worker only ever moves down this list.
#[derive(Debug)]
pub enum Phase {
    /// Started, and has not asked for admission yet.
    Created,
    /// Has asked for admission and was told to wait.
    AwaitingAdmission,
    /// Holds admission; its request is under way.
    Executing,
    /// Done, with the outcome of its request.
    Completed(Result<u128, String>),
}

/// What a worker that asked for admission is to do next.
#[derive(Debug, Clone, Copy, PartialEq, Eq, Structural)]
pub enum Step {
    /// Sleep for this many milliseconds, then ask again.
    Wait(u64),
    /// Perform the request now.
    Execute,
}

/// Something that a worker reports to the dispatcher.
pub enum Event {
    /// The worker with this number asks for admission.
    Poll(int),
    /// The worker with this number has finished its request with this outcome.
    Complete(int, Result<u128, String>),
}

/// The number of workers whose request is under way.
pub open spec fn executing(phases: Seq<Phase>) -> nat {
    phases.to_multiset().count(Phase::Executing)
}

/// What a worker in this phase adds to the number of requests under way.
pub open spec fn under_way(phase: Phase) -> int {
    if phase is Executing {
        1
    } else {
        0
    }
}

/// A run as plain values: the limit of its gate and the phase of each
/// worker, in the order in which the workers were started.
pub struct RunState {
    pub limit: Option<u32>,
    pub phases: Seq<Phase>,
}

impl RunState {
    /// A run in which `workers` workers have been started and none has
    /// done anything yet.
    pub open spec fn started(limit: Option<u32>, workers: nat) -> RunState {
        RunState { limit, phases: Seq::new(workers, |i: int| Phase::Created) }
    }

    /// The number of requests under way is within the limit, if there is one.
    pub open spec fn within_limit(self) -> bool {
        self.limit matches Some(limit) ==> executing(self.phases) <= limit
    }

    /// One more worker would be let in.
    pub open spec fn has_room(self) -> bool {
        self.limit matches Some(limit) ==> executing(self.phases) < limit
    }

    /// There is such a worker and it is still to be admitted.
    pub open spec fn may_poll(self, worker: int) -> bool {
        &&& 0 <= worker < self.phases.len()
        &&& (self.phases[worker] is Created || self.phases[worker] is AwaitingAdmission)
    }

    /// There is such a worker and its request is under way.
    pub open spec fn may_complete(self, worker: int) -> bool {
        &&& 0 <= worker < self.phases.len()
        &&& self.phases[worker] is Executing
    }

    /// The answer to a worker that asks for admission: nothing if it is
    /// not in a position to ask, else to go ahead if there is room and
    /// to wait if there is none.
    pub open spec fn answer(self, worker: int) -> Option<Step> {
        if !self.may_poll(worker) {
            None
        } else if self.has_room() {
            Some(Step::Execute)
        } else {
            Some(Step::Wait(POLL_INTERVAL_MS))
        }
    }

    /// The run after a worker has asked for admission.
    pub open spec fn poll(self, worker: int) -> RunState {
        if !self.may_poll(worker) {
            self
        } else if self.has_room() {
            RunState { phases: self.phases.update(worker, Phase::Executing), ..self }
        } else {
            RunState { phases: self.phases.update(worker, Phase::AwaitingAdmission), ..self }
        }
    }

    /// The run after a worker has reported the outcome of its request.
    pub open spec fn complete(self, worker: int, outcome: Result<u128, String>) -> RunState {
        if !self.may_complete(worker) {
            self
        } else {
            RunState { phases: self.phases.update(worker, Phase::Completed(outcome)), ..self }
        }
    }

    /// The run after one event.
    pub open spec fn step(self, event: Event) -> RunState {
        match event {
            Event::Poll(worker) => self.poll(worker),
            Event::Complete(worker, outcome) => self.complete(worker, outcome),
        }
    }

    /// The run after a series of events, the first of them first.
    pub open spec fn replay(self, events: Seq<Event>) -> RunState
        decreases events.len(),
    {
        if events.len() == 0 {
            self
        } else {
            self.replay(events.drop_last()).step(events.last())
        }
    }

    /// Every worker has left its outcome.
    pub open spec fn finished(self) -> bool {
        forall|worker: int| 0 <= worker < self.phases.len() ==> self.phases[worker] is Completed
    }

    /// The outcomes of the workers, in the order in which they were started.
    pub open spec fn outcomes(self) -> Seq<Result<u128, String>>
        recommends
            self.finished(),
    {
        Seq::new(self.phases.len(), |worker: int| self.phases[worker]->Completed_0)
    }
}

/// Changing the phase of one worker changes the number of requests under
/// way by what that worker adds to it before and after.
pub proof fn lemma_executing_after_update(phases: Seq<Phase>, worker: int, phase: Phase)
    requires
        0 <= worker < phases.len(),
    ensures
        executing(phases.update(worker, phase)) == executing(phases) - under_way(phases[worker])
            + under_way(phase),
{
    broadcast use vstd::multiset::group_multiset_axioms;

    to_multiset_update(phases, worker, phase);
    to_multiset_contains(phases, phases[worker]);
}

/// How far a worker has come.
pub open spec fn progress(phase: Phase) -> nat {
    match phase {
        Phase::Created => 0,
        Phase::AwaitingAdmission => 1,
        Phase::Executing => 2,
        Phase::Completed(_) => 3,
    }
}

/// No event sets a worker back, and none changes an outcome once it is left.
pub proof fn lemma_workers_move_forward(state: RunState, event: Event, worker: int)
    requires
        0 <= worker < state.phases.len(),
    ensures
        progress(state.step(event).phases[worker]) >= progress(state.phases[worker]),
        state.phases[worker] is Completed ==> state.step(event).phases[worker]
            == state.phases[worker],
{
}

/// No event takes a run over its limit.
pub proof fn lemma_step_keeps_limit(state: RunState, event: Event)
    requires
        state.within_limit(),
    ensures
        state.step(event).within_limit(),
{
    match event {
        Event::Poll(worker) => {
            if state.may_poll(worker) {
                lemma_executing_after_update(state.phases, worker, Phase::Executing);
                lemma_executing_after_update(state.phases, worker, Phase::AwaitingAdmission);
            }
        },
        Event::Complete(worker, outcome) => {
            if state.may_complete(worker) {
                lemma_executing_after_update(state.phases, worker, Phase::Completed(outcome));
            }
        },
    }
}

/// No request is under way in a run that has only just been started.
pub proof fn lemma_started_is_idle(limit: Option<u32>, workers: nat)
    ensures
        executing(RunState::started(limit, workers).phases) == 0,
{
    to_multiset_contains(RunState::started(limit, workers).phases, Phase::Executing);
}

/// Whatever the workers report and in whatever order, the number of
/// requests under way never exceeds the limit of the run.
pub proof fn lemma_never_over_limit(limit: Option<u32>, workers: nat, events: Seq<Event>)
    ensures
        RunState::started(limit, workers).replay(events).within_limit(),
    decreases events.len(),
{
    let start = RunState::started(limit, workers);
    if events.len() == 0 {
        lemma_started_is_idle(limit, workers);
    } else {
        lemma_never_over_limit(limit, workers, events.drop_last());
        lemma_step_keeps_limit(start.replay(events.drop_last()), events.last());
    }
}

/// Whatever the workers report, the run keeps the workers it was started
/// with and the limit it was started with.
pub proof fn lemma_workers_are_kept(state: RunState, events: Seq<Event>)
    ensures
        state.replay(events).phases.len() == state.phases.len(),
        state.replay(events).limit == state.limit,
    decreases events.len(),
{
    if events.len() > 0 {
        lemma_workers_are_kept(state, events.drop_last());
    }
}

/// A run that was started with some number of workers still has that
/// number of workers after whatever they report, and once they have all
/// finished it yields one outcome for each of them, whether their
/// requests completed or failed.
pub proof fn lemma_one_outcome_per_worker(limit: Option<u32>, workers: nat, events: Seq<Event>)
    ensures
        RunState::started(limit, workers).replay(events).phases.len() == workers,
        RunState::started(limit, workers).replay(events).outcomes().len() == workers,
{
    lemma_workers_are_kept(RunState::started(limit, workers), events);
}

/// The first `asked` workers ask for admission, one after the other.
pub open spec fn first_round(asked: nat) -> Seq<Event> {
    Seq::new(asked, |worker: int| Event::Poll(worker))
}

/// The number of requests under way once the first `asked` workers of a
/// fresh run have asked for admission: all of them without a limit, and as
/// many of them as the limit allows with one.
pub open spec fn admitted_in_first_round(limit: Option<u32>, asked: nat) -> nat {
    match limit {
        Some(limit) => if asked <= limit {
            asked
        } else {
            limit as nat
        },
        None => asked,
    }
}

/// When the workers of a fresh run ask for admission one after the other,
/// each is let in until the limit is reached. Without a limit all of them
/// are let in, so that all requests are under way at once.
pub proof fn lemma_first_round(limit: Option<u32>, workers: nat, asked: nat)
    requires
        asked <= workers,
    ensures
        executing(RunState::started(limit, workers).replay(first_round(asked)).phases)
            == admitted_in_first_round(limit, asked),
        forall|worker: int|
            asked <= worker < workers ==> RunState::started(limit, workers).replay(
                first_round(asked),
            ).phases[worker] is Created,
    decreases asked,
{
    let start = RunState::started(limit, workers);
    if asked == 0 {
        lemma_started_is_idle(limit, workers);
    } else {
        let before = (asked - 1) as nat;
        lemma_first_round(limit, workers, before);
        lemma_workers_are_kept(start, first_round(before));
        assert(first_round(asked).drop_last() =~= first_round(before));
        let state = start.replay(first_round(before));
        assert(state.may_poll(before as int));
        lemma_executing_after_update(state.phases, before as int, Phase::Executing);
        lemma_executing_after_update(state.phases, before as int, Phase::AwaitingAdmission);
    }
}

/// A run with room for at least one request never gets stuck: as long as
/// some worker has not finished, either a request is under way and can
/// complete, or a worker is waiting and will be let in when it asks.
pub proof fn lemma_run_can_go_on(state: RunState) -> (worker: int)
    requires
        state.limit matches Some(limit) ==> limit >= 1,
        !state.finished(),
    ensures
        state.may_complete(worker) || (state.may_poll(worker) && state.has_room()),
{
    to_multiset_contains(state.phases, Phase::Executing);
    if state.phases.contains(Phase::Executing) {
        choose|worker: int| 0 <= worker < state.phases.len() && state.phases[worker] == Phase::Executing
    } else {
        let worker = choose|worker: int|
            0 <= worker < state.phases.len() && !(state.phases[worker] is Completed);
        assert(state.phases.contains(state.phases[worker]));
        worker
    }
}

/// The state of one run: its configuration, its admission gate, and the
/// phase of each of its workers.
#[derive(Debug)]
pub struct Dispatcher {
    config: Config,
    gate: Admission,
    workers: Vec<Phase>,
}

impl View for Dispatcher {
    type V = RunState;

    closed spec fn view(&self) -> RunState {
        RunState { limit: self.gate.limit(), phases: self.workers@ }
    }
}

impl Dispatcher {
    /// The configuration that the run was started from.
    pub closed spec fn config(&self) -> Config {
        self.config
    }

    /// What holds of a dispatcher at all times: its configuration is
    /// valid, it has one worker for each thread asked for and the limit
    /// asked for, and its gate counts exactly the requests under way.
    pub closed spec fn wf(&self) -> bool {
        &&& self.config.is_valid()
        &&& self.gate.wf()
        &&& self.gate.limit() == self.config.max_concurrent_requests
        &&& self.workers.len() == self.config.num_threads
        &&& (self.gate.limit() is Some ==> self.gate.in_flight() == executing(self.workers@))
    }

    /// A dispatcher has the workers and the limit of its configuration,
    /// and never more requests under way than the limit allows.
    pub proof fn lemma_wf(&self)
        requires
            self.wf(),
        ensures
            self.config().is_valid(),
            self@.limit == self.config().max_concurrent_requests,
            self@.phases.len() == self.config().num_threads,
            self@.within_limit(),
    {
    }

    /// Sets up a run: a gate with the limit that the configuration asks
    /// for, and one worker per thread, none of which has done anything yet.
    pub fn new(config: Config) -> (dispatcher: Dispatcher)
        requires
            config.is_valid(),
        ensures
            dispatcher.wf(),
            dispatcher.config() == config,
            dispatcher@ == RunState::started(
                config.max_concurrent_requests,
                config.num_threads as nat,
            ),
    {
        let gate = Admission::new(config.max_concurrent_requests);
        let mut workers: Vec<Phase> = Vec::new();
        let mut started: u32 = 0;
        while started < config.num_threads
            invariant
                started <= config.num_threads,
                workers@ == Seq::new(started as nat, |i: int| Phase::Created),
            decreases config.num_threads - started,
        {
            workers.push(Phase::Created);
            started = started + 1;
            assert(workers@ =~= Seq::new(started as nat, |i: int| Phase::Created));
        }
        proof {
            lemma_started_is_idle(config.max_concurrent_requests, config.num_threads as nat);
        }
        Dispatcher { config, gate, workers }
    }

    /// The target of the run.
    pub fn url(&self) -> (url: &str)
        ensures
            url@ == self.config().url@,
    {
        self.config.url.as_str()
    }

    /// The number of workers of the run.
    pub fn num_threads(&self) -> (count: u32)
        ensures
            count == self.config().num_threads,
    {
        self.config.num_threads
    }

    /// The number of requests under way right now.
    pub fn in_flight(&self) -> (count: usize)
        requires
            self.wf(),
        ensures
            count == executing(self@.phases),
    {
        let mut count: usize = 0;
        let mut i: usize = 0;
        proof {
            to_multiset_contains(self.workers@.take(0), Phase::Executing);
        }
        while i < self.workers.len()
            invariant
                i <= self.workers.len(),
                count == executing(self.workers@.take(i as int)),
                count <= i,
            decreases self.workers.len() - i,
        {
            proof {
                let seen = self.workers@.take(i as int);
                assert(self.workers@.take(i + 1) =~= seen.push(self.workers@[i as int]));
                to_multiset_build(seen, self.workers@[i as int]);
            }
            match &self.workers[i] {
                Phase::Executing => {
                    count = count + 1;
                },
                _ => {},
            }
            i = i + 1;
        }
        proof {
            assert(self.workers@.take(i as int) =~= self.workers@);
        }
        count
    }

    /// A worker asks for admission. A worker that is still to be admitted
    /// is let in if there is room, and is told to wait and ask again
    /// if it has none. No other worker gets an answer, and nothing changes
    /// for it.
    pub fn poll(&mut self, worker: usize) -> (step: Option<Step>)
        requires
            old(self).wf(),
        ensures
            final(self).wf(),
            final(self).config() == old(self).config(),
            final(self)@ == old(self)@.poll(worker as int),
            final(self)@.within_limit(),
            step == old(self)@.answer(worker as int),
    {
        if worker >= self.workers.len() {
            return None;
        }
        let waiting: bool = match &self.workers[worker] {
            Phase::Created => true,
            Phase::AwaitingAdmission => true,
            _ => false,
        };
        if !waiting {
            return None;
        }
        if self.gate.try_acquire() {
            proof {
                lemma_executing_after_update(self.workers@, worker as int, Phase::Executing);
            }
            self.workers.set(worker, Phase::Executing);
            Some(Step::Execute)
        } else {
            proof {
                lemma_executing_after_update(
                    self.workers@,
                    worker as int,
                    Phase::AwaitingAdmission,
                );
            }
            self.workers.set(worker, Phase::AwaitingAdmission);
            Some(Step::Wait(POLL_INTERVAL_MS))
        }
    }

    /// A worker reports what became of its request. If its request was
    /// under way, its admission is given back and its outcome recorded.
    /// From any other worker the report is turned down and nothing changes.
    pub fn complete(
        &mut self,
        worker: usize,
        response: Result<(), String>,
        elapsed: Result<u128, String>,
    ) -> (accepted: bool)
        requires
            old(self).wf(),
        ensures
            final(self).wf(),
            final(self).config() == old(self).config(),
            final(self)@ == old(self)@.complete(worker as int, outcome_of(response, elapsed)),
            final(self)@.within_limit(),
            accepted == old(self)@.may_complete(worker as int),
    {
        if worker >= self.workers.len() {
            return false;
        }
        let under_way: bool = match &self.workers[worker] {
            Phase::Executing => true,
            _ => false,
        };
        if !under_way {
            return false;
        }
        let result = outcome(response, elapsed);
        proof {
            to_multiset_contains(self.workers@, Phase::Executing);
            lemma_executing_after_update(self.workers@, worker as int, Phase::Completed(result));
        }
        self.gate.release();
        self.workers.set(worker, Phase::Completed(result));
        true
    }

    /// The outcomes of the run, one per worker and in the order in which
    /// the workers were started, once every worker has left its outcome.
    pub fn outcomes(&self) -> (outcomes: Option<Vec<Result<u128, String>>>)
        requires
            self.wf(),
        ensures
            outcomes is Some <==> self@.finished(),
            outcomes matches Some(all) ==> all@ == self@.outcomes() && all.len()
                == self.config().num_threads,
    {
        let mut all: Vec<Result<u128, String>> = Vec::new();
        let mut i: usize = 0;
        while i < self.workers.len()
            invariant
                i <= self.workers.len(),
                all.len() == i,
                forall|k: int| 0 <= k < i ==> self.workers@[k] is Completed,
                forall|k: int| 0 <= k < i ==> all@[k] == self.workers@[k]->Completed_0,
            decreases self.workers.len() - i,
        {
            match &self.workers[i] {
                Phase::Completed(Ok(millis)) => {
                    all.push(Ok(*millis));
                },
                Phase::Completed(Err(reason)) => {
                    all.push(Err(reason.clone()));
                },
                _ => {
                    return None;
                },
            }
            i = i + 1;
        }
        assert(all@ =~= self@.outcomes());
        Some(all)
    }
}

} // verus!
