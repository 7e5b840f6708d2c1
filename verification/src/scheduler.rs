//! The spawn scheduler: when a pickup is due, and where it may go.

use crate::geometry::{dist_sq, Arena, ArenaModel, Position};
use crate::sampler::sample_position;
use crate::timer::{lemma_timer_due, lemma_timer_quiet, total_time, IntervalTimer, TimerModel};
use rand::rngs::StdRng;
use vstd::prelude::*;

verus! {

/// What the host is asked to do after a tick.
#[derive(Clone, Copy, Debug, PartialEq, Eq, Structural)]
pub enum Action {
    /// Nothing: the timer has not fired, or no free place was found.
    NoAction,
    /// Create a pickup at this position.
    SpawnAt(Position),
}

/// What the search for a free place does with a candidate it has drawn.
#[derive(Clone, Copy, Debug, PartialEq, Eq, Structural)]
pub enum SearchStep {
    /// The candidate is free: the search ends and the pickup goes there.
    Place(Position),
    /// The candidate is blocked and the retry limit is not reached: the next
    /// candidate is drawn, both coordinates anew.
    DrawAgain,
    /// The candidate is blocked and the retry limit is reached: the search
    /// ends without a place.
    GiveUp,
}

/// What a [`SpawnScheduler`] stands for. The random source is left out: no
/// contract depends on its state.
pub struct SchedulerModel {
    pub timer: TimerModel,
    pub arena: ArenaModel,
    /// How many candidates a tick may draw before it gives up.
    pub max_retries: nat,
    /// How many candidates the latest tick drew.
    pub last_samples: nat,
}

impl SchedulerModel {
    /// The timer and the arena are well-formed, and the latest tick drew no
    /// more candidates than it may.
    pub open spec fn wf(self) -> bool {
        &&& self.timer.wf()
        &&& self.arena.wf()
        &&& self.last_samples <= self.max_retries
    }

    /// What the search does with `candidate`, the `drawn`-th candidate of
    /// this search, counted from one.
    pub open spec fn step_for(
        self,
        candidate: Position,
        drawn: nat,
        occupied: Seq<Position>,
    ) -> SearchStep {
        if !self.arena.blocked(candidate, occupied) {
            SearchStep::Place(candidate)
        } else if drawn < self.max_retries {
            SearchStep::DrawAgain
        } else {
            SearchStep::GiveUp
        }
    }

    /// The search on `candidates`, taken in the order in which they were
    /// drawn: where it stands after them, and how many of them it used.
    ///
    /// Each candidate is settled by `step_for`, and the next one is looked at
    /// only if the answer was `DrawAgain`. A retry limit of zero gives up
    /// before the first candidate. `DrawAgain` as the result means that the
    /// candidates ran out before the search ended.
    pub open spec fn search(self, candidates: Seq<Position>, occupied: Seq<Position>) -> (
        SearchStep,
        nat,
    )
        decreases candidates.len(),
    {
        if candidates.len() == 0 {
            if self.max_retries == 0 {
                (SearchStep::GiveUp, 0)
            } else {
                (SearchStep::DrawAgain, 0)
            }
        } else {
            let so_far = self.search(candidates.drop_last(), occupied);
            if so_far.0 == SearchStep::DrawAgain {
                (self.step_for(candidates.last(), so_far.1 + 1, occupied), so_far.1 + 1)
            } else {
                so_far
            }
        }
    }

    /// `drawn` accounts for the answer `placed` after `samples` candidates:
    /// it holds that many positions of the arena, and the search on them ends
    /// with this answer, having used them all.
    pub open spec fn search_explains(
        self,
        drawn: Seq<Position>,
        occupied: Seq<Position>,
        placed: Option<Position>,
        samples: nat,
    ) -> bool {
        &&& drawn.len() == samples
        &&& forall|i: int| 0 <= i < drawn.len() ==> self.arena.contains(#[trigger] drawn[i])
        &&& self.search(drawn, occupied) == (
            match placed {
                Some(p) => SearchStep::Place(p),
                None => SearchStep::GiveUp,
            },
            samples,
        )
    }

    /// The outcomes of one search for a free place: `placed` is what it
    /// found, `samples` how many candidates it drew.
    ///
    /// The answer is what `search` gives on the candidates drawn, which all
    /// lie in the arena: the first of them that is free, after exactly as
    /// many draws as it took to come to it, or none after exactly
    /// `max_retries` draws that were all blocked. So a place that is found
    /// lies in the arena, clear of every occupied position, and where every
    /// place of the arena is free, the first candidate is taken.
    pub open spec fn placement_allows(
        self,
        occupied: Seq<Position>,
        placed: Option<Position>,
        samples: nat,
    ) -> bool {
        &&& exists|drawn: Seq<Position>| #[trigger]
            self.search_explains(drawn, occupied, placed, samples)
        &&& match placed {
            Some(p) => {
                &&& self.arena.free_at(p, occupied)
                &&& 1 <= samples <= self.max_retries
                &&& samples > 1 ==> !self.arena.all_clear(occupied)
            },
            None => {
                &&& samples == self.max_retries
                &&& samples > 0 ==> !self.arena.all_clear(occupied)
            },
        }
    }

    /// The outcomes of one tick of `dt` against `occupied`: `action` is what
    /// it returns and `next` the scheduler it leaves behind.
    pub open spec fn tick_allows(
        self,
        dt: nat,
        occupied: Seq<Position>,
        action: Action,
        next: SchedulerModel,
    ) -> bool {
        &&& next.timer == self.timer.advance(dt)
        &&& next.arena == self.arena
        &&& next.max_retries == self.max_retries
        &&& if self.timer.fires(dt) {
            match action {
                Action::SpawnAt(p) => self.placement_allows(occupied, Some(p), next.last_samples),
                Action::NoAction => self.placement_allows(occupied, None, next.last_samples),
            }
        } else {
            action == Action::NoAction && next.last_samples == 0
        }
    }
}

/// Decides, tick by tick, whether a pickup is due and where it goes.
pub struct SpawnScheduler {
    timer: IntervalTimer,
    arena: Arena,
    max_retries: u32,
    last_samples: u32,
    rng: StdRng,
}

impl View for SpawnScheduler {
    type V = SchedulerModel;

    closed spec fn view(&self) -> SchedulerModel {
        SchedulerModel {
            timer: self.timer@,
            arena: self.arena@,
            max_retries: self.max_retries as nat,
            last_samples: self.last_samples as nat,
        }
    }
}

impl SpawnScheduler {
    /// A scheduler whose timer starts from zero. It draws its candidates from
    /// `rng`, so a seeded generator makes its choices repeatable.
    pub fn new(interval: u64, arena: Arena, max_retries: u32, rng: StdRng) -> (scheduler:
        SpawnScheduler)
        requires
            arena@.wf(),
        ensures
            scheduler@ == (SchedulerModel {
                timer: TimerModel { elapsed: 0, interval: interval as nat },
                arena: arena@,
                max_retries: max_retries as nat,
                last_samples: 0,
            }),
            scheduler@.wf(),
    {
        SpawnScheduler { timer: IntervalTimer::new(interval), arena, max_retries, last_samples: 0, rng }
    }

    /// The arena in which pickups are placed.
    pub fn arena(&self) -> (arena: Arena)
        ensures
            arena@ == self@.arena,
    {
        self.arena
    }

    /// The spawn timer as it stands.
    pub fn timer(&self) -> (timer: IntervalTimer)
        ensures
            timer@ == self@.timer,
    {
        self.timer
    }

    /// How many candidates a tick may draw before it gives up.
    pub fn max_retries(&self) -> (limit: u32)
        ensures
            limit == self@.max_retries,
    {
        self.max_retries
    }

    /// How many candidates the latest tick drew: none if the timer did not
    /// fire.
    pub fn last_samples(&self) -> (samples: u32)
        ensures
            samples == self@.last_samples,
    {
        self.last_samples
    }

    /// Settles one candidate: places the pickup there if nothing occupied is
    /// within the exclusion radius, asks for another candidate if fewer than
    /// `max_retries` have been drawn, this one counted, and gives up
    /// otherwise.
    pub fn settle(&self, candidate: Position, drawn: u32, occupied: &Vec<Position>) -> (step:
        SearchStep)
        ensures
            step == self@.step_for(candidate, drawn as nat, occupied@),
    {
        if !self.arena.is_blocked(candidate, occupied) {
            SearchStep::Place(candidate)
        } else if drawn < self.max_retries {
            SearchStep::DrawAgain
        } else {
            SearchStep::GiveUp
        }
    }

    /// Runs the search on candidates that are given instead of drawn: the
    /// step at which it stands after them, and how many of them it used.
    pub fn search_among(&self, candidates: &Vec<Position>, occupied: &Vec<Position>) -> (outcome: (
        SearchStep,
        u32,
    ))
        ensures
            outcome.0 == self@.search(candidates@, occupied@).0,
            outcome.1 == self@.search(candidates@, occupied@).1,
    {
        if self.max_retries == 0 {
            proof {
                lemma_search_ended_stays(self@, candidates@, occupied@, 0, candidates@.len() as int);
                assert(candidates@.take(candidates@.len() as int) =~= candidates@);
            }
            return (SearchStep::GiveUp, 0);
        }
        let mut used: u32 = 0;
        let mut i: usize = 0;
        while i < candidates.len()
            invariant
                i <= candidates.len(),
                used == i,
                used < self.max_retries,
                self@.search(candidates@.take(i as int), occupied@) == (
                    SearchStep::DrawAgain,
                    used as nat,
                ),
            decreases candidates.len() - i,
        {
            used += 1;
            let step: SearchStep = self.settle(candidates[i], used, occupied);
            proof {
                assert(candidates@.take(i + 1).drop_last() =~= candidates@.take(i as int));
            }
            match step {
                SearchStep::DrawAgain => {},
                _ => {
                    proof {
                        lemma_search_ended_stays(
                            self@,
                            candidates@,
                            occupied@,
                            i + 1,
                            candidates@.len() as int,
                        );
                        assert(candidates@.take(candidates@.len() as int) =~= candidates@);
                    }
                    return (step, used);
                },
            }
            i += 1;
        }
        proof {
            assert(candidates@.take(i as int) =~= candidates@);
        }
        (SearchStep::DrawAgain, used)
    }

    /// Searches for a free place by rejection sampling: draws a candidate in
    /// the arena, lets `settle` decide on it, and does as it says. Finding no
    /// place is no error: the result is `None`.
    pub fn try_place(&mut self, occupied: &Vec<Position>) -> (placed: Option<Position>)
        requires
            old(self)@.wf(),
        ensures
            final(self)@.wf(),
            final(self)@.timer == old(self)@.timer,
            final(self)@.arena == old(self)@.arena,
            final(self)@.max_retries == old(self)@.max_retries,
            old(self)@.placement_allows(occupied@, placed, final(self)@.last_samples),
    {
        let ghost mut drawn: Seq<Position> = Seq::empty();
        if self.max_retries == 0 {
            self.last_samples = 0;
            assert(old(self)@.search_explains(drawn, occupied@, None, 0));
            return None;
        }
        let mut attempts: u32 = 0;
        loop
            invariant
                self@.timer == old(self)@.timer,
                self@.arena == old(self)@.arena,
                self@.max_retries == old(self)@.max_retries,
                self@.last_samples == old(self)@.last_samples,
                old(self)@.wf(),
                attempts < self.max_retries,
                drawn.len() == attempts,
                forall|i: int| 0 <= i < drawn.len() ==> self@.arena.contains(#[trigger] drawn[i]),
                self@.search(drawn, occupied@) == (SearchStep::DrawAgain, attempts as nat),
                attempts > 0 ==> !self@.arena.all_clear(occupied@),
            decreases self.max_retries - attempts,
        {
            let candidate: Position = sample_position(&mut self.rng, &self.arena);
            attempts += 1;
            proof {
                assert(drawn.push(candidate).drop_last() =~= drawn);
                drawn = drawn.push(candidate);
            }
            match self.settle(candidate, attempts, occupied) {
                SearchStep::Place(place) => {
                    self.last_samples = attempts;
                    assert(old(self)@.search_explains(
                        drawn,
                        occupied@,
                        Some(place),
                        attempts as nat,
                    ));
                    return Some(place);
                },
                SearchStep::DrawAgain => {
                    assert(self@.arena.contains(candidate) && self@.arena.blocked(
                        candidate,
                        occupied@,
                    ));
                },
                SearchStep::GiveUp => {
                    self.last_samples = attempts;
                    assert(self@.arena.contains(candidate) && self@.arena.blocked(
                        candidate,
                        occupied@,
                    ));
                    assert(old(self)@.search_explains(drawn, occupied@, None, attempts as nat));
                    return None;
                },
            }
        }
    }

    /// Advances the spawn timer by `dt`. If the timer fires, it starts over
    /// and a free place is searched for; the answer is `SpawnAt` with the
    /// place found, or `NoAction` where the timer has not fired or the search
    /// found none. `occupied` is only read.
    pub fn tick(&mut self, dt: u64, occupied: &Vec<Position>) -> (action: Action)
        requires
            old(self)@.wf(),
        ensures
            final(self)@.wf(),
            old(self)@.tick_allows(dt as nat, occupied@, action, final(self)@),
            !old(self)@.timer.fires(dt as nat) ==> action == Action::NoAction,
            action matches Action::SpawnAt(p) ==> old(self)@.arena.free_at(p, occupied@),
            old(self)@.timer.fires(dt as nat) && old(self)@.max_retries > 0
                && old(self)@.arena.all_clear(occupied@) ==> action is SpawnAt,
            old(self)@.timer.fires(dt as nat) && action == Action::NoAction
                ==> final(self)@.last_samples == old(self)@.max_retries,
    {
        if !self.timer.tick(dt) {
            self.last_samples = 0;
            return Action::NoAction;
        }
        let ghost searching = self@;
        let placed: Option<Position> = self.try_place(occupied);
        proof {
            let samples = self@.last_samples;
            let drawn = choose|drawn: Seq<Position>| #[trigger]
                searching.search_explains(drawn, occupied@, placed, samples);
            lemma_search_same_rules(searching, old(self)@, drawn, occupied@);
            assert(old(self)@.search_explains(drawn, occupied@, placed, samples));
        }
        match placed {
            Some(p) => Action::SpawnAt(p),
            None => Action::NoAction,
        }
    }
}

/// The search goes by the arena and the retry limit alone: two schedulers
/// that agree on both search alike.
pub proof fn lemma_search_same_rules(
    a: SchedulerModel,
    b: SchedulerModel,
    candidates: Seq<Position>,
    occupied: Seq<Position>,
)
    requires
        a.arena == b.arena,
        a.max_retries == b.max_retries,
    ensures
        a.search(candidates, occupied) == b.search(candidates, occupied),
    decreases candidates.len(),
{
    if candidates.len() > 0 {
        lemma_search_same_rules(a, b, candidates.drop_last(), occupied);
    }
}

/// A search that has ended stays as it is, whatever candidates follow.
pub proof fn lemma_search_ended_stays(
    scheduler: SchedulerModel,
    candidates: Seq<Position>,
    occupied: Seq<Position>,
    m: int,
    n: int,
)
    requires
        0 <= m <= n <= candidates.len(),
        scheduler.search(candidates.take(m), occupied).0 != SearchStep::DrawAgain,
    ensures
        scheduler.search(candidates.take(n), occupied) == scheduler.search(
            candidates.take(m),
            occupied,
        ),
    decreases n - m,
{
    if m < n {
        lemma_search_ended_stays(scheduler, candidates, occupied, m, n - 1);
        assert(candidates.take(n).drop_last() =~= candidates.take(n - 1));
    }
}

/// While every candidate so far is blocked and the retry limit is not
/// reached, the search asks for another, having used them all.
pub proof fn lemma_search_goes_on(
    scheduler: SchedulerModel,
    candidates: Seq<Position>,
    occupied: Seq<Position>,
    n: int,
)
    requires
        0 <= n <= candidates.len(),
        n < scheduler.max_retries,
        forall|j: int| 0 <= j < n ==> scheduler.arena.blocked(#[trigger] candidates[j], occupied),
    ensures
        scheduler.search(candidates.take(n), occupied) == (SearchStep::DrawAgain, n as nat),
    decreases n,
{
    if n > 0 {
        lemma_search_goes_on(scheduler, candidates, occupied, n - 1);
        assert(candidates.take(n).drop_last() =~= candidates.take(n - 1));
        assert(scheduler.arena.blocked(candidates[n - 1], occupied));
    }
}

/// The search places the pickup at the first free candidate and at no later
/// one, after exactly as many candidates as it took to come to it: where
/// candidate `k` is free, the `k` before it are blocked and `k` is below the
/// retry limit, the answer is that candidate after `k + 1` draws.
pub proof fn lemma_search_takes_first_free(
    scheduler: SchedulerModel,
    candidates: Seq<Position>,
    occupied: Seq<Position>,
    k: int,
)
    requires
        0 <= k < candidates.len(),
        k < scheduler.max_retries,
        forall|j: int| 0 <= j < k ==> scheduler.arena.blocked(#[trigger] candidates[j], occupied),
        !scheduler.arena.blocked(candidates[k], occupied),
    ensures
        scheduler.search(candidates, occupied) == (SearchStep::Place(candidates[k]), (k + 1) as nat),
{
    lemma_search_goes_on(scheduler, candidates, occupied, k);
    assert(candidates.take(k + 1).drop_last() =~= candidates.take(k));
    lemma_search_ended_stays(scheduler, candidates, occupied, k + 1, candidates.len() as int);
    assert(candidates.take(candidates.len() as int) =~= candidates);
}

/// Where the first `max_retries` candidates are all blocked, the search gives
/// up after exactly `max_retries` of them.
pub proof fn lemma_search_gives_up_at_limit(
    scheduler: SchedulerModel,
    candidates: Seq<Position>,
    occupied: Seq<Position>,
)
    requires
        candidates.len() >= scheduler.max_retries,
        forall|j: int|
            0 <= j < scheduler.max_retries ==> scheduler.arena.blocked(
                #[trigger] candidates[j],
                occupied,
            ),
    ensures
        scheduler.search(candidates, occupied) == (SearchStep::GiveUp, scheduler.max_retries),
{
    let limit = scheduler.max_retries as int;
    if limit > 0 {
        lemma_search_goes_on(scheduler, candidates, occupied, limit - 1);
        assert(candidates.take(limit).drop_last() =~= candidates.take(limit - 1));
        assert(scheduler.arena.blocked(candidates[limit - 1], occupied));
    }
    lemma_search_ended_stays(scheduler, candidates, occupied, limit, candidates.len() as int);
    assert(candidates.take(candidates.len() as int) =~= candidates);
}

/// Whatever the candidates, the search uses no more of them than the retry
/// limit allows and than there are, and it asks for another only when it has
/// used them all and the limit is not reached. A place it answers is one of
/// the candidates it used, and is not blocked.
pub proof fn lemma_search_bounded(
    scheduler: SchedulerModel,
    candidates: Seq<Position>,
    occupied: Seq<Position>,
)
    ensures
        scheduler.search(candidates, occupied).1 <= scheduler.max_retries,
        scheduler.search(candidates, occupied).1 <= candidates.len(),
        scheduler.search(candidates, occupied).0 == SearchStep::DrawAgain ==> scheduler.search(
            candidates,
            occupied,
        ).1 == candidates.len() && candidates.len() < scheduler.max_retries,
        scheduler.search(candidates, occupied).0 matches SearchStep::Place(p) ==> {
            &&& scheduler.search(candidates, occupied).1 >= 1
            &&& p == candidates[scheduler.search(candidates, occupied).1 - 1]
            &&& !scheduler.arena.blocked(p, occupied)
        },
        scheduler.search(candidates, occupied).0 == SearchStep::GiveUp ==> scheduler.search(
            candidates,
            occupied,
        ).1 == scheduler.max_retries,
    decreases candidates.len(),
{
    if candidates.len() > 0 {
        lemma_search_bounded(scheduler, candidates.drop_last(), occupied);
    }
}

/// Every candidate that the search used before the last one was blocked:
/// had one been free, the search would have ended there.
pub proof fn lemma_search_used_were_blocked(
    scheduler: SchedulerModel,
    candidates: Seq<Position>,
    occupied: Seq<Position>,
    i: int,
)
    requires
        0 <= i < scheduler.search(candidates, occupied).1 - 1,
    ensures
        i < candidates.len(),
        scheduler.arena.blocked(candidates[i], occupied),
    decreases candidates.len(),
{
    lemma_search_bounded(scheduler, candidates, occupied);
    if candidates.len() > 0 {
        let front = candidates.drop_last();
        lemma_search_bounded(scheduler, front, occupied);
        let so_far = scheduler.search(front, occupied);
        if i < so_far.1 - 1 {
            lemma_search_used_were_blocked(scheduler, front, occupied, i);
        } else if so_far.0 == SearchStep::DrawAgain {
            // The search went on past the whole front, so its last candidate,
            // which is candidate `i`, was settled with `DrawAgain`.
            if front.len() > 0 {
                lemma_search_asked_again(scheduler, front, occupied);
            }
        }
    }
}

/// A search that asks for another candidate after some were given found the
/// last of them blocked.
pub proof fn lemma_search_asked_again(
    scheduler: SchedulerModel,
    candidates: Seq<Position>,
    occupied: Seq<Position>,
)
    requires
        candidates.len() > 0,
        scheduler.search(candidates, occupied).0 == SearchStep::DrawAgain,
    ensures
        scheduler.arena.blocked(candidates.last(), occupied),
{
    lemma_search_bounded(scheduler, candidates, occupied);
    lemma_search_bounded(scheduler, candidates.drop_last(), occupied);
}

/// A search that gives up having used every candidate given found the last
/// of them blocked.
pub proof fn lemma_search_last_blocked(
    scheduler: SchedulerModel,
    candidates: Seq<Position>,
    occupied: Seq<Position>,
)
    requires
        candidates.len() > 0,
        scheduler.search(candidates, occupied) == (SearchStep::GiveUp, candidates.len()),
    ensures
        scheduler.arena.blocked(candidates.last(), occupied),
{
    lemma_search_bounded(scheduler, candidates, occupied);
    lemma_search_bounded(scheduler, candidates.drop_last(), occupied);
}

/// One tick of a run, as the host saw it: what it passed in, what came back,
/// and the scheduler afterwards.
pub struct TickRecord {
    pub dt: u64,
    pub occupied: Seq<Position>,
    pub action: Action,
    pub next: SchedulerModel,
}

/// The elapsed times of a run, tick by tick.
pub open spec fn run_times(run: Seq<TickRecord>) -> Seq<u64> {
    Seq::new(run.len(), |k: int| run[k].dt)
}

impl SchedulerModel {
    /// The scheduler before tick `k` of a run that started from `self`.
    pub open spec fn before(self, run: Seq<TickRecord>, k: int) -> SchedulerModel {
        if k == 0 {
            self
        } else {
            run[k - 1].next
        }
    }

    /// Tick `k` of the run is an outcome of `tick` on the scheduler that the
    /// ticks before it left behind.
    pub open spec fn step_allows(self, run: Seq<TickRecord>, k: int) -> bool {
        self.before(run, k).tick_allows(
            run[k].dt as nat,
            run[k].occupied,
            run[k].action,
            run[k].next,
        )
    }

    /// `run` is a sequence of ticks that `tick` can produce from `self`.
    pub open spec fn run_allows(self, run: Seq<TickRecord>) -> bool {
        forall|k: int| 0 <= k < run.len() ==> #[trigger] self.step_allows(run, k)
    }
}

/// Along a run the arena and the retry limit stay as they were, and the timer
/// is the starting timer advanced by the elapsed times so far.
pub proof fn lemma_run_timer(start: SchedulerModel, run: Seq<TickRecord>, k: int)
    requires
        start.run_allows(run),
        0 <= k <= run.len(),
    ensures
        start.before(run, k).timer == start.timer.after(run_times(run).take(k)),
        start.before(run, k).arena == start.arena,
        start.before(run, k).max_retries == start.max_retries,
    decreases k,
{
    let dts = run_times(run).take(k);
    if k > 0 {
        lemma_run_timer(start, run, k - 1);
        assert(start.step_allows(run, k - 1));
        assert(dts.drop_last() =~= run_times(run).take(k - 1));
    }
}

/// While the elapsed times of a run, added to what the timer had gathered at
/// its start, stay short of one interval, every tick of the run answers
/// `NoAction`.
pub proof fn lemma_no_action_before_interval(start: SchedulerModel, run: Seq<TickRecord>)
    requires
        start.run_allows(run),
        start.timer.elapsed + total_time(run_times(run)) < start.timer.interval,
    ensures
        forall|k: int| 0 <= k < run.len() ==> (#[trigger] run[k]).action == Action::NoAction,
{
    let dts = run_times(run);
    lemma_timer_quiet(start.timer, dts);
    assert forall|k: int| 0 <= k < run.len() implies (#[trigger] run[k]).action
        == Action::NoAction by {
        lemma_run_timer(start, run, k);
        assert(!start.timer.fires_at(dts, k));
        assert(start.step_allows(run, k));
    }
}

/// Once the elapsed times of a run, added to what the timer had gathered at
/// its start, reach one interval, some tick of the run answers `SpawnAt` with
/// a position inside the arena, provided that every place of the arena is
/// free at each tick and that the scheduler is allowed at least one sample.
pub proof fn lemma_spawn_when_due(start: SchedulerModel, run: Seq<TickRecord>)
    requires
        start.run_allows(run),
        run.len() > 0,
        start.max_retries > 0,
        start.timer.elapsed + total_time(run_times(run)) >= start.timer.interval,
        forall|k: int| 0 <= k < run.len() ==> start.arena.all_clear((#[trigger] run[k]).occupied),
    ensures
        exists|k: int|
            0 <= k < run.len() && ((#[trigger] run[k]).action matches Action::SpawnAt(p)
                && start.arena.contains(p)),
{
    let dts = run_times(run);
    lemma_timer_due(start.timer, dts);
    let k = choose|k: int| 0 <= k < dts.len() && #[trigger] start.timer.fires_at(dts, k);
    lemma_run_timer(start, run, k);
    assert(start.step_allows(run, k));
    assert(start.arena.all_clear(run[k].occupied));
    assert(run[k].action is SpawnAt);
}

/// The same with nothing occupied at any tick of the run: an empty arena has
/// every place free.
pub proof fn lemma_spawn_when_due_nothing_occupied(start: SchedulerModel, run: Seq<TickRecord>)
    requires
        start.run_allows(run),
        run.len() > 0,
        start.max_retries > 0,
        start.timer.elapsed + total_time(run_times(run)) >= start.timer.interval,
        forall|k: int| 0 <= k < run.len() ==> (#[trigger] run[k]).occupied.len() == 0,
    ensures
        exists|k: int|
            0 <= k < run.len() && ((#[trigger] run[k]).action matches Action::SpawnAt(p)
                && start.arena.contains(p)),
{
    lemma_spawn_when_due(start, run);
}

/// A position that a tick answers with lies in the arena, and its squared
/// distance to every position that was passed to that tick is greater than the
/// squared exclusion radius.
pub proof fn lemma_spawn_keeps_distance(
    before: SchedulerModel,
    dt: nat,
    occupied: Seq<Position>,
    p: Position,
    next: SchedulerModel,
)
    requires
        before.tick_allows(dt, occupied, Action::SpawnAt(p), next),
    ensures
        before.arena.contains(p),
        forall|i: int|
            0 <= i < occupied.len() ==> dist_sq(p, #[trigger] occupied[i])
                > before.arena.exclusion_radius * before.arena.exclusion_radius,
{
    assert forall|i: int| 0 <= i < occupied.len() implies dist_sq(p, #[trigger] occupied[i])
        > before.arena.exclusion_radius * before.arena.exclusion_radius by {
        assert(!before.arena.too_close(p, occupied[i]));
    }
}

/// Where no place of the arena is free, a tick on which the timer fires
/// answers `NoAction` after exactly `max_retries` samples. The timer has
/// started over all the same: the cycle is skipped, not tried again on the
/// next tick.
pub proof fn lemma_crowded_gives_up(
    before: SchedulerModel,
    dt: nat,
    occupied: Seq<Position>,
    action: Action,
    next: SchedulerModel,
)
    requires
        before.tick_allows(dt, occupied, action, next),
        before.timer.fires(dt),
        before.arena.crowded(occupied),
    ensures
        action == Action::NoAction,
        next.last_samples == before.max_retries,
        next.timer.elapsed == 0,
{
}

/// A tick on which the timer fires answers as the search does on the
/// candidates it drew: some sequence of positions of the arena, as long as
/// the count of samples, on which `search` ends with the tick's answer. So
/// where every candidate drawn is blocked, the answer is `NoAction` after
/// exactly `max_retries` samples, and a position answered is the first free
/// candidate drawn.
pub proof fn lemma_tick_follows_search(
    before: SchedulerModel,
    dt: nat,
    occupied: Seq<Position>,
    action: Action,
    next: SchedulerModel,
) -> (drawn: Seq<Position>)
    requires
        before.tick_allows(dt, occupied, action, next),
        before.timer.fires(dt),
    ensures
        drawn.len() == next.last_samples,
        drawn.len() <= before.max_retries,
        forall|i: int| 0 <= i < drawn.len() ==> before.arena.contains(#[trigger] drawn[i]),
        forall|i: int|
            0 <= i < drawn.len() - 1 ==> before.arena.blocked(#[trigger] drawn[i], occupied),
        match action {
            Action::SpawnAt(p) => {
                &&& drawn.len() >= 1
                &&& p == drawn.last()
                &&& !before.arena.blocked(p, occupied)
            },
            Action::NoAction => {
                &&& drawn.len() == before.max_retries
                &&& forall|i: int|
                    0 <= i < drawn.len() ==> before.arena.blocked(#[trigger] drawn[i], occupied)
            },
        },
        next.timer.elapsed == 0,
{
    let placed = match action {
        Action::SpawnAt(p) => Some(p),
        Action::NoAction => None,
    };
    let drawn = choose|drawn: Seq<Position>| #[trigger]
        before.search_explains(drawn, occupied, placed, next.last_samples);
    lemma_search_bounded(before, drawn, occupied);
    assert forall|i: int| 0 <= i < drawn.len() - 1 implies before.arena.blocked(
        #[trigger] drawn[i],
        occupied,
    ) by {
        lemma_search_used_were_blocked(before, drawn, occupied, i);
    }
    if action == Action::NoAction && drawn.len() > 0 {
        lemma_search_last_blocked(before, drawn, occupied);
    }
    drawn
}

} // verus!
