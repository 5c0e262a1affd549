//! The crawl coordinator's verified half. The unverified shell runs one
//! walker per window-filtered repository, at most `limit` of them at a
//! time, and hands each walker's outcome in as it completes; here those
//! outcomes are folded into the aggregated identities and the list of
//! per-repository failures. A failed walk contributes its failure and
//! nothing else: it never touches the other repositories' results. The
//! `Scheduler` is the start rule of the bounded stage; the shell asks
//! it before starting a walker and tells it of each completion.

use vstd::prelude::*;

use crate::aggregate::{
    aggregate_spec, consistent_pairs, contributed_pairs, lemma_aggregate_characterized,
    lemma_aggregate_order_insensitive, record_pairs, AggregatedIdentities,
};
use crate::records::{CommitRecord, WalkError};

verus! {

/// One repository's finished walk: its API URL and either the records
/// retained within the window or the failure that ended the walk.
pub struct RepoOutcome {
    pub url: String,
    pub result: Result<Vec<CommitRecord>, WalkError>,
}

/// What a whole crawl comes to: the deduplicated identities of every
/// successful walk, and each failed repository beside its failure.
pub struct CrawlReport {
    pub identities: AggregatedIdentities,
    pub failures: Vec<(String, WalkError)>,
}

/// The mapping the outcomes denote: each successful walk's records folded
/// in, in the order the outcomes are consumed; failures fold nothing.
pub open spec fn collected_map(outcomes: Seq<RepoOutcome>, m: Map<Seq<char>, Seq<char>>) -> Map<
    Seq<char>,
    Seq<char>,
>
    decreases outcomes.len(),
{
    if outcomes.len() == 0 {
        m
    } else {
        let m1 = match outcomes[0].result {
            Ok(records) => aggregate_spec(records@, m),
            Err(_) => m,
        };
        collected_map(outcomes.drop_first(), m1)
    }
}

/// The failures the outcomes carry, in consumption order, each beside its
/// repository's URL.
pub open spec fn failures_spec(outcomes: Seq<RepoOutcome>) -> Seq<(Seq<char>, WalkError)>
    decreases outcomes.len(),
{
    if outcomes.len() == 0 {
        Seq::empty()
    } else {
        let rest = failures_spec(outcomes.drop_first());
        match outcomes[0].result {
            Err(e) => seq![(outcomes[0].url@, e)] + rest,
            Ok(_) => rest,
        }
    }
}

/// The view of a collected failure list.
pub open spec fn failure_pairs(v: Seq<(String, WalkError)>) -> Seq<(Seq<char>, WalkError)>
    decreases v.len(),
{
    if v.len() == 0 {
        Seq::empty()
    } else {
        failure_pairs(v.drop_last()).push((v.last().0@, v.last().1))
    }
}

impl WalkError {
    /// An equal copy of this failure.
    pub fn duplicate(&self) -> (r: WalkError)
        ensures
            r == *self,
    {
        match self {
            WalkError::BadTimestamp(s) => WalkError::BadTimestamp(s.clone()),
            WalkError::Transport(s) => WalkError::Transport(s.clone()),
        }
    }
}

/// Drains the finished walks, in the order they completed, into one
/// report: every successful walk's records aggregated, every failure
/// collected beside its repository — isolated, never propagated.
pub fn collect_results(outcomes: &Vec<RepoOutcome>) -> (r: CrawlReport)
    ensures
        r.identities.wf(),
        r.identities@ == collected_map(outcomes@, Map::empty()),
        failure_pairs(r.failures@) == failures_spec(outcomes@),
{
    let ghost all = outcomes@;
    let mut identities = AggregatedIdentities::new();
    let mut failures: Vec<(String, WalkError)> = Vec::new();
    let mut i: usize = 0;
    proof {
        assert(all.skip(0) =~= all);
    }
    while i < outcomes.len()
        invariant
            i <= outcomes@.len(),
            all == outcomes@,
            identities.wf(),
            collected_map(all, Map::empty()) == collected_map(all.skip(i as int), identities@),
            failures_spec(all) == failure_pairs(failures@) + failures_spec(all.skip(i as int)),
        decreases outcomes@.len() - i,
    {
        proof {
            assert(all.skip(i as int).len() > 0);
            assert(all.skip(i as int)[0] == all[i as int]);
            assert(all.skip(i as int).drop_first() =~= all.skip(i as int + 1));
        }
        let outcome = &outcomes[i];
        let ghost failures_before = failures@;
        match &outcome.result {
            Ok(records) => {
                identities.add_records(records);
            },
            Err(e) => {
                failures.push((outcome.url.clone(), e.duplicate()));
                proof {
                    assert(failures@.drop_last() =~= failures_before);
                    assert(failure_pairs(failures_before) + (seq![(all[i as int].url@, *e)]
                        + failures_spec(all.skip(i as int + 1))) =~= failure_pairs(failures@)
                        + failures_spec(all.skip(i as int + 1)));
                }
            },
        }
        i += 1;
    }
    proof {
        assert(all.skip(outcomes@.len() as int) =~= Seq::<RepoOutcome>::empty());
        assert(failure_pairs(failures@) + Seq::<(Seq<char>, WalkError)>::empty() =~= failure_pairs(
            failures@,
        ));
    }
    CrawlReport { identities, failures }
}

/// Every record of every successful walk, in consumption order.
pub open spec fn ok_records(outcomes: Seq<RepoOutcome>) -> Seq<CommitRecord>
    decreases outcomes.len(),
{
    if outcomes.len() == 0 {
        Seq::empty()
    } else {
        (match outcomes[0].result {
            Ok(records) => records@,
            Err(_) => Seq::empty(),
        }) + ok_records(outcomes.drop_first())
    }
}

/// Folding a concatenation is folding the halves in turn.
proof fn lemma_aggregate_append(
    a: Seq<CommitRecord>,
    b: Seq<CommitRecord>,
    m: Map<Seq<char>, Seq<char>>,
)
    ensures
        aggregate_spec(a + b, m) == aggregate_spec(b, aggregate_spec(a, m)),
    decreases a.len(),
{
    if a.len() == 0 {
        assert(a + b =~= b);
    } else {
        assert((a + b)[0] == a[0]);
        assert((a + b).drop_first() =~= a.drop_first() + b);
        lemma_aggregate_append(
            a.drop_first(),
            b,
            crate::aggregate::record_inserts(m, a[0]),
        );
    }
}

/// Collecting the outcomes is folding every successful walk's records.
pub proof fn lemma_collected_is_aggregate(
    outcomes: Seq<RepoOutcome>,
    m: Map<Seq<char>, Seq<char>>,
)
    ensures
        collected_map(outcomes, m) == aggregate_spec(ok_records(outcomes), m),
    decreases outcomes.len(),
{
    if outcomes.len() > 0 {
        let first = match outcomes[0].result {
            Ok(records) => records@,
            Err(_) => Seq::<CommitRecord>::empty(),
        };
        let m1 = aggregate_spec(first, m);
        lemma_collected_is_aggregate(outcomes.drop_first(), m1);
        lemma_aggregate_append(first, ok_records(outcomes.drop_first()), m);
    }
}

/// Law (idempotence): two crawls that saw the same backend — the same
/// identity pairs contributed by their successful walks, each login
/// determining its URL — collect the same mapping, however differently
/// the walks were ordered, interleaved, or split into records.
pub proof fn lemma_crawl_idempotent(
    o1: Seq<RepoOutcome>,
    o2: Seq<RepoOutcome>,
    m: Map<Seq<char>, Seq<char>>,
)
    requires
        contributed_pairs(ok_records(o1)) == contributed_pairs(ok_records(o2)),
        consistent_pairs(contributed_pairs(ok_records(o1))),
    ensures
        collected_map(o1, m) == collected_map(o2, m),
{
    lemma_collected_is_aggregate(o1, m);
    lemma_collected_is_aggregate(o2, m);
    lemma_aggregate_order_insensitive(ok_records(o1), ok_records(o2), m);
}

/// Concatenating record sequences unions their contributed pairs.
proof fn lemma_contributed_append(a: Seq<CommitRecord>, b: Seq<CommitRecord>)
    ensures
        contributed_pairs(a + b) == contributed_pairs(a).union(contributed_pairs(b)),
    decreases a.len(),
{
    if a.len() == 0 {
        assert(a + b =~= b);
        assert(contributed_pairs(a).union(contributed_pairs(b)) =~= contributed_pairs(b));
    } else {
        assert((a + b)[0] == a[0]);
        assert((a + b).drop_first() =~= a.drop_first() + b);
        lemma_contributed_append(a.drop_first(), b);
        assert(record_pairs(a[0]).union(
            contributed_pairs(a.drop_first()).union(contributed_pairs(b)),
        ) =~= contributed_pairs(a).union(contributed_pairs(b)));
    }
}

/// A successful walk's pairs are among the crawl's.
proof fn lemma_ok_pairs_cover(outcomes: Seq<RepoOutcome>, j: int, p: (Seq<char>, Seq<char>))
    requires
        0 <= j < outcomes.len(),
        outcomes[j].result matches Ok(records) && contributed_pairs(records@).contains(p),
    ensures
        contributed_pairs(ok_records(outcomes)).contains(p),
    decreases j,
{
    let first = match outcomes[0].result {
        Ok(records) => records@,
        Err(_) => Seq::<CommitRecord>::empty(),
    };
    lemma_contributed_append(first, ok_records(outcomes.drop_first()));
    if j == 0 {
    } else {
        assert(outcomes.drop_first()[j - 1] == outcomes[j]);
        lemma_ok_pairs_cover(outcomes.drop_first(), j - 1, p);
    }
}

/// Law (failure isolation, reporting half): a failed walk stands in the
/// failure list, beside its repository's URL.
pub proof fn lemma_failure_reported(outcomes: Seq<RepoOutcome>, i: int)
    requires
        0 <= i < outcomes.len(),
        outcomes[i].result is Err,
    ensures
        failures_spec(outcomes).contains((outcomes[i].url@, outcomes[i].result->Err_0)),
    decreases i,
{
    let rest = failures_spec(outcomes.drop_first());
    if i == 0 {
        let p = (outcomes[0].url@, outcomes[0].result->Err_0);
        assert((seq![p] + rest)[0] == p);
    } else {
        assert(outcomes.drop_first()[i - 1] == outcomes[i]);
        lemma_failure_reported(outcomes.drop_first(), i - 1);
        let p = (outcomes[i].url@, outcomes[i].result->Err_0);
        let k = choose|k: int| 0 <= k < rest.len() && rest[k] == p;
        match outcomes[0].result {
            Err(e) => {
                assert((seq![(outcomes[0].url@, e)] + rest)[k + 1] == p);
            },
            Ok(_) => {},
        }
    }
}

/// Law (failure isolation, retention half): one walk's failure removes
/// nothing of any successful walk: every identity a successful walk
/// contributed is in the collected mapping, whatever the other outcomes
/// were.
pub proof fn lemma_success_collected(
    outcomes: Seq<RepoOutcome>,
    j: int,
    login: Seq<char>,
    url: Seq<char>,
    m: Map<Seq<char>, Seq<char>>,
)
    requires
        0 <= j < outcomes.len(),
        outcomes[j].result matches Ok(records) && contributed_pairs(records@).contains(
            (login, url),
        ),
        consistent_pairs(contributed_pairs(ok_records(outcomes))),
    ensures
        collected_map(outcomes, m).dom().contains(login),
        collected_map(outcomes, m)[login] == url,
{
    lemma_collected_is_aggregate(outcomes, m);
    lemma_ok_pairs_cover(outcomes, j, (login, url));
    lemma_aggregate_characterized(ok_records(outcomes), m);
}

/// The bounded-concurrency stage's gatekeeping state: `limit` is the
/// concurrency cap, `total` the number of tasks the stage owes, `started`
/// how many have been handed out, `in_flight` how many of those have not
/// come back, `completed` how many have.
pub struct Scheduler {
    pub limit: usize,
    pub total: usize,
    pub started: usize,
    pub in_flight: usize,
    pub completed: usize,
}

/// The scheduler state on the mathematical axis.
pub struct SchedulerModel {
    pub limit: int,
    pub total: int,
    pub started: int,
    pub in_flight: int,
    pub completed: int,
}

/// One thing the driving shell does at the bounded stage.
pub enum SchedulerEvent {
    /// Hand one more task out.
    Start,
    /// Consume one finished task's outcome.
    Complete,
}

/// A scheduler state is well formed when the cap is positive, accounting
/// is consistent, and — the bound this stage exists for — no more than
/// `limit` tasks are in flight.
pub open spec fn model_wf(s: SchedulerModel) -> bool {
    &&& 1 <= s.limit
    &&& 0 <= s.completed
    &&& 0 <= s.in_flight
    &&& s.started <= s.total
    &&& s.completed + s.in_flight == s.started
    &&& s.in_flight <= s.limit
}

/// When the start rule allows an event.
pub open spec fn event_allowed(s: SchedulerModel, ev: SchedulerEvent) -> bool {
    match ev {
        SchedulerEvent::Start => s.in_flight < s.limit && s.started < s.total,
        SchedulerEvent::Complete => s.in_flight > 0,
    }
}

/// What an event does to the state.
pub open spec fn event_step(s: SchedulerModel, ev: SchedulerEvent) -> SchedulerModel {
    match ev {
        SchedulerEvent::Start => SchedulerModel {
            started: s.started + 1,
            in_flight: s.in_flight + 1,
            ..s
        },
        SchedulerEvent::Complete => SchedulerModel {
            in_flight: s.in_flight - 1,
            completed: s.completed + 1,
            ..s
        },
    }
}

/// A whole run of events from a state.
pub open spec fn run_events(s: SchedulerModel, evs: Seq<SchedulerEvent>) -> SchedulerModel
    decreases evs.len(),
{
    if evs.len() == 0 {
        s
    } else {
        run_events(event_step(s, evs[0]), evs.drop_first())
    }
}

/// Every event of the run obeys the start rule in the state it meets.
pub open spec fn events_allowed(s: SchedulerModel, evs: Seq<SchedulerEvent>) -> bool
    decreases evs.len(),
{
    evs.len() == 0 || (event_allowed(s, evs[0]) && events_allowed(
        event_step(s, evs[0]),
        evs.drop_first(),
    ))
}

/// Law (concurrency bound): under the start rule, every state a run
/// passes through — after any prefix of its events — keeps at most
/// `limit` tasks in flight, and the cap itself never changes.
pub proof fn lemma_concurrency_bounded(s: SchedulerModel, evs: Seq<SchedulerEvent>, i: int)
    requires
        model_wf(s),
        events_allowed(s, evs),
        0 <= i <= evs.len(),
    ensures
        model_wf(run_events(s, evs.take(i))),
        run_events(s, evs.take(i)).limit == s.limit,
        run_events(s, evs.take(i)).in_flight <= s.limit,
    decreases i,
{
    if i > 0 {
        let s1 = event_step(s, evs[0]);
        lemma_concurrency_bounded(s1, evs.drop_first(), i - 1);
        assert(evs.take(i)[0] == evs[0]);
        assert(evs.take(i).drop_first() =~= evs.drop_first().take(i - 1));
    } else {
        assert(evs.take(0) =~= Seq::<SchedulerEvent>::empty());
    }
}

impl Scheduler {
    /// This state on the mathematical axis.
    pub open spec fn model(&self) -> SchedulerModel {
        SchedulerModel {
            limit: self.limit as int,
            total: self.total as int,
            started: self.started as int,
            in_flight: self.in_flight as int,
            completed: self.completed as int,
        }
    }

    /// A fresh stage of `total` tasks under cap `limit`.
    pub fn new(limit: usize, total: usize) -> (s: Self)
        requires
            1 <= limit,
        ensures
            model_wf(s.model()),
            s.limit == limit,
            s.total == total,
            s.started == 0,
            s.in_flight == 0,
            s.completed == 0,
    {
        Scheduler { limit, total, started: 0, in_flight: 0, completed: 0 }
    }

    /// Whether one more task may start now: a slot is free and work is
    /// left to hand out.
    pub fn can_start(&self) -> (b: bool)
        ensures
            b == event_allowed(self.model(), SchedulerEvent::Start),
    {
        self.in_flight < self.limit && self.started < self.total
    }

    /// Hands one task out.
    pub fn start(&mut self)
        requires
            model_wf(old(self).model()),
            event_allowed(old(self).model(), SchedulerEvent::Start),
        ensures
            model_wf(final(self).model()),
            final(self).model() == event_step(old(self).model(), SchedulerEvent::Start),
    {
        self.started = self.started + 1;
        self.in_flight = self.in_flight + 1;
    }

    /// Consumes one finished task.
    pub fn complete(&mut self)
        requires
            model_wf(old(self).model()),
            event_allowed(old(self).model(), SchedulerEvent::Complete),
        ensures
            model_wf(final(self).model()),
            final(self).model() == event_step(old(self).model(), SchedulerEvent::Complete),
    {
        self.in_flight = self.in_flight - 1;
        self.completed = self.completed + 1;
    }

    /// Whether every task has come back.
    pub fn all_done(&self) -> (b: bool)
        ensures
            b == (self.completed == self.total),
    {
        self.completed == self.total
    }
}

} // verus!
