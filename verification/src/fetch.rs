//! The bounded fetch of the members of many groups.
//!
//! The fetch is a state machine that does no input or output of its own. A
//! driver runs the fetch tasks and tells the machine what happened; the machine
//! answers with what to do next: start the task for one more label, wait for a
//! running task to end, or finish. The machine never lets more tasks run at a
//! time than its limit allows, and a task that fails costs only its own label.

use crate::error::{Error, ErrorView};
use crate::group::{Group, GroupMap, GroupView};
use crate::node_id::same_id;
use crate::reconcile::{merge_and_normalize, normalize};
use vstd::multiset::Multiset;
use vstd::prelude::*;

verus! {

/// The number of fetch tasks that run at a time where the caller names none.
pub const DEFAULT_CONCURRENCY_LIMIT: usize = 10;

/// The fetch of one group's members that failed.
#[derive(Debug)]
pub struct FetchFailure {
    /// The label whose members were asked for.
    pub label: String,
    /// Why they could not be had.
    pub cause: Error,
}

/// What a [`FetchFailure`] holds, as plain values.
pub struct FetchFailureView {
    pub label: Seq<char>,
    pub cause: ErrorView,
}

impl DeepView for FetchFailure {
    type V = FetchFailureView;

    open spec fn deep_view(&self) -> FetchFailureView {
        FetchFailureView { label: self.label@, cause: self.cause@ }
    }
}

impl View for FetchFailure {
    type V = FetchFailureView;

    open spec fn view(&self) -> FetchFailureView {
        self.deep_view()
    }
}

/// What the driver tells the machine.
#[derive(Debug)]
pub enum FetchEvent {
    /// The driver has done what it was asked last and has nothing to report.
    Proceed,
    /// The task for `label` ended and brought the group's members.
    Fetched { label: String, members: Vec<String> },
    /// The task for `label` ended without the group's members.
    Failed { label: String, cause: Error },
    /// A task could not be scheduled or awaited.
    Fault { reason: String },
}

/// What a [`FetchEvent`] holds, as plain values.
pub enum FetchEventView {
    Proceed,
    Fetched { label: Seq<char>, members: Seq<Seq<char>> },
    Failed { label: Seq<char>, cause: ErrorView },
    Fault { reason: Seq<char> },
}

impl DeepView for FetchEvent {
    type V = FetchEventView;

    open spec fn deep_view(&self) -> FetchEventView {
        match self {
            FetchEvent::Proceed => FetchEventView::Proceed,
            FetchEvent::Fetched { label, members } => FetchEventView::Fetched {
                label: label@,
                members: members.deep_view(),
            },
            FetchEvent::Failed { label, cause } => FetchEventView::Failed {
                label: label@,
                cause: cause@,
            },
            FetchEvent::Fault { reason } => FetchEventView::Fault { reason: reason@ },
        }
    }
}

impl View for FetchEvent {
    type V = FetchEventView;

    open spec fn view(&self) -> FetchEventView {
        self.deep_view()
    }
}

/// What the answer of the store to the fetch of `label` means to the fetch:
/// the members of the first group that it lists; a failure where it lists no
/// group, or where the request itself failed.
pub open spec fn answered(label: Seq<char>, answer: Result<Seq<GroupView>, ErrorView>)
    -> FetchEventView {
    match answer {
        Ok(groups) => if groups.len() > 0 {
            FetchEventView::Fetched { label, members: groups[0].members }
        } else {
            FetchEventView::Failed { label, cause: ErrorView::NotFound { label } }
        },
        Err(cause) => FetchEventView::Failed { label, cause },
    }
}

impl FetchEvent {
    /// The report of the end of the task for `label`, from what the store
    /// answered.
    pub fn from_answer(label: String, answer: Result<Vec<Group>, Error>) -> (event: FetchEvent)
        ensures
            event@ == answered(
                label@,
                match answer {
                    Ok(groups) => Ok(groups.deep_view()),
                    Err(cause) => Err(cause@),
                },
            ),
    {
        match answer {
            Ok(mut groups) => {
                if groups.len() > 0 {
                    let ghost listed = groups.deep_view();
                    assert(listed[0] == groups@[0].deep_view());
                    let first = groups.swap_remove(0);
                    FetchEvent::Fetched { label, members: first.members }
                } else {
                    let cause = Error::NotFound { label: label.clone() };
                    FetchEvent::Failed { label, cause }
                }
            },
            Err(cause) => FetchEvent::Failed { label, cause },
        }
    }
}

/// What the machine asks of the driver.
#[derive(Debug)]
pub enum FetchAction {
    /// Start the task that fetches the members of `label`, then report
    /// [`FetchEvent::Proceed`].
    Start { label: String },
    /// Wait until a running task ends, then report how it ended.
    Wait,
    /// Nothing is left to do: take the result.
    Finish,
}

/// What a [`FetchAction`] holds, as plain values.
pub enum FetchActionView {
    Start { label: Seq<char> },
    Wait,
    Finish,
}

impl DeepView for FetchAction {
    type V = FetchActionView;

    open spec fn deep_view(&self) -> FetchActionView {
        match self {
            FetchAction::Start { label } => FetchActionView::Start { label: label@ },
            FetchAction::Wait => FetchActionView::Wait,
            FetchAction::Finish => FetchActionView::Finish,
        }
    }
}

impl View for FetchAction {
    type V = FetchActionView;

    open spec fn view(&self) -> FetchActionView {
        self.deep_view()
    }
}

/// The state of a fetch.
pub struct FetcherView {
    /// The labels to fetch, in the order in which their tasks start.
    pub labels: Seq<Seq<char>>,
    /// The most tasks that may run at a time.
    pub limit: nat,
    /// How many of the labels have had their task started.
    pub started: nat,
    /// The labels of the tasks that run.
    pub in_flight: Seq<Seq<char>>,
    /// The labels of the tasks that have ended with the group's members, in
    /// the order in which they ended.
    pub fetched: Seq<Seq<char>>,
    /// The members that were fetched, by label.
    pub members: Map<Seq<char>, Seq<Seq<char>>>,
    /// The fetches that failed, in the order in which they ended.
    pub failures: Seq<FetchFailureView>,
    /// Why the scheduling failed, once it has.
    pub fault: Option<Seq<char>>,
}

impl FetcherView {
    /// The labels whose task has been started, each as often as it was.
    pub open spec fn started_labels(self) -> Multiset<Seq<char>> {
        self.labels.take(self.started as int).to_multiset()
    }

    /// The labels of the fetches that failed.
    pub open spec fn failed(self) -> Seq<Seq<char>> {
        self.failures.map_values(|failure: FetchFailureView| failure.label)
    }

    /// The labels whose task runs, has brought members or has failed, each as
    /// often as it does.
    pub open spec fn accounted_labels(self) -> Multiset<Seq<char>> {
        self.in_flight.to_multiset().add(self.fetched.to_multiset()).add(
            self.failed().to_multiset(),
        )
    }

    /// What holds of every state of a fetch: no more tasks run than the limit
    /// allows; as long as the scheduling has not failed, each label whose task
    /// was started is in exactly one of three places, its task runs, or it has
    /// brought members, or it has failed; and the members that were fetched
    /// are those of the labels that brought some.
    pub open spec fn wf(self) -> bool {
        &&& self.limit >= 1
        &&& self.started <= self.labels.len()
        &&& self.in_flight.len() <= self.limit
        &&& self.in_flight.len() + self.fetched.len() + self.failures.len() <= self.started
        &&& self.fault is None ==> self.started_labels() == self.accounted_labels()
        &&& self.members.dom() == self.fetched.to_set()
        &&& forall|i: int|
            0 <= i < self.in_flight.len() ==> self.labels.contains(#[trigger] self.in_flight[i])
        &&& forall|label: Seq<char>| #[trigger]
            self.members.contains_key(label) ==> self.labels.contains(label)
        &&& forall|i: int|
            0 <= i < self.failures.len() ==> self.labels.contains(
                (#[trigger] self.failures[i]).label,
            )
    }
}

/// The state in which a fetch of `labels` begins.
pub open spec fn initial(labels: Seq<Seq<char>>, limit: nat) -> FetcherView {
    FetcherView {
        labels,
        limit,
        started: 0,
        in_flight: Seq::empty(),
        fetched: Seq::empty(),
        members: Map::empty(),
        failures: Seq::empty(),
        fault: None,
    }
}

/// The place at which `label` stands first in `labels`.
pub open spec fn first_place(labels: Seq<Seq<char>>, label: Seq<char>) -> int {
    choose|i: int|
        0 <= i < labels.len() && labels[i] == label && forall|j: int|
            0 <= j < i ==> #[trigger] labels[j] != label
}

/// `labels` without the first `label` in it.
pub open spec fn without_first(labels: Seq<Seq<char>>, label: Seq<char>) -> Seq<Seq<char>> {
    if labels.contains(label) {
        labels.remove(first_place(labels, label))
    } else {
        labels
    }
}

/// The state after the driver's report has been taken in. Once the scheduling
/// has failed nothing is taken in any more, and the end of a task that does
/// not run changes nothing.
pub open spec fn recorded(state: FetcherView, event: FetchEventView) -> FetcherView {
    if state.fault is Some {
        state
    } else {
        match event {
            FetchEventView::Proceed => state,
            FetchEventView::Fetched { label, members } => if state.in_flight.contains(label) {
                FetcherView {
                    in_flight: without_first(state.in_flight, label),
                    fetched: state.fetched.push(label),
                    members: state.members.insert(label, normalize(members.to_set())),
                    ..state
                }
            } else {
                state
            },
            FetchEventView::Failed { label, cause } => if state.in_flight.contains(label) {
                FetcherView {
                    in_flight: without_first(state.in_flight, label),
                    failures: state.failures.push(FetchFailureView { label, cause }),
                    ..state
                }
            } else {
                state
            },
            FetchEventView::Fault { reason } => FetcherView {
                in_flight: Seq::empty(),
                fault: Some(reason),
                ..state
            },
        }
    }
}

/// What the machine asks for in a state, and the state in which it then is.
/// It starts the next label's task as long as a label is left and fewer tasks
/// run than the limit allows; else it waits while a task runs; else it
/// finishes.
pub open spec fn decided(state: FetcherView) -> (FetcherView, FetchActionView) {
    if state.fault is Some {
        (state, FetchActionView::Finish)
    } else if state.started < state.labels.len() && state.in_flight.len() < state.limit {
        let label = state.labels[state.started as int];
        (
            FetcherView {
                started: state.started + 1,
                in_flight: state.in_flight.push(label),
                ..state
            },
            FetchActionView::Start { label },
        )
    } else if state.in_flight.len() > 0 {
        (state, FetchActionView::Wait)
    } else {
        (state, FetchActionView::Finish)
    }
}

/// One step of the machine: the report is taken in, then the next action is
/// decided.
pub open spec fn stepped(state: FetcherView, event: FetchEventView) -> (
    FetcherView,
    FetchActionView,
) {
    decided(recorded(state, event))
}

/// The state after a run of steps.
pub open spec fn run(state: FetcherView, events: Seq<FetchEventView>) -> FetcherView
    decreases events.len(),
{
    if events.len() == 0 {
        state
    } else {
        stepped(run(state, events.drop_last()), events.last()).0
    }
}

/// Where `label` stands at place `at` it has a first place, at `at` or before.
proof fn lemma_first_place_before(labels: Seq<Seq<char>>, label: Seq<char>, at: int)
    requires
        0 <= at < labels.len(),
        labels[at] == label,
    ensures
        0 <= first_place(labels, label) <= at,
        labels[first_place(labels, label)] == label,
        forall|j: int| 0 <= j < first_place(labels, label) ==> #[trigger] labels[j] != label,
    decreases at,
{
    if forall|j: int| 0 <= j < at ==> #[trigger] labels[j] != label {
    } else {
        let j = choose|j: int| 0 <= j < at && #[trigger] labels[j] == label;
        lemma_first_place_before(labels, label, j);
    }
    let first = first_place(labels, label);
    if first > at {
        assert(labels[at] != label);
    }
}

/// A label that stands in a list has a first place in it.
proof fn lemma_first_place(labels: Seq<Seq<char>>, label: Seq<char>)
    requires
        labels.contains(label),
    ensures
        0 <= first_place(labels, label) < labels.len(),
        labels[first_place(labels, label)] == label,
{
    let at = choose|i: int| 0 <= i < labels.len() && labels[i] == label;
    lemma_first_place_before(labels, label, at);
}

/// Where `label` stands first at place `at`, taking the first `label` away
/// takes the one at `at`.
proof fn lemma_without_first(labels: Seq<Seq<char>>, label: Seq<char>, at: int)
    requires
        0 <= at < labels.len(),
        labels[at] == label,
        forall|j: int| 0 <= j < at ==> #[trigger] labels[j] != label,
    ensures
        labels.contains(label),
        without_first(labels, label) == labels.remove(at),
{
    let first = first_place(labels, label);
    if first < at {
        assert(labels[first] != label);
    }
}

/// Taking the first `label` away from a list of asked-for labels leaves one
/// label fewer, all of them asked for, and `label` was asked for too.
proof fn lemma_without_first_within(
    list: Seq<Seq<char>>,
    label: Seq<char>,
    labels: Seq<Seq<char>>,
)
    requires
        list.contains(label),
        forall|i: int| 0 <= i < list.len() ==> labels.contains(#[trigger] list[i]),
    ensures
        without_first(list, label).len() == list.len() - 1,
        labels.contains(label),
        forall|i: int|
            0 <= i < without_first(list, label).len() ==> labels.contains(
                #[trigger] without_first(list, label)[i],
            ),
        without_first(list, label).to_multiset().insert(label) == list.to_multiset(),
{
    lemma_first_place(list, label);
    let at = first_place(list, label);
    let rest = without_first(list, label);
    assert(labels.contains(list[at]));
    assert forall|i: int| 0 <= i < rest.len() implies labels.contains(#[trigger] rest[i]) by {
        if i < at {
            assert(rest[i] == list[i]);
        } else {
            assert(rest[i] == list[i + 1]);
        }
    }
    list.to_multiset_ensures();
    assert(rest.to_multiset() =~= list.to_multiset().remove(label));
    assert(list.to_multiset().count(label) > 0);
    assert(rest.to_multiset().insert(label) =~= list.to_multiset());
}

/// The state in which a fetch begins is well formed.
proof fn lemma_initial_wf(labels: Seq<Seq<char>>, limit: nat)
    requires
        limit >= 1,
    ensures
        initial(labels, limit).wf(),
{
    let state = initial(labels, limit);
    assert(labels.take(0) =~= Seq::empty());
    assert(state.failed() =~= Seq::empty());
    assert(state.fetched.to_set() =~= Set::empty());
    assert(state.members.dom() =~= Set::empty());
    Seq::<Seq<char>>::empty().to_multiset_ensures();
    assert(state.accounted_labels() =~= Multiset::empty());
    assert(state.started_labels() =~= Multiset::empty());
}

/// Taking a report in keeps a state well formed.
proof fn lemma_recorded_wf(state: FetcherView, event: FetchEventView)
    requires
        state.wf(),
    ensures
        recorded(state, event).wf(),
{
    let next = recorded(state, event);
    if state.fault is None {
        match event {
            FetchEventView::Proceed => {},
            FetchEventView::Fetched { label, members } => {
                if state.in_flight.contains(label) {
                    lemma_without_first_within(state.in_flight, label, state.labels);
                    assert forall|key: Seq<char>| #[trigger]
                        next.members.contains_key(key) implies state.labels.contains(key) by {
                        if key != label {
                            assert(state.members.contains_key(key));
                        }
                    }
                    state.fetched.to_multiset_ensures();
                    assert(next.failed() == state.failed());
                    assert(next.accounted_labels() =~= state.accounted_labels());
                    state.fetched.lemma_push_to_set_commute(label);
                    assert(next.members.dom() =~= state.members.dom().insert(label));
                }
            },
            FetchEventView::Failed { label, cause } => {
                if state.in_flight.contains(label) {
                    lemma_without_first_within(state.in_flight, label, state.labels);
                    assert forall|i: int| 0 <= i < next.failures.len() implies state.labels.contains(
                        (#[trigger] next.failures[i]).label,
                    ) by {
                        if i < state.failures.len() {
                            assert(next.failures[i] == state.failures[i]);
                        }
                    }
                    assert(next.failed() =~= state.failed().push(label));
                    state.failed().to_multiset_ensures();
                    assert(next.accounted_labels() =~= state.accounted_labels());
                }
            },
            FetchEventView::Fault { reason } => {},
        }
    }
}

/// Deciding keeps a state well formed.
proof fn lemma_decided_wf(state: FetcherView)
    requires
        state.wf(),
    ensures
        decided(state).0.wf(),
{
    let next = decided(state).0;
    if state.fault is None && state.started < state.labels.len() && state.in_flight.len()
        < state.limit {
        let label = state.labels[state.started as int];
        assert forall|i: int| 0 <= i < next.in_flight.len() implies state.labels.contains(
            #[trigger] next.in_flight[i],
        ) by {
            if i < state.in_flight.len() {
                assert(next.in_flight[i] == state.in_flight[i]);
            } else {
                assert(state.labels[state.started as int] == next.in_flight[i]);
            }
        }
        assert(state.labels.take(state.started as int + 1) =~= state.labels.take(
            state.started as int,
        ).push(label));
        state.labels.take(state.started as int).to_multiset_ensures();
        state.in_flight.to_multiset_ensures();
        assert(next.failed() == state.failed());
        assert(next.accounted_labels() =~= state.accounted_labels().insert(label));
    }
}

/// Each step keeps the state well formed. In particular no more tasks run
/// after it than the limit allows, and a task is started only where fewer ran.
pub proof fn lemma_step_bounded(state: FetcherView, event: FetchEventView)
    requires
        state.wf(),
    ensures
        stepped(state, event).0.wf(),
        stepped(state, event).0.in_flight.len() <= state.limit,
        stepped(state, event).0.limit == state.limit,
        stepped(state, event).0.labels == state.labels,
        stepped(state, event).1 is Start ==> recorded(state, event).in_flight.len() < state.limit,
{
    lemma_recorded_wf(state, event);
    lemma_decided_wf(recorded(state, event));
}

/// Whatever the driver reports, and however many labels there are, no more
/// tasks run at any time than the limit allows.
pub proof fn lemma_run_bounded(labels: Seq<Seq<char>>, limit: nat, events: Seq<FetchEventView>)
    requires
        limit >= 1,
    ensures
        run(initial(labels, limit), events).wf(),
        run(initial(labels, limit), events).limit == limit,
        run(initial(labels, limit), events).labels == labels,
        run(initial(labels, limit), events).in_flight.len() <= limit,
    decreases events.len(),
{
    if events.len() > 0 {
        lemma_run_bounded(labels, limit, events.drop_last());
        lemma_step_bounded(run(initial(labels, limit), events.drop_last()), events.last());
    } else {
        lemma_initial_wf(labels, limit);
    }
}

/// A task that fails does not fail the fetch: as long as the driver reports no
/// fault of the scheduling, the machine records none, whatever else is
/// reported.
pub proof fn lemma_run_tolerates_failures(state: FetcherView, events: Seq<FetchEventView>)
    requires
        state.fault is None,
        forall|i: int| 0 <= i < events.len() ==> !(#[trigger] events[i] is Fault),
    ensures
        run(state, events).fault is None,
    decreases events.len(),
{
    if events.len() > 0 {
        let front = events.drop_last();
        assert forall|i: int| 0 <= i < front.len() implies !(#[trigger] front[i] is Fault) by {
            assert(front[i] == events[i]);
        }
        lemma_run_tolerates_failures(state, front);
        assert(!(events[events.len() - 1] is Fault));
    }
}

/// The failure of the task that runs for `label` adds one entry to the
/// failures and leaves the fetched members alone; the tasks of the other
/// labels go on.
pub proof fn lemma_failure_costs_one_label(state: FetcherView, label: Seq<char>, cause: ErrorView)
    requires
        state.wf(),
        state.fault is None,
        state.in_flight.contains(label),
    ensures
        ({
            let next = stepped(state, FetchEventView::Failed { label, cause }).0;
            &&& next.fault is None
            &&& next.members == state.members
            &&& next.fetched == state.fetched
            &&& next.failures == state.failures.push(FetchFailureView { label, cause })
        }),
        state.in_flight.len() > 1 || state.started < state.labels.len() ==> !(stepped(
            state,
            FetchEventView::Failed { label, cause },
        ).1 is Finish),
{
    lemma_first_place(state.in_flight, label);
}

/// When the machine finishes without a fault of the scheduling, every label
/// has had its task, none runs any more, and each task has ended either with
/// the group's members or as one entry of the failures.
pub proof fn lemma_finish_accounts_for_every_label(state: FetcherView, event: FetchEventView)
    requires
        state.wf(),
        stepped(state, event).1 is Finish,
        stepped(state, event).0.fault is None,
    ensures
        stepped(state, event).0.started == state.labels.len(),
        stepped(state, event).0.in_flight.len() == 0,
        stepped(state, event).0.fetched.len() + stepped(state, event).0.failures.len()
            == state.labels.len(),
        state.labels.to_multiset() == stepped(state, event).0.fetched.to_multiset().add(
            stepped(state, event).0.failed().to_multiset(),
        ),
        stepped(state, event).0.members.dom() == stepped(state, event).0.fetched.to_set(),
{
    lemma_recorded_wf(state, event);
    lemma_decided_wf(recorded(state, event));
    let end = stepped(state, event).0;
    assert(end.labels.take(end.started as int) =~= end.labels);
    assert(end.in_flight =~= Seq::empty());
    Seq::<Seq<char>>::empty().to_multiset_ensures();
    assert(end.in_flight.to_multiset() =~= Multiset::empty());
    assert(end.accounted_labels() =~= end.fetched.to_multiset().add(end.failed().to_multiset()));
    end.labels.to_multiset_ensures();
    end.fetched.to_multiset_ensures();
    end.failed().to_multiset_ensures();
}

/// The place at which `label` stands first in `labels`, if it stands there.
fn find_first(labels: &Vec<String>, label: &str) -> (found: Option<usize>)
    ensures
        match found {
            Some(at) => {
                &&& at < labels.len()
                &&& labels.deep_view()[at as int] == label@
                &&& forall|j: int| 0 <= j < at ==> #[trigger] labels.deep_view()[j] != label@
            },
            None => !labels.deep_view().contains(label@),
        },
{
    let mut at: usize = 0;
    while at < labels.len()
        invariant
            at <= labels.len(),
            forall|j: int| 0 <= j < at ==> #[trigger] labels.deep_view()[j] != label@,
        decreases labels.len() - at,
    {
        assert(labels.deep_view()[at as int] == labels@[at as int]@);
        if same_id(labels[at].as_str(), label) {
            return Some(at);
        }
        at = at + 1;
    }
    None
}

/// What a fetch has brought together: the members of the groups that could be
/// fetched, and the fetches that failed.
#[derive(Debug)]
pub struct FetchReport {
    /// The members of each group that was fetched, in normal form.
    pub members: GroupMap,
    /// The fetches that failed, in the order in which they ended.
    pub failures: Vec<FetchFailure>,
}

/// What a [`FetchReport`] holds, as plain values.
pub struct FetchReportView {
    pub members: Map<Seq<char>, Seq<Seq<char>>>,
    pub failures: Seq<FetchFailureView>,
}

impl FetchReportView {
    /// The fetch brought nothing while some label failed.
    pub open spec fn is_inconclusive(self) -> bool {
        self.members.len() == 0 && self.failures.len() > 0
    }
}

impl View for FetchReport {
    type V = FetchReportView;

    open spec fn view(&self) -> FetchReportView {
        FetchReportView { members: self.members@, failures: self.failures.deep_view() }
    }
}

impl FetchReport {
    /// Tells whether the fetch brought nothing while some label failed. Such a
    /// report does not say that the groups are empty: it says nothing.
    pub fn is_inconclusive(&self) -> (inconclusive: bool)
        ensures
            inconclusive == self@.is_inconclusive(),
    {
        self.members.len() == 0 && self.failures.len() > 0
    }
}

/// The machine that runs a bounded fetch.
pub struct Fetcher {
    labels: Vec<String>,
    limit: usize,
    started: usize,
    in_flight: Vec<String>,
    fetched: Vec<String>,
    members: GroupMap,
    failures: Vec<FetchFailure>,
    fault: Option<String>,
}

impl View for Fetcher {
    type V = FetcherView;

    closed spec fn view(&self) -> FetcherView {
        FetcherView {
            labels: self.labels.deep_view(),
            limit: self.limit as nat,
            started: self.started as nat,
            in_flight: self.in_flight.deep_view(),
            fetched: self.fetched.deep_view(),
            members: self.members@,
            failures: self.failures.deep_view(),
            fault: match self.fault {
                Some(reason) => Some(reason@),
                None => None,
            },
        }
    }
}

impl Fetcher {
    /// A fetch of `group_labels`, of which at most `concurrency_limit` are
    /// fetched at a time. A label that stands twice is fetched twice.
    pub fn new(group_labels: Vec<String>, concurrency_limit: usize) -> (fetcher: Fetcher)
        requires
            concurrency_limit >= 1,
        ensures
            fetcher@ == initial(group_labels.deep_view(), concurrency_limit as nat),
            fetcher@.wf(),
    {
        let fetcher = Fetcher {
            labels: group_labels,
            limit: concurrency_limit,
            started: 0,
            in_flight: Vec::new(),
            fetched: Vec::new(),
            members: GroupMap::new(),
            failures: Vec::new(),
            fault: None,
        };
        assert(fetcher@.in_flight =~= Seq::empty());
        assert(fetcher@.fetched =~= Seq::empty());
        assert(fetcher@.failures =~= Seq::empty());
        proof {
            lemma_initial_wf(group_labels.deep_view(), concurrency_limit as nat);
        }
        fetcher
    }

    /// The number of tasks that run.
    pub fn in_flight(&self) -> (n: usize)
        ensures
            n == self@.in_flight.len(),
    {
        self.in_flight.len()
    }

    /// Takes the driver's report in.
    fn record(&mut self, event: FetchEvent)
        requires
            old(self)@.wf(),
        ensures
            final(self)@ == recorded(old(self)@, event@),
    {
        if self.fault.is_some() {
            return;
        }
        match event {
            FetchEvent::Proceed => {},
            FetchEvent::Fetched { label, members } => {
                let found = find_first(&self.in_flight, label.as_str());
                if let Some(at) = found {
                    let ghost before = self.in_flight.deep_view();
                    proof {
                        lemma_without_first(before, label@, at as int);
                    }
                    self.in_flight.remove(at);
                    assert(self.in_flight.deep_view() =~= before.remove(at as int));
                    let ghost brought = self.fetched.deep_view();
                    self.fetched.push(label.clone());
                    assert(self.fetched.deep_view() =~= brought.push(label@));
                    let none: Vec<String> = Vec::new();
                    let normal = merge_and_normalize(&members, &none);
                    proof {
                        assert(members.deep_view().to_set().union(none.deep_view().to_set())
                            =~= members.deep_view().to_set());
                    }
                    self.members.insert(label, normal);
                }
            },
            FetchEvent::Failed { label, cause } => {
                let found = find_first(&self.in_flight, label.as_str());
                if let Some(at) = found {
                    let ghost before = self.in_flight.deep_view();
                    let ghost failed = self.failures.deep_view();
                    proof {
                        lemma_without_first(before, label@, at as int);
                    }
                    self.in_flight.remove(at);
                    assert(self.in_flight.deep_view() =~= before.remove(at as int));
                    self.failures.push(FetchFailure { label, cause });
                    assert(self.failures.deep_view() =~= failed.push(
                        FetchFailureView { label: label@, cause: cause@ },
                    ));
                }
            },
            FetchEvent::Fault { reason } => {
                self.in_flight = Vec::new();
                self.fault = Some(reason);
                assert(self.in_flight.deep_view() =~= Seq::empty());
            },
        }
    }

    /// Decides what the driver does next.
    fn decide(&mut self) -> (action: FetchAction)
        requires
            old(self)@.wf(),
        ensures
            (final(self)@, action@) == decided(old(self)@),
    {
        if self.fault.is_some() {
            FetchAction::Finish
        } else if self.started < self.labels.len() && self.in_flight.len() < self.limit {
            let ghost before = self.in_flight.deep_view();
            assert(self.labels.deep_view()[self.started as int] == self.labels@[self.started as int]@);
            let label = self.labels[self.started].clone();
            self.in_flight.push(label.clone());
            assert(self.in_flight.deep_view() =~= before.push(label@));
            self.started = self.started + 1;
            FetchAction::Start { label }
        } else if self.in_flight.len() > 0 {
            FetchAction::Wait
        } else {
            FetchAction::Finish
        }
    }

    /// One step of the fetch: takes the driver's report in and answers with
    /// what the driver has to do next.
    pub fn step(&mut self, event: FetchEvent) -> (action: FetchAction)
        requires
            old(self)@.wf(),
        ensures
            final(self)@.wf(),
            (final(self)@, action@) == stepped(old(self)@, event@),
    {
        proof {
            lemma_step_bounded(self@, event@);
            lemma_recorded_wf(self@, event@);
        }
        self.record(event);
        self.decide()
    }

    /// The result of the fetch: what was brought together, or the fault of the
    /// scheduling that ended it.
    pub fn into_result(self) -> (result: Result<FetchReport, Error>)
        ensures
            match result {
                Ok(report) => self@.fault is None && report@ == (FetchReportView {
                    members: self@.members,
                    failures: self@.failures,
                }),
                Err(error) => self@.fault is Some && error@ == (ErrorView::Concurrency {
                    reason: self@.fault->0,
                }),
            },
    {
        match self.fault {
            Some(reason) => Err(Error::Concurrency { reason }),
            None => Ok(FetchReport { members: self.members, failures: self.failures }),
        }
    }
}

} // verus!
