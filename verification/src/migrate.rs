//! The migration of nodes from a parent group to a target group.
//!
//! A migration is a state machine that does no input or output of its own. In
//! each state it asks one thing of its driver: to have the node ids validated,
//! to fetch the members of the two groups, to show what a dry run would change,
//! to add a node to the target group or to remove it from the parent group. The
//! driver does that and reports back, and the machine moves on. What the two
//! groups will hold is worked out in the step that takes the fetched members
//! in; it needs nothing from outside, so no state waits for it.
//!
//! A migration is not atomic. Each node is added to the target group and then
//! removed from the parent group, and a request that fails is noted and does
//! not stop the requests that follow. The lists that a finished migration hands
//! back are what it set out to reach, not what the store is known to hold.

use crate::error::{Error, ErrorView};
use crate::fetch::{FetchReport, FetchReportView, DEFAULT_CONCURRENCY_LIMIT};
use crate::group::{Group, GroupView};
use crate::reconcile::{compute_migration_state, migrated_parent, migrated_target};
use crate::text::copy_ids;
use vstd::prelude::*;

verus! {

/// Where a migration stands.
#[derive(Clone, Copy, Debug)]
pub enum Phase {
    /// The node ids are being validated.
    Validating,
    /// The members of the two groups are being fetched.
    Reading,
    /// A dry run shows what it would change.
    Reporting,
    /// The node at place `node` of the moving nodes is being added to the
    /// target group.
    Adding { node: usize },
    /// The node at place `node` of the moving nodes is being removed from the
    /// parent group.
    Removing { node: usize },
    /// Nothing is left to do.
    Done,
}

/// A [`Phase`], with places as natural numbers.
pub enum PhaseView {
    Validating,
    Reading,
    Reporting,
    Adding { node: nat },
    Removing { node: nat },
    Done,
}

impl View for Phase {
    type V = PhaseView;

    open spec fn view(&self) -> PhaseView {
        match self {
            Phase::Validating => PhaseView::Validating,
            Phase::Reading => PhaseView::Reading,
            Phase::Reporting => PhaseView::Reporting,
            Phase::Adding { node } => PhaseView::Adding { node: *node as nat },
            Phase::Removing { node } => PhaseView::Removing { node: *node as nat },
            Phase::Done => PhaseView::Done,
        }
    }
}

/// What the driver reports to a migration.
#[derive(Debug)]
pub enum MigrationEvent {
    /// The validator has looked at the node ids: `valid` says whether each is
    /// well formed and a member of the parent group.
    Validated { valid: bool },
    /// The fetch of the two groups has ended.
    Read { report: Result<FetchReport, Error> },
    /// The dry run's report has been shown.
    Reported,
    /// A request to the store has ended, with `failure` where it failed.
    Requested { failure: Option<Error> },
}

/// What a [`MigrationEvent`] holds, as plain values.
pub enum MigrationEventView {
    Validated { valid: bool },
    Read { report: Result<FetchReportView, ErrorView> },
    Reported,
    Requested { failure: Option<ErrorView> },
}

impl View for MigrationEvent {
    type V = MigrationEventView;

    open spec fn view(&self) -> MigrationEventView {
        match self {
            MigrationEvent::Validated { valid } => MigrationEventView::Validated { valid: *valid },
            MigrationEvent::Read { report } => MigrationEventView::Read {
                report: match report {
                    Ok(brought) => Ok(brought@),
                    Err(error) => Err(error@),
                },
            },
            MigrationEvent::Reported => MigrationEventView::Reported,
            MigrationEvent::Requested { failure } => MigrationEventView::Requested {
                failure: match failure {
                    Some(error) => Some(error@),
                    None => None,
                },
            },
        }
    }
}

/// What a migration asks of its driver.
#[derive(Debug)]
pub enum MigrationAction {
    /// Have the validator check that each of `node_ids` is well formed and a
    /// member of the group `parent_label`; report [`MigrationEvent::Validated`].
    Validate { node_ids: Vec<String>, parent_label: String },
    /// Fetch the members of the groups `labels`, at most `concurrency_limit`
    /// at a time; report [`MigrationEvent::Read`].
    Fetch { labels: Vec<String>, concurrency_limit: usize },
    /// Show the two groups as they would be after the migration, and change
    /// nothing; report [`MigrationEvent::Reported`].
    Report { target: Group, parent: Group },
    /// Add `node_id` to the group `label`; report
    /// [`MigrationEvent::Requested`].
    AddMember { label: String, node_id: String },
    /// Remove `node_id` from the group `label`; report
    /// [`MigrationEvent::Requested`].
    RemoveMember { label: String, node_id: String },
    /// Nothing is left to do: take the result.
    Finish,
}

/// What a [`MigrationAction`] holds, as plain values.
pub enum MigrationActionView {
    Validate { node_ids: Seq<Seq<char>>, parent_label: Seq<char> },
    Fetch { labels: Seq<Seq<char>>, concurrency_limit: usize },
    Report { target: GroupView, parent: GroupView },
    AddMember { label: Seq<char>, node_id: Seq<char> },
    RemoveMember { label: Seq<char>, node_id: Seq<char> },
    Finish,
}

impl View for MigrationAction {
    type V = MigrationActionView;

    open spec fn view(&self) -> MigrationActionView {
        match self {
            MigrationAction::Validate { node_ids, parent_label } => MigrationActionView::Validate {
                node_ids: node_ids.deep_view(),
                parent_label: parent_label@,
            },
            MigrationAction::Fetch { labels, concurrency_limit } => MigrationActionView::Fetch {
                labels: labels.deep_view(),
                concurrency_limit: *concurrency_limit,
            },
            MigrationAction::Report { target, parent } => MigrationActionView::Report {
                target: target@,
                parent: parent@,
            },
            MigrationAction::AddMember { label, node_id } => MigrationActionView::AddMember {
                label: label@,
                node_id: node_id@,
            },
            MigrationAction::RemoveMember { label, node_id } => MigrationActionView::RemoveMember {
                label: label@,
                node_id: node_id@,
            },
            MigrationAction::Finish => MigrationActionView::Finish,
        }
    }
}

impl MigrationActionView {
    /// The action changes what the store holds.
    pub open spec fn is_mutating(self) -> bool {
        self is AddMember || self is RemoveMember
    }
}

/// The state of a migration.
pub struct MigrationView {
    /// The group that the nodes leave.
    pub parent_label: Seq<char>,
    /// The group that the nodes join.
    pub target_label: Seq<char>,
    /// The nodes that move.
    pub moving: Seq<Seq<char>>,
    /// Whether the store is to be changed; a dry run where not.
    pub apply: bool,
    /// Where the migration stands.
    pub phase: PhaseView,
    /// The members of the target group after the migration, once worked out.
    pub target_new: Seq<Seq<char>>,
    /// The members of the parent group after the migration, once worked out.
    pub parent_new: Seq<Seq<char>>,
    /// Whether a request to the store has failed.
    pub request_failed: bool,
    /// Why the migration was given up, where it was.
    pub failure: Option<ErrorView>,
}

impl MigrationView {
    /// What holds of every state of a migration.
    pub open spec fn wf(self) -> bool {
        &&& self.phase matches PhaseView::Adding { node } ==> self.apply && node < self.moving.len()
        &&& self.phase matches PhaseView::Removing { node } ==> self.apply && node
            < self.moving.len()
        &&& self.phase is Reporting ==> !self.apply
        &&& self.failure is Some ==> self.phase is Done
        &&& self.request_failed ==> self.apply
    }
}

/// The state in which a migration begins.
pub open spec fn begun(
    parent_label: Seq<char>,
    target_label: Seq<char>,
    moving: Seq<Seq<char>>,
    apply: bool,
) -> MigrationView {
    MigrationView {
        parent_label,
        target_label,
        moving,
        apply,
        phase: PhaseView::Validating,
        target_new: Seq::empty(),
        parent_new: Seq::empty(),
        request_failed: false,
        failure: None,
    }
}

/// The members that a fetch brought for `label`: none where it brought none.
pub open spec fn members_under(members: Map<Seq<char>, Seq<Seq<char>>>, label: Seq<char>) -> Seq<
    Seq<char>,
> {
    if members.contains_key(label) {
        members[label]
    } else {
        Seq::empty()
    }
}

/// The state after the members of the two groups have been read: the new
/// member lists are worked out, and the migration goes on to show them in a
/// dry run, or else to its first request, or to its end where no node moves.
pub open spec fn reconciled(
    state: MigrationView,
    target_existing: Seq<Seq<char>>,
    parent_existing: Seq<Seq<char>>,
) -> MigrationView {
    MigrationView {
        target_new: migrated_target(target_existing, state.moving),
        parent_new: migrated_parent(target_existing, parent_existing, state.moving),
        phase: if !state.apply {
            PhaseView::Reporting
        } else if state.moving.len() > 0 {
            PhaseView::Adding { node: 0 }
        } else {
            PhaseView::Done
        },
        ..state
    }
}

/// The state after the driver's report. A report that the state does not wait
/// for changes nothing. A fetch that brought nothing while some label failed
/// says nothing of the groups: the migration is given up for the reason of the
/// first failure, and no group is taken to be empty.
pub open spec fn advanced(state: MigrationView, event: MigrationEventView) -> MigrationView {
    match (state.phase, event) {
        (PhaseView::Validating, MigrationEventView::Validated { valid }) => if valid {
            MigrationView { phase: PhaseView::Reading, ..state }
        } else {
            MigrationView {
                phase: PhaseView::Done,
                failure: Some(ErrorView::Validation { node_ids: state.moving }),
                ..state
            }
        },
        (PhaseView::Reading, MigrationEventView::Read { report: Ok(brought) }) => {
            if brought.is_inconclusive() {
                MigrationView {
                    phase: PhaseView::Done,
                    failure: Some(brought.failures[0].cause),
                    ..state
                }
            } else {
                reconciled(
                    state,
                    members_under(brought.members, state.target_label),
                    members_under(brought.members, state.parent_label),
                )
            }
        },
        (PhaseView::Reading, MigrationEventView::Read { report: Err(error) }) => MigrationView {
            phase: PhaseView::Done,
            failure: Some(error),
            ..state
        },
        (PhaseView::Reporting, MigrationEventView::Reported) => MigrationView {
            phase: PhaseView::Done,
            ..state
        },
        (PhaseView::Adding { node }, MigrationEventView::Requested { failure }) => MigrationView {
            phase: PhaseView::Removing { node },
            request_failed: state.request_failed || failure is Some,
            ..state
        },
        (PhaseView::Removing { node }, MigrationEventView::Requested { failure }) => MigrationView {
            phase: if node + 1 < state.moving.len() {
                PhaseView::Adding { node: node + 1 }
            } else {
                PhaseView::Done
            },
            request_failed: state.request_failed || failure is Some,
            ..state
        },
        _ => state,
    }
}

/// What a migration in `state` asks of its driver.
pub open spec fn action_of(state: MigrationView) -> MigrationActionView {
    match state.phase {
        PhaseView::Validating => MigrationActionView::Validate {
            node_ids: state.moving,
            parent_label: state.parent_label,
        },
        PhaseView::Reading => MigrationActionView::Fetch {
            labels: seq![state.target_label, state.parent_label],
            concurrency_limit: DEFAULT_CONCURRENCY_LIMIT,
        },
        PhaseView::Reporting => MigrationActionView::Report {
            target: GroupView {
                label: state.target_label,
                description: Seq::empty(),
                tags: Seq::empty(),
                members: state.target_new,
            },
            parent: GroupView {
                label: state.parent_label,
                description: Seq::empty(),
                tags: Seq::empty(),
                members: state.parent_new,
            },
        },
        PhaseView::Adding { node } => MigrationActionView::AddMember {
            label: state.target_label,
            node_id: state.moving[node as int],
        },
        PhaseView::Removing { node } => MigrationActionView::RemoveMember {
            label: state.parent_label,
            node_id: state.moving[node as int],
        },
        PhaseView::Done => MigrationActionView::Finish,
    }
}

/// What a migration has come to: nothing before it is done; then the new
/// member lists of the target and of the parent group, or why it was given up.
pub open spec fn outcome_of(state: MigrationView) -> Option<
    Result<(Seq<Seq<char>>, Seq<Seq<char>>), ErrorView>,
> {
    if state.phase is Done {
        match state.failure {
            Some(error) => Some(Err(error)),
            None => Some(Ok((state.target_new, state.parent_new))),
        }
    } else {
        None
    }
}

/// The state after a run of reports.
pub open spec fn run(state: MigrationView, events: Seq<MigrationEventView>) -> MigrationView
    decreases events.len(),
{
    if events.len() == 0 {
        state
    } else {
        advanced(run(state, events.drop_last()), events.last())
    }
}

/// Each report keeps the state well formed, and changes neither the groups,
/// nor the moving nodes, nor whether the migration is a dry run.
pub proof fn lemma_advanced_wf(state: MigrationView, event: MigrationEventView)
    requires
        state.wf(),
    ensures
        advanced(state, event).wf(),
        advanced(state, event).apply == state.apply,
        advanced(state, event).moving == state.moving,
        advanced(state, event).parent_label == state.parent_label,
        advanced(state, event).target_label == state.target_label,
{
}

/// A dry run never asks for a change of the store: whatever the driver
/// reports, no state of it asks to add or to remove a member.
pub proof fn lemma_dry_run_is_pure(state: MigrationView, events: Seq<MigrationEventView>)
    requires
        state.wf(),
        !state.apply,
    ensures
        run(state, events).wf(),
        !run(state, events).apply,
        !action_of(run(state, events)).is_mutating(),
        !run(state, events).request_failed,
    decreases events.len(),
{
    if events.len() > 0 {
        lemma_dry_run_is_pure(state, events.drop_last());
        lemma_advanced_wf(run(state, events.drop_last()), events.last());
    }
}

/// A migration that is done stays done, with the same outcome, and asks for
/// nothing more.
pub proof fn lemma_done_is_final(state: MigrationView, events: Seq<MigrationEventView>)
    requires
        state.phase is Done,
    ensures
        run(state, events) == state,
        action_of(run(state, events)) is Finish,
    decreases events.len(),
{
    if events.len() > 0 {
        lemma_done_is_final(state, events.drop_last());
    }
}

/// Node ids that the validator refuses end the migration at once with a
/// validation error: nothing is fetched and nothing is changed, whatever is
/// reported afterwards.
pub proof fn lemma_invalid_nodes_stop(
    parent_label: Seq<char>,
    target_label: Seq<char>,
    moving: Seq<Seq<char>>,
    apply: bool,
    events: Seq<MigrationEventView>,
)
    ensures
        ({
            let refused = advanced(
                begun(parent_label, target_label, moving, apply),
                MigrationEventView::Validated { valid: false },
            );
            &&& outcome_of(refused) == Some(
                Err::<(Seq<Seq<char>>, Seq<Seq<char>>), ErrorView>(
                    ErrorView::Validation { node_ids: moving },
                ),
            )
            &&& run(refused, events) == refused
            &&& action_of(run(refused, events)) is Finish
        }),
{
    let refused = advanced(
        begun(parent_label, target_label, moving, apply),
        MigrationEventView::Validated { valid: false },
    );
    lemma_done_is_final(refused, events);
}

/// The lists that a migration works out from what a fetch brought do not
/// depend on whether it is a dry run, and they are those of the reconciler.
pub proof fn lemma_plan_ignores_apply(
    parent_label: Seq<char>,
    target_label: Seq<char>,
    moving: Seq<Seq<char>>,
    brought: FetchReportView,
)
    requires
        !brought.is_inconclusive(),
    ensures
        ({
            let events = seq![
                MigrationEventView::Validated { valid: true },
                MigrationEventView::Read { report: Ok(brought) },
            ];
            let dry = run(begun(parent_label, target_label, moving, false), events);
            let changing = run(begun(parent_label, target_label, moving, true), events);
            let target_existing = members_under(brought.members, target_label);
            let parent_existing = members_under(brought.members, parent_label);
            &&& dry.target_new == migrated_target(target_existing, moving)
            &&& dry.parent_new == migrated_parent(target_existing, parent_existing, moving)
            &&& changing.target_new == dry.target_new
            &&& changing.parent_new == dry.parent_new
            &&& dry.phase is Reporting
        }),
{
    let events = seq![
        MigrationEventView::Validated { valid: true },
        MigrationEventView::Read { report: Ok(brought) },
    ];
    reveal_with_fuel(run, 3);
    assert(events.drop_last() =~= seq![MigrationEventView::Validated { valid: true }]);
    assert(events.drop_last().drop_last() =~= Seq::<MigrationEventView>::empty());
}

/// A migration asks the store for nothing but the nodes that move: each
/// request adds one of them to the target group or removes one of them from
/// the parent group.
pub proof fn lemma_requests_name_moving_nodes(state: MigrationView)
    requires
        state.wf(),
    ensures
        action_of(state) matches MigrationActionView::AddMember { label, node_id } ==> label
            == state.target_label && state.moving.contains(node_id),
        action_of(state) matches MigrationActionView::RemoveMember { label, node_id } ==> label
            == state.parent_label && state.moving.contains(node_id),
{
}

/// The two requests for one node: it is added to the target group, then
/// removed from the parent group, and whatever the two requests come to, the
/// migration goes on to the next node, or ends after the last.
pub proof fn lemma_node_is_added_then_removed(
    state: MigrationView,
    node: nat,
    added: Option<ErrorView>,
    removed: Option<ErrorView>,
)
    requires
        state.wf(),
        state.phase == (PhaseView::Adding { node }),
    ensures
        action_of(state) == (MigrationActionView::AddMember {
            label: state.target_label,
            node_id: state.moving[node as int],
        }),
        action_of(advanced(state, MigrationEventView::Requested { failure: added }))
            == (MigrationActionView::RemoveMember {
            label: state.parent_label,
            node_id: state.moving[node as int],
        }),
        ({
            let after = advanced(
                advanced(state, MigrationEventView::Requested { failure: added }),
                MigrationEventView::Requested { failure: removed },
            );
            &&& after.wf()
            &&& after.phase == if node + 1 < state.moving.len() {
                PhaseView::Adding { node: node + 1 }
            } else {
                PhaseView::Done
            }
            &&& after.failure is None
            &&& after.target_new == state.target_new
            &&& after.parent_new == state.parent_new
            &&& after.moving == state.moving
            &&& after.request_failed == (state.request_failed || added is Some || removed is Some)
        }),
{
}

/// The reports of the requests of a migration that changes the store: one for
/// each answer.
pub open spec fn requested(answers: Seq<Option<ErrorView>>) -> Seq<MigrationEventView> {
    answers.map_values(|failure: Option<ErrorView>| MigrationEventView::Requested { failure })
}

/// A migration that changes the store comes to its end once each node from
/// `node` on has had its two requests, whatever they came to, and hands back
/// the lists that it worked out.
pub proof fn lemma_apply_completes(
    state: MigrationView,
    node: nat,
    answers: Seq<Option<ErrorView>>,
)
    requires
        state.wf(),
        state.phase == (PhaseView::Adding { node }),
        answers.len() == 2 * (state.moving.len() - node),
    ensures
        run(state, requested(answers)).phase is Done,
        outcome_of(run(state, requested(answers))) == Some(
            Ok::<(Seq<Seq<char>>, Seq<Seq<char>>), ErrorView>((state.target_new, state.parent_new)),
        ),
    decreases state.moving.len() - node,
{
    let events = requested(answers);
    let first = MigrationEventView::Requested { failure: answers[0] };
    let second = MigrationEventView::Requested { failure: answers[1] };
    let after = advanced(advanced(state, first), second);
    lemma_node_is_added_then_removed(state, node, answers[0], answers[1]);
    assert(events[0] == first && events[1] == second);
    lemma_run_split(state, events, 2);
    assert(events.take(2) =~= seq![first, second]);
    reveal_with_fuel(run, 3);
    assert(seq![first, second].drop_last() =~= seq![first]);
    assert(seq![first].drop_last() =~= Seq::<MigrationEventView>::empty());
    assert(run(state, events.take(2)) == after);
    if node + 1 < state.moving.len() {
        assert(events.skip(2) =~= requested(answers.skip(2)));
        lemma_apply_completes(after, node + 1, answers.skip(2));
    } else {
        assert(events.skip(2) =~= Seq::<MigrationEventView>::empty());
    }
}

/// A run of reports is the run of its first `n` followed by the run of the
/// rest.
pub proof fn lemma_run_split(state: MigrationView, events: Seq<MigrationEventView>, n: int)
    requires
        0 <= n <= events.len(),
    ensures
        run(state, events) == run(run(state, events.take(n)), events.skip(n)),
    decreases events.len() - n,
{
    if n == events.len() {
        assert(events.take(n) =~= events);
        assert(events.skip(n) =~= Seq::<MigrationEventView>::empty());
    } else {
        let front = events.drop_last();
        lemma_run_split(state, front, n);
        assert(front.take(n) =~= events.take(n));
        assert(events.skip(n).drop_last() =~= front.skip(n));
        assert(events.skip(n).last() == events.last());
    }
}

/// The machine that plans and runs one migration.
#[derive(Debug)]
pub struct MigrationPlanner {
    parent_label: String,
    target_label: String,
    moving: Vec<String>,
    apply: bool,
    phase: Phase,
    target_new: Vec<String>,
    parent_new: Vec<String>,
    request_failed: bool,
    failure: Option<Error>,
}

impl View for MigrationPlanner {
    type V = MigrationView;

    closed spec fn view(&self) -> MigrationView {
        MigrationView {
            parent_label: self.parent_label@,
            target_label: self.target_label@,
            moving: self.moving.deep_view(),
            apply: self.apply,
            phase: self.phase@,
            target_new: self.target_new.deep_view(),
            parent_new: self.parent_new.deep_view(),
            request_failed: self.request_failed,
            failure: match self.failure {
                Some(error) => Some(error@),
                None => None,
            },
        }
    }
}

impl MigrationPlanner {
    /// The migration of `moving_nodes` from the group `parent_label` to the
    /// group `target_label`. It changes the store where `apply` is set, and is
    /// a dry run where not.
    pub fn new(
        parent_label: String,
        target_label: String,
        moving_nodes: Vec<String>,
        apply: bool,
    ) -> (planner: MigrationPlanner)
        ensures
            planner@ == begun(parent_label@, target_label@, moving_nodes.deep_view(), apply),
            planner@.wf(),
    {
        let planner = MigrationPlanner {
            parent_label,
            target_label,
            moving: moving_nodes,
            apply,
            phase: Phase::Validating,
            target_new: Vec::new(),
            parent_new: Vec::new(),
            request_failed: false,
            failure: None,
        };
        assert(planner@.target_new =~= Seq::empty());
        assert(planner@.parent_new =~= Seq::empty());
        planner
    }

    /// Where the migration stands.
    pub fn phase(&self) -> (phase: Phase)
        ensures
            phase@ == self@.phase,
    {
        self.phase
    }

    /// Tells whether nothing is left to do.
    pub fn is_done(&self) -> (done: bool)
        ensures
            done == (self@.phase is Done),
    {
        match self.phase {
            Phase::Done => true,
            _ => false,
        }
    }

    /// Tells whether a request to the store has failed, so that the store may
    /// hold only a part of the migration.
    pub fn request_failed(&self) -> (failed: bool)
        ensures
            failed == self@.request_failed,
    {
        self.request_failed
    }

    /// What the migration asks of its driver in the state in which it is.
    pub fn action(&self) -> (action: MigrationAction)
        requires
            self@.wf(),
        ensures
            action@ == action_of(self@),
    {
        match self.phase {
            Phase::Validating => MigrationAction::Validate {
                node_ids: copy_ids(&self.moving),
                parent_label: self.parent_label.clone(),
            },
            Phase::Reading => {
                let mut labels: Vec<String> = Vec::new();
                labels.push(self.target_label.clone());
                labels.push(self.parent_label.clone());
                assert(labels.deep_view() =~= seq![self.target_label@, self.parent_label@]);
                MigrationAction::Fetch { labels, concurrency_limit: DEFAULT_CONCURRENCY_LIMIT }
            },
            Phase::Reporting => {
                let target = Group {
                    label: self.target_label.clone(),
                    description: String::new(),
                    tags: Vec::new(),
                    members: copy_ids(&self.target_new),
                };
                let parent = Group {
                    label: self.parent_label.clone(),
                    description: String::new(),
                    tags: Vec::new(),
                    members: copy_ids(&self.parent_new),
                };
                assert(target.tags.deep_view() =~= Seq::empty());
                assert(parent.tags.deep_view() =~= Seq::empty());
                MigrationAction::Report { target, parent }
            },
            Phase::Adding { node } => {
                assert(self.moving.deep_view()[node as int] == self.moving@[node as int]@);
                MigrationAction::AddMember {
                    label: self.target_label.clone(),
                    node_id: self.moving[node].clone(),
                }
            },
            Phase::Removing { node } => {
                assert(self.moving.deep_view()[node as int] == self.moving@[node as int]@);
                MigrationAction::RemoveMember {
                    label: self.parent_label.clone(),
                    node_id: self.moving[node].clone(),
                }
            },
            Phase::Done => MigrationAction::Finish,
        }
    }

    /// Takes the members that the fetch brought and works out the new member
    /// lists of the two groups.
    fn reconcile(&mut self, brought: FetchReport)
        requires
            old(self)@.wf(),
            old(self)@.phase is Reading,
        ensures
            final(self)@ == reconciled(
                old(self)@,
                members_under(brought@.members, old(self)@.target_label),
                members_under(brought@.members, old(self)@.parent_label),
            ),
    {
        let none: Vec<String> = Vec::new();
        assert(none.deep_view() =~= Seq::empty());
        let target_existing = match brought.members.get(self.target_label.as_str()) {
            Some(members) => members,
            None => &none,
        };
        let parent_existing = match brought.members.get(self.parent_label.as_str()) {
            Some(members) => members,
            None => &none,
        };
        let (target_new, parent_new) = compute_migration_state(
            target_existing,
            parent_existing,
            &self.moving,
        );
        self.target_new = target_new;
        self.parent_new = parent_new;
        self.phase = if !self.apply {
            Phase::Reporting
        } else if self.moving.len() > 0 {
            Phase::Adding { node: 0 }
        } else {
            Phase::Done
        };
    }

    /// One step of the migration: takes the driver's report in and answers
    /// with what the driver has to do next.
    pub fn step(&mut self, event: MigrationEvent) -> (action: MigrationAction)
        requires
            old(self)@.wf(),
        ensures
            final(self)@.wf(),
            final(self)@ == advanced(old(self)@, event@),
            action@ == action_of(final(self)@),
    {
        proof {
            lemma_advanced_wf(self@, event@);
        }
        match event {
            MigrationEvent::Validated { valid } => {
                if let Phase::Validating = self.phase {
                    if valid {
                        self.phase = Phase::Reading;
                    } else {
                        self.failure = Some(Error::Validation { node_ids: copy_ids(&self.moving) });
                        self.phase = Phase::Done;
                    }
                }
            },
            MigrationEvent::Read { report } => {
                if let Phase::Reading = self.phase {
                    match report {
                        Ok(brought) => {
                            if brought.is_inconclusive() {
                                let mut failures = brought.failures;
                                assert(brought@.failures[0] == failures@[0].deep_view());
                                let first = failures.swap_remove(0);
                                self.failure = Some(first.cause);
                                self.phase = Phase::Done;
                            } else {
                                self.reconcile(brought);
                            }
                        },
                        Err(error) => {
                            self.failure = Some(error);
                            self.phase = Phase::Done;
                        },
                    }
                }
            },
            MigrationEvent::Reported => {
                if let Phase::Reporting = self.phase {
                    self.phase = Phase::Done;
                }
            },
            MigrationEvent::Requested { failure } => {
                match self.phase {
                    Phase::Adding { node } => {
                        self.request_failed = self.request_failed || failure.is_some();
                        self.phase = Phase::Removing { node };
                    },
                    Phase::Removing { node } => {
                        assert(self@.phase matches PhaseView::Removing { node: place } && place
                            == node);
                        assert(self@.moving.len() == self.moving.len());
                        self.request_failed = self.request_failed || failure.is_some();
                        self.phase = if node + 1 < self.moving.len() {
                            Phase::Adding { node: node + 1 }
                        } else {
                            Phase::Done
                        };
                    },
                    _ => {},
                }
            },
        }
        self.action()
    }

    /// What the migration has come to: nothing before it is done; then the
    /// new member lists of the target and of the parent group, in this order,
    /// or why the migration was given up. The lists are what the migration set
    /// out to reach, in a dry run as in a run that changes the store.
    pub fn into_result(self) -> (outcome: Option<Result<(Vec<String>, Vec<String>), Error>>)
        ensures
            match outcome {
                None => outcome_of(self@) is None,
                Some(Ok(lists)) => outcome_of(self@) == Some(
                    Ok::<(Seq<Seq<char>>, Seq<Seq<char>>), ErrorView>(
                        (lists.0.deep_view(), lists.1.deep_view()),
                    ),
                ),
                Some(Err(error)) => outcome_of(self@) == Some(
                    Err::<(Seq<Seq<char>>, Seq<Seq<char>>), ErrorView>(error@),
                ),
            },
    {
        match self.phase {
            Phase::Done => match self.failure {
                Some(error) => Some(Err(error)),
                None => Some(Ok((self.target_new, self.parent_new))),
            },
            _ => None,
        }
    }
}

} // verus!
