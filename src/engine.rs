use vstd::prelude::*;
use crate::types::{BlockNum, GroupState};

verus! {

/// Pause between two sync cycles, and after a feed that is not ready yet.
pub const INDEXING_INTERVAL_SECS: u64 = 300;

/// Pause after an infrastructure failure (permit pool, readiness query).
pub const INFRA_RETRY_SECS: u64 = 5;

/// Pause after a failed query of the chain head.
pub const BLOCK_RETRY_SECS: u64 = 1;

/// Kinds of failure of a sync cycle.
#[derive(Clone, Copy, Debug, PartialEq, Eq, Structural)]
pub enum SyncErrorKind {
    /// A store or RPC call failed; retried later.
    TransientInfra,
    /// The membership feed has not caught up; retried later.
    NotReady,
    /// Sampled members failed re-validation; the new tree was discarded.
    SanityFailed,
    /// The membership source found an inconsistency it cannot resolve.
    InvalidState,
}

/// What the engine learns from the outside work it asked for.
#[derive(Clone, Copy, Debug, PartialEq, Eq, Structural)]
pub enum LoopEvent {
    PermitAcquired,
    PermitFailed,
    ReadyChecked(bool),
    ReadyCheckFailed,
    BlockFetched(BlockNum),
    BlockFetchFailed,
    SyncSucceeded,
    SyncFailed(SyncErrorKind),
}

/// The outside work the engine asks for next.
#[derive(Clone, Copy, Debug, PartialEq, Eq, Structural)]
pub enum LoopAction {
    /// Wait for a permit of the shared concurrency gate.
    AcquirePermit,
    /// Ask the membership source whether its feed is ready (permit held).
    CheckReady,
    /// Ask the chain for its latest block number (permit held).
    FetchLatestBlock,
    /// Run a sync cycle to this block (permit held).
    SyncToBlock(BlockNum),
    /// Sleep this many seconds (no permit held), then start again.
    Sleep(u64),
    /// Release the permit, sleep this many seconds, then start again.
    ReleaseAndSleep(u64),
    /// Release the permit, persist the group as unrecordable, and stop.
    ReleaseAndMarkUnrecordable,
    /// Do nothing more for this group.
    Stop,
}

/// Whether a sync failure ends the group's engine for good.
pub open spec fn is_fatal(kind: SyncErrorKind) -> bool {
    kind == SyncErrorKind::InvalidState
}

/// The first action of a loop iteration.
pub open spec fn start_action(state: GroupState) -> LoopAction {
    match state {
        GroupState::Active => LoopAction::AcquirePermit,
        GroupState::Unrecordable => LoopAction::Stop,
    }
}

/// The engine's transition on an event.
pub open spec fn transition(state: GroupState, event: LoopEvent) -> (GroupState, LoopAction) {
    match state {
        GroupState::Unrecordable => (GroupState::Unrecordable, LoopAction::Stop),
        GroupState::Active => match event {
            LoopEvent::PermitAcquired => (state, LoopAction::CheckReady),
            LoopEvent::PermitFailed => (state, LoopAction::Sleep(INFRA_RETRY_SECS)),
            LoopEvent::ReadyChecked(true) => (state, LoopAction::FetchLatestBlock),
            LoopEvent::ReadyChecked(false) => (
                state,
                LoopAction::ReleaseAndSleep(INDEXING_INTERVAL_SECS),
            ),
            LoopEvent::ReadyCheckFailed => (state, LoopAction::ReleaseAndSleep(INFRA_RETRY_SECS)),
            LoopEvent::BlockFetched(n) => (state, LoopAction::SyncToBlock(n)),
            LoopEvent::BlockFetchFailed => (state, LoopAction::ReleaseAndSleep(BLOCK_RETRY_SECS)),
            LoopEvent::SyncSucceeded => (state, LoopAction::ReleaseAndSleep(INDEXING_INTERVAL_SECS)),
            LoopEvent::SyncFailed(kind) => if is_fatal(kind) {
                (GroupState::Unrecordable, LoopAction::ReleaseAndMarkUnrecordable)
            } else {
                (state, LoopAction::ReleaseAndSleep(INDEXING_INTERVAL_SECS))
            },
        },
    }
}

/// Whether a sync failure of this kind ends the group's engine for good.
pub fn fatal(kind: SyncErrorKind) -> (r: bool)
    ensures
        r == is_fatal(kind),
{
    match kind {
        SyncErrorKind::InvalidState => true,
        _ => false,
    }
}

/// The first action of a loop iteration: acquire a permit, or stop for a
/// group that is unrecordable.
pub fn start(state: GroupState) -> (r: LoopAction)
    ensures
        r == start_action(state),
{
    match state {
        GroupState::Active => LoopAction::AcquirePermit,
        GroupState::Unrecordable => LoopAction::Stop,
    }
}

/// The engine's next state and action after an event.
pub fn step(state: GroupState, event: LoopEvent) -> (r: (GroupState, LoopAction))
    ensures
        r == transition(state, event),
{
    match state {
        GroupState::Unrecordable => (GroupState::Unrecordable, LoopAction::Stop),
        GroupState::Active => {
            let action = match event {
                LoopEvent::PermitAcquired => LoopAction::CheckReady,
                LoopEvent::PermitFailed => LoopAction::Sleep(INFRA_RETRY_SECS),
                LoopEvent::ReadyChecked(ready) => if ready {
                    LoopAction::FetchLatestBlock
                } else {
                    LoopAction::ReleaseAndSleep(INDEXING_INTERVAL_SECS)
                },
                LoopEvent::ReadyCheckFailed => LoopAction::ReleaseAndSleep(INFRA_RETRY_SECS),
                LoopEvent::BlockFetched(n) => LoopAction::SyncToBlock(n),
                LoopEvent::BlockFetchFailed => LoopAction::ReleaseAndSleep(BLOCK_RETRY_SECS),
                LoopEvent::SyncSucceeded => LoopAction::ReleaseAndSleep(INDEXING_INTERVAL_SECS),
                LoopEvent::SyncFailed(kind) => {
                    if fatal(kind) {
                        return (GroupState::Unrecordable, LoopAction::ReleaseAndMarkUnrecordable);
                    }
                    LoopAction::ReleaseAndSleep(INDEXING_INTERVAL_SECS)
                },
            };
            (GroupState::Active, action)
        },
    }
}

/// The state after a run of events.
pub open spec fn state_after(state: GroupState, events: Seq<LoopEvent>) -> GroupState
    decreases events.len(),
{
    if events.len() == 0 {
        state
    } else {
        transition(state_after(state, events.drop_last()), events.last()).0
    }
}

/// The action taken on the last event of a nonempty run.
pub open spec fn last_action(state: GroupState, events: Seq<LoopEvent>) -> LoopAction {
    transition(state_after(state, events.drop_last()), events.last()).1
}

/// An engine that has failed fatally stays unrecordable and asks for no
/// further work of any kind: whatever events follow, its only action is to stop.
pub proof fn lemma_fatal_is_terminal(state: GroupState, kind: SyncErrorKind, later: Seq<LoopEvent>)
    requires
        state == GroupState::Active,
        is_fatal(kind),
    ensures
        transition(state, LoopEvent::SyncFailed(kind)) == (
        GroupState::Unrecordable,
        LoopAction::ReleaseAndMarkUnrecordable),
        state_after(GroupState::Unrecordable, later) == GroupState::Unrecordable,
        start_action(state_after(GroupState::Unrecordable, later)) == LoopAction::Stop,
        forall|k: int|
            0 < k <= later.len() ==> last_action(GroupState::Unrecordable, #[trigger] later.subrange(0, k))
                == LoopAction::Stop,
    decreases later.len(),
{
    if later.len() > 0 {
        lemma_fatal_is_terminal(state, kind, later.drop_last());
        assert forall|k: int|
            0 < k <= later.len() implies last_action(GroupState::Unrecordable, #[trigger] later.subrange(0, k))
                == LoopAction::Stop by {
            let pre = later.subrange(0, k).drop_last();
            if k > 1 {
                assert(pre == later.drop_last().subrange(0, k - 1));
            } else {
                assert(pre =~= Seq::<LoopEvent>::empty());
            }
        }
    }
}

/// Only the fatal failure kind changes an active engine's state: every other
/// event, transient failures included, leaves it active.
pub proof fn lemma_transient_failures_never_escalate(event: LoopEvent)
    requires
        !(event matches LoopEvent::SyncFailed(kind) && is_fatal(kind)),
    ensures
        transition(GroupState::Active, event).0 == GroupState::Active,
{
}

} // verus!
