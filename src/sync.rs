use vstd::prelude::*;
use crate::store::{persist_view, PersistError, Store, MAX_TX_ROWS};
use crate::types::Block;

verus! {

/// Wait after a cycle that ended caught up.
pub const POLL_INTERVAL_MS: u64 = 800;

/// Wait after a cycle that ended in an error.
pub const BACKOFF_MS: u64 = 5800;

/// Where the ingestion cycle stands.
#[derive(PartialEq, Eq, Structural, Debug, Clone, Copy)]
pub enum Phase {
    /// Between cycles.
    Idle,
    /// Waiting for the source's latest height.
    CheckTip,
    /// Waiting for the block at `height`; the cycle runs up to `target`.
    Fetch { height: u64, target: u64 },
}

/// Why a cycle was aborted.
#[derive(PartialEq, Eq, Structural, Debug, Clone, Copy)]
pub enum SyncError {
    /// The source could not be reached, timed out, or sent a malformed answer.
    Source,
    /// The source sent a block for another height than the one requested.
    HeightMismatch { requested: u64, got: u64 },
    /// The store refused the block.
    Persist(PersistError),
    /// An event arrived that the current phase does not wait for.
    Unexpected,
}

/// What the surrounding loop reports back to the engine.
pub enum Event {
    /// The wait is over: start a cycle.
    Wake,
    /// The source's latest height.
    RemoteTip(u64),
    /// The block the engine asked for, and the time it arrived.
    BlockFetched(Block, u64),
    /// The request to the source failed.
    SourceFailed,
}

/// What the engine asks the surrounding loop to do next.
#[derive(PartialEq, Eq, Structural, Debug, Clone, Copy)]
pub enum Action {
    /// Ask the source for its latest height, then send `RemoteTip` or `SourceFailed`.
    QueryRemoteTip,
    /// Ask the source for the block at this height, then send `BlockFetched` or `SourceFailed`.
    FetchBlock(u64),
    /// Wait `millis`, after reporting `error` if there is one, then send `Wake`.
    Sleep { millis: u64, error: Option<SyncError> },
}

/// The ingestion engine: the store it writes and the phase of the current cycle.
pub struct Engine {
    pub store: Store,
    pub phase: Phase,
}

/// The wait that follows an aborted cycle, reporting `e`.
pub open spec fn backoff(e: SyncError) -> Action {
    Action::Sleep { millis: BACKOFF_MS, error: Some(e) }
}

/// One step of the cycle: from engine `e0` and event `ev` to engine `e1` and action `a`.
pub open spec fn step_post(e0: Engine, ev: Event, e1: Engine, a: Action) -> bool {
    match (e0.phase, ev) {
        (Phase::Idle, Event::Wake) => e1.store == e0.store && e1.phase == Phase::CheckTip
            && a == Action::QueryRemoteTip,
        (Phase::CheckTip, Event::RemoteTip(r)) => e1.store == e0.store && if r <= e0.store.tip() {
            e1.phase == Phase::Idle && a == (Action::Sleep { millis: POLL_INTERVAL_MS, error: None })
        } else {
            e1.phase == (Phase::Fetch { height: (e0.store.tip() + 1) as u64, target: r })
                && a == Action::FetchBlock((e0.store.tip() + 1) as u64)
        },
        (Phase::Fetch { height, target }, Event::BlockFetched(b, now)) => if b.height != height {
            e1.store == e0.store && e1.phase == Phase::Idle
                && a == backoff(SyncError::HeightMismatch { requested: height, got: b.height })
        } else if e0.store@.rows.len() + b.txs@.len() > MAX_TX_ROWS {
            e1.store == e0.store && e1.phase == Phase::Idle
                && a == backoff(SyncError::Persist(PersistError::StoreFull))
        } else {
            e1.store@ == persist_view(e0.store@, b) && e1.store.updated_at() == now && if height == target {
                e1.phase == Phase::CheckTip && a == Action::QueryRemoteTip
            } else {
                e1.phase == (Phase::Fetch { height: (height + 1) as u64, target })
                    && a == Action::FetchBlock((height + 1) as u64)
            }
        },
        (_, Event::SourceFailed) => e1.store == e0.store && e1.phase == Phase::Idle && a == backoff(SyncError::Source),
        _ => e1.store == e0.store && e1.phase == Phase::Idle && a == backoff(SyncError::Unexpected),
    }
}

impl Engine {
    /// The store is well formed, and a fetch in progress is for the height just above the tip.
    pub open spec fn wf(&self) -> bool {
        &&& self.store.wf()
        &&& match self.phase {
            Phase::Fetch { height, target } => height == self.store.tip() + 1 && height <= target,
            _ => true,
        }
    }

    /// An engine over `store`, between cycles.
    pub fn new(store: Store) -> (e: Engine)
        requires
            store.wf(),
        ensures
            e.wf(),
            e.store == store,
            e.phase == Phase::Idle,
    {
        Engine { store, phase: Phase::Idle }
    }

    /// Advances the cycle by one event. Heights are fetched one at a time in
    /// increasing order, each persisted before the next is asked for; any
    /// failure ends the cycle with the store as it was and asks for the backoff
    /// wait; a cycle that finds the source no higher than the tip asks for the
    /// poll wait.
    pub fn step(&mut self, ev: Event) -> (a: Action)
        requires
            old(self).wf(),
        ensures
            final(self).wf(),
            step_post(*old(self), ev, *final(self), a),
    {
        match (self.phase, ev) {
            (Phase::Idle, Event::Wake) => {
                self.phase = Phase::CheckTip;
                Action::QueryRemoteTip
            },
            (Phase::CheckTip, Event::RemoteTip(r)) => {
                let tip = self.store.status();
                if r <= tip {
                    self.phase = Phase::Idle;
                    Action::Sleep { millis: POLL_INTERVAL_MS, error: None }
                } else {
                    self.phase = Phase::Fetch { height: tip + 1, target: r };
                    Action::FetchBlock(tip + 1)
                }
            },
            (Phase::Fetch { height, target }, Event::BlockFetched(b, now)) => {
                if b.height != height {
                    self.phase = Phase::Idle;
                    return Action::Sleep {
                        millis: BACKOFF_MS,
                        error: Some(SyncError::HeightMismatch { requested: height, got: b.height }),
                    };
                }
                match self.store.ingest_block(&b, now) {
                    Ok(_) => {
                        if height == target {
                            self.phase = Phase::CheckTip;
                            Action::QueryRemoteTip
                        } else {
                            self.phase = Phase::Fetch { height: height + 1, target };
                            Action::FetchBlock(height + 1)
                        }
                    },
                    Err(e) => {
                        self.phase = Phase::Idle;
                        Action::Sleep { millis: BACKOFF_MS, error: Some(SyncError::Persist(e)) }
                    },
                }
            },
            (_, Event::SourceFailed) => {
                self.phase = Phase::Idle;
                Action::Sleep { millis: BACKOFF_MS, error: Some(SyncError::Source) }
            },
            _ => {
                self.phase = Phase::Idle;
                Action::Sleep { millis: BACKOFF_MS, error: Some(SyncError::Unexpected) }
            },
        }
    }
}

} // verus!
