//! The poll loop as a state machine.
//!
//! The loop itself does no input or output. It is told what happened (an
//! [`Event`]) and answers with what to do next (an [`Action`]); the caller
//! performs the action and reports its outcome as the next event. One cycle
//! runs `Idle`, `Fetching`, `Routing`, `Flushing`, `Sleeping` and back to
//! `Idle`.

use crate::config::DEFAULT_POLL_INTERVAL_SECS;
use crate::file_processing::{routing_of, SmartContract, SmartContractView};
use crate::transaction::{
    row_views, transaction_views, Transaction, TransactionView, TxInfo, TxInfoView,
};
use crate::watermark::{advance, advanced};
use vstd::prelude::*;

verus! {

/// Where in its cycle the poll loop stands.
#[derive(Clone, Copy, Debug, PartialEq, Eq, Structural)]
pub enum Phase {
    /// Between cycles, waiting for the next tick.
    Idle,
    /// Waiting for the store to answer with the rows after the watermark.
    Fetching,
    /// Waiting for the front pending row to be merged into its partition.
    Routing,
    /// Waiting for the watermark and the archive to be persisted.
    Flushing,
    /// Waiting for the poll interval to pass.
    Sleeping,
}

/// What the caller reports to the poll loop.
#[derive(Debug, PartialEq, Eq)]
pub enum Event {
    /// It is time for the next cycle.
    Tick,
    /// The store answered a fetch with these rows, in order.
    Fetched(Vec<TxInfo>),
    /// The transaction of the last `Merge` is durably in its partition.
    Merged,
    /// The watermark and the archive of the last `Flush` are durably on disk.
    Flushed,
    /// The poll interval has passed.
    Woke,
    /// The last action failed: the store could not be read, a row did not
    /// decode, or a file could not be written.
    Failed,
}

/// Mathematical value of an [`Event`].
pub enum EventView {
    Tick,
    Fetched(Seq<TxInfoView>),
    Merged,
    Flushed,
    Woke,
    Failed,
}

impl View for Event {
    type V = EventView;

    open spec fn view(&self) -> EventView {
        match self {
            Event::Tick => EventView::Tick,
            Event::Fetched(rows) => EventView::Fetched(row_views(rows@)),
            Event::Merged => EventView::Merged,
            Event::Flushed => EventView::Flushed,
            Event::Woke => EventView::Woke,
            Event::Failed => EventView::Failed,
        }
    }
}

/// What the poll loop asks the caller to do.
#[derive(Debug, PartialEq, Eq)]
pub enum Action {
    /// Nothing, until the next tick.
    Wait,
    /// Query the store for all rows accepted after `since`, in ascending
    /// order of accept time.
    Fetch { since: u64 },
    /// Merge the transaction into its partition file.
    Merge(SmartContract),
    /// Persist this watermark, then the loop's archive.
    Flush { watermark: u64 },
    /// Pause for the poll interval, given in seconds.
    Sleep { seconds: u64 },
}

/// Mathematical value of an [`Action`].
pub enum ActionView {
    Wait,
    Fetch { since: u64 },
    Merge(SmartContractView),
    Flush { watermark: u64 },
    Sleep { seconds: u64 },
}

impl View for Action {
    type V = ActionView;

    open spec fn view(&self) -> ActionView {
        match self {
            Action::Wait => ActionView::Wait,
            Action::Fetch { since } => ActionView::Fetch { since: *since },
            Action::Merge(routed) => ActionView::Merge(routed@),
            Action::Flush { watermark } => ActionView::Flush { watermark: *watermark },
            Action::Sleep { seconds } => ActionView::Sleep { seconds: *seconds },
        }
    }
}

/// Mathematical value of a [`PollLoop`].
pub struct PollLoopView {
    pub phase: Phase,
    /// The highest accept time among the rows routed so far.
    pub watermark: u64,
    /// Every transaction routed so far, in arrival order.
    pub archive: Seq<TransactionView>,
    /// Whether watermark or archive have moved since they were last persisted.
    pub dirty: bool,
    /// The fetched rows that are still to be routed, the next one first.
    pub pending: Seq<TxInfoView>,
    /// The directory that holds the partition files.
    pub output_dir: Seq<char>,
}

impl PollLoopView {
    /// Rows are pending exactly while the loop is routing.
    pub open spec fn well_formed(self) -> bool {
        self.pending.len() > 0 <==> self.phase == Phase::Routing
    }

    /// The action that the loop is waiting on in this state.
    pub open spec fn outstanding(self) -> ActionView {
        match self.phase {
            Phase::Idle => ActionView::Wait,
            Phase::Fetching => ActionView::Fetch { since: self.watermark },
            Phase::Routing => ActionView::Merge(routing_of(self.pending[0], self.output_dir)),
            Phase::Flushing => ActionView::Flush { watermark: self.watermark },
            Phase::Sleeping => ActionView::Sleep { seconds: DEFAULT_POLL_INTERVAL_SECS },
        }
    }

    /// The state after the rows of a fetch have arrived. With no rows the
    /// cycle goes to sleep, unless a flush is still owed from an earlier
    /// cycle; with rows it starts routing them.
    pub open spec fn on_fetched(self, rows: Seq<TxInfoView>) -> PollLoopView {
        if rows.len() > 0 {
            PollLoopView { phase: Phase::Routing, pending: rows, ..self }
        } else if self.dirty {
            PollLoopView { phase: Phase::Flushing, ..self }
        } else {
            PollLoopView { phase: Phase::Sleeping, ..self }
        }
    }

    /// The state after the front pending row was merged into its partition:
    /// the row joins the archive, the watermark moves up to its accept time,
    /// and the state is dirty. After the last row the loop flushes.
    pub open spec fn on_merged(self) -> PollLoopView {
        let row = self.pending[0];
        let rest = self.pending.drop_first();
        PollLoopView {
            phase: if rest.len() > 0 {
                Phase::Routing
            } else {
                Phase::Flushing
            },
            watermark: advanced(self.watermark, row.accept_time),
            archive: self.archive.push(row.tx),
            dirty: true,
            pending: rest,
            ..self
        }
    }

    /// The state after `event`. An event that does not answer the outstanding
    /// action leaves the state as it is.
    pub open spec fn after(self, event: EventView) -> PollLoopView {
        match (self.phase, event) {
            (Phase::Idle, EventView::Tick) => PollLoopView { phase: Phase::Fetching, ..self },
            (Phase::Fetching, EventView::Fetched(rows)) => self.on_fetched(rows),
            (Phase::Fetching, EventView::Failed) => PollLoopView { phase: Phase::Sleeping, ..self },
            (Phase::Routing, EventView::Merged) => self.on_merged(),
            (Phase::Routing, EventView::Failed) => PollLoopView {
                phase: Phase::Sleeping,
                pending: Seq::empty(),
                ..self
            },
            (Phase::Flushing, EventView::Flushed) => PollLoopView {
                phase: Phase::Sleeping,
                dirty: false,
                ..self
            },
            (Phase::Flushing, EventView::Failed) => PollLoopView { phase: Phase::Sleeping, ..self },
            (Phase::Sleeping, EventView::Woke) => PollLoopView { phase: Phase::Idle, ..self },
            _ => self,
        }
    }
}

/// The state that the loop starts in, given what was loaded from disk. If
/// either the watermark or the archive could not be loaded (`None`), both
/// start from their defaults, so that the first fetch reads the whole store.
pub open spec fn started(
    watermark: Option<u64>,
    archive: Option<Seq<TransactionView>>,
    output_dir: Seq<char>,
) -> PollLoopView {
    let loaded = watermark is Some && archive is Some;
    PollLoopView {
        phase: Phase::Idle,
        watermark: if loaded {
            watermark->0
        } else {
            0
        },
        archive: if loaded {
            archive->0
        } else {
            Seq::empty()
        },
        dirty: false,
        pending: Seq::empty(),
        output_dir,
    }
}

/// The state of the poll loop: how far the store has been read, what has
/// been routed, and what the loop is waiting for.
pub struct PollLoop {
    phase: Phase,
    watermark: u64,
    archive: Vec<Transaction>,
    dirty: bool,
    rows: Vec<TxInfo>,
    cursor: usize,
    output_dir: String,
}

impl View for PollLoop {
    type V = PollLoopView;

    closed spec fn view(&self) -> PollLoopView {
        PollLoopView {
            phase: self.phase,
            watermark: self.watermark,
            archive: transaction_views(self.archive@),
            dirty: self.dirty,
            pending: row_views(self.rows@).skip(self.cursor as int),
            output_dir: self.output_dir@,
        }
    }
}

impl PollLoop {
    #[verifier::type_invariant]
    spec fn inv(self) -> bool {
        &&& self.cursor <= self.rows.len()
        &&& self.cursor < self.rows.len() <==> self.phase == Phase::Routing
    }

    /// Starts the loop from what was loaded from disk: `None` stands for a
    /// file that is missing, unreadable or malformed.
    pub fn startup(
        watermark: Option<u64>,
        archive: Option<Vec<Transaction>>,
        output_dir: String,
    ) -> (poller: PollLoop)
        ensures
            poller@ == started(
                watermark,
                match archive {
                    Some(loaded) => Some(transaction_views(loaded@)),
                    None => None,
                },
                output_dir@,
            ),
            poller@.well_formed(),
    {
        let (start, routed) = match (watermark, archive) {
            (Some(start), Some(routed)) => (start, routed),
            _ => (0, Vec::new()),
        };
        let poller = PollLoop {
            phase: Phase::Idle,
            watermark: start,
            archive: routed,
            dirty: false,
            rows: Vec::new(),
            cursor: 0,
            output_dir,
        };
        proof {
            assert(poller@.pending =~= Seq::<TxInfoView>::empty());
            assert(transaction_views(Seq::<Transaction>::empty()) =~= Seq::<
                TransactionView,
            >::empty());
        }
        poller
    }

    /// The phase that the loop is in.
    pub fn phase(&self) -> (phase: Phase)
        ensures
            phase == self@.phase,
    {
        self.phase
    }

    /// The highest accept time routed so far.
    pub fn watermark(&self) -> (watermark: u64)
        ensures
            watermark == self@.watermark,
    {
        self.watermark
    }

    /// Every transaction routed so far, in arrival order. This is what a
    /// `Flush` persists.
    pub fn archive(&self) -> (archive: &Vec<Transaction>)
        ensures
            transaction_views(archive@) == self@.archive,
    {
        &self.archive
    }

    /// Whether there is anything to persist.
    pub fn is_dirty(&self) -> (dirty: bool)
        ensures
            dirty == self@.dirty,
    {
        self.dirty
    }

    /// The action that the loop is waiting on.
    pub fn outstanding(&self) -> (action: Action)
        ensures
            action@ == self@.outstanding(),
    {
        proof {
            use_type_invariant(self);
        }
        match self.phase {
            Phase::Idle => Action::Wait,
            Phase::Fetching => Action::Fetch { since: self.watermark },
            Phase::Routing => {
                Action::Merge(SmartContract::new(&self.rows[self.cursor], self.output_dir.as_str()))
            },
            Phase::Flushing => Action::Flush { watermark: self.watermark },
            Phase::Sleeping => Action::Sleep { seconds: DEFAULT_POLL_INTERVAL_SECS },
        }
    }

    /// Takes one step: moves to the state after `event` and answers with the
    /// action to perform next.
    pub fn step(self, event: Event) -> (next: (PollLoop, Action))
        ensures
            next.0@ == self@.after(event@),
            next.1@ == self@.after(event@).outstanding(),
            next.0@.well_formed(),
    {
        proof {
            use_type_invariant(&self);
        }
        let ghost before = self@;
        let PollLoop { phase, watermark, archive, dirty, rows, cursor, output_dir } = self;
        let poller = match (phase, event) {
            (Phase::Idle, Event::Tick) => PollLoop {
                phase: Phase::Fetching,
                watermark,
                archive,
                dirty,
                rows,
                cursor,
                output_dir,
            },
            (Phase::Fetching, Event::Fetched(fetched)) => {
                let phase = if fetched.len() > 0 {
                    Phase::Routing
                } else if dirty {
                    Phase::Flushing
                } else {
                    Phase::Sleeping
                };
                assert(row_views(fetched@).skip(0) =~= row_views(fetched@));
                assert(fetched.len() == 0 ==> row_views(fetched@) =~= before.pending);
                PollLoop { phase, watermark, archive, dirty, rows: fetched, cursor: 0, output_dir }
            },
            (Phase::Fetching, Event::Failed) => PollLoop {
                phase: Phase::Sleeping,
                watermark,
                archive,
                dirty,
                rows,
                cursor,
                output_dir,
            },
            (Phase::Routing, Event::Merged) => {
                let mut archive = archive;
                let ghost routed = archive@;
                let row = &rows[cursor];
                archive.push(row.tx.clone());
                assert(transaction_views(archive@) =~= transaction_views(routed).push(row@.tx));
                let watermark = advance(watermark, row.accept_time);
                assert(row_views(rows@).skip(cursor + 1) =~= before.pending.drop_first());
                if cursor + 1 < rows.len() {
                    PollLoop {
                        phase: Phase::Routing,
                        watermark,
                        archive,
                        dirty: true,
                        rows,
                        cursor: cursor + 1,
                        output_dir,
                    }
                } else {
                    assert(row_views(Seq::<TxInfo>::empty()).skip(0) =~= before.pending.drop_first());
                    PollLoop {
                        phase: Phase::Flushing,
                        watermark,
                        archive,
                        dirty: true,
                        rows: Vec::new(),
                        cursor: 0,
                        output_dir,
                    }
                }
            },
            (Phase::Routing, Event::Failed) => {
                assert(row_views(Seq::<TxInfo>::empty()).skip(0) =~= Seq::<TxInfoView>::empty());
                PollLoop {
                    phase: Phase::Sleeping,
                    watermark,
                    archive,
                    dirty,
                    rows: Vec::new(),
                    cursor: 0,
                    output_dir,
                }
            },
            (Phase::Flushing, Event::Flushed) => PollLoop {
                phase: Phase::Sleeping,
                watermark,
                archive,
                dirty: false,
                rows,
                cursor,
                output_dir,
            },
            (Phase::Flushing, Event::Failed) => PollLoop {
                phase: Phase::Sleeping,
                watermark,
                archive,
                dirty,
                rows,
                cursor,
                output_dir,
            },
            (Phase::Sleeping, Event::Woke) => PollLoop {
                phase: Phase::Idle,
                watermark,
                archive,
                dirty,
                rows,
                cursor,
                output_dir,
            },
            (phase, _) => PollLoop { phase, watermark, archive, dirty, rows, cursor, output_dir },
        };
        let action = poller.outstanding();
        (poller, action)
    }
}

/// Every step keeps the loop well-formed.
pub proof fn step_keeps_well_formed(state: PollLoopView, event: EventView)
    requires
        state.well_formed(),
    ensures
        state.after(event).well_formed(),
{
}

/// Whatever happens, the watermark never moves back, the archive only
/// grows at its end, and the output directory stays.
pub proof fn progress_is_never_undone(state: PollLoopView, event: EventView)
    ensures
        state.after(event).watermark >= state.watermark,
        state.archive.is_prefix_of(state.after(event).archive),
        state.after(event).output_dir == state.output_dir,
{
}

/// Only a merge that succeeded moves the watermark or the archive, and it
/// moves them by the front pending row alone. A row whose merge did not
/// succeed is never counted as processed.
pub proof fn only_a_merge_records_a_row(state: PollLoopView, event: EventView)
    ensures
        state.phase == Phase::Routing && event is Merged ==> {
            &&& state.after(event).archive == state.archive.push(state.pending[0].tx)
            &&& state.after(event).watermark == advanced(
                state.watermark,
                state.pending[0].accept_time,
            )
            &&& state.after(event).dirty
        },
        !(state.phase == Phase::Routing && event is Merged) ==> {
            &&& state.after(event).archive == state.archive
            &&& state.after(event).watermark == state.watermark
        },
{
}

/// A failure ends the cycle and loses nothing: the loop goes to sleep with
/// its watermark, its archive and its dirty flag as they were, so that the
/// next cycle fetches from the same watermark and a flush that is owed stays
/// owed.
pub proof fn failure_ends_the_cycle(state: PollLoopView)
    requires
        state.phase == Phase::Fetching || state.phase == Phase::Routing || state.phase
            == Phase::Flushing,
    ensures
        state.after(EventView::Failed).phase == Phase::Sleeping,
        state.after(EventView::Failed).watermark == state.watermark,
        state.after(EventView::Failed).archive == state.archive,
        state.after(EventView::Failed).dirty == state.dirty,
{
}

/// The dirty flag is cleared by a flush that succeeded and by nothing else.
pub proof fn only_a_flush_cleans(state: PollLoopView, event: EventView)
    requires
        state.dirty,
        !state.after(event).dirty,
    ensures
        state.phase == Phase::Flushing,
        event is Flushed,
{
}

/// A fetch that brings nothing leads to sleep when all is persisted, and to
/// a flush when an earlier one is still owed.
pub proof fn empty_fetch_skips_routing(state: PollLoopView)
    requires
        state.phase == Phase::Fetching,
    ensures
        state.after(EventView::Fetched(Seq::empty())).phase == if state.dirty {
            Phase::Flushing
        } else {
            Phase::Sleeping
        },
        state.after(EventView::Fetched(Seq::empty())).watermark == state.watermark,
        state.after(EventView::Fetched(Seq::empty())).archive == state.archive,
{
}

} // verus!
