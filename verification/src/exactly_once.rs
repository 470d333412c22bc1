//! What the poll loop guarantees when every action succeeds: each row of the
//! store reaches the archive and its partition file exactly once, and a
//! restart picks up where the last flush left off.
//!
//! The statements are made over a model of the surroundings: a [`Disk`] that
//! holds the watermark file, the archive file and the partition files, and a
//! store that answers each fetch with its rows after the watermark. One
//! [`turn`] performs the outstanding action of the loop on the disk and
//! reports its success.

use crate::file_processing::{in_partition, key_of, merged, partition_of, separated};
use crate::partition_key::{partition_path_is_injective, partition_path_of};
use crate::poll_loop::{started, ActionView, EventView, Phase, PollLoopView};
use crate::transaction::{TransactionView, TxInfoView};
use crate::transaction_source::{accepted_after, rows_after};
use crate::watermark::advanced;
use vstd::prelude::*;

verus! {

/// The transactions of `rows`, in order.
pub open spec fn transactions_of(rows: Seq<TxInfoView>) -> Seq<TransactionView> {
    rows.map_values(|row: TxInfoView| row.tx)
}

/// The watermark after all of `rows` were routed, starting from `watermark`.
pub open spec fn highest_accept_time(watermark: u64, rows: Seq<TxInfoView>) -> u64
    decreases rows.len(),
{
    if rows.len() == 0 {
        watermark
    } else {
        advanced(highest_accept_time(watermark, rows.drop_last()), rows.last().accept_time)
    }
}

/// The test for having `path` as partition file under `output_dir`.
pub open spec fn filed_at(output_dir: Seq<char>, path: Seq<char>) -> spec_fn(
    TransactionView,
) -> bool {
    |tx: TransactionView| partition_path_of(output_dir, key_of(tx)) == path
}

/// The transactions of `rows` whose partition file under `output_dir` is
/// `path`, in order.
pub open spec fn routed_to(
    rows: Seq<TxInfoView>,
    output_dir: Seq<char>,
    path: Seq<char>,
) -> Seq<TransactionView> {
    transactions_of(rows).filter(filed_at(output_dir, path))
}

/// Accept times are positive and strictly increasing along the store.
#[verifier::opaque]
pub open spec fn well_ordered(store: Seq<TxInfoView>) -> bool {
    &&& forall|i: int| 0 <= i < store.len() ==> (#[trigger] store[i]).accept_time > 0
    &&& forall|i: int, j: int|
        0 <= i < j < store.len() ==> (#[trigger] store[i]).accept_time < (
        #[trigger] store[j]).accept_time
}

/// The files that the poller owns.
pub struct Disk {
    /// What the watermark file denotes; `None` where it is missing or does
    /// not parse.
    pub watermark: Option<u64>,
    /// What the archive file holds; `None` where it is missing or malformed.
    pub archive: Option<Seq<TransactionView>>,
    /// The partition files that exist, by path.
    pub partitions: Map<Seq<char>, Seq<TransactionView>>,
}

impl Disk {
    /// A disk on which the poller has never run.
    pub open spec fn blank() -> Disk {
        Disk { watermark: None, archive: None, partitions: Map::empty() }
    }

    /// The document in the partition file at `path`, if there is such a file.
    pub open spec fn document(self, path: Seq<char>) -> Option<Seq<TransactionView>> {
        if self.partitions.dom().contains(path) {
            Some(self.partitions[path])
        } else {
            None
        }
    }

    /// The transactions in the partition file at `path`; none where there is
    /// no such file.
    pub open spec fn partition(self, path: Seq<char>) -> Seq<TransactionView> {
        match self.document(path) {
            Some(document) => document,
            None => Seq::empty(),
        }
    }

    /// The disk after `action` was performed with success, while the loop
    /// was in the state `poller`.
    pub open spec fn after(self, poller: PollLoopView, action: ActionView) -> Disk {
        match action {
            ActionView::Merge(routed) => Disk {
                partitions: self.partitions.insert(
                    routed.filename,
                    merged(self.document(routed.filename), seq![routed.tx_info_tx]),
                ),
                ..self
            },
            ActionView::Flush { watermark } => Disk {
                watermark: Some(watermark),
                archive: Some(poller.archive),
                ..self
            },
            _ => self,
        }
    }
}

/// The event that reports the success of `action`, where a fetch is
/// answered from `store`.
pub open spec fn success_of(store: Seq<TxInfoView>, action: ActionView) -> EventView {
    match action {
        ActionView::Wait => EventView::Tick,
        ActionView::Fetch { since } => EventView::Fetched(rows_after(store, since)),
        ActionView::Merge(_) => EventView::Merged,
        ActionView::Flush { .. } => EventView::Flushed,
        ActionView::Sleep { .. } => EventView::Woke,
    }
}

/// The poll loop together with the disk it works on.
pub struct System {
    pub poller: PollLoopView,
    pub disk: Disk,
}

/// A poller that starts on `disk`, loading what the disk holds.
pub open spec fn booted(disk: Disk, output_dir: Seq<char>) -> System {
    System { poller: started(disk.watermark, disk.archive, output_dir), disk }
}

/// One turn: the outstanding action is performed on the disk, with success,
/// and the loop takes the step that its success calls for.
pub open spec fn turn(system: System, store: Seq<TxInfoView>) -> System {
    let action = system.poller.outstanding();
    System {
        poller: system.poller.after(success_of(store, action)),
        disk: system.disk.after(system.poller, action),
    }
}

/// The system after `turns` turns against an unchanging `store`.
pub open spec fn run(system: System, store: Seq<TxInfoView>, turns: nat) -> System
    decreases turns,
{
    if turns == 0 {
        system
    } else {
        run(turn(system, store), store, (turns - 1) as nat)
    }
}

/// The number of turns that one cycle takes when the fetch brings `rows`
/// rows: tick, fetch, one merge per row, flush and sleep. A cycle with
/// nothing to route and nothing to flush takes tick, fetch and sleep.
pub open spec fn cycle_turns(rows: nat, dirty: bool) -> nat {
    if rows > 0 || dirty {
        rows + 4
    } else {
        3
    }
}

/// The accept time of the last row of `processed`, or 0 where there is none.
pub open spec fn last_accept_time(processed: Seq<TxInfoView>) -> u64 {
    if processed.len() > 0 {
        processed.last().accept_time
    } else {
        0
    }
}

/// The system stands between two cycles and has processed exactly the rows
/// `processed`: memory agrees with what a restart would load, the archive
/// holds their transactions in order, the watermark stands at the last of
/// them, and the partition file of every key holds exactly the transactions
/// of that key, in order.
pub open spec fn in_step_with(system: System, processed: Seq<TxInfoView>) -> bool {
    &&& system.poller == started(
        system.disk.watermark,
        system.disk.archive,
        system.poller.output_dir,
    )
    &&& system.poller.watermark == last_accept_time(processed)
    &&& system.poller.archive == transactions_of(processed)
    &&& forall|key: Seq<char>|
        #[trigger] system.disk.partition(partition_path_of(system.poller.output_dir, key))
            == partition_of(transactions_of(processed), key)
}

/// Running `first` turns and after them `more` turns is running them all.
pub proof fn lemma_run_splits(system: System, store: Seq<TxInfoView>, first: nat, more: nat)
    ensures
        run(system, store, first + more) == run(run(system, store, first), store, more),
    decreases first,
{
    if first > 0 {
        lemma_run_splits(turn(system, store), store, (first - 1) as nat, more);
    }
}

/// Two tests that agree on every value select the same elements.
pub proof fn lemma_filter_agrees<A>(s: Seq<A>, p: spec_fn(A) -> bool, q: spec_fn(A) -> bool)
    requires
        forall|x: A| #[trigger] p(x) == q(x),
    ensures
        s.filter(p) == s.filter(q),
    decreases s.len(),
{
    reveal(Seq::filter);
    if s.len() > 0 {
        lemma_filter_agrees(s.drop_last(), p, q);
    }
}

/// A test that every element passes selects the whole sequence, and one
/// that no element passes selects nothing.
pub proof fn lemma_filter_all_or_none<A>(s: Seq<A>, p: spec_fn(A) -> bool)
    ensures
        (forall|i: int| 0 <= i < s.len() ==> p(#[trigger] s[i])) ==> s.filter(p) == s,
        (forall|i: int| 0 <= i < s.len() ==> !p(#[trigger] s[i])) ==> s.filter(p) == Seq::<
            A,
        >::empty(),
    decreases s.len(),
{
    reveal(Seq::filter);
    if s.len() == 0 {
        assert(s =~= Seq::<A>::empty());
    } else {
        lemma_filter_all_or_none(s.drop_last(), p);
    }
}

/// Routing a first row and then the rest reaches the same watermark as
/// routing all of them.
pub proof fn lemma_highest_from_front(watermark: u64, row: TxInfoView, rest: Seq<TxInfoView>)
    ensures
        highest_accept_time(watermark, seq![row] + rest) == highest_accept_time(
            advanced(watermark, row.accept_time),
            rest,
        ),
    decreases rest.len(),
{
    let all = seq![row] + rest;
    if rest.len() == 0 {
        assert(highest_accept_time(watermark, all.drop_last()) == watermark);
    } else {
        assert(all.drop_last() =~= seq![row] + rest.drop_last());
        lemma_highest_from_front(watermark, row, rest.drop_last());
    }
}

/// In a well-ordered store every accept time is positive, and of two rows
/// the later one in the store has the later accept time.
pub proof fn lemma_well_ordered_rows(store: Seq<TxInfoView>, i: int, j: int)
    requires
        well_ordered(store),
        0 <= i <= j < store.len(),
    ensures
        0 < store[i].accept_time <= store[j].accept_time,
        i < j ==> store[i].accept_time < store[j].accept_time,
{
    reveal(well_ordered);
}

/// The rows that a well-ordered store begins with are well-ordered.
pub proof fn lemma_prefix_is_well_ordered(store: Seq<TxInfoView>, n: int)
    requires
        well_ordered(store),
        0 <= n <= store.len(),
    ensures
        well_ordered(store.take(n)),
{
    reveal(well_ordered);
}

/// In a well-ordered store, routing the rows from the `routed`-th on, with
/// the watermark at the row before them, leaves the watermark at the last
/// row of the store.
pub proof fn lemma_routing_ends_at_last_row(store: Seq<TxInfoView>, routed: int)
    requires
        well_ordered(store),
        0 <= routed <= store.len(),
    ensures
        highest_accept_time(last_accept_time(store.take(routed)), store.skip(routed))
            == last_accept_time(store),
    decreases store.len(),
{
    let watermark = last_accept_time(store.take(routed));
    if routed == store.len() {
        assert(store.take(routed) =~= store);
    } else {
        let earlier = store.drop_last();
        assert(store.skip(routed).drop_last() =~= earlier.skip(routed));
        assert(earlier.take(routed) =~= store.take(routed));
        lemma_prefix_is_well_ordered(store, store.len() - 1);
        lemma_routing_ends_at_last_row(earlier, routed);
        // The last row is later than the row before it, or than 0.
        if earlier.len() > 0 {
            lemma_well_ordered_rows(store, store.len() - 2, store.len() - 1);
        } else {
            lemma_well_ordered_rows(store, 0, 0);
        }
    }
}

/// What the first of some rows adds to the partition file at `path`.
pub open spec fn filed_first(row: TxInfoView, output_dir: Seq<char>, path: Seq<char>) -> Seq<
    TransactionView,
> {
    if partition_path_of(output_dir, key_of(row.tx)) == path {
        seq![row.tx]
    } else {
        Seq::empty()
    }
}

/// The transactions routed to a file are those of the first row, if it goes
/// there, followed by those of the rest.
pub proof fn lemma_routed_from_front(
    row: TxInfoView,
    rest: Seq<TxInfoView>,
    output_dir: Seq<char>,
    path: Seq<char>,
)
    ensures
        routed_to(seq![row] + rest, output_dir, path) == filed_first(row, output_dir, path)
            + routed_to(rest, output_dir, path),
        transactions_of(seq![row] + rest) == seq![row.tx] + transactions_of(rest),
{
    transactions_of(rest).lemma_filter_prepend(row.tx, filed_at(output_dir, path));
}

/// The loop state once every pending row of `poller` has been routed.
pub open spec fn routed_all(poller: PollLoopView) -> PollLoopView {
    PollLoopView {
        phase: Phase::Flushing,
        watermark: highest_accept_time(poller.watermark, poller.pending),
        archive: poller.archive + transactions_of(poller.pending),
        dirty: true,
        pending: Seq::empty(),
        output_dir: poller.output_dir,
    }
}

/// The loop state at the end of a cycle that started in `poller` and
/// fetched `rows`.
pub open spec fn cycled(poller: PollLoopView, rows: Seq<TxInfoView>) -> PollLoopView {
    PollLoopView {
        phase: Phase::Idle,
        watermark: highest_accept_time(poller.watermark, rows),
        archive: poller.archive + transactions_of(rows),
        dirty: false,
        pending: Seq::empty(),
        output_dir: poller.output_dir,
    }
}

/// Routing takes one turn per pending row. It appends every row to the
/// archive and to its own partition file, in order, leaves the watermark
/// file and the archive file alone, and ends with the loop ready to flush.
/// The claim about partition files is made for the file at `path`.
pub proof fn lemma_routing(system: System, store: Seq<TxInfoView>, path: Seq<char>)
    requires
        system.poller.phase == Phase::Routing,
        system.poller.pending.len() > 0,
    ensures
        ({
            let end = run(system, store, system.poller.pending.len());
            &&& end.poller == routed_all(system.poller)
            &&& end.disk.watermark == system.disk.watermark
            &&& end.disk.archive == system.disk.archive
            &&& end.disk.partition(path) == system.disk.partition(path) + routed_to(
                system.poller.pending,
                system.poller.output_dir,
                path,
            )
        }),
    decreases system.poller.pending.len(),
{
    reveal(Seq::filter);
    let poller = system.poller;
    let pending = poller.pending;
    let row = pending[0];
    let rest = pending.drop_first();
    // The first turn merges the front row; the remaining turns route the rest.
    let next = turn(system, store);
    let end = run(system, store, pending.len());
    assert(pending =~= seq![row] + rest);
    lemma_highest_from_front(poller.watermark, row, rest);
    lemma_routed_from_front(row, rest, poller.output_dir, path);
    assert(end == run(next, store, rest.len()));
    if rest.len() == 0 {
        assert(end.poller.pending =~= Seq::<TxInfoView>::empty());
    } else {
        lemma_routing(next, store, path);
    }
    assert(end.poller.archive =~= poller.archive + transactions_of(pending));
}

/// One whole cycle, from idle to idle. The loop fetches the rows after its
/// watermark and routes each of them once: they are appended to the archive
/// and to their partition files in store order, the watermark ends at the
/// highest accept time, and where anything was routed or was still to be
/// flushed, watermark and archive reach the disk. The claim about partition
/// files is made for the file at `path`.
pub proof fn lemma_cycle(system: System, store: Seq<TxInfoView>, path: Seq<char>)
    requires
        system.poller.phase == Phase::Idle,
        system.poller.well_formed(),
    ensures
        ({
            let rows = rows_after(store, system.poller.watermark);
            let flushes = rows.len() > 0 || system.poller.dirty;
            let end = run(system, store, cycle_turns(rows.len(), system.poller.dirty));
            &&& end.poller == cycled(system.poller, rows)
            &&& end.disk.watermark == if flushes {
                Some(end.poller.watermark)
            } else {
                system.disk.watermark
            }
            &&& end.disk.archive == if flushes {
                Some(end.poller.archive)
            } else {
                system.disk.archive
            }
            &&& end.disk.partition(path) == system.disk.partition(path) + routed_to(
                rows,
                system.poller.output_dir,
                path,
            )
        }),
{
    reveal(Seq::filter);
    let poller = system.poller;
    let rows = rows_after(store, poller.watermark);
    let turns = cycle_turns(rows.len(), poller.dirty);
    // The tick and the fetch take two turns and leave the disk alone.
    let fetched = turn(turn(system, store), store);
    assert(poller.pending =~= Seq::<TxInfoView>::empty());
    assert(run(system, store, 2) == fetched) by {
        reveal_with_fuel(run, 3);
    }
    lemma_run_splits(system, store, 2, (turns - 2) as nat);
    if rows.len() > 0 {
        // One merge per row, then the flush and the sleep.
        let flushing = run(fetched, store, rows.len());
        lemma_routing(fetched, store, path);
        lemma_run_splits(fetched, store, rows.len(), 2);
        assert(run(flushing, store, 2) == turn(turn(flushing, store), store)) by {
            reveal_with_fuel(run, 3);
        }
    } else if poller.dirty {
        // Nothing to route, but a flush is owed: the flush and the sleep.
        assert(run(fetched, store, 2) == turn(turn(fetched, store), store)) by {
            reveal_with_fuel(run, 3);
        }
    } else {
        // Nothing to route and nothing to flush: the sleep.
        assert(run(fetched, store, 1) == turn(fetched, store)) by {
            reveal_with_fuel(run, 2);
        }
    }
}

/// The transactions routed to the partition file of a key are the
/// transactions of that key.
pub proof fn lemma_routed_is_partition(
    rows: Seq<TxInfoView>,
    output_dir: Seq<char>,
    key: Seq<char>,
)
    ensures
        routed_to(rows, output_dir, partition_path_of(output_dir, key)) == partition_of(
            transactions_of(rows),
            key,
        ),
{
    let path = partition_path_of(output_dir, key);
    let by_path = filed_at(output_dir, path);
    let by_key = in_partition(key);
    assert forall|tx: TransactionView| #[trigger] by_path(tx) == by_key(tx) by {
        if partition_path_of(output_dir, key_of(tx)) == path {
            partition_path_is_injective(output_dir, key_of(tx), key);
        }
    }
    lemma_filter_agrees(transactions_of(rows), by_path, by_key);
}

/// A cycle writes batch by batch what `separate_files` lists: to the
/// partition file of each key among the fetched rows it appends exactly the
/// batch of that key.
pub proof fn cycle_appends_each_batch(system: System, store: Seq<TxInfoView>, i: int)
    requires
        system.poller.phase == Phase::Idle,
        system.poller.well_formed(),
        0 <= i < separated(transactions_of(rows_after(store, system.poller.watermark))).len(),
    ensures
        ({
            let rows = rows_after(store, system.poller.watermark);
            let batch = separated(transactions_of(rows))[i];
            let path = partition_path_of(system.poller.output_dir, batch.key);
            let end = run(system, store, cycle_turns(rows.len(), system.poller.dirty));
            end.disk.partition(path) == system.disk.partition(path) + batch.transactions
        }),
{
    let rows = rows_after(store, system.poller.watermark);
    let batch = separated(transactions_of(rows))[i];
    lemma_cycle(system, store, partition_path_of(system.poller.output_dir, batch.key));
    lemma_routed_is_partition(rows, system.poller.output_dir, batch.key);
}

/// In a well-ordered store, the rows after the last processed one are
/// exactly those that arrived since, and routing them leaves the watermark
/// at the last row of the store.
pub proof fn lemma_fetch_brings_the_arrivals(processed: Seq<TxInfoView>, arrived: Seq<TxInfoView>)
    requires
        well_ordered(processed + arrived),
    ensures
        rows_after(processed + arrived, last_accept_time(processed)) == arrived,
        highest_accept_time(last_accept_time(processed), arrived) == last_accept_time(
            processed + arrived,
        ),
{
    let store = processed + arrived;
    let routed = processed.len() as int;
    let later = accepted_after(last_accept_time(processed));
    assert(store.take(routed) =~= processed);
    assert(store.skip(routed) =~= arrived);
    // No processed row is later than the last of them.
    assert forall|i: int| 0 <= i < processed.len() implies !later(#[trigger] processed[i]) by {
        lemma_well_ordered_rows(store, i, routed - 1);
    }
    // Every arrival is later than the last processed row, or than 0.
    assert forall|j: int| 0 <= j < arrived.len() implies later(#[trigger] arrived[j]) by {
        if routed > 0 {
            lemma_well_ordered_rows(store, routed - 1, routed + j);
        } else {
            lemma_well_ordered_rows(store, j, j);
        }
    }
    lemma_filter_all_or_none(processed, later);
    lemma_filter_all_or_none(arrived, later);
    Seq::filter_distributes_over_add(processed, arrived, later);
    assert(Seq::<TxInfoView>::empty() + arrived =~= arrived);
    lemma_routing_ends_at_last_row(store, routed);
}

/// The transactions of the whole store are those of the rows processed
/// before, followed by those of the arrivals.
pub proof fn lemma_transactions_of_arrivals(processed: Seq<TxInfoView>, arrived: Seq<TxInfoView>)
    ensures
        transactions_of(processed + arrived) == transactions_of(processed) + transactions_of(
            arrived,
        ),
{
    assert(transactions_of(processed) + transactions_of(arrived) =~= transactions_of(
        processed + arrived,
    ));
}

/// The partition of a key over the whole store is its partition over the
/// rows processed before, followed by its partition over the arrivals.
pub proof fn lemma_partition_of_arrivals(
    processed: Seq<TxInfoView>,
    arrived: Seq<TxInfoView>,
    key: Seq<char>,
)
    ensures
        partition_of(transactions_of(processed + arrived), key) == partition_of(
            transactions_of(processed),
            key,
        ) + partition_of(transactions_of(arrived), key),
{
    lemma_transactions_of_arrivals(processed, arrived);
    Seq::filter_distributes_over_add(
        transactions_of(processed),
        transactions_of(arrived),
        in_partition(key),
    );
}

/// On a disk where it has never run, the poller starts in step with the
/// empty store.
pub proof fn fresh_start_is_in_step(output_dir: Seq<char>)
    ensures
        in_step_with(booted(Disk::blank(), output_dir), Seq::empty()),
{
    reveal(Seq::filter);
    let system = booted(Disk::blank(), output_dir);
    assert(system.poller.archive =~= transactions_of(Seq::empty()));
}

/// After a cycle that catches up with the arrivals, memory agrees with the
/// disk, the watermark stands at the last row of the store, the archive
/// holds the whole store, and the partition file of `key` holds the
/// transactions of that key from the whole store.
proof fn lemma_catch_up(
    system: System,
    processed: Seq<TxInfoView>,
    arrived: Seq<TxInfoView>,
    key: Seq<char>,
)
    requires
        system.poller == started(
            system.disk.watermark,
            system.disk.archive,
            system.poller.output_dir,
        ),
        system.poller.watermark == last_accept_time(processed),
        system.poller.archive == transactions_of(processed),
        system.disk.partition(partition_path_of(system.poller.output_dir, key)) == partition_of(
            transactions_of(processed),
            key,
        ),
        well_ordered(processed + arrived),
    ensures
        ({
            let end = run(system, processed + arrived, cycle_turns(arrived.len(), false));
            &&& end.poller == started(end.disk.watermark, end.disk.archive, end.poller.output_dir)
            &&& end.poller.output_dir == system.poller.output_dir
            &&& end.poller.watermark == last_accept_time(processed + arrived)
            &&& end.poller.archive == transactions_of(processed + arrived)
            &&& end.disk.partition(partition_path_of(system.poller.output_dir, key))
                == partition_of(transactions_of(processed + arrived), key)
        }),
{
    let dir = system.poller.output_dir;
    lemma_fetch_brings_the_arrivals(processed, arrived);
    lemma_cycle(system, processed + arrived, partition_path_of(dir, key));
    lemma_routed_is_partition(arrived, dir, key);
    lemma_transactions_of_arrivals(processed, arrived);
    lemma_partition_of_arrivals(processed, arrived, key);
}

/// No loss and no duplication across cycles. If the poller is in step with
/// the rows processed so far, and rows arrive in the store with accept times
/// beyond them, then one cycle in which every action succeeds brings the
/// poller in step with the whole store: the archive holds every row's
/// transaction once, in store order, and the partition file of each key
/// holds exactly the transactions of that key, each once and in order.
pub proof fn cycle_catches_up(
    system: System,
    processed: Seq<TxInfoView>,
    arrived: Seq<TxInfoView>,
)
    requires
        in_step_with(system, processed),
        well_ordered(processed + arrived),
    ensures
        in_step_with(
            run(system, processed + arrived, cycle_turns(arrived.len(), false)),
            processed + arrived,
        ),
{
    let end = run(system, processed + arrived, cycle_turns(arrived.len(), false));
    lemma_catch_up(system, processed, arrived, Seq::empty());
    assert forall|key: Seq<char>|
        #[trigger] end.disk.partition(partition_path_of(end.poller.output_dir, key))
            == partition_of(transactions_of(processed + arrived), key) by {
        lemma_catch_up(system, processed, arrived, key);
    }
}

/// No loss on a first run. Started on a blank disk against a well-ordered
/// store, one cycle in which every action succeeds delivers every row
/// exactly once to the archive and to its partition file.
pub proof fn first_cycle_delivers_the_store(store: Seq<TxInfoView>, output_dir: Seq<char>)
    requires
        well_ordered(store),
    ensures
        in_step_with(
            run(booted(Disk::blank(), output_dir), store, cycle_turns(store.len(), false)),
            store,
        ),
{
    fresh_start_is_in_step(output_dir);
    cycle_catches_up(booted(Disk::blank(), output_dir), Seq::empty(), store);
}

/// A poller that is in step loses nothing by a restart: what it loads from
/// the disk is the state it was in.
pub proof fn restart_in_step_changes_nothing(system: System, processed: Seq<TxInfoView>)
    requires
        in_step_with(system, processed),
    ensures
        booted(system.disk, system.poller.output_dir) == system,
{
}

/// No duplication after a restart. A poller that starts from a persisted
/// watermark and archive fetches from that watermark on: in its next cycle
/// it adds to the archive and to the partition files only rows that were
/// accepted after the persisted watermark, each of them once, and keeps
/// what was there.
pub proof fn resumed_cycle_adds_only_later_rows(
    disk: Disk,
    store: Seq<TxInfoView>,
    output_dir: Seq<char>,
)
    requires
        disk.watermark is Some,
        disk.archive is Some,
    ensures
        ({
            let system = booted(disk, output_dir);
            let rows = rows_after(store, disk.watermark->0);
            let end = run(system, store, cycle_turns(rows.len(), false));
            &&& turn(system, store).poller.outstanding() == ActionView::Fetch {
                since: disk.watermark->0,
            }
            &&& forall|i: int|
                0 <= i < rows.len() ==> (#[trigger] rows[i]).accept_time > disk.watermark->0
            &&& end.poller.archive == disk.archive->0 + transactions_of(rows)
            &&& forall|path: Seq<char>| #[trigger]
                end.disk.partition(path) == disk.partition(path) + routed_to(
                    rows,
                    output_dir,
                    path,
                )
        }),
{
    let system = booted(disk, output_dir);
    let rows = rows_after(store, disk.watermark->0);
    let end = run(system, store, cycle_turns(rows.len(), false));
    lemma_cycle(system, store, Seq::empty());
    assert forall|i: int| 0 <= i < rows.len() implies (#[trigger] rows[i]).accept_time
        > disk.watermark->0 by {
        store.lemma_filter_pred(accepted_after(disk.watermark->0), i);
    }
    assert forall|path: Seq<char>| #[trigger]
        end.disk.partition(path) == disk.partition(path) + routed_to(rows, output_dir, path) by {
        lemma_cycle(system, store, path);
    }
}

/// Recovery from a lost file. If the watermark file or the archive file
/// cannot be loaded, the poller starts from watermark 0 with an empty
/// archive, whatever the other file holds. Its next cycle reads the whole
/// store again: the archive ends up holding every row once, and each row is
/// appended once more to its partition file, after what the file held.
pub proof fn lost_file_forces_full_rescan(
    disk: Disk,
    store: Seq<TxInfoView>,
    output_dir: Seq<char>,
)
    requires
        disk.watermark is None || disk.archive is None,
        forall|i: int| 0 <= i < store.len() ==> (#[trigger] store[i]).accept_time > 0,
    ensures
        ({
            let system = booted(disk, output_dir);
            let end = run(system, store, cycle_turns(store.len(), false));
            &&& system.poller.watermark == 0
            &&& system.poller.archive == Seq::<TransactionView>::empty()
            &&& rows_after(store, 0) == store
            &&& end.poller.archive == transactions_of(store)
            &&& end.poller.watermark == highest_accept_time(0, store)
            &&& store.len() > 0 ==> end.disk.archive == Some(transactions_of(store))
            &&& store.len() > 0 ==> end.disk.watermark == Some(highest_accept_time(0, store))
            &&& forall|path: Seq<char>| #[trigger]
                end.disk.partition(path) == disk.partition(path) + routed_to(
                    store,
                    output_dir,
                    path,
                )
        }),
{
    let system = booted(disk, output_dir);
    let end = run(system, store, cycle_turns(store.len(), false));
    lemma_filter_all_or_none(store, accepted_after(0));
    lemma_cycle(system, store, Seq::empty());
    assert forall|path: Seq<char>| #[trigger]
        end.disk.partition(path) == disk.partition(path) + routed_to(store, output_dir, path) by {
        lemma_cycle(system, store, path);
    }
}

} // verus!
