//! What the poll loop guarantees when actions fail.
//!
//! A failure that is reported ends the cycle, and the next cycle fetches
//! from the watermark again. This module shows that, whatever actions fail
//! and however often, the loop never skips a row of the store and never
//! routes one twice: archive and partition files always hold exactly the
//! first so-many rows of the store, in store order. One cycle without a
//! failure then delivers the rest and brings everything to the disk.

use crate::exactly_once::{
    cycle_turns, highest_accept_time, in_step_with, last_accept_time, lemma_cycle,
    lemma_fetch_brings_the_arrivals, lemma_partition_of_arrivals, lemma_routed_is_partition,
    lemma_transactions_of_arrivals, lemma_well_ordered_rows, run, transactions_of, turn,
    well_ordered, Disk, System,
};
use crate::file_processing::{key_of, lemma_partition_push, partition_of};
use crate::partition_key::{partition_path_is_injective, partition_path_of};
use crate::poll_loop::{started, EventView, Phase, PollLoopView};
use crate::transaction::TxInfoView;
use crate::transaction_source::rows_after;
use vstd::prelude::*;

verus! {

/// One turn in which the outstanding action succeeds, or fails and is
/// reported as failed. A failed action leaves the disk as it was.
pub open spec fn turn_with(system: System, store: Seq<TxInfoView>, succeeds: bool) -> System {
    if succeeds {
        turn(system, store)
    } else {
        System { poller: system.poller.after(EventView::Failed), disk: system.disk }
    }
}

/// The system after one turn for each of `outcomes`, in order.
pub open spec fn run_with(system: System, store: Seq<TxInfoView>, outcomes: Seq<bool>) -> System
    decreases outcomes.len(),
{
    if outcomes.len() == 0 {
        system
    } else {
        run_with(turn_with(system, store, outcomes[0]), store, outcomes.drop_first())
    }
}

/// The number of rows that the loop has routed.
pub open spec fn routed_count(system: System) -> int {
    system.poller.archive.len() as int
}

/// What the loop holds in memory is on track with `store`: the archive
/// holds the transactions of the first rows of the store, as many as were
/// routed; the watermark stands at the last of them; and the rows that wait
/// to be routed are the ones that follow.
pub open spec fn memory_on_track(poller: PollLoopView, store: Seq<TxInfoView>) -> bool {
    let routed = poller.archive.len() as int;
    &&& routed <= store.len()
    &&& poller.well_formed()
    &&& poller.archive == transactions_of(store.take(routed))
    &&& poller.watermark == last_accept_time(store.take(routed))
    &&& poller.pending.is_prefix_of(store.skip(routed))
}

/// The partition file of `key` holds exactly the transactions of that key
/// among the rows routed so far.
pub open spec fn partition_on_track(system: System, store: Seq<TxInfoView>, key: Seq<char>) -> bool {
    system.disk.partition(partition_path_of(system.poller.output_dir, key)) == partition_of(
        transactions_of(store.take(routed_count(system))),
        key,
    )
}

/// What the loop holds in memory is what a restart would load from the
/// disk, unless the loop is dirty.
pub open spec fn clean_is_persisted(system: System) -> bool {
    let loaded = started(system.disk.watermark, system.disk.archive, system.poller.output_dir);
    !system.poller.dirty ==> loaded.watermark == system.poller.watermark && loaded.archive
        == system.poller.archive
}

/// The system is on track with `store`: memory is, and so is the partition
/// file of every key, and what is not marked dirty is on the disk. No row
/// has been skipped and none was routed twice.
pub open spec fn on_track(system: System, store: Seq<TxInfoView>) -> bool {
    &&& memory_on_track(system.poller, store)
    &&& clean_is_persisted(system)
    &&& forall|key: Seq<char>| #[trigger] partition_on_track(system, store, key)
}

/// In a well-ordered store, each row is accepted after all rows before it.
proof fn lemma_next_row_is_later(store: Seq<TxInfoView>, routed: int)
    requires
        well_ordered(store),
        0 <= routed < store.len(),
    ensures
        store[routed].accept_time > last_accept_time(store.take(routed)),
        last_accept_time(store.take(routed + 1)) == store[routed].accept_time,
{
    if routed > 0 {
        lemma_well_ordered_rows(store, routed - 1, routed);
    } else {
        lemma_well_ordered_rows(store, 0, 0);
    }
}

/// With memory on track, a fetch brings the rows that follow the routed
/// ones, and routing them completes the archive and leaves the watermark at
/// the last row of the store.
proof fn lemma_fetch_brings_what_follows(poller: PollLoopView, store: Seq<TxInfoView>)
    requires
        memory_on_track(poller, store),
        well_ordered(store),
    ensures
        rows_after(store, poller.watermark) == store.skip(poller.archive.len() as int),
        highest_accept_time(poller.watermark, store.skip(poller.archive.len() as int))
            == last_accept_time(store),
        poller.archive + transactions_of(store.skip(poller.archive.len() as int))
            == transactions_of(store),
{
    let routed = poller.archive.len() as int;
    assert(store.take(routed) + store.skip(routed) =~= store);
    lemma_fetch_brings_the_arrivals(store.take(routed), store.skip(routed));
    lemma_transactions_of_arrivals(store.take(routed), store.skip(routed));
}

/// Taking in the rows that follow the routed ones keeps memory on track.
proof fn lemma_fetched_rows_keep_memory_on_track(
    poller: PollLoopView,
    store: Seq<TxInfoView>,
    rows: Seq<TxInfoView>,
)
    requires
        memory_on_track(poller, store),
        poller.phase == Phase::Fetching,
        rows == store.skip(poller.archive.len() as int),
    ensures
        memory_on_track(poller.after(EventView::Fetched(rows)), store),
{
}

/// A merge that succeeded keeps memory on track: the merged row is the next
/// row of the store, and it is later than the watermark.
proof fn lemma_merge_keeps_memory_on_track(poller: PollLoopView, store: Seq<TxInfoView>)
    requires
        memory_on_track(poller, store),
        well_ordered(store),
        poller.phase == Phase::Routing,
    ensures
        memory_on_track(poller.after(EventView::Merged), store),
{
    let routed = poller.archive.len() as int;
    let next = poller.after(EventView::Merged);
    assert(poller.pending[0] == store.skip(routed)[0]);
    lemma_next_row_is_later(store, routed);
    assert(next.archive =~= transactions_of(store.take(routed + 1)));
    assert forall|i: int| 0 <= i < next.pending.len() implies next.pending[i] == store.skip(
        routed + 1,
    )[i] by {
        assert(next.pending[i] == poller.pending[i + 1]);
        assert(poller.pending[i + 1] == store.skip(routed)[i + 1]);
    }
}

/// One turn keeps memory on track, whether its action succeeds or fails.
proof fn lemma_turn_keeps_memory_on_track(
    system: System,
    store: Seq<TxInfoView>,
    succeeds: bool,
)
    requires
        memory_on_track(system.poller, store),
        well_ordered(store),
    ensures
        memory_on_track(turn_with(system, store, succeeds).poller, store),
        turn_with(system, store, succeeds).poller.output_dir == system.poller.output_dir,
{
    if succeeds && system.poller.phase == Phase::Fetching {
        lemma_fetch_brings_what_follows(system.poller, store);
        lemma_fetched_rows_keep_memory_on_track(
            system.poller,
            store,
            rows_after(store, system.poller.watermark),
        );
    } else if succeeds && system.poller.phase == Phase::Routing {
        lemma_merge_keeps_memory_on_track(system.poller, store);
    }
}

/// One turn keeps the partition file of `key` on track, whether its action
/// succeeds or fails.
proof fn lemma_turn_keeps_partition_on_track(
    system: System,
    store: Seq<TxInfoView>,
    succeeds: bool,
    key: Seq<char>,
)
    requires
        memory_on_track(system.poller, store),
        partition_on_track(system, store, key),
        well_ordered(store),
    ensures
        partition_on_track(turn_with(system, store, succeeds), store, key),
{
    let poller = system.poller;
    let routed = poller.archive.len() as int;
    let dir = poller.output_dir;
    let path = partition_path_of(dir, key);
    let next = turn_with(system, store, succeeds);
    if succeeds && poller.phase == Phase::Routing {
        // The merged row is the next row of the store. It is appended to the
        // file of its own key and to no other.
        let row = store[routed];
        assert(transactions_of(store.take(routed + 1)) =~= transactions_of(
            store.take(routed),
        ).push(row.tx));
        lemma_partition_push(transactions_of(store.take(routed)), row.tx, key);
        if partition_path_of(dir, key_of(row.tx)) == path {
            partition_path_is_injective(dir, key_of(row.tx), key);
            assert(next.disk.partition(path) =~= system.disk.partition(path).push(row.tx));
        }
    }
}

/// One turn keeps on the disk what is not marked dirty, whether its action
/// succeeds or fails.
proof fn lemma_turn_keeps_clean_persisted(system: System, store: Seq<TxInfoView>, succeeds: bool)
    requires
        clean_is_persisted(system),
    ensures
        clean_is_persisted(turn_with(system, store, succeeds)),
{
}

/// No loss and no duplication under failures. If the system is on track
/// with a well-ordered store, it is on track after one more turn, whether
/// the action of that turn succeeds or fails: a failure skips no row and a
/// retry repeats none.
pub proof fn turn_keeps_on_track(system: System, store: Seq<TxInfoView>, succeeds: bool)
    requires
        on_track(system, store),
        well_ordered(store),
    ensures
        on_track(turn_with(system, store, succeeds), store),
{
    let next = turn_with(system, store, succeeds);
    lemma_turn_keeps_memory_on_track(system, store, succeeds);
    lemma_turn_keeps_clean_persisted(system, store, succeeds);
    assert forall|key: Seq<char>| #[trigger] partition_on_track(next, store, key) by {
        lemma_turn_keeps_partition_on_track(system, store, succeeds, key);
    }
}

/// The same over any number of turns with any outcomes.
pub proof fn run_keeps_on_track(system: System, store: Seq<TxInfoView>, outcomes: Seq<bool>)
    requires
        on_track(system, store),
        well_ordered(store),
    ensures
        on_track(run_with(system, store, outcomes), store),
    decreases outcomes.len(),
{
    if outcomes.len() > 0 {
        turn_keeps_on_track(system, store, outcomes[0]);
        run_keeps_on_track(turn_with(system, store, outcomes[0]), store, outcomes.drop_first());
    }
}

/// Rows that are appended to the store leave the system on track.
pub proof fn growth_keeps_on_track(system: System, store: Seq<TxInfoView>, arrived: Seq<TxInfoView>)
    requires
        on_track(system, store),
    ensures
        on_track(system, store + arrived),
{
    let routed = routed_count(system);
    let grown = store + arrived;
    assert(grown.take(routed) =~= store.take(routed));
    assert forall|i: int| 0 <= i < system.poller.pending.len() implies system.poller.pending[i]
        == grown.skip(routed)[i] by {}
    assert forall|key: Seq<char>| #[trigger] partition_on_track(system, grown, key) by {
        assert(partition_on_track(system, store, key));
    }
}

/// A poller that starts on a blank disk is on track with any store.
pub proof fn fresh_start_is_on_track(store: Seq<TxInfoView>, output_dir: Seq<char>)
    ensures
        on_track(
            System { poller: started(None, None, output_dir), disk: Disk::blank() },
            store,
        ),
{
    reveal(Seq::filter);
    let system = System { poller: started(None, None, output_dir), disk: Disk::blank() };
    assert(system.poller.archive =~= transactions_of(store.take(0)));
}

/// A poller that stands in step with the rows it has processed is on track
/// with them, and so, by `growth_keeps_on_track`, with any store that they
/// begin.
pub proof fn in_step_is_on_track(system: System, processed: Seq<TxInfoView>)
    requires
        in_step_with(system, processed),
    ensures
        on_track(system, processed),
{
    assert(processed.take(routed_count(system)) =~= processed);
}

/// After a cycle without failure, the partition file of `key` holds the
/// transactions of that key from the whole store.
proof fn lemma_recovery_fills_partition(system: System, store: Seq<TxInfoView>, key: Seq<char>)
    requires
        memory_on_track(system.poller, store),
        partition_on_track(system, store, key),
        well_ordered(store),
        system.poller.phase == Phase::Idle,
    ensures
        ({
            let rows = store.skip(routed_count(system));
            let end = run(system, store, cycle_turns(rows.len(), system.poller.dirty));
            end.disk.partition(partition_path_of(system.poller.output_dir, key)) == partition_of(
                transactions_of(store),
                key,
            )
        }),
{
    let routed = routed_count(system);
    let dir = system.poller.output_dir;
    lemma_fetch_brings_what_follows(system.poller, store);
    lemma_cycle(system, store, partition_path_of(dir, key));
    lemma_routed_is_partition(store.skip(routed), dir, key);
    lemma_partition_of_arrivals(store.take(routed), store.skip(routed), key);
    assert(store.take(routed) + store.skip(routed) =~= store);
}

/// After a cycle without failure, memory holds the whole store and agrees
/// with the disk.
proof fn lemma_recovery_fills_memory(system: System, store: Seq<TxInfoView>)
    requires
        memory_on_track(system.poller, store),
        clean_is_persisted(system),
        well_ordered(store),
        system.poller.phase == Phase::Idle,
    ensures
        ({
            let rows = store.skip(routed_count(system));
            let end = run(system, store, cycle_turns(rows.len(), system.poller.dirty));
            &&& end.poller == started(end.disk.watermark, end.disk.archive, end.poller.output_dir)
            &&& end.poller.output_dir == system.poller.output_dir
            &&& end.poller.watermark == last_accept_time(store)
            &&& end.poller.archive == transactions_of(store)
        }),
{
    lemma_fetch_brings_what_follows(system.poller, store);
    lemma_cycle(system, store, Seq::empty());
}

/// Recovery after failures. However many actions have failed before, once
/// the system stands idle and on track, one cycle in which every action
/// succeeds brings it in step with the whole store: every row is in the
/// archive and in its partition file exactly once, and watermark and archive
/// are on the disk.
pub proof fn one_good_cycle_recovers(system: System, store: Seq<TxInfoView>)
    requires
        on_track(system, store),
        well_ordered(store),
        system.poller.phase == Phase::Idle,
    ensures
        in_step_with(
            run(
                system,
                store,
                cycle_turns(store.skip(routed_count(system)).len(), system.poller.dirty),
            ),
            store,
        ),
{
    let rows = store.skip(routed_count(system));
    let end = run(system, store, cycle_turns(rows.len(), system.poller.dirty));
    lemma_recovery_fills_memory(system, store);
    assert forall|key: Seq<char>|
        #[trigger] end.disk.partition(partition_path_of(end.poller.output_dir, key))
            == partition_of(transactions_of(store), key) by {
        assert(partition_on_track(system, store, key));
        lemma_recovery_fills_partition(system, store, key);
    }
}

} // verus!
