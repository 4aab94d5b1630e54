//! Theorems about the model: what holds of every order, every event stream
//! and every projection.
//!
//! The executable functions of [`crate::order`] return what the model
//! functions say, so each theorem here is a theorem about them.

use crate::clock::Timestamp;
use crate::model::{
    apply, apply_first, apply_next, belongs_to, decide, decide_first, decide_next, dispatch,
    distinct_skus, events_of, fold, has_sku, is_first_with_sku, is_interleaving, merge, replay,
    stream_of, tally, tally_all, with_more, CommandView, EventView, ItemView, OrderView, Sourced,
    Tally,
};
use crate::order::{OrderError, OrderState};
use vstd::prelude::*;

verus! {

// ---------------------------------------------------------------------------
// Line items
// ---------------------------------------------------------------------------

/// Adding an item to lines that are keyed by their SKU leaves them keyed by
/// their SKU.
pub proof fn lemma_merge_keeps_skus_distinct(items: Seq<ItemView>, item: ItemView)
    requires
        distinct_skus(items),
    ensures
        distinct_skus(merge(items, item)),
{
    let merged = merge(items, item);
    if has_sku(items, item.item_sku) {
        assert forall|i: int, j: int| 0 <= i < j < merged.len() implies (#[trigger] merged[i]).item_sku
            != (#[trigger] merged[j]).item_sku by {
            assert(merged[i].item_sku == items[i].item_sku);
            assert(merged[j].item_sku == items[j].item_sku);
        }
    } else {
        assert forall|i: int, j: int| 0 <= i < j < merged.len() implies (#[trigger] merged[i]).item_sku
            != (#[trigger] merged[j]).item_sku by {
            if j < items.len() {
                assert(merged[i] == items[i]);
                assert(merged[j] == items[j]);
            } else {
                assert(merged[i] == items[i]);
                assert(merged[j] == item);
            }
        }
    }
}

/// Adding an item moves no line: every line that was there keeps its place,
/// its SKU and its price, and loses no quantity. The list grows by one line
/// exactly when the SKU is new, and that line is the item.
pub proof fn law_merge_keeps_every_line_in_place(items: Seq<ItemView>, item: ItemView)
    ensures
        has_sku(items, item.item_sku) ==> merge(items, item).len() == items.len(),
        !has_sku(items, item.item_sku) ==> merge(items, item) == items.push(item),
        forall|i: int|
            0 <= i < items.len() ==> {
                let before = #[trigger] items[i];
                let after = merge(items, item)[i];
                &&& after.item_sku == before.item_sku
                &&& after.price_bits == before.price_bits
                &&& after.quantity == before.quantity + if is_first_with_sku(
                    items,
                    item.item_sku,
                    i,
                ) {
                    item.quantity
                } else {
                    0
                }
            },
{
}

/// Two items with one SKU, added to an order without lines, make exactly one
/// line: the first item with the quantities of both.
pub proof fn law_same_sku_merges_into_one_line(first: ItemView, second: ItemView)
    requires
        first.item_sku == second.item_sku,
    ensures
        merge(merge(Seq::empty(), first), second) == seq![with_more(first, second.quantity)],
{
    let one = merge(Seq::empty(), first);
    assert(one =~= seq![first]);
    assert(is_first_with_sku(one, second.item_sku, 0));
    assert(merge(one, second) =~= seq![with_more(first, second.quantity)]);
}

// ---------------------------------------------------------------------------
// Folding
// ---------------------------------------------------------------------------

/// Folding a stream in two parts is folding it whole: the state after the
/// earlier part is where the later part starts, and an error in the earlier
/// part is the error of the whole.
pub proof fn lemma_fold_append(
    state: Option<OrderView>,
    earlier: Seq<EventView>,
    later: Seq<EventView>,
)
    ensures
        fold(state, earlier + later) == match fold(state, earlier) {
            Ok(mid) => fold(mid, later),
            Err(e) => Err(e),
        },
    decreases earlier.len(),
{
    if earlier.len() == 0 {
        assert(earlier + later =~= later);
    } else {
        assert((earlier + later)[0] == earlier[0]);
        assert((earlier + later).skip(1) =~= earlier.skip(1) + later);
        match apply(state, earlier[0]) {
            Ok(next) => lemma_fold_append(Some(next), earlier.skip(1), later),
            Err(_) => {},
        }
    }
}

/// Folding a single event is applying it.
pub proof fn lemma_fold_one(state: Option<OrderView>, event: EventView)
    ensures
        fold(state, seq![event]) == match apply(state, event) {
            Ok(next) => Ok::<Option<OrderView>, OrderError>(Some(next)),
            Err(e) => Err(e),
        },
{
    reveal_with_fuel(fold, 2);
    assert(seq![event].skip(1).len() == 0);
}

/// Determinism: replaying the same events twice gives the same outcome, be
/// it a state or an error. The outcome is a function of the events alone.
pub proof fn law_replay_is_deterministic(first: Seq<EventView>, second: Seq<EventView>)
    requires
        first =~= second,
    ensures
        replay(first) == replay(second),
{
}

/// The state of a stream is the state of the stream without its last event,
/// with that event applied: `state = fold(events[0..n])` for every `n`.
pub proof fn law_replay_grows_with_the_stream(events: Seq<EventView>, event: EventView)
    ensures
        replay(events.push(event)) == match replay(events) {
            Ok(state) => match apply(state, event) {
                Ok(next) => Ok::<Option<OrderView>, OrderError>(Some(next)),
                Err(e) => Err(e),
            },
            Err(e) => Err(e),
        },
{
    assert(events.push(event) =~= events + seq![event]);
    lemma_fold_append(None, events, seq![event]);
    if let Ok(state) = replay(events) {
        lemma_fold_one(state, event);
    }
}

/// No state exists before the first event, and one exists after every
/// stream that is not empty and can be replayed.
pub proof fn law_state_exists_from_the_first_event_on(events: Seq<EventView>)
    ensures
        events.len() == 0 ==> replay(events) == Ok::<Option<OrderView>, OrderError>(None),
        events.len() > 0 ==> replay(events) != Ok::<Option<OrderView>, OrderError>(None),
{
    if events.len() > 0 {
        let start = events.drop_last();
        assert(events =~= start.push(events.last()));
        law_replay_grows_with_the_stream(start, events.last());
    }
}

/// A step of the fold keeps the lines keyed by their SKU.
pub proof fn lemma_apply_keeps_skus_distinct(state: Option<OrderView>, event: EventView)
    requires
        state matches Some(s) ==> s.wf(),
    ensures
        apply(state, event) matches Ok(next) ==> next.wf(),
{
    if let Some(s) = state {
        if let EventView::ItemAdded { item, .. } = event {
            lemma_merge_keeps_skus_distinct(s.items, item);
        }
    }
}

/// A fold keeps the lines keyed by their SKU.
pub proof fn lemma_fold_keeps_skus_distinct(state: Option<OrderView>, events: Seq<EventView>)
    requires
        state matches Some(s) ==> s.wf(),
    ensures
        fold(state, events) matches Ok(Some(last)) ==> last.wf(),
    decreases events.len(),
{
    if events.len() > 0 {
        lemma_apply_keeps_skus_distinct(state, events[0]);
        if let Ok(next) = apply(state, events[0]) {
            lemma_fold_keeps_skus_distinct(Some(next), events.skip(1));
        }
    }
}

/// In every state that a stream leads to, no two lines carry the same SKU.
pub proof fn law_replayed_lines_are_keyed_by_sku(events: Seq<EventView>)
    ensures
        replay(events) matches Ok(Some(order)) ==> order.wf(),
{
    lemma_fold_keeps_skus_distinct(None, events);
}

/// An order keeps its identity and its time of creation for life.
pub proof fn law_identity_is_stable(state: OrderView, event: EventView)
    ensures
        apply_next(state, event) matches Ok(next) ==> next.id == state.id && next.created_at
            == state.created_at,
{
}

// ---------------------------------------------------------------------------
// Creation
// ---------------------------------------------------------------------------

/// Before an order exists, the creation kind alone is accepted: `Create`
/// among the commands and `Created` among the events, whatever the identity.
/// Everything else is rejected with `NotYetCreated`.
pub proof fn law_only_creation_comes_first(
    id: Seq<char>,
    command: CommandView,
    event: EventView,
    at: Timestamp,
)
    ensures
        command is Create ==> decide_first(id, command, at) is Ok,
        !(command is Create) ==> decide_first(id, command, at) == Err::<
            Seq<EventView>,
            OrderError,
        >(OrderError::NotYetCreated),
        event is Created ==> apply_first(event) is Ok,
        !(event is Created) ==> apply_first(event) == Err::<OrderView, OrderError>(
            OrderError::NotYetCreated,
        ),
{
}

/// Once an order exists, creation is rejected with `AlreadyCreated`: the
/// command `Create` and the event `Created` alike, in every state.
pub proof fn law_creation_comes_once(state: OrderView, command: CommandView, event: EventView, at: Timestamp)
    ensures
        command is Create ==> decide_next(command, at) == Err::<Seq<EventView>, OrderError>(
            OrderError::AlreadyCreated,
        ),
        !(command is Create) ==> decide_next(command, at) is Ok,
        event is Created ==> apply_next(state, event) == Err::<OrderView, OrderError>(
            OrderError::AlreadyCreated,
        ),
{
}

/// The time of a decision stamps the proposal and decides nothing: whether a
/// command is accepted, and with which error it is rejected, is the same at
/// any two times, and the one event that is proposed differs in its time
/// alone.
pub proof fn law_time_only_stamps_the_proposal(
    id: Seq<char>,
    state: Option<OrderView>,
    command: CommandView,
    earlier: Timestamp,
    later: Timestamp,
)
    ensures
        match (decide(id, state, command, earlier), decide(id, state, command, later)) {
            (Ok(first), Ok(second)) => {
                &&& first.len() == 1
                &&& second.len() == 1
                &&& first[0].happened_at() == earlier
                &&& second[0].happened_at() == later
                &&& first[0].stamped(later) == second[0]
            },
            (Err(first), Err(second)) => first == second,
            _ => false,
        },
{
}

// ---------------------------------------------------------------------------
// The life of an order
// ---------------------------------------------------------------------------

/// Exactly one of `Editable`, `Complete` and `Cancelled` holds of a state.
pub proof fn law_exactly_one_lifecycle_state_holds(state: OrderState)
    ensures
        (if state is Editable { 1int } else { 0 }) + (if state is Complete { 1int } else { 0 })
            + (if state is Cancelled { 1int } else { 0 }) == 1,
{
}

/// Every transition starts at `Editable`: an event is applied to an editable
/// order or to none. `ItemAdded` leads back to `Editable`, `Completed` to
/// `Complete`, `Cancelled` to `Cancelled`.
pub proof fn law_transitions_start_at_editable(state: OrderView, event: EventView)
    ensures
        apply_next(state, event) matches Ok(next) ==> {
            &&& state.state is Editable
            &&& event is ItemAdded ==> next.state is Editable
            &&& event is Completed ==> next.state is Complete
            &&& event is Cancelled ==> next.state is Cancelled
        },
{
}

/// `Complete` and `Cancelled` are absorbing: an order in either state rejects
/// every event. Completing a complete order is `AlreadyCompleted`,
/// cancelling a cancelled one is `AlreadyCancelled`, creation is
/// `AlreadyCreated`, and everything else is `NotEditable`.
pub proof fn law_ended_orders_reject_every_event(state: OrderView, event: EventView)
    requires
        !(state.state is Editable),
    ensures
        apply_next(state, event) == Err::<OrderView, OrderError>(
            match event {
                EventView::Created { .. } => OrderError::AlreadyCreated,
                EventView::ItemAdded { .. } => OrderError::NotEditable,
                EventView::Completed { .. } => if state.state is Complete {
                    OrderError::AlreadyCompleted
                } else {
                    OrderError::NotEditable
                },
                EventView::Cancelled { .. } => if state.state is Cancelled {
                    OrderError::AlreadyCancelled
                } else {
                    OrderError::NotEditable
                },
            },
        ),
{
}

/// A stream that has led to `Complete` or `Cancelled` cannot go on: with any
/// further event it can no longer be replayed.
pub proof fn law_nothing_follows_the_end(events: Seq<EventView>, more: Seq<EventView>)
    requires
        replay(events) matches Ok(Some(order)) && !(order.state is Editable),
        more.len() > 0,
    ensures
        replay(events + more) is Err,
{
    lemma_fold_append(None, events, more);
    let order = replay(events)->Ok_0->Some_0;
    law_ended_orders_reject_every_event(order, more[0]);
}

/// No command succeeds on an order that is `Complete` or `Cancelled`: the
/// event it proposes is rejected, and so is the command.
pub proof fn law_ended_orders_reject_every_command(
    id: Seq<char>,
    history: Seq<EventView>,
    command: CommandView,
    at: Timestamp,
)
    requires
        replay(history) matches Ok(Some(order)) && !(order.state is Editable),
    ensures
        dispatch(id, history, command, at) is Err,
{
    let state = replay(history)->Ok_0;
    if let Ok(proposed) = decide(id, state, command, at) {
        assert(proposed =~= seq![proposed[0]]);
        lemma_fold_one(state, proposed[0]);
        law_ended_orders_reject_every_event(state->Some_0, proposed[0]);
    }
}

/// What a command comes to, said without the fold: the history is replayed,
/// the command proposes one event, and the proposal stands exactly if that
/// event can be applied to the replayed state.
pub proof fn law_dispatch_proposes_what_applies(
    id: Seq<char>,
    history: Seq<EventView>,
    command: CommandView,
    at: Timestamp,
)
    ensures
        dispatch(id, history, command, at) == match replay(history) {
            Err(e) => Err::<Seq<EventView>, OrderError>(e),
            Ok(state) => match decide(id, state, command, at) {
                Err(e) => Err(e),
                Ok(proposed) => match apply(state, proposed[0]) {
                    Err(e) => Err(e),
                    Ok(_) => Ok(proposed),
                },
            },
        },
        dispatch(id, history, command, at) matches Ok(proposed) ==> proposed.len() == 1,
{
    if let Ok(state) = replay(history) {
        if let Ok(proposed) = decide(id, state, command, at) {
            assert(proposed =~= seq![proposed[0]]);
            lemma_fold_one(state, proposed[0]);
        }
    }
}

// ---------------------------------------------------------------------------
// The projection
// ---------------------------------------------------------------------------

/// Folding events into the counters never lowers a counter.
pub proof fn lemma_tally_all_grows(counts: Tally, events: Seq<EventView>)
    ensures
        tally_all(counts, events).created >= counts.created,
        tally_all(counts, events).completed >= counts.completed,
        tally_all(counts, events).cancelled >= counts.cancelled,
    decreases events.len(),
{
    if events.len() > 0 {
        lemma_tally_all_grows(tally(counts, events[0]), events.skip(1));
    }
}

/// Replay-equivalence: folding a stream in two parts, the later onto the
/// counters of the earlier, gives the counters of folding it at once.
pub proof fn law_tally_in_parts_is_tally_at_once(
    counts: Tally,
    earlier: Seq<EventView>,
    later: Seq<EventView>,
)
    ensures
        tally_all(counts, earlier + later) == tally_all(tally_all(counts, earlier), later),
    decreases earlier.len(),
{
    if earlier.len() == 0 {
        assert(earlier + later =~= later);
    } else {
        assert((earlier + later)[0] == earlier[0]);
        assert((earlier + later).skip(1) =~= earlier.skip(1) + later);
        law_tally_in_parts_is_tally_at_once(tally(counts, earlier[0]), earlier.skip(1), later);
    }
}

/// Replay-equivalence, one event at a time: folding the event that was
/// appended last onto the counters so far gives the counters of the whole
/// stream.
pub proof fn law_tally_one_by_one_is_tally_at_once(
    counts: Tally,
    events: Seq<EventView>,
    event: EventView,
)
    ensures
        tally_all(counts, events.push(event)) == tally(tally_all(counts, events), event),
{
    assert(events.push(event) =~= events + seq![event]);
    law_tally_in_parts_is_tally_at_once(counts, events, seq![event]);
    reveal_with_fuel(tally_all, 2);
    assert(seq![event].skip(1).len() == 0);
}

/// Folding event `k` first and the others after it, in their order, gives
/// the counters of the stream as it stands.
pub proof fn lemma_tally_all_first_or_in_place(counts: Tally, events: Seq<EventView>, k: int)
    requires
        0 <= k < events.len(),
    ensures
        tally_all(counts, events) == tally_all(tally(counts, events[k]), events.remove(k)),
    decreases k,
{
    if k == 0 {
        assert(events.remove(0) =~= events.skip(1));
    } else {
        let rest = events.skip(1);
        lemma_tally_all_first_or_in_place(tally(counts, events[0]), rest, k - 1);
        assert(rest[k - 1] == events[k]);
        assert(events.remove(k)[0] == events[0]);
        assert(events.remove(k).skip(1) =~= rest.remove(k - 1));
        assert(tally(tally(counts, events[0]), events[k]) == tally(
            tally(counts, events[k]),
            events[0],
        ));
    }
}

/// The counters do not depend on the order of the stream: two streams that
/// hold the same events, each as often as the other, give the same counters.
pub proof fn law_tally_ignores_order(counts: Tally, first: Seq<EventView>, second: Seq<EventView>)
    requires
        first.to_multiset() == second.to_multiset(),
    ensures
        tally_all(counts, first) == tally_all(counts, second),
    decreases first.len(),
{
    broadcast use vstd::seq_lib::group_to_multiset_ensures;

    first.to_multiset_ensures();
    second.to_multiset_ensures();
    if first.len() == 0 {
        assert(second.len() == 0);
    } else {
        let head = first[0];
        assert(first.contains(head));
        assert(second.to_multiset().count(head) > 0);
        assert(second.contains(head));
        let k = choose|k: int| 0 <= k < second.len() && second[k] == head;
        assert(first.remove(0) =~= first.skip(1));
        assert(first.skip(1).to_multiset() =~= second.remove(k).to_multiset());
        law_tally_ignores_order(tally(counts, head), first.skip(1), second.remove(k));
        lemma_tally_all_first_or_in_place(counts, second, k);
    }
}

/// Replay-equivalence across orders: however the streams of two orders are
/// interleaved into one, folding the interleaved stream gives the counters
/// of folding the one stream and then the other.
pub proof fn law_tally_of_interleaved_streams(
    counts: Tally,
    merged: Seq<EventView>,
    left: Seq<EventView>,
    right: Seq<EventView>,
)
    requires
        is_interleaving(merged, left, right),
    ensures
        tally_all(counts, merged) == tally_all(tally_all(counts, left), right),
    decreases merged.len(),
{
    law_tally_in_parts_is_tally_at_once(counts, left, right);
    if merged.len() == 0 {
        assert(left + right =~= merged);
    } else if left.len() > 0 && left[0] == merged[0] && is_interleaving(
        merged.skip(1),
        left.skip(1),
        right,
    ) {
        let next = tally(counts, merged[0]);
        law_tally_of_interleaved_streams(next, merged.skip(1), left.skip(1), right);
        law_tally_in_parts_is_tally_at_once(next, left.skip(1), right);
        assert((left + right)[0] == left[0]);
        assert((left + right).skip(1) =~= left.skip(1) + right);
    } else {
        let next = tally(counts, merged[0]);
        law_tally_of_interleaved_streams(next, merged.skip(1), left, right.skip(1));
        law_tally_in_parts_is_tally_at_once(next, left, right.skip(1));
        let k = left.len() as int;
        assert((left + right)[k] == right[0]);
        assert((left + right).remove(k) =~= left + right.skip(1));
        lemma_tally_all_first_or_in_place(counts, left + right, k);
    }
}

/// What a filter keeps of a stream, said around one of its places: what it
/// keeps before the place, the element there if it is kept, and what it
/// keeps after the place. Without the element the two ends remain.
proof fn lemma_filter_around(stream: Seq<Sourced>, k: int, keep: spec_fn(Sourced) -> bool)
    requires
        0 <= k < stream.len(),
    ensures
        stream.filter(keep) == stream.take(k).filter(keep) + (if keep(stream[k]) {
            seq![stream[k]]
        } else {
            Seq::empty()
        }) + stream.skip(k + 1).filter(keep),
        stream.remove(k).filter(keep) == stream.take(k).filter(keep) + stream.skip(k + 1).filter(
            keep,
        ),
{
    let before = stream.take(k);
    let after = stream.skip(k + 1);
    assert(stream =~= before + (seq![stream[k]] + after));
    assert(stream.remove(k) =~= before + after);
    Seq::filter_distributes_over_add(before, seq![stream[k]] + after, keep);
    Seq::filter_distributes_over_add(before, after, keep);
    after.lemma_filter_prepend(stream[k], keep);
    assert(before.filter(keep) + ((if keep(stream[k]) {
        seq![stream[k]]
    } else {
        Seq::empty()
    }) + after.filter(keep)) =~= before.filter(keep) + (if keep(stream[k]) {
        seq![stream[k]]
    } else {
        Seq::empty()
    }) + after.filter(keep));
}

/// A filter keeps nothing of a stream none of whose elements it keeps.
proof fn lemma_filter_keeps_nothing(stream: Seq<Sourced>, keep: spec_fn(Sourced) -> bool)
    requires
        forall|i: int| 0 <= i < stream.len() ==> !keep(#[trigger] stream[i]),
    ensures
        stream.filter(keep).len() == 0,
{
    assert(stream.all(|s: Sourced| !keep(s)));
    stream.lemma_all_neg_filter_empty(keep);
}

/// Where a filter keeps some element of a stream, there is a first one that
/// it keeps.
proof fn lemma_first_kept_exists(stream: Seq<Sourced>, keep: spec_fn(Sourced) -> bool)
    requires
        exists|i: int| 0 <= i < stream.len() && keep(stream[i]),
    ensures
        exists|k: int|
            0 <= k < stream.len() && keep(stream[k]) && forall|j: int|
                0 <= j < k ==> !keep(#[trigger] stream[j]),
    decreases stream.len(),
{
    let i = choose|i: int| 0 <= i < stream.len() && keep(stream[i]);
    if exists|j: int| 0 <= j < i && keep(stream[j]) {
        let shorter = stream.take(i);
        let j = choose|j: int| 0 <= j < i && keep(stream[j]);
        assert(shorter[j] == stream[j]);
        lemma_first_kept_exists(shorter, keep);
        let k = choose|k: int|
            0 <= k < shorter.len() && keep(shorter[k]) && forall|j: int|
                0 <= j < k ==> !keep(#[trigger] shorter[j]);
        assert(keep(stream[k]));
        assert forall|j: int| 0 <= j < k implies !keep(#[trigger] stream[j]) by {
            assert(shorter[j] == stream[j]);
        }
    } else {
        assert forall|j: int| 0 <= j < i implies !keep(#[trigger] stream[j]) by {}
    }
}

/// Replay-equivalence across any number of orders: two streams across
/// orders in which every order has the same stream of its own give the same
/// counters. How the streams of different orders are interleaved has no
/// effect; only the order of events within one order is given.
pub proof fn law_tally_ignores_how_orders_interleave(
    counts: Tally,
    first: Seq<Sourced>,
    second: Seq<Sourced>,
)
    requires
        forall|id: Seq<char>| #[trigger] stream_of(first, id) == stream_of(second, id),
    ensures
        tally_all(counts, events_of(first)) == tally_all(counts, events_of(second)),
    decreases first.len(),
{
    if first.len() == 0 {
        if second.len() > 0 {
            let id = second[0].source_id;
            assert(first.filter(belongs_to(id)).len() == 0) by {
                lemma_filter_keeps_nothing(first, belongs_to(id));
            }
            lemma_filter_around(second, 0, belongs_to(id));
            assert(stream_of(first, id) == stream_of(second, id));
            assert(second.filter(belongs_to(id)).len() > 0);
        }
        assert(events_of(first) =~= events_of(second));
    } else {
        let head = first[0];
        let id = head.source_id;
        let keep = belongs_to(id);
        // The order of `head` starts with `head` in the first stream ...
        lemma_filter_around(first, 0, keep);
        assert(first.take(0).filter(keep).len() == 0) by {
            lemma_filter_keeps_nothing(first.take(0), keep);
        }
        assert(first.remove(0) =~= first.skip(1));
        assert(first.filter(keep) =~= seq![head] + first.skip(1).filter(keep));
        assert(stream_of(first, id)[0] == head.event);
        assert(stream_of(first, id) == stream_of(second, id));
        // ... so it starts with `head` in the second one too, at some place `k`.
        assert(stream_of(first, id).len() == first.filter(keep).len());
        assert(stream_of(second, id).len() == second.filter(keep).len());
        assert(second.filter(keep).len() > 0);
        assert(exists|i: int| 0 <= i < second.len() && keep(second[i])) by {
            if forall|i: int| 0 <= i < second.len() ==> !keep(#[trigger] second[i]) {
                lemma_filter_keeps_nothing(second, keep);
            }
        }
        lemma_first_kept_exists(second, keep);
        let k = choose|k: int|
            0 <= k < second.len() && keep(second[k]) && forall|j: int|
                0 <= j < k ==> !keep(#[trigger] second[j]);
        lemma_filter_around(second, k, keep);
        assert(second.take(k).filter(keep).len() == 0) by {
            lemma_filter_keeps_nothing(second.take(k), keep);
        }
        assert(second.filter(keep) =~= seq![second[k]] + second.skip(k + 1).filter(keep));
        assert(stream_of(second, id)[0] == second[k].event);
        assert(second[k] == head);
        // Without `head`, every order still has the same stream in both.
        let rest = first.skip(1);
        let others = second.remove(k);
        assert forall|other: Seq<char>| #[trigger]
            stream_of(rest, other) == stream_of(others, other) by {
            let keep_other = belongs_to(other);
            lemma_filter_around(first, 0, keep_other);
            lemma_filter_around(second, k, keep_other);
            assert(first.take(0).filter(keep_other).len() == 0) by {
                lemma_filter_keeps_nothing(first.take(0), keep_other);
            }
            assert(stream_of(first, other) == stream_of(second, other));
            if other == id {
                assert(second.take(k).filter(keep_other).len() == 0);
                assert(rest.filter(keep_other) =~= first.filter(keep_other).skip(1));
                assert(others.filter(keep_other) =~= second.filter(keep_other).skip(1));
                assert(stream_of(rest, other) =~= stream_of(first, other).skip(1));
                assert(stream_of(others, other) =~= stream_of(second, other).skip(1));
            } else {
                assert(rest.filter(keep_other) =~= first.filter(keep_other));
                assert(others.filter(keep_other) =~= second.filter(keep_other));
            }
        }
        law_tally_ignores_how_orders_interleave(tally(counts, head.event), rest, others);
        assert(events_of(first).skip(1) =~= events_of(rest));
        assert(events_of(second).remove(k) =~= events_of(others));
        lemma_tally_all_first_or_in_place(counts, events_of(second), k);
    }
}

} // verus!
