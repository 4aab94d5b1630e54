//! The mathematical model of orders, events, commands and the projection.
//!
//! Everything here is ghost code. Text is a `Seq<char>`, a list is a `Seq`,
//! a quantity or a tally is a `nat`, so no arithmetic in this module can
//! overflow. The executable functions of [`crate::order`] are specified
//! against these functions.

use crate::clock::Timestamp;
use crate::order::{OrderError, OrderState};
use vstd::prelude::*;

verus! {

/// One order line.
pub struct ItemView {
    pub item_sku: Seq<char>,
    pub quantity: nat,
    pub price_bits: u32,
}

/// The state of one order.
pub struct OrderView {
    pub id: Seq<char>,
    pub created_at: Timestamp,
    pub items: Seq<ItemView>,
    pub state: OrderState,
}

/// A fact that happened to an order.
pub enum EventView {
    Created { id: Seq<char>, at: Timestamp },
    ItemAdded { item: ItemView, at: Timestamp },
    Completed { at: Timestamp },
    Cancelled { at: Timestamp },
}

impl EventView {
    /// When the event happened.
    pub open spec fn happened_at(self) -> Timestamp {
        match self {
            EventView::Created { at, .. } => at,
            EventView::ItemAdded { at, .. } => at,
            EventView::Completed { at } => at,
            EventView::Cancelled { at } => at,
        }
    }

    /// The same event, had it happened at `at`.
    pub open spec fn stamped(self, at: Timestamp) -> EventView {
        match self {
            EventView::Created { id, .. } => EventView::Created { id, at },
            EventView::ItemAdded { item, .. } => EventView::ItemAdded { item, at },
            EventView::Completed { .. } => EventView::Completed { at },
            EventView::Cancelled { .. } => EventView::Cancelled { at },
        }
    }
}

/// An intent submitted by a caller.
pub enum CommandView {
    Create,
    AddItem { item: ItemView },
    Complete,
    Cancel,
}

/// The counters of the projection.
pub struct Tally {
    pub created: nat,
    pub completed: nat,
    pub cancelled: nat,
}

// ---------------------------------------------------------------------------
// Line items
// ---------------------------------------------------------------------------

/// Line `i` carries `sku` and no earlier line does.
pub open spec fn is_first_with_sku(items: Seq<ItemView>, sku: Seq<char>, i: int) -> bool {
    &&& 0 <= i < items.len()
    &&& items[i].item_sku == sku
    &&& forall|j: int| 0 <= j < i ==> (#[trigger] items[j]).item_sku != sku
}

/// Some line carries `sku`.
pub open spec fn has_sku(items: Seq<ItemView>, sku: Seq<char>) -> bool {
    exists|i: int| 0 <= i < items.len() && (#[trigger] items[i]).item_sku == sku
}

/// No two lines carry the same SKU.
pub open spec fn distinct_skus(items: Seq<ItemView>) -> bool {
    forall|i: int, j: int|
        0 <= i < j < items.len() ==> (#[trigger] items[i]).item_sku != (#[trigger] items[j]).item_sku
}

/// `line` with `extra` more units.
pub open spec fn with_more(line: ItemView, extra: nat) -> ItemView {
    ItemView { quantity: line.quantity + extra, ..line }
}

/// The lines after `item` has been added: where a line already carries the
/// SKU of `item`, the first such line takes the sum of the two quantities and
/// every line keeps its place; where none does, `item` becomes the last line.
pub open spec fn merge(items: Seq<ItemView>, item: ItemView) -> Seq<ItemView> {
    if has_sku(items, item.item_sku) {
        Seq::new(
            items.len(),
            |i: int|
                if is_first_with_sku(items, item.item_sku, i) {
                    with_more(items[i], item.quantity)
                } else {
                    items[i]
                },
        )
    } else {
        items.push(item)
    }
}

/// The quantity that `merge` writes fits in a `u8`.
pub open spec fn merge_fits(items: Seq<ItemView>, item: ItemView) -> bool {
    forall|i: int|
        is_first_with_sku(items, item.item_sku, i) ==> (#[trigger] items[i]).quantity
            + item.quantity <= u8::MAX
}

impl OrderView {
    /// The lines of the order are keyed by their SKU.
    pub open spec fn wf(self) -> bool {
        distinct_skus(self.items)
    }
}

// ---------------------------------------------------------------------------
// Folding events into state
// ---------------------------------------------------------------------------

/// The state that the first event of a stream creates. Only `Created` can
/// come first.
pub open spec fn apply_first(event: EventView) -> Result<OrderView, OrderError> {
    match event {
        EventView::Created { id, at } => Ok(
            OrderView {
                id,
                created_at: at,
                items: Seq::empty(),
                state: OrderState::Editable { updated_at: at },
            },
        ),
        _ => Err(OrderError::NotYetCreated),
    }
}

/// The state after one more event.
pub open spec fn apply_next(state: OrderView, event: EventView) -> Result<OrderView, OrderError> {
    match event {
        EventView::Created { .. } => Err(OrderError::AlreadyCreated),
        EventView::ItemAdded { item, at } => match state.state {
            OrderState::Editable { .. } => Ok(
                OrderView {
                    items: merge(state.items, item),
                    state: OrderState::Editable { updated_at: at },
                    ..state
                },
            ),
            _ => Err(OrderError::NotEditable),
        },
        EventView::Completed { at } => match state.state {
            OrderState::Complete { .. } => Err(OrderError::AlreadyCompleted),
            OrderState::Editable { .. } => Ok(
                OrderView { state: OrderState::Complete { at }, ..state },
            ),
            OrderState::Cancelled { .. } => Err(OrderError::NotEditable),
        },
        EventView::Cancelled { at } => match state.state {
            OrderState::Cancelled { .. } => Err(OrderError::AlreadyCancelled),
            OrderState::Editable { .. } => Ok(
                OrderView { state: OrderState::Cancelled { at }, ..state },
            ),
            OrderState::Complete { .. } => Err(OrderError::NotEditable),
        },
    }
}

/// One step of the fold: `apply_first` where there is no state yet,
/// `apply_next` where there is.
pub open spec fn apply(state: Option<OrderView>, event: EventView) -> Result<
    OrderView,
    OrderError,
> {
    match state {
        None => apply_first(event),
        Some(s) => apply_next(s, event),
    }
}

/// The left fold of `events` onto `state`, in stream order. The first event
/// that cannot be applied ends the fold with its error.
pub open spec fn fold(state: Option<OrderView>, events: Seq<EventView>) -> Result<
    Option<OrderView>,
    OrderError,
>
    decreases events.len(),
{
    if events.len() == 0 {
        Ok(state)
    } else {
        match apply(state, events[0]) {
            Ok(next) => fold(Some(next), events.skip(1)),
            Err(e) => Err(e),
        }
    }
}

/// The state of an order, rebuilt from its whole event stream. An empty
/// stream is no order at all.
pub open spec fn replay(events: Seq<EventView>) -> Result<Option<OrderView>, OrderError> {
    fold(None, events)
}

/// Applying `event` to `state` writes no quantity above `u8::MAX`.
pub open spec fn apply_fits(state: Option<OrderView>, event: EventView) -> bool {
    match (state, event) {
        (Some(s), EventView::ItemAdded { item, .. }) => s.state is Editable ==> merge_fits(
            s.items,
            item,
        ),
        _ => true,
    }
}

/// No step of `fold(state, events)` writes a quantity above `u8::MAX`.
pub open spec fn fold_fits(state: Option<OrderView>, events: Seq<EventView>) -> bool
    decreases events.len(),
{
    events.len() == 0 || (apply_fits(state, events[0]) && match apply(state, events[0]) {
        Ok(next) => fold_fits(Some(next), events.skip(1)),
        Err(_) => true,
    })
}

// ---------------------------------------------------------------------------
// Turning commands into events
// ---------------------------------------------------------------------------

/// The events that a command proposes for an order that does not exist yet,
/// stamped with `at`. Only `Create` is legal.
pub open spec fn decide_first(id: Seq<char>, command: CommandView, at: Timestamp) -> Result<
    Seq<EventView>,
    OrderError,
> {
    match command {
        CommandView::Create => Ok(seq![EventView::Created { id, at }]),
        _ => Err(OrderError::NotYetCreated),
    }
}

/// The events that a command proposes for an order that exists, stamped with
/// `at`. `Create` is illegal; every other command becomes the one event
/// that records it.
pub open spec fn decide_next(command: CommandView, at: Timestamp) -> Result<
    Seq<EventView>,
    OrderError,
> {
    match command {
        CommandView::Create => Err(OrderError::AlreadyCreated),
        CommandView::AddItem { item } => Ok(seq![EventView::ItemAdded { item, at }]),
        CommandView::Complete => Ok(seq![EventView::Completed { at }]),
        CommandView::Cancel => Ok(seq![EventView::Cancelled { at }]),
    }
}

/// `decide_first` where there is no state yet, `decide_next` where there is.
pub open spec fn decide(
    id: Seq<char>,
    state: Option<OrderView>,
    command: CommandView,
    at: Timestamp,
) -> Result<Seq<EventView>, OrderError> {
    match state {
        None => decide_first(id, command, at),
        Some(_) => decide_next(command, at),
    }
}

/// The outcome of a command against the order whose stream is `history`:
/// the history is replayed, the command is turned into proposed events, and
/// the proposal is accepted only if the events can be folded onto the
/// replayed state. The first error on that way is the outcome.
pub open spec fn dispatch(
    id: Seq<char>,
    history: Seq<EventView>,
    command: CommandView,
    at: Timestamp,
) -> Result<Seq<EventView>, OrderError> {
    match replay(history) {
        Err(e) => Err(e),
        Ok(state) => match decide(id, state, command, at) {
            Err(e) => Err(e),
            Ok(proposed) => match fold(state, proposed) {
                Err(e) => Err(e),
                Ok(_) => Ok(proposed),
            },
        },
    }
}

/// Neither replaying `history` nor accepting what `command` proposes writes
/// a quantity above `u8::MAX`.
pub open spec fn dispatch_fits(history: Seq<EventView>, command: CommandView) -> bool {
    &&& fold_fits(None, history)
    &&& match (replay(history), command) {
        (Ok(Some(s)), CommandView::AddItem { item }) => s.state is Editable ==> merge_fits(
            s.items,
            item,
        ),
        _ => true,
    }
}

// ---------------------------------------------------------------------------
// The projection
// ---------------------------------------------------------------------------

/// The counters after one event: `Created`, `Completed` and `Cancelled`
/// each raise their own counter by one, `ItemAdded` raises none.
pub open spec fn tally(counts: Tally, event: EventView) -> Tally {
    match event {
        EventView::Created { .. } => Tally { created: counts.created + 1, ..counts },
        EventView::Completed { .. } => Tally { completed: counts.completed + 1, ..counts },
        EventView::Cancelled { .. } => Tally { cancelled: counts.cancelled + 1, ..counts },
        EventView::ItemAdded { .. } => counts,
    }
}

/// The counters after a whole stream, folded in stream order.
pub open spec fn tally_all(counts: Tally, events: Seq<EventView>) -> Tally
    decreases events.len(),
{
    if events.len() == 0 {
        counts
    } else {
        tally_all(tally(counts, events[0]), events.skip(1))
    }
}

/// Every counter of `counts` fits in a `u64`.
pub open spec fn tally_fits(counts: Tally) -> bool {
    &&& counts.created <= u64::MAX
    &&& counts.completed <= u64::MAX
    &&& counts.cancelled <= u64::MAX
}

/// `merged` holds the events of `left` and of `right`, each stream in its
/// own order, woven together in some way.
pub open spec fn is_interleaving(
    merged: Seq<EventView>,
    left: Seq<EventView>,
    right: Seq<EventView>,
) -> bool
    decreases merged.len(),
{
    if merged.len() == 0 {
        left.len() == 0 && right.len() == 0
    } else {
        ||| left.len() > 0 && left[0] == merged[0] && is_interleaving(
            merged.skip(1),
            left.skip(1),
            right,
        )
        ||| right.len() > 0 && right[0] == merged[0] && is_interleaving(
            merged.skip(1),
            left,
            right.skip(1),
        )
    }
}

/// An event as a store hands it to a projection: together with the identity
/// of the order whose stream it belongs to.
pub struct Sourced {
    pub source_id: Seq<char>,
    pub event: EventView,
}

/// Whether an event belongs to the order `id`.
pub open spec fn belongs_to(id: Seq<char>) -> spec_fn(Sourced) -> bool {
    |sourced: Sourced| sourced.source_id == id
}

/// The events of a stream across orders, without their identities.
pub open spec fn events_of(stream: Seq<Sourced>) -> Seq<EventView> {
    Seq::new(stream.len(), |i: int| stream[i].event)
}

/// The stream of the order `id` within a stream across orders: the events
/// that belong to `id`, in the order in which they stand there.
pub open spec fn stream_of(stream: Seq<Sourced>, id: Seq<char>) -> Seq<EventView> {
    events_of(stream.filter(belongs_to(id)))
}

} // verus!
