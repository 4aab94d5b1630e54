//! The order aggregate: its data, its events and commands, and the functions
//! that fold events into state and turn commands into events.

use crate::clock::{now, Timestamp};
use crate::laws::{lemma_merge_keeps_skus_distinct, lemma_tally_all_grows};
use crate::model;
use crate::model::{CommandView, EventView, ItemView, OrderView, Tally};
use std::convert::Infallible;
use vstd::prelude::*;

verus! {

/// One line of an order.
#[derive(Debug, PartialEq, Eq)]
pub struct OrderItem {
    /// The stock keeping unit that identifies the line within its order.
    pub item_sku: String,
    /// How many units are ordered.
    pub quantity: u8,
    /// The unit price as the bit pattern of an IEEE 754 single-precision
    /// number. The library carries it and never computes with it.
    pub price_bits: u32,
}

impl View for OrderItem {
    type V = ItemView;

    open spec fn view(&self) -> ItemView {
        ItemView {
            item_sku: self.item_sku@,
            quantity: self.quantity as nat,
            price_bits: self.price_bits,
        }
    }
}

impl DeepView for OrderItem {
    type V = ItemView;

    open spec fn deep_view(&self) -> ItemView {
        self@
    }
}

impl Clone for OrderItem {
    fn clone(&self) -> (copy: Self)
        ensures
            copy == *self,
    {
        OrderItem {
            item_sku: self.item_sku.clone(),
            quantity: self.quantity,
            price_bits: self.price_bits,
        }
    }
}

/// Where an order stands in its life. Exactly one of the three holds, and
/// nothing leads out of `Complete` or `Cancelled`.
#[derive(Debug, Clone, Copy, PartialEq, Eq)]
pub enum OrderState {
    /// Lines can still be added; holds the time of the last change.
    Editable { updated_at: Timestamp },
    /// The order was completed at `at`.
    Complete { at: Timestamp },
    /// The order was cancelled at `at`.
    Cancelled { at: Timestamp },
}

/// Why an event or a command was rejected.
#[derive(Debug, Clone, Copy, PartialEq, Eq)]
pub enum OrderError {
    AlreadyCreated,
    NotYetCreated,
    NotEditable,
    AlreadyCompleted,
    AlreadyCancelled,
}

/// The state of one order, as folded from its events.
///
/// There is no way to build an `Order` but by folding events. The lines of
/// an `Order` are keyed by their SKU: no two of them carry the same one.
#[derive(Debug, PartialEq, Eq)]
pub struct Order {
    id: String,
    created_at: Timestamp,
    items: Vec<OrderItem>,
    state: OrderState,
}

impl View for Order {
    type V = OrderView;

    closed spec fn view(&self) -> OrderView {
        OrderView {
            id: self.id@,
            created_at: self.created_at,
            items: self.items.deep_view(),
            state: self.state,
        }
    }
}

impl DeepView for Order {
    type V = OrderView;

    open spec fn deep_view(&self) -> OrderView {
        self@
    }
}

impl Clone for Order {
    fn clone(&self) -> (copy: Self)
        ensures
            copy@ == self@,
    {
        proof {
            use_type_invariant(self);
        }
        let items = self.items.clone();
        assert(items.deep_view() =~= self.items.deep_view());
        Order { id: self.id.clone(), created_at: self.created_at, items, state: self.state }
    }
}

impl Order {
    #[verifier::type_invariant]
    spec fn lines_are_keyed_by_sku(self) -> bool {
        model::distinct_skus(self.items.deep_view())
    }

    /// The identity of the order.
    pub fn id(&self) -> (id: &String)
        ensures
            id@ == self@.id,
    {
        &self.id
    }

    /// When the order was created.
    pub fn created_at(&self) -> (at: Timestamp)
        ensures
            at == self@.created_at,
    {
        self.created_at
    }

    /// The lines of the order, in the order in which their SKUs first came.
    /// No two of them carry the same SKU.
    pub fn items(&self) -> (items: &Vec<OrderItem>)
        ensures
            items.deep_view() == self@.items,
            self@.wf(),
    {
        proof {
            use_type_invariant(self);
        }
        &self.items
    }

    /// Where the order stands in its life.
    pub fn state(&self) -> (state: OrderState)
        ensures
            state == self@.state,
    {
        self.state
    }

    /// Whether lines can still be added.
    pub fn is_editable(&self) -> (editable: bool)
        ensures
            editable == (self@.state is Editable),
    {
        if let OrderState::Editable { .. } = self.state {
            return true;
        }
        false
    }

    /// Whether `event` can be applied with every quantity staying in the
    /// range of `u8`: whether `OrderAggregate::apply_next` may be called.
    /// An event that will be rejected always can.
    pub fn has_room_for(&self, event: &OrderEvent) -> (fits: bool)
        ensures
            fits == model::apply_fits(Some(self@), event@),
    {
        match event {
            OrderEvent::ItemAdded { item, .. } => !self.is_editable() || can_merge(&self.items, item),
            _ => true,
        }
    }
}

/// An intent submitted by a caller. A command is never stored; it is
/// consumed when it is decided upon.
#[derive(Debug)]
pub enum OrderCommand {
    Create,
    AddItem { item: OrderItem },
    Complete,
    Cancel,
}

impl View for OrderCommand {
    type V = CommandView;

    open spec fn view(&self) -> CommandView {
        match self {
            OrderCommand::Create => CommandView::Create,
            OrderCommand::AddItem { item } => CommandView::AddItem { item: item@ },
            OrderCommand::Complete => CommandView::Complete,
            OrderCommand::Cancel => CommandView::Cancel,
        }
    }
}

/// A fact that happened to an order, with the time at which it happened.
#[derive(Debug, PartialEq, Eq)]
pub enum OrderEvent {
    Created { id: String, at: Timestamp },
    ItemAdded { item: OrderItem, at: Timestamp },
    Completed { at: Timestamp },
    Cancelled { at: Timestamp },
}

impl View for OrderEvent {
    type V = EventView;

    open spec fn view(&self) -> EventView {
        match self {
            OrderEvent::Created { id, at } => EventView::Created { id: id@, at: *at },
            OrderEvent::ItemAdded { item, at } => EventView::ItemAdded { item: item@, at: *at },
            OrderEvent::Completed { at } => EventView::Completed { at: *at },
            OrderEvent::Cancelled { at } => EventView::Cancelled { at: *at },
        }
    }
}

impl DeepView for OrderEvent {
    type V = EventView;

    open spec fn deep_view(&self) -> EventView {
        self@
    }
}

impl Clone for OrderEvent {
    fn clone(&self) -> (copy: Self)
        ensures
            copy == *self,
    {
        match self {
            OrderEvent::Created { id, at } => OrderEvent::Created { id: id.clone(), at: *at },
            OrderEvent::ItemAdded { item, at } => OrderEvent::ItemAdded {
                item: item.clone(),
                at: *at,
            },
            OrderEvent::Completed { at } => OrderEvent::Completed { at: *at },
            OrderEvent::Cancelled { at } => OrderEvent::Cancelled { at: *at },
        }
    }
}

impl OrderEvent {
    /// When the event happened.
    pub fn happened_at(&self) -> (at: &Timestamp)
        ensures
            *at == self@.happened_at(),
    {
        match self {
            OrderEvent::Created { at, .. } => at,
            OrderEvent::ItemAdded { at, .. } => at,
            OrderEvent::Completed { at, .. } => at,
            OrderEvent::Cancelled { at, .. } => at,
        }
    }
}

impl OrderError {
    /// The text of the error, as a mathematical value.
    ///
    /// The texts of `AlreadyCompleted` and `AlreadyCancelled` read crosswise:
    /// each names the other state. Match on the variant, not on the text.
    pub open spec fn message_spec(self) -> Seq<char> {
        match self {
            OrderError::AlreadyCreated => "order has already been created"@,
            OrderError::NotYetCreated => "order has not been created yet"@,
            OrderError::NotEditable => "order can't be edited anymore"@,
            OrderError::AlreadyCompleted => "order has already been cancelled"@,
            OrderError::AlreadyCancelled => "order has already been completed"@,
        }
    }

    /// The text that describes the error to a person.
    pub fn message(&self) -> (text: &'static str)
        ensures
            text@ == self.message_spec(),
    {
        match self {
            OrderError::AlreadyCreated => "order has already been created",
            OrderError::NotYetCreated => "order has not been created yet",
            OrderError::NotEditable => "order can't be edited anymore",
            OrderError::AlreadyCompleted => "order has already been cancelled",
            OrderError::AlreadyCancelled => "order has already been completed",
        }
    }
}

/// Whether `item` can be added to `items` with every quantity staying in the
/// range of `u8`: whether `insert_or_merge` may be called.
pub fn can_merge(items: &Vec<OrderItem>, item: &OrderItem) -> (fits: bool)
    ensures
        fits == model::merge_fits(items.deep_view(), item@),
{
    let mut i: usize = 0;
    while i < items.len()
        invariant
            i <= items.len(),
            forall|j: int|
                0 <= j < i ==> (#[trigger] items.deep_view()[j]).item_sku != item@.item_sku,
        decreases items.len() - i,
    {
        if items[i].item_sku == item.item_sku {
            assert(items.deep_view()[i as int] == items[i as int]@);
            assert(model::is_first_with_sku(items.deep_view(), item@.item_sku, i as int));
            return items[i].quantity <= u8::MAX - item.quantity;
        }
        i += 1;
    }
    true
}

/// The lines after `item` has been added to `items`: a line that already
/// carries the SKU takes the sum of the quantities, otherwise `item` is
/// appended.
pub fn insert_or_merge(items: Vec<OrderItem>, item: OrderItem) -> (merged: Vec<OrderItem>)
    requires
        model::merge_fits(items.deep_view(), item@),
    ensures
        merged.deep_view() == model::merge(items.deep_view(), item@),
{
    let mut lines = items;
    let mut i: usize = 0;
    while i < lines.len()
        invariant
            i <= lines.len(),
            lines.deep_view() == items.deep_view(),
            model::merge_fits(items.deep_view(), item@),
            forall|j: int|
                0 <= j < i ==> (#[trigger] items.deep_view()[j]).item_sku != item@.item_sku,
        decreases lines.len() - i,
    {
        if lines[i].item_sku == item.item_sku {
            assert(items.deep_view()[i as int] == lines[i as int]@);
            assert(model::is_first_with_sku(items.deep_view(), item@.item_sku, i as int));
            lines[i].quantity += item.quantity;
            assert(lines.deep_view() =~= model::merge(items.deep_view(), item@));
            return lines;
        }
        i += 1;
    }
    lines.push(item);
    assert(lines.deep_view() =~= model::merge(items.deep_view(), item@));
    lines
}

/// What a fold step returns, as a mathematical value.
pub open spec fn applied_view(r: Result<Order, OrderError>) -> Result<OrderView, OrderError> {
    match r {
        Ok(order) => Ok(order@),
        Err(e) => Err(e),
    }
}

/// What a fold returns, as a mathematical value.
pub open spec fn folded_view(r: Result<Option<Order>, OrderError>) -> Result<
    Option<OrderView>,
    OrderError,
> {
    match r {
        Ok(state) => Ok(state.deep_view()),
        Err(e) => Err(e),
    }
}

/// What a decision returns, as a mathematical value.
pub open spec fn decided_view(r: Result<Vec<OrderEvent>, OrderError>) -> Result<
    Seq<EventView>,
    OrderError,
> {
    match r {
        Ok(events) => Ok(events.deep_view()),
        Err(e) => Err(e),
    }
}

/// The order aggregate: the rules by which events are folded into the state
/// of an order and by which commands are turned into events.
#[derive(Debug, Clone, Copy)]
pub struct OrderAggregate;

impl OrderAggregate {
    /// Folds the first event of a stream. `Created` gives an editable order
    /// without lines; every other event is rejected with `NotYetCreated`.
    pub fn apply_first(event: OrderEvent) -> (r: Result<Order, OrderError>)
        ensures
            applied_view(r) == model::apply_first(event@),
            r is Ok <==> event is Created,
            r is Err ==> r == Err::<Order, OrderError>(OrderError::NotYetCreated),
            r matches Ok(order) ==> order@.wf(),
    {
        if let OrderEvent::Created { id, at } = event {
            let order = Order {
                id,
                created_at: at,
                items: Vec::new(),
                state: OrderState::Editable { updated_at: at },
            };
            assert(order@.items =~= Seq::empty());
            return Ok(order);
        }
        Err(OrderError::NotYetCreated)
    }

    /// Folds one more event onto `state`.
    ///
    /// * `Created` is rejected with `AlreadyCreated`.
    /// * `ItemAdded` merges the item into the lines of an editable order and
    ///   is rejected with `NotEditable` otherwise.
    /// * `Completed` completes an editable order; it is rejected with
    ///   `AlreadyCompleted` on a complete one and with `NotEditable` on a
    ///   cancelled one.
    /// * `Cancelled` cancels an editable order; it is rejected with
    ///   `AlreadyCancelled` on a cancelled one and with `NotEditable` on a
    ///   complete one.
    ///
    /// A quantity is a `u8`: the caller sees to it that the merged quantity
    /// fits.
    pub fn apply_next(state: Order, event: OrderEvent) -> (r: Result<Order, OrderError>)
        requires
            model::apply_fits(Some(state@), event@),
        ensures
            applied_view(r) == model::apply_next(state@, event@),
            r is Ok ==> state@.state is Editable,
            r matches Ok(order) ==> order@.wf(),
    {
        proof {
            use_type_invariant(&state);
        }
        let mut state = state;
        match event {
            OrderEvent::Created { .. } => Err(OrderError::AlreadyCreated),
            OrderEvent::ItemAdded { item, at } => {
                if let OrderState::Editable { .. } = state.state {
                    proof {
                        lemma_merge_keeps_skus_distinct(state@.items, item@);
                    }
                    state.state = OrderState::Editable { updated_at: at };
                    state.items = insert_or_merge(state.items, item);
                    return Ok(state);
                }
                Err(OrderError::NotEditable)
            },
            OrderEvent::Completed { at } => {
                if let OrderState::Complete { .. } = state.state {
                    return Err(OrderError::AlreadyCompleted);
                }
                if let OrderState::Editable { .. } = state.state {
                    state.state = OrderState::Complete { at };
                    return Ok(state);
                }
                Err(OrderError::NotEditable)
            },
            OrderEvent::Cancelled { at } => {
                if let OrderState::Cancelled { .. } = state.state {
                    return Err(OrderError::AlreadyCancelled);
                }
                if let OrderState::Editable { .. } = state.state {
                    state.state = OrderState::Cancelled { at };
                    return Ok(state);
                }
                Err(OrderError::NotEditable)
            },
        }
    }

    /// Folds `events` onto `state` in stream order: the first through
    /// `apply_first` where there is no state yet, every other through
    /// `apply_next`. The first event that is rejected ends the fold, and its
    /// error is returned in place of any state.
    pub fn fold(state: Option<Order>, events: &[OrderEvent]) -> (r: Result<
        Option<Order>,
        OrderError,
    >)
        requires
            model::fold_fits(state.deep_view(), events.deep_view()),
        ensures
            folded_view(r) == model::fold(state.deep_view(), events.deep_view()),
    {
        let ghost start = state.deep_view();
        let ghost stream = events.deep_view();
        let mut current = state;
        let mut i: usize = 0;
        assert(stream.skip(0) =~= stream);
        while i < events.len()
            invariant
                i <= events.len(),
                start == state.deep_view(),
                stream == events.deep_view(),
                model::fold(start, stream) == model::fold(current.deep_view(), stream.skip(i as int)),
                model::fold_fits(current.deep_view(), stream.skip(i as int)),
            decreases events.len() - i,
        {
            let ghost rest = stream.skip(i as int);
            assert(rest[0] == events[i as int]@);
            assert(rest.skip(1) =~= stream.skip(i + 1));
            let event = events[i].clone();
            let applied = match current {
                None => Self::apply_first(event),
                Some(order) => Self::apply_next(order, event),
            };
            match applied {
                Ok(next) => {
                    current = Some(next);
                },
                Err(e) => {
                    return Err(e);
                },
            }
            i += 1;
        }
        Ok(current)
    }

    /// Rebuilds the state of an order from its whole event stream. An empty
    /// stream gives `None`: no state exists before the first event.
    pub fn replay(events: &[OrderEvent]) -> (r: Result<Option<Order>, OrderError>)
        requires
            model::fold_fits(None, events.deep_view()),
        ensures
            folded_view(r) == model::replay(events.deep_view()),
    {
        Self::fold(None, events)
    }

    /// Decides on a command for an order that does not exist yet, at the
    /// time `at`. `Create` proposes the one event `Created`, with the
    /// identity and the time given; every other command is rejected with
    /// `NotYetCreated`.
    pub fn handle_first_at(&self, id: &String, command: OrderCommand, at: Timestamp) -> (r: Result<
        Vec<OrderEvent>,
        OrderError,
    >)
        ensures
            decided_view(r) == model::decide_first(id@, command@, at),
            r is Ok <==> command is Create,
            r is Err ==> r == Err::<Vec<OrderEvent>, OrderError>(OrderError::NotYetCreated),
    {
        if let OrderCommand::Create = command {
            let mut events: Vec<OrderEvent> = Vec::new();
            events.push(OrderEvent::Created { id: id.clone(), at });
            assert(events.deep_view() =~= seq![EventView::Created { id: id@, at }]);
            return Ok(events);
        }
        Err(OrderError::NotYetCreated)
    }

    /// Decides on a command for an order that exists, at the time `at`.
    /// `Create` is rejected with `AlreadyCreated`; every other command
    /// proposes the one event that records it, stamped with `at`. The state
    /// has no say here: an event that does not suit it is rejected when it
    /// is folded.
    pub fn handle_next_at(
        &self,
        _id: &String,
        _state: &Order,
        command: OrderCommand,
        at: Timestamp,
    ) -> (r: Result<Vec<OrderEvent>, OrderError>)
        ensures
            decided_view(r) == model::decide_next(command@, at),
            r is Err <==> command is Create,
            r is Err ==> r == Err::<Vec<OrderEvent>, OrderError>(OrderError::AlreadyCreated),
    {
        let event = match command {
            OrderCommand::Create => {
                return Err(OrderError::AlreadyCreated);
            },
            OrderCommand::AddItem { item } => OrderEvent::ItemAdded { item, at },
            OrderCommand::Complete => OrderEvent::Completed { at },
            OrderCommand::Cancel => OrderEvent::Cancelled { at },
        };
        let mut events: Vec<OrderEvent> = Vec::new();
        let ghost recorded = event@;
        events.push(event);
        assert(events.deep_view() =~= seq![recorded]);
        Ok(events)
    }

    /// Decides on a command for an order that does not exist yet, at the
    /// time that the wall clock shows: what `handle_first_at` returns for
    /// some reading of the clock.
    pub fn handle_first(&self, id: &String, command: OrderCommand) -> (r: Result<
        Vec<OrderEvent>,
        OrderError,
    >)
        ensures
            exists|at: Timestamp| decided_view(r) == model::decide_first(id@, command@, at),
            r is Ok <==> command is Create,
            r is Err ==> r == Err::<Vec<OrderEvent>, OrderError>(OrderError::NotYetCreated),
    {
        self.handle_first_at(id, command, now())
    }

    /// Decides on a command for an order that exists, at the time that the
    /// wall clock shows: what `handle_next_at` returns for some reading of
    /// the clock.
    pub fn handle_next(&self, id: &String, state: &Order, command: OrderCommand) -> (r: Result<
        Vec<OrderEvent>,
        OrderError,
    >)
        ensures
            exists|at: Timestamp| decided_view(r) == model::decide_next(command@, at),
            r is Err <==> command is Create,
            r is Err ==> r == Err::<Vec<OrderEvent>, OrderError>(OrderError::AlreadyCreated),
    {
        self.handle_next_at(id, state, command, now())
    }

    /// Handles a command against the order whose event stream is `history`,
    /// at the time `at`.
    ///
    /// The history is replayed; without a state the command goes through
    /// `handle_first_at`, with one through `handle_next_at`; the events
    /// proposed are then folded onto the replayed state, and are returned
    /// only if that fold accepts them. The first error on the way is
    /// returned instead. Nothing is stored: the events are a proposal.
    pub fn dispatch_at(
        &self,
        id: &String,
        history: &[OrderEvent],
        command: OrderCommand,
        at: Timestamp,
    ) -> (r: Result<Vec<OrderEvent>, OrderError>)
        requires
            model::dispatch_fits(history.deep_view(), command@),
        ensures
            decided_view(r) == model::dispatch(id@, history.deep_view(), command@, at),
    {
        let state = match Self::replay(history) {
            Ok(state) => state,
            Err(e) => {
                return Err(e);
            },
        };
        let decided = match &state {
            None => self.handle_first_at(id, command, at),
            Some(order) => self.handle_next_at(id, order, command, at),
        };
        let proposed = match decided {
            Ok(events) => events,
            Err(e) => {
                return Err(e);
            },
        };
        proof {
            let stream = proposed.deep_view();
            reveal_with_fuel(model::fold_fits, 2);
            assert(stream.len() == 1);
            assert(stream.skip(1).len() == 0);
            assert(model::apply_fits(state.deep_view(), stream[0]));
        }
        match Self::fold(state, proposed.as_slice()) {
            Ok(_) => Ok(proposed),
            Err(e) => Err(e),
        }
    }

    /// Handles a command against the order whose event stream is `history`,
    /// at the time that the wall clock shows: what `dispatch_at` returns for
    /// some reading of the clock.
    pub fn dispatch(&self, id: &String, history: &[OrderEvent], command: OrderCommand) -> (r:
        Result<Vec<OrderEvent>, OrderError>)
        requires
            model::dispatch_fits(history.deep_view(), command@),
        ensures
            exists|at: Timestamp|
                decided_view(r) == model::dispatch(id@, history.deep_view(), command@, at),
    {
        self.dispatch_at(id, history, command, now())
    }
}

/// A read model over the events of all orders: how many orders were created,
/// how many completed and how many cancelled.
///
/// It holds no order and is changed by events alone; folding the whole event
/// stream from its start into a fresh projection rebuilds it.
#[derive(Debug, Clone, Copy, PartialEq, Eq)]
pub struct TotalOrdersProjection {
    created: u64,
    completed: u64,
    cancelled: u64,
}

impl View for TotalOrdersProjection {
    type V = Tally;

    closed spec fn view(&self) -> Tally {
        Tally {
            created: self.created as nat,
            completed: self.completed as nat,
            cancelled: self.cancelled as nat,
        }
    }
}

impl Default for TotalOrdersProjection {
    /// The projection of the empty stream: every counter is zero.
    fn default() -> (fresh: Self)
        ensures
            fresh@ == (Tally { created: 0, completed: 0, cancelled: 0 }),
    {
        TotalOrdersProjection { created: 0, completed: 0, cancelled: 0 }
    }
}

impl TotalOrdersProjection {
    /// How many `Created` events were folded in.
    pub fn created(&self) -> (n: u64)
        ensures
            n == self@.created,
    {
        self.created
    }

    /// How many `Completed` events were folded in.
    pub fn completed(&self) -> (n: u64)
        ensures
            n == self@.completed,
    {
        self.completed
    }

    /// How many `Cancelled` events were folded in.
    pub fn cancelled(&self) -> (n: u64)
        ensures
            n == self@.cancelled,
    {
        self.cancelled
    }

    /// Whether `event` can be folded in with every counter staying in the
    /// range of `u64`: whether `project` may be called.
    pub fn has_room_for(&self, event: &OrderEvent) -> (fits: bool)
        ensures
            fits == model::tally_fits(model::tally(self@, event@)),
    {
        match event {
            OrderEvent::Created { .. } => self.created < u64::MAX,
            OrderEvent::Completed { .. } => self.completed < u64::MAX,
            OrderEvent::Cancelled { .. } => self.cancelled < u64::MAX,
            OrderEvent::ItemAdded { .. } => true,
        }
    }

    /// Folds one event into the counters: `Created`, `Completed` and
    /// `Cancelled` raise their counter by one, `ItemAdded` changes nothing.
    /// Folding cannot fail.
    ///
    /// A counter is a `u64`: the caller sees to it that the raised counter
    /// fits.
    pub fn project(&mut self, event: &OrderEvent) -> (r: Result<(), Infallible>)
        requires
            model::tally_fits(model::tally(old(self)@, event@)),
        ensures
            r is Ok,
            final(self)@ == model::tally(old(self)@, event@),
    {
        match event {
            OrderEvent::Created { .. } => self.created += 1,
            OrderEvent::Completed { .. } => self.completed += 1,
            OrderEvent::Cancelled { .. } => self.cancelled += 1,
            _ => (),
        };
        Ok(())
    }

    /// Folds a whole stream into the counters, in stream order.
    pub fn project_all(&mut self, events: &[OrderEvent])
        requires
            model::tally_fits(model::tally_all(old(self)@, events.deep_view())),
        ensures
            final(self)@ == model::tally_all(old(self)@, events.deep_view()),
    {
        let ghost stream = events.deep_view();
        let ghost start = self@;
        let mut i: usize = 0;
        assert(stream.skip(0) =~= stream);
        while i < events.len()
            invariant
                i <= events.len(),
                stream == events.deep_view(),
                model::tally_all(start, stream) == model::tally_all(self@, stream.skip(i as int)),
                model::tally_fits(model::tally_all(start, stream)),
            decreases events.len() - i,
        {
            proof {
                let rest = stream.skip(i as int);
                assert(rest[0] == events[i as int]@);
                assert(rest.skip(1) =~= stream.skip(i + 1));
                lemma_tally_all_grows(model::tally(self@, rest[0]), rest.skip(1));
            }
            let _ = self.project(&events[i]);
            i += 1;
        }
    }
}

} // verus!
