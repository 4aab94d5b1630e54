use eventually_app_example::clock::Timestamp;
use eventually_app_example::order::{
    Order, OrderAggregate, OrderCommand, OrderError, OrderEvent, OrderItem, OrderState,
    TotalOrdersProjection,
};

fn at(secs: i64) -> Timestamp {
    Timestamp { secs, nanos: 0 }
}

fn item(sku: &str, quantity: u8, price: f32) -> OrderItem {
    OrderItem { item_sku: sku.to_string(), quantity, price_bits: price.to_bits() }
}

/// Sends `command` and, where it is accepted, appends what it proposes.
fn send(
    id: &String,
    history: &mut Vec<OrderEvent>,
    command: OrderCommand,
    when: Timestamp,
) -> Result<(), OrderError> {
    let proposed = OrderAggregate.dispatch_at(id, history, command, when)?;
    history.extend(proposed);
    Ok(())
}

fn state_of(history: &[OrderEvent]) -> Order {
    OrderAggregate::replay(history).unwrap().unwrap()
}

#[test]
fn adding_the_same_sku_twice_gives_one_line_with_the_sum() {
    let id = "order-3".to_string();
    let mut history = Vec::new();
    send(&id, &mut history, OrderCommand::Create, at(1)).unwrap();
    send(&id, &mut history, OrderCommand::AddItem { item: item("A", 2, 1.5) }, at(2)).unwrap();
    send(&id, &mut history, OrderCommand::AddItem { item: item("A", 3, 1.5) }, at(3)).unwrap();

    let order = state_of(&history);
    assert_eq!(order.items().len(), 1);
    assert_eq!(order.items()[0].item_sku, "A");
    assert_eq!(order.items()[0].quantity, 5);
}

#[test]
fn a_completed_order_takes_neither_items_nor_cancellation() {
    let id = "order-6".to_string();
    let mut history = Vec::new();
    send(&id, &mut history, OrderCommand::Create, at(10)).unwrap();
    send(&id, &mut history, OrderCommand::AddItem { item: item("X", 1, 9.99) }, at(11)).unwrap();
    send(&id, &mut history, OrderCommand::Complete, at(12)).unwrap();

    let order = state_of(&history);
    assert_eq!(order.state(), OrderState::Complete { at: at(12) });
    assert!(!order.is_editable());
    assert_eq!(order.items().len(), 1);
    assert_eq!(order.items()[0].item_sku, "X");
    assert_eq!(order.items()[0].quantity, 1);
    assert_eq!(f32::from_bits(order.items()[0].price_bits), 9.99);

    let add = send(&id, &mut history, OrderCommand::AddItem { item: item("Y", 1, 1.0) }, at(13));
    assert_eq!(add, Err(OrderError::NotEditable));
    let cancel = send(&id, &mut history, OrderCommand::Cancel, at(14));
    assert_eq!(cancel, Err(OrderError::NotEditable));

    assert_eq!(history.len(), 3);
    assert_eq!(state_of(&history), order);
}

#[test]
fn cancelling_twice_fails_with_already_cancelled() {
    let id = "order-7".to_string();
    let mut history = Vec::new();
    send(&id, &mut history, OrderCommand::Create, at(1)).unwrap();
    send(&id, &mut history, OrderCommand::Cancel, at(2)).unwrap();
    assert_eq!(state_of(&history).state(), OrderState::Cancelled { at: at(2) });

    let again = send(&id, &mut history, OrderCommand::Cancel, at(3));
    assert_eq!(again, Err(OrderError::AlreadyCancelled));
    assert_eq!(state_of(&history).state(), OrderState::Cancelled { at: at(2) });
}

#[test]
fn completing_twice_fails_with_already_completed_and_cancelling_after_with_not_editable() {
    let id = "order-8".to_string();
    let mut history = Vec::new();
    send(&id, &mut history, OrderCommand::Create, at(1)).unwrap();
    send(&id, &mut history, OrderCommand::Complete, at(2)).unwrap();

    let again = send(&id, &mut history, OrderCommand::Complete, at(3));
    assert_eq!(again, Err(OrderError::AlreadyCompleted));

    let cancel = send(&id, &mut history, OrderCommand::Cancel, at(4));
    assert_eq!(cancel, Err(OrderError::NotEditable));
    assert_ne!(cancel, Err(OrderError::AlreadyCancelled));

    assert_eq!(state_of(&history).state(), OrderState::Complete { at: at(2) });
}

#[test]
fn a_cancelled_order_takes_neither_items_nor_completion() {
    let id = "order-9".to_string();
    let mut history = Vec::new();
    send(&id, &mut history, OrderCommand::Create, at(1)).unwrap();
    send(&id, &mut history, OrderCommand::Cancel, at(2)).unwrap();

    let add = send(&id, &mut history, OrderCommand::AddItem { item: item("A", 1, 1.0) }, at(3));
    assert_eq!(add, Err(OrderError::NotEditable));
    let complete = send(&id, &mut history, OrderCommand::Complete, at(4));
    assert_eq!(complete, Err(OrderError::NotEditable));
    let create = send(&id, &mut history, OrderCommand::Create, at(5));
    assert_eq!(create, Err(OrderError::AlreadyCreated));
}

#[test]
fn created_completed_and_item_added_count_one_created_and_one_completed() {
    let events = vec![
        OrderEvent::Created { id: "order-1".to_string(), at: at(1) },
        OrderEvent::Completed { at: at(2) },
        OrderEvent::ItemAdded { item: item("X", 1, 9.99), at: at(3) },
    ];

    let mut projection = TotalOrdersProjection::default();
    for event in &events {
        assert!(projection.has_room_for(event));
        assert_eq!(projection.project(event), Ok(()));
    }

    assert_eq!(projection.created(), 1);
    assert_eq!(projection.completed(), 1);
    assert_eq!(projection.cancelled(), 0);
}
