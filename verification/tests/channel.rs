use bk_orchestrator::channel::{DispatchChannel, Popped, PushRefused, DISPATCH_CAPACITY};

#[test]
fn channel_preserves_fifo_order() {
    let mut ch: DispatchChannel<&str> = DispatchChannel::new(DISPATCH_CAPACITY);
    ch.try_push("t1").unwrap();
    ch.try_push("t2").unwrap();
    ch.try_push("t3").unwrap();
    assert!(matches!(ch.try_pop(), Popped::Item("t1")));
    assert!(matches!(ch.try_pop(), Popped::Item("t2")));
    assert!(matches!(ch.try_pop(), Popped::Item("t3")));
    assert!(matches!(ch.try_pop(), Popped::Empty));
}

#[test]
fn channel_backpressure_refuses_and_keeps_item() {
    let mut ch: DispatchChannel<u64> = DispatchChannel::new(2);
    ch.try_push(1).unwrap();
    ch.try_push(2).unwrap();
    match ch.try_push(3) {
        Err(PushRefused::Full(item)) => assert_eq!(item, 3),
        _ => panic!("push beyond capacity must be refused with the item handed back"),
    }
    assert_eq!(ch.len(), 2);
    // nothing was dropped: the queued items are intact and in order
    assert!(matches!(ch.try_pop(), Popped::Item(1)));
    assert!(matches!(ch.try_pop(), Popped::Item(2)));
}

#[test]
fn channel_retry_after_backpressure_succeeds() {
    let mut ch: DispatchChannel<u64> = DispatchChannel::new(1);
    ch.try_push(7).unwrap();
    let refused = ch.try_push(8);
    let item = match refused {
        Err(PushRefused::Full(item)) => item,
        _ => panic!("expected backpressure"),
    };
    assert!(matches!(ch.try_pop(), Popped::Item(7)));
    // the stalled producer retries with the same item once room exists
    ch.try_push(item).unwrap();
    assert!(matches!(ch.try_pop(), Popped::Item(8)));
}

#[test]
fn channel_close_is_observable() {
    let mut ch: DispatchChannel<u64> = DispatchChannel::new(4);
    ch.try_push(1).unwrap();
    ch.close();
    match ch.try_push(2) {
        Err(PushRefused::Closed(item)) => assert_eq!(item, 2),
        _ => panic!("push onto a closed channel must be refused"),
    }
    // the consumer drains what was queued, then sees the terminated signal
    assert!(matches!(ch.try_pop(), Popped::Item(1)));
    assert!(matches!(ch.try_pop(), Popped::Terminated));
}
