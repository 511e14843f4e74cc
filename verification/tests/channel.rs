use bitoxide::simple_channel::channel;
use bitoxide::simple_channel::RecvError;
use bitoxide::simple_channel::SendError;

#[test]
fn items_come_out_in_the_order_they_went_in() {
    let (tx, mut rx) = channel::<u32>();
    let other = tx.clone();
    assert!(tx.send(&mut rx, 1).is_ok());
    assert!(other.send(&mut rx, 2).is_ok());
    assert!(tx.send(&mut rx, 3).is_ok());
    assert_eq!(rx.len(), 3);
    assert_eq!(rx.recv(), Ok(1));
    assert_eq!(rx.try_recv(), Ok(2));
    assert_eq!(rx.recv(), Ok(3));
    assert_eq!(rx.recv(), Err(RecvError::Empty));
    assert_eq!(rx.try_recv(), Err(RecvError::Empty));
}

#[test]
fn try_iter_takes_an_item_at_each_call() {
    let (tx, mut rx) = channel::<&str>();
    tx.send(&mut rx, "a").unwrap();
    tx.send(&mut rx, "b").unwrap();
    let mut items = rx.try_iter();
    // Making the iterator takes nothing off the queue
    assert_eq!(rx.len(), 2);
    assert_eq!(items.next(&mut rx), Some("a"));
    assert_eq!(rx.len(), 1);
    // What is sent while iterating is yielded too
    tx.send(&mut rx, "c").unwrap();
    assert_eq!(items.next(&mut rx), Some("b"));
    assert_eq!(items.next(&mut rx), Some("c"));
    assert_eq!(items.next(&mut rx), None);
    assert_eq!(rx.recv(), Err(RecvError::Empty));
}

#[test]
fn what_try_iter_does_not_take_stays_queued() {
    let (tx, mut rx) = channel::<u8>();
    tx.send(&mut rx, 1).unwrap();
    tx.send(&mut rx, 2).unwrap();
    let mut items = rx.try_iter();
    assert_eq!(items.next(&mut rx), Some(1));
    assert_eq!(rx.len(), 1);
    assert_eq!(rx.recv(), Ok(2));
}

#[test]
fn try_iter_of_an_empty_queue_yields_nothing() {
    let (_tx, mut rx) = channel::<u8>();
    let mut items = rx.try_iter();
    assert_eq!(items.next(&mut rx), None);
}

#[test]
fn error_messages() {
    assert_eq!(RecvError::Empty.message(), "receiving from an empty queue");
    assert_eq!(RecvError::FailedToBorrow.message(), "failed to borrow the queue");
    assert_eq!(SendError(5u8).message(), "failed to borrow for sending");
}
