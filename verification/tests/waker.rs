use bitoxide::run::waker::get_task_with_waker;
use bitoxide::run::waker::wakes_same;
use bitoxide::run::waker::SimpleWaker;
use bitoxide::run::waker::TaskId;
use bitoxide::simple_channel;

#[test]
fn test_wake() {
    let (woken_tx, mut woken_rx) = simple_channel::channel::<TaskId>();
    let (task, waker) = get_task_with_waker(0, woken_tx);
    let waker_ref: &SimpleWaker = &waker;

    // Nothing is queued before the first wake
    assert!(woken_rx.len() == 0);

    waker_ref.wake_by_ref(&mut woken_rx);
    // New handle in the queue
    assert!(woken_rx.len() == 1);
    assert!(woken_rx.recv().is_ok_and(|t| t == task));
    assert!(woken_rx.len() == 0);

    // Can wake multiple times, always pointing to the same task
    waker_ref.wake_by_ref(&mut woken_rx);
    assert!(woken_rx.len() == 1);
    assert!(woken_rx.recv().is_ok_and(|t| t == task));
    assert!(woken_rx.len() == 0);

    // Can wake by value, the waker is given up, a handle is queued
    waker.wake(&mut woken_rx);
    assert!(woken_rx.len() == 1);
    assert!(woken_rx.recv().is_ok_and(|t| t == task));
    assert!(woken_rx.len() == 0);

    // No unexpected sends
    assert!(woken_rx.try_recv().is_err());
}

#[test]
fn test_wake_clone_same() {
    let (woken_tx, mut woken_rx) = simple_channel::channel::<TaskId>();
    let (_, waker) = get_task_with_waker(0, woken_tx);
    assert!(wakes_same(&mut woken_rx, &waker, &waker.clone()));
}

#[test]
fn wakers_of_different_tasks_do_not_wake_the_same() {
    let (woken_tx, mut woken_rx) = simple_channel::channel::<TaskId>();
    let (_, first) = get_task_with_waker(0, woken_tx.clone());
    let (_, second) = get_task_with_waker(1, woken_tx);
    assert!(!wakes_same(&mut woken_rx, &first, &second));
    assert!(woken_rx.try_recv().is_err());
    assert!(!first.will_wake(&second));
    assert!(first.will_wake(&first.clone()));
}

#[test]
fn waking_twice_queues_the_same_task_twice() {
    let (woken_tx, mut woken_rx) = simple_channel::channel::<TaskId>();
    let (task, waker) = get_task_with_waker(7, woken_tx);
    waker.wake_by_ref(&mut woken_rx);
    waker.wake_by_ref(&mut woken_rx);
    assert_eq!(woken_rx.len(), 2);
    assert_eq!(woken_rx.recv(), Ok(task));
    assert_eq!(woken_rx.recv(), Ok(task));
    assert_eq!(task.index, 7);
    assert_eq!(waker.task(), task);
}
