use bitoxide::run::reactor::BitburnerReactor;
use bitoxide::run::reactor::WakeDelay;
use bitoxide::run::reactor::WakersByTime;
use bitoxide::run::reactor::WakersInOrder;
use bitoxide::run::waker::get_task_with_waker;
use bitoxide::run::waker::SimpleWaker;
use bitoxide::run::waker::TaskId;
use bitoxide::simple_channel;
use bitoxide::RETRY_WAIT;

fn tasks(rx: &mut simple_channel::Receiver<TaskId>) -> Vec<usize> {
    let mut found = vec![];
    while let Ok(task) = rx.recv() {
        found.push(task.index);
    }
    found
}

#[test]
fn test_new() {
    let mut reactor = BitburnerReactor::new();
    assert!(reactor.is_empty(0));
    assert!(reactor.next_wake(0).is_none())
}

#[test]
fn test_drain_queue() {
    let mut reactor = BitburnerReactor::new();
    let (woken_tx, _) = simple_channel::channel::<TaskId>();
    let (_, waker_1) = get_task_with_waker(1, woken_tx.clone());

    reactor.drain_queue(0);

    reactor.schedule(WakeDelay::Immediate, waker_1);
    reactor.drain_queue(0);
    // Scheduled in the running process queue
    assert!(reactor.next_wake(0).is_some());
    // Queue now empty
    assert!(reactor.pending_len() == 0);

    let (_, waker_2) = get_task_with_waker(2, woken_tx.clone());
    reactor.schedule(WakeDelay::WakeAt(4), waker_2);
    reactor.drain_queue(0);
    assert_eq!(reactor.running_len(), 2);

    let (_, waker_3) = get_task_with_waker(3, woken_tx.clone());
    let (_, waker_4) = get_task_with_waker(4, woken_tx.clone());
    let (_, waker_5) = get_task_with_waker(5, woken_tx.clone());
    reactor.schedule(WakeDelay::Retry, waker_3);
    reactor.schedule(WakeDelay::AfterNextRamRelease, waker_4);
    reactor.schedule(WakeDelay::WakeAt(10), waker_5);
    // Not in queues yet
    assert_eq!(reactor.ram_len(), 0);
    assert_eq!(reactor.running_len(), 2);

    reactor.drain_queue(0);
    assert!(reactor.pending_len() == 0);
    assert_eq!(reactor.ram_len(), 1);
    assert_eq!(reactor.running_len(), 4);
}

#[test]
fn test_schedule_waker() {
    let now = 0;
    let mut wakers_running = WakersByTime::new();
    let mut wakers_ram = WakersInOrder::new();
    let (woken_tx, _woken_rx) = simple_channel::channel::<TaskId>();

    let delay_fn = |idx: usize| -> WakeDelay {
        match idx {
            idx @ 0..=2 => WakeDelay::WakeAt(idx as u64),
            3 => WakeDelay::AfterNextRamRelease,
            4 => WakeDelay::Retry,
            idx @ 5..=7 => WakeDelay::WakeAt(idx as u64),
            8 => WakeDelay::Retry,
            9 => WakeDelay::Immediate,
            _ => panic!(),
        }
    };

    let mut w: Vec<SimpleWaker> = vec![];
    for idx in 0..10 {
        let (_, waker) = get_task_with_waker(idx, woken_tx.clone());
        w.push(waker.clone());
        let delay = delay_fn(idx);
        BitburnerReactor::schedule_waker(&mut wakers_running, &mut wakers_ram, now, delay, waker)
    }

    let assert_same_wakers = |actual: &Vec<SimpleWaker>, expected: Vec<&SimpleWaker>| {
        assert_eq!(actual.len(), expected.len());
        let mut zipped = actual.iter().zip(expected);
        assert!(zipped.all(|(a, e)| a.will_wake(e)));
    };

    assert_eq!(wakers_running.len(), 7);
    assert_eq!(wakers_ram.len(), 1);

    let expected = vec![
        (now + 0, vec![&w[0], &w[9]]),
        (now + 1, vec![&w[1]]),
        (now + 2, vec![&w[2]]),
        (now + 5, vec![&w[5]]),
        (now + 6, vec![&w[6]]),
        (now + 7, vec![&w[7]]),
        (now + RETRY_WAIT, vec![&w[4], &w[8]]),
    ];
    for (time, expected_wakers) in expected {
        let actual_wakers = wakers_running.wakers_at(time);
        assert_same_wakers(&actual_wakers, expected_wakers);
    }

    assert!(wakers_ram[0].will_wake(&w[3]))
}

#[test]
fn next_wake_is_the_earliest_time() {
    let mut reactor = BitburnerReactor::new();
    let (woken_tx, _) = simple_channel::channel::<TaskId>();
    for (idx, at) in [40u64, 7, 19, 7, 100].into_iter().enumerate() {
        let (_, waker) = get_task_with_waker(idx, woken_tx.clone());
        reactor.schedule(WakeDelay::WakeAt(at), waker);
    }
    // The requests are sorted in before the earliest time is looked for
    assert_eq!(reactor.pending_len(), 5);
    assert_eq!(reactor.next_wake(0), Some(7));
    assert_eq!(reactor.pending_len(), 0);
    assert_eq!(reactor.running_len(), 4);
}

#[test]
fn next_wake_counts_a_request_still_in_the_inbox() {
    let mut reactor = BitburnerReactor::new();
    let (woken_tx, _) = simple_channel::channel::<TaskId>();
    let (_, waker) = get_task_with_waker(0, woken_tx);
    reactor.schedule(WakeDelay::WakeAt(4), waker);
    assert_eq!(reactor.next_wake(0), Some(4));
}

#[test]
fn wake_running_invokes_what_is_due_in_order() {
    let mut reactor = BitburnerReactor::new();
    let (woken_tx, mut woken_rx) = simple_channel::channel::<TaskId>();
    for (idx, at) in [40u64, 7, 19, 7, 20, 21].into_iter().enumerate() {
        let (_, waker) = get_task_with_waker(idx, woken_tx.clone());
        reactor.schedule(WakeDelay::WakeAt(at), waker);
    }
    let woken = reactor.wake_running(20, &mut woken_rx);
    assert_eq!(woken, 4);
    assert_eq!(tasks(&mut woken_rx), vec![1, 3, 2, 4]);
    // Nothing at or before 20 is left
    assert_eq!(reactor.next_wake(20), Some(21));
    assert_eq!(reactor.running_len(), 2);
    assert_eq!(reactor.wake_running(20, &mut woken_rx), 0);
    assert_eq!(reactor.wake_running(u64::MAX, &mut woken_rx), 2);
    assert_eq!(tasks(&mut woken_rx), vec![5, 0]);
    assert!(reactor.is_empty(20));
}

#[test]
fn immediate_is_invoked_once_at_the_same_instant() {
    let mut reactor = BitburnerReactor::new();
    let (woken_tx, mut woken_rx) = simple_channel::channel::<TaskId>();
    let (_, waker) = get_task_with_waker(3, woken_tx);
    reactor.schedule(WakeDelay::Immediate, waker);
    assert_eq!(reactor.wake_running(50, &mut woken_rx), 1);
    assert_eq!(tasks(&mut woken_rx), vec![3]);
    assert_eq!(reactor.wake_running(50, &mut woken_rx), 0);
    assert_eq!(reactor.wake_running(51, &mut woken_rx), 0);
    assert!(woken_rx.try_recv().is_err());
}

#[test]
fn wake_at_is_not_invoked_before_its_time() {
    let mut reactor = BitburnerReactor::new();
    let (woken_tx, mut woken_rx) = simple_channel::channel::<TaskId>();
    let (_, waker) = get_task_with_waker(3, woken_tx);
    reactor.schedule(WakeDelay::WakeAt(100), waker);
    assert_eq!(reactor.wake_running(99, &mut woken_rx), 0);
    assert!(woken_rx.try_recv().is_err());
    assert_eq!(reactor.next_wake(99), Some(100));
    assert_eq!(reactor.wake_running(100, &mut woken_rx), 1);
    assert_eq!(tasks(&mut woken_rx), vec![3]);
}

#[test]
fn retry_waits_for_the_back_off() {
    let mut reactor = BitburnerReactor::new();
    let (woken_tx, mut woken_rx) = simple_channel::channel::<TaskId>();
    let (_, waker) = get_task_with_waker(0, woken_tx.clone());
    reactor.schedule(WakeDelay::Retry, waker);
    reactor.drain_queue(1000);
    assert_eq!(reactor.next_wake(1000), Some(1025));
    assert_eq!(reactor.wake_running(1024, &mut woken_rx), 0);
    assert_eq!(reactor.wake_running(1025, &mut woken_rx), 1);

    // At the end of the clock's range the retry is due at the end
    let (_, late) = get_task_with_waker(1, woken_tx);
    reactor.schedule(WakeDelay::Retry, late);
    reactor.drain_queue(u64::MAX - 3);
    assert_eq!(reactor.next_wake(u64::MAX - 3), Some(u64::MAX));
}

#[test]
fn wake_on_ram_release_empties_the_ram_waiters() {
    let mut reactor = BitburnerReactor::new();
    let (woken_tx, mut woken_rx) = simple_channel::channel::<TaskId>();
    for idx in [4usize, 2, 9] {
        let (_, waker) = get_task_with_waker(idx, woken_tx.clone());
        reactor.schedule(WakeDelay::AfterNextRamRelease, waker);
    }
    let (_, timed) = get_task_with_waker(1, woken_tx);
    reactor.schedule(WakeDelay::WakeAt(5), timed);
    assert!(!reactor.has_no_running() || reactor.pending_len() == 4);
    assert_eq!(reactor.wake_on_ram_release(0, &mut woken_rx), 3);
    assert_eq!(tasks(&mut woken_rx), vec![4, 2, 9]);
    assert_eq!(reactor.ram_len(), 0);
    assert_eq!(reactor.running_len(), 1);
    assert!(!reactor.is_empty(0));
    assert!(!reactor.has_no_running());
    assert_eq!(reactor.wake_on_ram_release(0, &mut woken_rx), 0);
}
