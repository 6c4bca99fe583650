use charm_internal::events::EventQueue;

#[test]
fn new_queue_is_empty_at_time_zero() {
    let queue: EventQueue<u32> = EventQueue::new();
    assert_eq!(queue.now(), 0);
    assert_eq!(queue.next(), None);
    assert_eq!(queue.len(), 0);
}

#[test]
fn enqueue_schedules_at_now_plus_delay() {
    let mut queue: EventQueue<u32> = EventQueue::new();
    queue.enqueue(1, 50);
    assert_eq!(queue.next(), Some(50));
    assert_eq!(queue.now(), 0);
    queue.settle(20);
    queue.enqueue(2, 5);
    assert_eq!(queue.next(), Some(25));
    assert_eq!(queue.len(), 2);
}

#[test]
fn next_is_the_earliest_time() {
    let mut queue: EventQueue<u32> = EventQueue::new();
    queue.enqueue(1, 30);
    queue.enqueue(2, 10);
    queue.enqueue(3, 20);
    assert_eq!(queue.next(), Some(10));
}

#[test]
fn events_leave_in_the_order_of_their_times() {
    let mut queue: EventQueue<u32> = EventQueue::new();
    let delays = [70i64, 10, 40, 0, 90, 20, 60, 30, 80, 50];
    for (i, &delay) in delays.iter().enumerate() {
        queue.enqueue(i as u32, delay);
    }
    let mut last = queue.now();
    let mut seen = Vec::new();
    while let Some(due) = queue.next() {
        let event = queue.take_next().unwrap();
        assert!(due >= last);
        assert_eq!(queue.now(), due);
        assert_eq!(delays[event as usize], due);
        last = due;
        seen.push(event);
    }
    assert_eq!(seen, vec![3, 1, 5, 7, 2, 9, 6, 0, 8, 4]);
    assert_eq!(queue.now(), 90);
}

#[test]
fn events_of_one_time_leave_in_the_order_they_came() {
    let mut queue: EventQueue<&str> = EventQueue::new();
    queue.enqueue("first", 5);
    queue.enqueue("late", 9);
    queue.enqueue("second", 5);
    queue.enqueue("early", 1);
    queue.enqueue("third", 5);
    assert_eq!(queue.take_next(), Some("early"));
    assert_eq!(queue.take_next(), Some("first"));
    assert_eq!(queue.take_next(), Some("second"));
    assert_eq!(queue.take_next(), Some("third"));
    assert_eq!(queue.take_next(), Some("late"));
    assert_eq!(queue.take_next(), None);
}

#[test]
fn take_next_on_an_empty_queue_changes_nothing() {
    let mut queue: EventQueue<u32> = EventQueue::new();
    queue.settle(33);
    assert_eq!(queue.take_next(), None);
    assert_eq!(queue.now(), 33);
    assert_eq!(queue.len(), 0);
}

#[test]
fn taking_an_event_moves_the_time_to_its_time() {
    let mut queue: EventQueue<u32> = EventQueue::new();
    queue.enqueue(7, 12);
    queue.enqueue(8, 12);
    assert_eq!(queue.take_next(), Some(7));
    assert_eq!(queue.now(), 12);
    assert_eq!(queue.take_next(), Some(8));
    assert_eq!(queue.now(), 12);
}

#[test]
fn an_event_enqueued_without_delay_is_due_now() {
    let mut queue: EventQueue<u32> = EventQueue::new();
    queue.settle(100);
    queue.enqueue(1, 0);
    assert_eq!(queue.next(), Some(100));
    assert_eq!(queue.take_next(), Some(1));
    assert_eq!(queue.now(), 100);
}

#[test]
fn settle_moves_the_time_forward_only() {
    let mut queue: EventQueue<u32> = EventQueue::new();
    queue.settle(40);
    assert_eq!(queue.now(), 40);
    queue.settle(10);
    assert_eq!(queue.now(), 40);
    queue.enqueue(1, 60);
    queue.settle(99);
    assert_eq!(queue.now(), 99);
    assert_eq!(queue.next(), Some(100));
}

#[test]
fn events_enqueued_while_others_run_are_ordered_by_time() {
    let mut queue: EventQueue<u32> = EventQueue::new();
    queue.enqueue(1, 10);
    queue.enqueue(2, 30);
    assert_eq!(queue.take_next(), Some(1));
    queue.enqueue(3, 5);
    queue.enqueue(4, 20);
    queue.enqueue(5, 25);
    assert_eq!(queue.take_next(), Some(3));
    assert_eq!(queue.now(), 15);
    assert_eq!(queue.take_next(), Some(2));
    assert_eq!(queue.now(), 30);
    assert_eq!(queue.take_next(), Some(4));
    assert_eq!(queue.take_next(), Some(5));
    assert_eq!(queue.now(), 35);
}

#[test]
fn a_queue_can_start_at_a_given_time() {
    let mut queue: EventQueue<u32> = EventQueue::starting_at(1000);
    assert_eq!(queue.now(), 1000);
    assert_eq!(queue.next(), None);
    queue.enqueue(1, 5);
    assert_eq!(queue.next(), Some(1005));
    let mut early: EventQueue<u32> = EventQueue::starting_at(-50);
    early.enqueue(2, 20);
    assert_eq!(early.take_next(), Some(2));
    assert_eq!(early.now(), -30);
}
