use command_queue::{
    get_process_configs, schedule_with_order, Phase, PollOutcome, QueueConfig, Shutdown, Worker,
};

fn queues(names: &[&str]) -> Vec<QueueConfig> {
    names.iter().map(|n| QueueConfig::new(n.to_string())).collect()
}

#[test]
fn success_ends_the_pass() {
    let qs = queues(&["a", "b", "c"]);
    let mut w = Worker::new(1, schedule_with_order(&qs, &qs[0], &vec![1, 2]));
    assert_eq!(w.begin_pass(false), Some(0));
    assert_eq!(w.record_outcome(PollOutcome::Empty), Some(1));
    assert_eq!(w.record_outcome(PollOutcome::Error), Some(2));
    assert_eq!(w.record_outcome(PollOutcome::Value), None);
    assert_eq!(w.phase(), Phase::Idle);
    // the next pass starts over at the first target
    assert_eq!(w.begin_pass(false), Some(0));
    assert_eq!(w.phase(), Phase::Polling(0));
}

#[test]
fn empty_pass_walks_every_target() {
    let qs = queues(&["a", "b"]);
    let mut w = Worker::new(2, schedule_with_order(&qs, &qs[1], &vec![0]));
    let mut polled = Vec::new();
    let mut next = w.begin_pass(false);
    while let Some(k) = next {
        polled.push(w.target(k).queue_name());
        next = w.record_outcome(PollOutcome::Empty);
    }
    assert_eq!(polled, vec!["b:priority", "b", "a:priority", "a"]);
    assert_eq!(w.phase(), Phase::Idle);
}

#[test]
fn stop_is_seen_at_the_top_of_a_pass() {
    let qs = queues(&["a", "b"]);
    let mut w = Worker::new(1, schedule_with_order(&qs, &qs[0], &vec![1]));
    assert_eq!(w.begin_pass(false), Some(0));
    // the stop signal is set now: the pass in progress runs on to its end
    assert_eq!(w.record_outcome(PollOutcome::Empty), Some(1));
    assert_eq!(w.record_outcome(PollOutcome::Empty), Some(2));
    assert_eq!(w.record_outcome(PollOutcome::Empty), Some(3));
    assert_eq!(w.record_outcome(PollOutcome::Empty), None);
    assert_eq!(w.begin_pass(true), None);
    assert_eq!(w.phase(), Phase::Stopped);
}

#[test]
fn scenario_item_in_home_priority_queue() {
    let qs = queues(&["a", "b"]);
    let mut wa = Worker::new(1, get_process_configs(&qs, qs[0].copy()));
    let mut wb = Worker::new(2, get_process_configs(&qs, qs[1].copy()));
    // worker for a finds the item on its first poll
    let k = wa.begin_pass(false).unwrap();
    assert_eq!(k, 0);
    assert_eq!(wa.target(k).queue_name(), "a:priority");
    assert_eq!(wa.record_outcome(PollOutcome::Value), None);
    // worker for b reaches a:priority after its own two targets, and finds it empty
    let mut polled = Vec::new();
    let mut next = wb.begin_pass(false);
    while let Some(k) = next {
        polled.push(wb.target(k).queue_name());
        next = wb.record_outcome(PollOutcome::Empty);
    }
    assert_eq!(polled, vec!["b:priority", "b", "a:priority", "a"]);
}

#[test]
fn scenario_single_queue_shutdown() {
    let qs = queues(&["solo"]);
    let mut w = Worker::new(1, get_process_configs(&qs, qs[0].copy()));
    let mut shutdown = Shutdown::new(1);
    let mut next = w.begin_pass(false);
    while let Some(_) = next {
        next = w.record_outcome(PollOutcome::Empty);
    }
    assert!(shutdown.signal());
    assert_eq!(w.begin_pass(shutdown.is_stopped()), None);
    assert_eq!(w.phase(), Phase::Stopped);
    assert_eq!(shutdown.next_join(), Some(0));
    let r = shutdown.record_join(true);
    assert_eq!(r.ordinal, 1);
    assert!(r.ok);
    assert_eq!(shutdown.next_join(), None);
    assert!(shutdown.is_drained());
    assert_eq!(shutdown.joined().len(), 1);
    assert_eq!(w.ordinal(), 1);
    assert_eq!(w.schedule_len(), 2);
}

#[test]
fn second_signal_does_not_restart_the_drain() {
    let mut s = Shutdown::new(2);
    assert_eq!(s.next_join(), None);
    assert!(s.signal());
    assert!(!s.signal());
    assert!(s.is_stopped());
    assert_eq!(s.workers(), 2);
}

#[test]
fn failed_join_is_recorded_and_drain_goes_on() {
    let mut s = Shutdown::new(3);
    s.signal();
    let mut order = Vec::new();
    let mut outcomes = vec![true, false, true].into_iter();
    while let Some(i) = s.next_join() {
        order.push(i);
        s.record_join(outcomes.next().unwrap());
    }
    assert_eq!(order, vec![0, 1, 2]);
    assert!(s.is_drained());
    let ords: Vec<usize> = s.joined().iter().map(|r| r.ordinal).collect();
    assert_eq!(ords, vec![1, 2, 3]);
    assert!(!s.joined()[1].ok);
}

#[test]
fn no_workers_drain_is_empty() {
    let mut s = Shutdown::new(0);
    assert!(s.signal());
    assert_eq!(s.next_join(), None);
    assert!(s.is_drained());
}
