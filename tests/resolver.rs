use command_queue::{
    get_process_configs, get_remaining_queues, schedule_with_order, ProcessConfig, QueueConfig,
};

fn queues(names: &[&str]) -> Vec<QueueConfig> {
    names.iter().map(|n| QueueConfig::new(n.to_string())).collect()
}

fn pairs(schedule: &[ProcessConfig]) -> Vec<(String, bool)> {
    schedule
        .iter()
        .map(|t| (t.queue.name.clone(), t.priority))
        .collect()
}

#[test]
fn physical_queue_names() {
    let q = QueueConfig::new("emails".to_string());
    assert_eq!(q.get_priority_queue_name(), "emails:priority");
    assert_eq!(q.get_default_queue_name(), "emails");
    let t = ProcessConfig::new(&q, true);
    assert_eq!(t.queue_name(), "emails:priority");
    let t = ProcessConfig::new(&q, false);
    assert_eq!(t.queue_name(), "emails");
}

#[test]
fn single_queue_schedule_is_home_only() {
    let qs = queues(&["solo"]);
    let s = get_process_configs(&qs, qs[0].copy());
    assert_eq!(
        pairs(&s),
        vec![("solo".to_string(), true), ("solo".to_string(), false)]
    );
}

#[test]
fn schedule_starts_with_home_targets() {
    let qs = queues(&["a", "b", "c", "d"]);
    for home in 0..qs.len() {
        for _ in 0..20 {
            let s = get_process_configs(&qs, qs[home].copy());
            assert_eq!(s.len(), 8);
            assert_eq!(s[0].queue.name, qs[home].name);
            assert!(s[0].priority);
            assert_eq!(s[1].queue.name, qs[home].name);
            assert!(!s[1].priority);
        }
    }
}

#[test]
fn schedule_holds_each_target_once() {
    let qs = queues(&["a", "b", "c", "d", "e"]);
    let s = pairs(&get_process_configs(&qs, qs[2].copy()));
    for q in &qs {
        for p in [true, false] {
            let n = s.iter().filter(|t| t.0 == q.name && t.1 == p).count();
            assert_eq!(n, 1);
        }
    }
    // each foreign queue: priority target right before its default target
    for k in 1..5 {
        assert_eq!(s[2 * k].0, s[2 * k + 1].0);
        assert!(s[2 * k].1);
        assert!(!s[2 * k + 1].1);
    }
}

#[test]
fn schedule_with_given_order() {
    let qs = queues(&["a", "b", "c"]);
    let s = schedule_with_order(&qs, &qs[1], &vec![2, 0]);
    assert_eq!(
        pairs(&s),
        vec![
            ("b".to_string(), true),
            ("b".to_string(), false),
            ("c".to_string(), true),
            ("c".to_string(), false),
            ("a".to_string(), true),
            ("a".to_string(), false),
        ]
    );
}

#[test]
fn two_orders_differ_only_in_foreign_part() {
    let qs = queues(&["a", "b", "c"]);
    let s1 = pairs(&schedule_with_order(&qs, &qs[0], &vec![1, 2]));
    let s2 = pairs(&schedule_with_order(&qs, &qs[0], &vec![2, 1]));
    assert_eq!(s1[..2], s2[..2]);
    let mut f1 = s1[2..].to_vec();
    let mut f2 = s2[2..].to_vec();
    assert_ne!(f1, f2);
    f1.sort();
    f2.sort();
    assert_eq!(f1, f2);
}

#[test]
fn random_orders_are_permutations() {
    let qs = queues(&["a", "b", "c", "d"]);
    let first = pairs(&get_process_configs(&qs, qs[3].copy()));
    let mut sorted_first = first[2..].to_vec();
    sorted_first.sort();
    for _ in 0..20 {
        let s = pairs(&get_process_configs(&qs, qs[3].copy()));
        assert_eq!(s[..2], first[..2]);
        let mut f = s[2..].to_vec();
        f.sort();
        assert_eq!(f, sorted_first);
    }
}

#[test]
fn physical_names_are_distinct() {
    let qs = queues(&["a", "b", "c"]);
    let s = get_process_configs(&qs, qs[0].copy());
    let mut names: Vec<String> = s.iter().map(|t| t.queue_name()).collect();
    names.sort();
    names.dedup();
    assert_eq!(names.len(), 6);
}

#[test]
fn remaining_queues_leave_out_home() {
    let qs = queues(&["a", "b", "c", "d"]);
    for _ in 0..20 {
        let mut r = get_remaining_queues(&qs, &qs[1]);
        r.sort();
        assert_eq!(r, vec![0, 2, 3]);
    }
    let single = queues(&["solo"]);
    assert!(get_remaining_queues(&single, &single[0]).is_empty());
}
