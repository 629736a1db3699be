use armada_lib::engine::tracker::{ProbeSet, RetryTracker};
use armada_lib::{IpAddress, Probe};

fn v4(ip: u32, port: u16) -> Probe {
    Probe { ip: IpAddress::V4(ip), port }
}

fn v6(ip: u128, port: u16) -> Probe {
    Probe { ip: IpAddress::V6(ip), port }
}

#[test]
fn probe_set_holds_each_probe_once() {
    let mut set = ProbeSet::new();
    assert!(set.is_empty());
    assert_eq!(set.len(), 0);
    assert!(set.insert(v4(1, 80)));
    assert!(!set.insert(v4(1, 80)));
    assert!(set.insert(v4(1, 81)));
    assert!(set.insert(v4(2, 80)));
    assert_eq!(set.len(), 3);
    assert!(!set.is_empty());
    assert!(set.contains(v4(1, 80)));
    assert!(!set.contains(v4(2, 81)));
}

#[test]
fn probe_set_tells_families_apart() {
    let mut set = ProbeSet::new();
    assert!(set.insert(v4(1, 80)));
    assert!(!set.contains(v6(1, 80)));
    assert!(set.insert(v6(1, 80)));
    assert_eq!(set.len(), 2);
    assert!(set.remove(v4(1, 80)));
    assert!(set.contains(v6(1, 80)));
    assert!(!set.contains(v4(1, 80)));
}

#[test]
fn probe_set_removes_what_it_holds() {
    let mut set = ProbeSet::new();
    assert!(!set.remove(v4(1, 80)));
    set.insert(v4(1, 80));
    assert!(set.remove(v4(1, 80)));
    assert!(!set.remove(v4(1, 80)));
    assert!(set.is_empty());
}

#[test]
fn probe_set_takes_in_a_batch() {
    let mut set = ProbeSet::new();
    set.insert(v4(1, 1));
    set.extend(&vec![v4(1, 2), v4(1, 1), v6(9, 9), v4(1, 2)]);
    assert_eq!(set.len(), 3);
    assert!(set.contains(v4(1, 1)));
    assert!(set.contains(v4(1, 2)));
    assert!(set.contains(v6(9, 9)));
    set.extend(&vec![]);
    assert_eq!(set.len(), 3);
}

#[test]
fn retry_tracker_keeps_counts_by_probe() {
    let mut tracker = RetryTracker::new();
    assert_eq!(tracker.get(v4(1, 80)), None);
    tracker.insert(v4(1, 80), 1);
    tracker.insert(v6(1, 80), 7);
    assert_eq!(tracker.get(v4(1, 80)), Some(1));
    assert_eq!(tracker.get(v6(1, 80)), Some(7));
    tracker.insert(v4(1, 80), 2);
    assert_eq!(tracker.get(v4(1, 80)), Some(2));
    tracker.remove(v4(1, 80));
    assert_eq!(tracker.get(v4(1, 80)), None);
    assert_eq!(tracker.get(v6(1, 80)), Some(7));
    tracker.remove(v4(5, 5));
    assert_eq!(tracker.get(v6(1, 80)), Some(7));
}

#[test]
fn probe_keys_tell_probes_apart() {
    assert_eq!(v4(7, 80).key(), (4, 7, 80));
    assert_eq!(v6(7, 80).key(), (6, 7, 80));
    assert_eq!(Probe::new(IpAddress::V4(1), 2), v4(1, 2));
}
