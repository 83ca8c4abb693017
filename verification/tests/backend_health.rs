use jellyswarrm::backend_health::{
    counts_toward_ejection, revive, BackendHealth, CallFailure, Revival, EJECTION_DURATION,
    FAILURE_THRESHOLD, FAILURE_WINDOW,
};

const NOW: u64 = 1_000_000_000_000;

#[test]
fn fresh_backend_is_not_ejected() {
    let mut h = BackendHealth::new();
    assert!(!h.is_ejected(1, NOW));
}

#[test]
fn ejection_triggers_after_threshold() {
    let mut h = BackendHealth::new();
    for _ in 0..FAILURE_THRESHOLD {
        h.record_failure(1, NOW);
    }
    assert!(h.is_ejected(1, NOW));
}

#[test]
fn success_clears_ejection() {
    let mut h = BackendHealth::new();
    for _ in 0..FAILURE_THRESHOLD {
        h.record_failure(1, NOW);
    }
    assert!(h.is_ejected(1, NOW));

    h.record_success(1);
    assert!(!h.is_ejected(1, NOW));
}

#[test]
fn ejected_ids_lists_only_currently_ejected() {
    let mut h = BackendHealth::new();
    for _ in 0..FAILURE_THRESHOLD {
        h.record_failure(1, NOW);
    }
    h.record_failure(2, NOW);

    let ejected = h.ejected_ids(NOW);
    assert_eq!(ejected, vec![1]);
}

#[test]
fn below_threshold_failures_do_not_eject() {
    let mut h = BackendHealth::new();
    for _ in 0..(FAILURE_THRESHOLD - 1) {
        h.record_failure(1, NOW);
    }
    assert!(!h.is_ejected(1, NOW));
}

#[test]
fn ejection_ends_with_the_cooldown() {
    let mut h = BackendHealth::new();
    for _ in 0..FAILURE_THRESHOLD {
        h.record_failure(1, NOW);
    }
    assert!(h.is_ejected(1, NOW + EJECTION_DURATION - 1));
    assert!(h.ejected_ids(NOW + EJECTION_DURATION).is_empty());
    assert!(!h.is_ejected(1, NOW + EJECTION_DURATION));
}

#[test]
fn failures_leave_the_window() {
    let mut h = BackendHealth::new();
    for i in 0..4 {
        h.record_failure(1, NOW + i);
    }
    h.record_failure(1, NOW + FAILURE_WINDOW + 10);
    assert!(!h.is_ejected(1, NOW + FAILURE_WINDOW + 10));
    // the failures at the edge of the window still count
    let mut g = BackendHealth::new();
    for _ in 0..4 {
        g.record_failure(1, NOW);
    }
    g.record_failure(1, NOW + FAILURE_WINDOW);
    assert!(g.is_ejected(1, NOW + FAILURE_WINDOW));
}

#[test]
fn backends_are_ejected_anew() {
    let second = 1_000_000_000;
    let mut h = BackendHealth::new();
    for _ in 0..5 {
        h.record_failure(1, 100 * second);
    }
    for _ in 0..4 {
        h.record_failure(1, 140 * second);
    }
    assert!(h.ejected_ids(140 * second).is_empty());
    h.record_failure(1, 141 * second);
    assert!(h.is_ejected(1, 141 * second));
    assert!(h.is_ejected(1, 171 * second - 1));
    assert!(!h.is_ejected(1, 171 * second));
}

#[test]
fn backends_are_judged_apart() {
    let mut h = BackendHealth::new();
    for _ in 0..FAILURE_THRESHOLD {
        h.record_failure(1, NOW);
        h.record_failure(2, NOW);
    }
    h.record_success(2);
    assert!(h.is_ejected(1, NOW));
    assert!(!h.is_ejected(2, NOW));
}

#[test]
fn only_backend_faults_count() {
    assert!(counts_toward_ejection(CallFailure::Timeout));
    assert!(counts_toward_ejection(CallFailure::Network));
    assert!(counts_toward_ejection(CallFailure::Status(500)));
    assert!(counts_toward_ejection(CallFailure::Status(502)));
    assert!(counts_toward_ejection(CallFailure::Status(599)));
    assert!(!counts_toward_ejection(CallFailure::Status(401)));
    assert!(!counts_toward_ejection(CallFailure::Status(404)));
    assert!(!counts_toward_ejection(CallFailure::Status(600)));
}

#[test]
fn removed_servers_are_forgotten() {
    assert_eq!(revive(7, &vec![3, 7, 7]), Revival::Probe(1));
    assert_eq!(revive(8, &vec![3, 7]), Revival::Forget);
}

#[test]
fn probes_readmit_what_answers() {
    let mut h = BackendHealth::new();
    for id in [1, 2, 3] {
        for _ in 0..FAILURE_THRESHOLD {
            h.record_failure(id, NOW);
        }
    }
    h.probed(1, Revival::Probe(0), true);
    h.probed(2, Revival::Probe(1), false);
    h.probed(3, Revival::Forget, false);
    assert_eq!(h.ejected_ids(NOW), vec![2]);
}
