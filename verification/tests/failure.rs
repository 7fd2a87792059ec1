//! Failure detection.
use dal::config::Timeouts;
use dal::meta::failure::{classify, next_state, HeartbeatTracker, Liveness};
use dal::time::Duration;
use dal::types::{NodeState, MAX_CLUSTER_NODES};

fn timeouts() -> Timeouts {
    Timeouts::default()
}

fn ms(d: Duration) -> u64 {
    d.as_millis() as u64
}

#[test]
fn tracker_ignores_stale_and_replayed_heartbeats() {
    let mut t = HeartbeatTracker::new();
    assert!(t.observe(1, 1, 1, 5, 1000));
    // Same or lower sequence is ignored (replay / stale).
    assert!(!t.observe(1, 1, 1, 5, 2000));
    assert!(!t.observe(1, 1, 1, 4, 2000));
    // A newer sequence refreshes liveness.
    assert!(t.observe(1, 1, 1, 6, 3000));
    // A restarted process advances its process incarnation and restarts at
    // sequence one within the same replicated directory incarnation.
    assert!(t.observe(1, 1, 2, 1, 4000));
    // The prior process cannot refresh liveness after that restart.
    assert!(!t.observe(1, 1, 1, 7, 5000));
}

#[test]
fn tracker_refuses_unknown_nodes_past_the_cap() {
    let mut t = HeartbeatTracker::new();
    for node in 0..MAX_CLUSTER_NODES as u64 {
        assert!(t.observe(node, 1, 1, 1, 1000));
    }
    assert_eq!(t.nodes_held(), MAX_CLUSTER_NODES);

    // A further distinct id is refused rather than admitted or swapped in.
    assert!(!t.observe(9_999_999, 1, 1, 1, 2000));
    assert_eq!(t.nodes_held(), MAX_CLUSTER_NODES);

    // A node that is held still refreshes at capacity.
    assert!(t.observe(0, 1, 1, 2, 3000));
    assert_eq!(t.last_seen(0), Some(3000));
}

#[test]
fn evaluate_prunes_nodes_absent_from_the_directory() {
    let mut t = HeartbeatTracker::new();
    for node in 0..MAX_CLUSTER_NODES as u64 {
        assert!(t.observe(node, 1, 1, 1, 1000));
    }
    assert!(!t.observe(4242, 1, 1, 1, 1000));

    // The directory lists only node 0; everything else was never real.
    let states = [(0u64, NodeState::Active, 1u64)];
    t.evaluate(1500, &timeouts(), &states);
    assert_eq!(t.nodes_held(), 1);

    // The freed capacity now admits the new node.
    assert!(t.observe(4242, 1, 1, 1, 2000));
}

#[test]
fn evaluate_proposes_suspect_then_down() {
    let t0 = 10_000u64;
    let mut tr = HeartbeatTracker::new();
    tr.observe(1, 1, 1, 1, t0);
    let to = timeouts();

    // Fresh: no transition.
    assert!(tr.evaluate(t0, &to, &[(1, NodeState::Active, 1)]).is_empty());
    // Past suspect_timeout: Active -> Suspect.
    assert_eq!(
        tr.evaluate(t0 + ms(to.suspect), &to, &[(1, NodeState::Active, 1)]),
        vec![(1, NodeState::Suspect)]
    );
    // Past down_timeout: Suspect -> Down.
    assert_eq!(
        tr.evaluate(t0 + ms(to.down), &to, &[(1, NodeState::Suspect, 1)]),
        vec![(1, NodeState::Down)]
    );
}

#[test]
fn evaluate_never_reactivates_down_from_silence_or_beat() {
    let mut tr = HeartbeatTracker::new();
    tr.observe(1, 1, 1, 1, 0);
    let out = tr.evaluate(0, &timeouts(), &[(1, NodeState::Down, 1)]);
    assert!(out.is_empty());
}

#[test]
fn unobserved_node_gets_a_full_grace_period() {
    let mut tr = HeartbeatTracker::new();
    let to = timeouts();
    let start = 10_000;

    assert!(tr.evaluate(start, &to, &[(7, NodeState::Active, 1)]).is_empty());
    assert_eq!(
        tr.evaluate(start + ms(to.suspect), &to, &[(7, NodeState::Active, 1)]),
        vec![(7, NodeState::Suspect)]
    );
    assert_eq!(
        tr.evaluate(start + ms(to.down), &to, &[(7, NodeState::Suspect, 1)]),
        vec![(7, NodeState::Down)]
    );
}

#[test]
fn old_incarnation_cannot_refresh_current_liveness() {
    let mut tr = HeartbeatTracker::new();
    let to = timeouts();
    let start = 20_000;

    assert!(tr.observe(3, 1, 1, 1, start));
    // The directory has committed incarnation 2, so incarnation 1 starts
    // no liveness stream for the current registration.
    assert!(tr.evaluate(start, &to, &[(3, NodeState::Active, 2)]).is_empty());
    assert!(tr.observe(3, 1, 1, 2, start + ms(to.down) - 1));
    assert_eq!(
        tr.evaluate(start + ms(to.down), &to, &[(3, NodeState::Suspect, 2)]),
        vec![(3, NodeState::Down)]
    );
}

#[test]
fn classify_thresholds() {
    let t = timeouts();
    assert_eq!(classify(Duration::from_millis(0), &t), Liveness::Alive);
    assert_eq!(classify(t.suspect, &t), Liveness::Suspect);
    assert_eq!(classify(t.down, &t), Liveness::Down);
    assert_eq!(
        classify(t.down.saturating_add(Duration::from_secs(1)), &t),
        Liveness::Down
    );
}

#[test]
fn active_to_suspect_to_down_and_back() {
    assert_eq!(
        next_state(NodeState::Active, Liveness::Suspect),
        Some(NodeState::Suspect)
    );
    assert_eq!(
        next_state(NodeState::Suspect, Liveness::Down),
        Some(NodeState::Down)
    );
    assert_eq!(
        next_state(NodeState::Suspect, Liveness::Alive),
        Some(NodeState::Active)
    );
}

#[test]
fn down_is_never_reactivated_by_heartbeat() {
    assert_eq!(next_state(NodeState::Down, Liveness::Alive), None);
    assert_eq!(next_state(NodeState::Down, Liveness::Suspect), None);
    assert_eq!(next_state(NodeState::Down, Liveness::Down), None);
}

#[test]
fn stable_states_are_noops() {
    assert_eq!(next_state(NodeState::Active, Liveness::Alive), None);
    assert_eq!(next_state(NodeState::Draining, Liveness::Down), None);
}

#[test]
fn an_active_node_that_is_long_silent_goes_down_at_once() {
    let mut tr = HeartbeatTracker::new();
    let to = timeouts();
    tr.observe(1, 1, 1, 1, 0);
    assert_eq!(
        tr.evaluate(ms(to.down), &to, &[(1, NodeState::Active, 1)]),
        vec![(1, NodeState::Down)]
    );
    // Heard again, a suspect comes back.
    tr.observe(1, 1, 1, 2, ms(to.down));
    assert_eq!(
        tr.evaluate(ms(to.down), &to, &[(1, NodeState::Suspect, 1)]),
        vec![(1, NodeState::Active)]
    );
}
