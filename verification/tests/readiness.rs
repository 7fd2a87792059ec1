//! Process-local readiness.
use dal::runtime::readiness::RuntimeReadiness;
use std::sync::{Arc, RwLock};

#[test]
fn readiness_is_closed_until_bootstrap_completes() {
    let gate = Arc::new(RwLock::new(RuntimeReadiness::default()));
    let early = gate.clone();
    assert!(!gate.read().unwrap().is_ready());
    assert!(!early.read().unwrap().is_ready());
    gate.write().unwrap().mark_ready();
    assert!(gate.read().unwrap().is_ready());
    assert!(gate.clone().read().unwrap().is_ready());
    // A holder from before it opened finds it open too.
    assert!(early.read().unwrap().is_ready());
    gate.write().unwrap().mark_ready();
    assert!(gate.read().unwrap().is_ready());
}
