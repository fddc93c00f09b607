use live_server::registry::ConnectionRegistry;
use live_server::watcher::{batch_triggers_reload, is_reload_worthy, FsEventKind};

#[test]
fn burst_collapses_to_one_signal() {
    // One debounced window gathering a create, a write, a remove and a
    // rename yields a single positive decision, not four.
    let burst = vec![
        FsEventKind::Created,
        FsEventKind::Modified,
        FsEventKind::Removed,
        FsEventKind::RenamedPair,
    ];
    assert!(batch_triggers_reload(&burst));
    // A single qualifying event decides exactly the same way.
    assert!(batch_triggers_reload(&vec![FsEventKind::Modified]));
}

#[test]
fn noise_is_ignored() {
    assert!(!batch_triggers_reload(&vec![]));
    assert!(!batch_triggers_reload(&vec![
        FsEventKind::Informational,
        FsEventKind::RenamedPartial,
    ]));
    // Noise does not mask a real change.
    assert!(batch_triggers_reload(&vec![
        FsEventKind::Informational,
        FsEventKind::Created,
        FsEventKind::RenamedPartial,
    ]));
}

#[test]
fn qualifying_event_kinds() {
    assert!(is_reload_worthy(&FsEventKind::Created));
    assert!(is_reload_worthy(&FsEventKind::Modified));
    assert!(is_reload_worthy(&FsEventKind::Removed));
    assert!(is_reload_worthy(&FsEventKind::RenamedPair));
    assert!(!is_reload_worthy(&FsEventKind::RenamedPartial));
    assert!(!is_reload_worthy(&FsEventKind::Informational));
}

#[test]
fn broadcast_targets_every_current_connection() {
    let mut reg = ConnectionRegistry::new();
    let a = reg.register().unwrap();
    let b = reg.register().unwrap();
    assert_ne!(a, b);
    assert_eq!(reg.len(), 2);
    assert_eq!(reg.broadcast_targets(), vec![a, b]);

    reg.deregister(a);
    assert_eq!(reg.broadcast_targets(), vec![b]);
    assert_eq!(reg.len(), 1);
}

#[test]
fn no_backlog_for_late_subscribers() {
    let mut reg = ConnectionRegistry::new();
    // A signal broadcast with zero listeners is delivered to nobody.
    let early_targets = reg.broadcast_targets();
    assert!(early_targets.is_empty());

    // A client connecting afterwards is in no earlier snapshot: it only
    // waits for the next signal.
    let late = reg.register().unwrap();
    assert!(!early_targets.contains(&late));
    assert_eq!(reg.broadcast_targets(), vec![late]);
}

#[test]
fn deregistering_keeps_the_others_in_order() {
    let mut reg = ConnectionRegistry::new();
    let a = reg.register().unwrap();
    let b = reg.register().unwrap();
    let c = reg.register().unwrap();
    reg.deregister(b);
    assert_eq!(reg.broadcast_targets(), vec![a, c]);
    // Removing an unknown id changes nothing.
    reg.deregister(b);
    assert_eq!(reg.broadcast_targets(), vec![a, c]);
}
