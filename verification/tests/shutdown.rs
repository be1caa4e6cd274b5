use std::collections::BTreeMap;

use update_delivery_system::shutdown::{ShutdownState, TransferKind};

/// Verifies that tracks completed and forced transfers.
#[test]
fn tracks_completed_and_forced_transfers() {
    let mut state = ShutdownState::new();
    state.register_transfer(1, TransferKind::Download, "one".into(), BTreeMap::new());
    assert!(state.finish(1));
    state.register_transfer(2, TransferKind::Upload, "two".into(), BTreeMap::new());
    assert_eq!(state.mark_active_forced().len(), 1);
    assert!(state.finish(2));
    assert_eq!(state.active_count(), 0);
    let totals = state.totals();
    assert_eq!(totals.completed, 1);
    assert_eq!(totals.aborted, 1);
}

#[test]
fn draining_starts_once() {
    let mut state = ShutdownState::new();
    assert!(!state.is_draining());
    assert!(state.begin_draining());
    assert!(state.is_draining());
    assert!(!state.begin_draining());
    assert!(state.is_draining());
}

#[test]
fn fields_unknown_ids_and_kind_names() {
    let mut state = ShutdownState::new();
    state.register_transfer(5, TransferKind::Upload, "req".into(), BTreeMap::new());
    state.set_field(5, "bytes".into(), serde_json::Value::from(42));
    state.set_field(6, "ignored".into(), serde_json::Value::from(1));
    let forced = state.mark_active_forced();
    assert_eq!(forced.len(), 1);
    assert_eq!(forced[0].transfer_id, 5);
    assert!(forced[0].is_forced());
    assert_eq!(forced[0].fields["bytes"], serde_json::Value::from(42));
    assert_eq!(forced[0].request_id, "req");
    assert!(!state.finish(6));
    assert_eq!(state.active_count(), 1);
    assert!(state.finish(5));
    assert!(!state.finish(5));
    assert_eq!(state.totals().aborted, 1);
    assert_eq!(state.totals().completed, 0);
    assert_eq!(TransferKind::Download.as_str(), "download");
    assert_eq!(TransferKind::Upload.as_str(), "upload");
}

#[test]
fn started_transfers_get_random_version_4_ids() {
    let mut state = ShutdownState::new();
    let first = state.start_transfer(TransferKind::Download, "a".into(), BTreeMap::new());
    let second = state.start_transfer(TransferKind::Upload, "b".into(), BTreeMap::new());
    assert_ne!(first, second);
    for id in [first, second] {
        assert_eq!((id >> 76) & 0xf, 4);
        assert_eq!((id >> 62) & 0x3, 2);
        assert_eq!(uuid::Uuid::from_u128(id).get_version_num(), 4);
    }
    assert_eq!(state.active_count(), 2);
    assert!(state.finish(first));
    assert!(state.finish(second));
    assert_eq!(state.totals().completed, 2);
}

#[test]
fn only_the_first_of_many_drain_calls_starts_draining() {
    let mut state = ShutdownState::new();
    let answers: Vec<bool> = (0..5).map(|_| state.begin_draining()).collect();
    assert_eq!(answers, [true, false, false, false, false]);
}

#[test]
fn forced_transfers_come_back_in_id_order() {
    let mut state = ShutdownState::new();
    for id in [9u128, 3, 5] {
        state.register_transfer(id, TransferKind::Download, format!("r{id}"), BTreeMap::new());
    }
    let ids: Vec<u128> = state.mark_active_forced().iter().map(|t| t.transfer_id).collect();
    assert_eq!(ids, [3, 5, 9]);
}
