//! The status condition: watched statuses, arrived statuses and the trigger.

use rtps_core::status::{StatusConditionImpl, StatusKind};

#[test]
fn fresh_condition_is_untriggered() {
    let condition = StatusConditionImpl::default();
    assert_eq!(condition.get_enabled_statuses().len(), 13);
    assert!(!condition.get_trigger_value());
}

#[test]
fn watched_status_triggers_and_is_consumed() {
    let mut condition = StatusConditionImpl::default();
    condition.add_communication_state(StatusKind::DataAvailableStatus);
    // The arrived status was watched, so it triggered and was consumed at once.
    assert!(!condition.get_trigger_value());
}

#[test]
fn unwatched_status_stays_until_watched() {
    let mut condition = StatusConditionImpl::default();
    condition
        .set_enabled_statuses(&vec![StatusKind::PublicationMatchedStatus])
        .unwrap();
    condition.add_communication_state(StatusKind::DataAvailableStatus);
    assert!(!condition.get_trigger_value());

    // Widening the watched set exposes the already-arrived status.
    condition
        .set_enabled_statuses(&vec![
            StatusKind::PublicationMatchedStatus,
            StatusKind::DataAvailableStatus,
        ])
        .unwrap();
    assert!(condition.get_trigger_value());
}

#[test]
fn mask_replaces_watched_statuses() {
    let mut condition = StatusConditionImpl::default();
    condition
        .set_enabled_statuses(&vec![StatusKind::SampleLostStatus])
        .unwrap();
    assert_eq!(
        condition.get_enabled_statuses(),
        vec![StatusKind::SampleLostStatus]
    );
}
