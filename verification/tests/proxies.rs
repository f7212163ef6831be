//! The per-remote proxy bookkeeping: received, missing, lost and requested
//! sequence numbers.

use rtps_core::stateful_reader::WriterProxy;
use rtps_core::stateful_writer::ReaderProxy;
use rtps_core::types::{EntityId, EntityKind, Guid, GuidPrefix};

fn spdp_announcer_guid(prefix_octet: u8) -> Guid {
    Guid::new(
        GuidPrefix::new([prefix_octet; 12]),
        EntityId::new([0, 1, 0], EntityKind::BuiltInWriterWithKey),
    )
}

#[test]
fn guid_survives_its_byte_form() {
    let guid = spdp_announcer_guid(9);
    let bytes = guid.to_bytes();
    assert_eq!(
        bytes,
        [9, 9, 9, 9, 9, 9, 9, 9, 9, 9, 9, 9, 0, 1, 0, 0xc2]
    );
    let back = Guid::from_bytes(bytes).expect("the kind octet is in the table");
    assert_eq!(back, guid);

    // An unknown kind octet is rejected.
    let mut bad = bytes;
    bad[15] = 0x55;
    assert!(Guid::from_bytes(bad).is_none());
}

fn sorted(v: &Vec<i64>) -> Vec<i64> {
    let mut copy = v.clone();
    copy.sort();
    copy
}

#[test]
fn received_changes_set_sequential_ordered() {
    let remote_writer_guid = spdp_announcer_guid(1);
    let mut writer_proxy = WriterProxy::new(remote_writer_guid, vec![], vec![]);

    // Originally the writer proxy doesn't know of any available changes
    assert_eq!(writer_proxy.available_changes_max(), 0);

    // If the next sequence number is received the unknown changes are empty
    writer_proxy.received_change_set(1);
    assert_eq!(writer_proxy.available_changes_max(), 1);
    assert!(writer_proxy.unknown_changes().is_empty());

    // If the next sequence number is received the unknown changes are empty
    writer_proxy.received_change_set(2);
    assert_eq!(writer_proxy.available_changes_max(), 2);
    assert!(writer_proxy.unknown_changes().is_empty());
}

#[test]
fn received_changes_set_unordered() {
    let remote_writer_guid = spdp_announcer_guid(1);
    let mut writer_proxy = WriterProxy::new(remote_writer_guid, vec![], vec![]);

    assert_eq!(writer_proxy.available_changes_max(), 0);

    // If the next sequence number jumps two numbers then changes 1 and 2 are unknown
    writer_proxy.received_change_set(3);
    assert_eq!(writer_proxy.available_changes_max(), 0);
    assert_eq!(sorted(writer_proxy.unknown_changes()), vec![1, 2]);

    // If sequence number 1 is received the only unknown change is 2
    writer_proxy.received_change_set(1);
    assert_eq!(writer_proxy.available_changes_max(), 1);
    assert_eq!(sorted(writer_proxy.unknown_changes()), vec![2]);

    // If sequence number 2 is received there are no more unknown changes
    writer_proxy.received_change_set(2);
    assert_eq!(writer_proxy.available_changes_max(), 3);
    assert!(writer_proxy.unknown_changes().is_empty());
}

#[test]
fn lost_changes_only() {
    let remote_writer_guid = spdp_announcer_guid(1);
    let mut writer_proxy = WriterProxy::new(remote_writer_guid, vec![], vec![]);

    writer_proxy.lost_changes_update(3);

    assert_eq!(writer_proxy.available_changes_max(), 2);
    assert_eq!(sorted(writer_proxy.lost_changes()), vec![1, 2]);

    writer_proxy.lost_changes_update(5);
    assert_eq!(writer_proxy.available_changes_max(), 4);
    assert_eq!(sorted(writer_proxy.lost_changes()), vec![1, 2, 3, 4]);
}

#[test]
fn received_and_lost_changes() {
    let remote_writer_guid = spdp_announcer_guid(1);
    let mut writer_proxy = WriterProxy::new(remote_writer_guid, vec![], vec![]);

    writer_proxy.received_change_set(3);
    writer_proxy.lost_changes_update(3);

    assert_eq!(writer_proxy.available_changes_max(), 3);
    assert_eq!(sorted(writer_proxy.lost_changes()), vec![1, 2]);

    writer_proxy.lost_changes_update(5);
    assert_eq!(writer_proxy.available_changes_max(), 4);
    assert_eq!(sorted(writer_proxy.lost_changes()), vec![1, 2, 4]);
}

#[test]
fn missing_changes_only() {
    let remote_writer_guid = spdp_announcer_guid(1);
    let mut writer_proxy = WriterProxy::new(remote_writer_guid, vec![], vec![]);

    writer_proxy.missing_changes_update(3);

    assert_eq!(writer_proxy.available_changes_max(), 0);
    assert_eq!(sorted(writer_proxy.missing_changes()), vec![1, 2, 3]);

    writer_proxy.missing_changes_update(5);
    assert_eq!(writer_proxy.available_changes_max(), 0);
    assert_eq!(sorted(writer_proxy.missing_changes()), vec![1, 2, 3, 4, 5]);
}

#[test]
fn received_lost_and_missing_changes() {
    let remote_writer_guid = spdp_announcer_guid(1);
    let mut writer_proxy = WriterProxy::new(remote_writer_guid, vec![], vec![]);

    // Received sample number 4. Verify that all sample numbers before are unknown
    writer_proxy.received_change_set(4);
    assert_eq!(writer_proxy.available_changes_max(), 0);
    assert_eq!(sorted(writer_proxy.unknown_changes()), vec![1, 2, 3]);
    assert!(writer_proxy.missing_changes().is_empty());
    assert!(writer_proxy.lost_changes().is_empty());

    // Mark sample 1 as lost and verify that now samples 2 and 3 are unknown
    writer_proxy.lost_changes_update(2);
    assert_eq!(writer_proxy.available_changes_max(), 1);
    assert_eq!(sorted(writer_proxy.unknown_changes()), vec![2, 3]);
    assert!(writer_proxy.missing_changes().is_empty());
    assert_eq!(sorted(writer_proxy.lost_changes()), vec![1]);

    // Mark samples 2 and 3 as missing: every unknown number at or under the
    // last available one moves
    writer_proxy.missing_changes_update(3);
    assert_eq!(writer_proxy.available_changes_max(), 1);
    assert!(writer_proxy.unknown_changes().is_empty());
    assert_eq!(sorted(writer_proxy.missing_changes()), vec![2, 3]);
    assert_eq!(sorted(writer_proxy.lost_changes()), vec![1]);

    // Mark sample 2 as received
    writer_proxy.received_change_set(2);
    assert_eq!(writer_proxy.available_changes_max(), 2);
    assert!(writer_proxy.unknown_changes().is_empty());
    assert_eq!(sorted(writer_proxy.missing_changes()), vec![3]);
    assert_eq!(sorted(writer_proxy.lost_changes()), vec![1]);

    // Mark samples 1 and 2 as lost and check that nothing happens
    writer_proxy.lost_changes_update(3);
    assert_eq!(writer_proxy.available_changes_max(), 2);
    assert!(writer_proxy.unknown_changes().is_empty());
    assert_eq!(sorted(writer_proxy.missing_changes()), vec![3]);
    assert_eq!(sorted(writer_proxy.lost_changes()), vec![1]);

    // Mark sample 3 as missing
    writer_proxy.missing_changes_update(4);
    assert_eq!(writer_proxy.available_changes_max(), 2);
    assert!(writer_proxy.unknown_changes().is_empty());
    assert_eq!(sorted(writer_proxy.missing_changes()), vec![3]);
    assert_eq!(sorted(writer_proxy.lost_changes()), vec![1]);

    // Mark sample 3 as lost
    writer_proxy.lost_changes_update(4);
    assert_eq!(writer_proxy.available_changes_max(), 4);
    assert!(writer_proxy.unknown_changes().is_empty());
    assert!(writer_proxy.missing_changes().is_empty());
    assert_eq!(sorted(writer_proxy.lost_changes()), vec![1, 3]);
}

#[test]
fn available_max_never_recedes() {
    let remote_writer_guid = spdp_announcer_guid(7);
    let mut writer_proxy = WriterProxy::new(remote_writer_guid, vec![], vec![]);
    let mut last = writer_proxy.available_changes_max();

    writer_proxy.received_change_set(5);
    assert!(writer_proxy.available_changes_max() >= last);
    last = writer_proxy.available_changes_max();

    writer_proxy.missing_changes_update(8);
    assert!(writer_proxy.available_changes_max() >= last);
    last = writer_proxy.available_changes_max();

    writer_proxy.lost_changes_update(4);
    assert!(writer_proxy.available_changes_max() >= last);
    last = writer_proxy.available_changes_max();

    writer_proxy.received_change_set(2);
    assert!(writer_proxy.available_changes_max() >= last);
}

fn subscriptions_detector_guid() -> Guid {
    Guid::new(
        GuidPrefix::new([1, 2, 3, 4, 5, 6, 7, 8, 9, 10, 11, 12]),
        EntityId::new([0, 0, 4], EntityKind::BuiltInReaderWithKey),
    )
}

#[test]
fn reader_proxy_unsent_changes_operations() {
    let remote_reader_guid = subscriptions_detector_guid();
    let mut reader_proxy = ReaderProxy::new(remote_reader_guid, vec![], vec![], false, true);

    // A reader proxy with no changes in the writer reports no changes
    let no_change_in_writer_sequence_number = 0;
    assert_eq!(
        reader_proxy.next_unsent_change(no_change_in_writer_sequence_number),
        None
    );
    assert!(reader_proxy
        .unsent_changes(no_change_in_writer_sequence_number)
        .is_empty());

    // A reader proxy starting with no changes sent and two changes in the writer
    let two_changes_in_writer_sequence_number = 2;
    assert_eq!(
        reader_proxy
            .unsent_changes(two_changes_in_writer_sequence_number)
            .len(),
        2
    );
    assert!(reader_proxy
        .unsent_changes(two_changes_in_writer_sequence_number)
        .contains(&1));
    assert!(reader_proxy
        .unsent_changes(two_changes_in_writer_sequence_number)
        .contains(&2));

    assert_eq!(
        reader_proxy.next_unsent_change(two_changes_in_writer_sequence_number),
        Some(1)
    );
    assert_eq!(
        reader_proxy
            .unsent_changes(two_changes_in_writer_sequence_number)
            .len(),
        1
    );
    assert!(reader_proxy
        .unsent_changes(two_changes_in_writer_sequence_number)
        .contains(&2));

    assert_eq!(
        reader_proxy.next_unsent_change(two_changes_in_writer_sequence_number),
        Some(2)
    );
    assert!(reader_proxy
        .unsent_changes(two_changes_in_writer_sequence_number)
        .is_empty());

    assert_eq!(
        reader_proxy.next_unsent_change(two_changes_in_writer_sequence_number),
        None
    );
}

#[test]
fn reader_proxy_requested_changes_operations() {
    let remote_reader_guid = subscriptions_detector_guid();
    let mut reader_proxy = ReaderProxy::new(remote_reader_guid, vec![], vec![], false, true);

    // A fresh reader proxy has no requested changes
    assert!(reader_proxy.requested_changes().is_empty());
    assert_eq!(reader_proxy.next_requested_change(), None);

    // Insert some requested changes
    reader_proxy.requested_changes_set(vec![2, 3, 6]);

    // The changes were inserted and come out in ascending order
    assert_eq!(reader_proxy.requested_changes().len(), 3);
    assert!(reader_proxy.requested_changes().contains(&2));
    assert!(reader_proxy.requested_changes().contains(&3));
    assert!(reader_proxy.requested_changes().contains(&6));

    assert_eq!(reader_proxy.next_requested_change(), Some(2));
    assert_eq!(reader_proxy.next_requested_change(), Some(3));
    assert_eq!(reader_proxy.requested_changes().len(), 1);
    assert!(reader_proxy.requested_changes().contains(&6));
    assert_eq!(reader_proxy.next_requested_change(), Some(6));
    assert_eq!(reader_proxy.next_requested_change(), None);

    // Requested changes inserted beside existing ones are unioned, not replaced
    reader_proxy.requested_changes_set(vec![2, 3]);
    reader_proxy.requested_changes_set(vec![2, 7, 9]);

    assert_eq!(reader_proxy.requested_changes().len(), 4);
    assert!(reader_proxy.requested_changes().contains(&2));
    assert!(reader_proxy.requested_changes().contains(&3));
    assert!(reader_proxy.requested_changes().contains(&7));
    assert!(reader_proxy.requested_changes().contains(&9));
}

#[test]
fn reader_proxy_unacked_changes_operations() {
    let remote_reader_guid = subscriptions_detector_guid();
    let mut reader_proxy = ReaderProxy::new(remote_reader_guid, vec![], vec![], false, true);

    let no_change_in_writer = 0;
    assert!(reader_proxy.unacked_changes(no_change_in_writer).is_empty());

    let two_changes_in_writer = 2;
    assert_eq!(reader_proxy.unacked_changes(two_changes_in_writer).len(), 2);
    assert!(reader_proxy.unacked_changes(two_changes_in_writer).contains(&1));
    assert!(reader_proxy.unacked_changes(two_changes_in_writer).contains(&2));

    reader_proxy.acked_changes_set(1);
    assert_eq!(reader_proxy.unacked_changes(two_changes_in_writer).len(), 1);
    assert!(reader_proxy.unacked_changes(two_changes_in_writer).contains(&2));
}
