//! The best-effort stateless writer: DATA for cached changes, GAP for the
//! numbers the cache no longer holds.

use rtps_core::cache::{CacheChange, HistoryCache};
use rtps_core::stateless_writer::{
    data_from_cache_change, entityid_unknown, gap_for_seq_num, BestEffortReaderLocatorBehavior,
    ReaderLocator, RtpsStatelessSubmessage, RtpsStatelessWriterImpl,
};
use rtps_core::submessage_elements::{Parameter, ParameterListSubmessageElement};
use rtps_core::types::{
    ChangeKind, EntityId, EntityKind, Guid, GuidPrefix, Locator, ReliabilityKind, TopicKind,
};

fn udpv4_locator(port: u32, address: [u8; 4]) -> Locator {
    let mut full = [0u8; 16];
    full[12] = address[0];
    full[13] = address[1];
    full[14] = address[2];
    full[15] = address[3];
    Locator::new(1, port, full)
}

fn participant_message_writer_id() -> EntityId {
    EntityId::new([0, 2, 0], EntityKind::BuiltInWriterWithKey)
}

#[test]
fn produce_empty() {
    let locator = udpv4_locator(7400, [127, 0, 0, 1]);
    let mut reader_locator = ReaderLocator::new(locator, false);
    let writer_entity_id = participant_message_writer_id();
    let history_cache = HistoryCache::default();

    // Run without any change being created or added to the cache
    let last_change_sequence_number = 0;
    let messages_vec = BestEffortReaderLocatorBehavior::produce_messages(
        &mut reader_locator,
        &history_cache,
        writer_entity_id,
        last_change_sequence_number,
    );

    assert!(messages_vec.is_empty());
}

#[test]
fn produce_data_message() {
    let locator = udpv4_locator(7400, [127, 0, 0, 1]);
    let mut reader_locator = ReaderLocator::new(locator, false);
    let writer_entity_id = participant_message_writer_id();
    let mut history_cache = HistoryCache::default();

    // Add one change to the history cache
    let writer_guid = Guid::new(GuidPrefix::new([5; 12]), writer_entity_id);
    let instance_handle = [1; 16];
    let cache_change1 = CacheChange::new(
        ChangeKind::Alive,
        writer_guid,
        instance_handle,
        1,
        None,
        Some(vec![1, 2, 3]),
    );
    history_cache.add_change(cache_change1.clone());

    // Run with the last change sequence number equal to the added cache change
    let last_change_sequence_number = 1;
    let messages_vec = BestEffortReaderLocatorBehavior::produce_messages(
        &mut reader_locator,
        &history_cache,
        writer_entity_id,
        last_change_sequence_number,
    );

    let expected_data_submessage = RtpsStatelessSubmessage::Data(data_from_cache_change(
        &cache_change1,
        entityid_unknown(),
    ));
    assert_eq!(messages_vec.len(), 1);
    assert!(messages_vec.contains(&expected_data_submessage));
}

#[test]
fn produce_gap_message() {
    let locator = udpv4_locator(7400, [127, 0, 0, 1]);
    let mut reader_locator = ReaderLocator::new(locator, false);
    let writer_entity_id = participant_message_writer_id();
    let history_cache = HistoryCache::default();

    // Run with a sequence number of 1 without adding any change to the cache
    let last_change_sequence_number = 1;
    let messages_vec = BestEffortReaderLocatorBehavior::produce_messages(
        &mut reader_locator,
        &history_cache,
        writer_entity_id,
        last_change_sequence_number,
    );

    let expected_gap_submessage = RtpsStatelessSubmessage::Gap(gap_for_seq_num(
        entityid_unknown(),
        writer_entity_id,
        1,
    ));
    assert_eq!(messages_vec.len(), 1);
    assert!(messages_vec.contains(&expected_gap_submessage));
}

#[test]
fn produce_data_and_gap_messages() {
    let locator = udpv4_locator(7400, [127, 0, 0, 1]);
    let mut reader_locator = ReaderLocator::new(locator, false);
    let writer_entity_id = participant_message_writer_id();
    let mut history_cache = HistoryCache::default();

    // Add one change to the history cache
    let writer_guid = Guid::new(GuidPrefix::new([5; 12]), writer_entity_id);
    let instance_handle = [1; 16];
    let cache_change1 = CacheChange::new(
        ChangeKind::Alive,
        writer_guid,
        instance_handle,
        1,
        None,
        Some(vec![1, 2, 3]),
    );
    history_cache.add_change(cache_change1.clone());

    // Run with the last change sequence number one above the added change
    let last_change_sequence_number = 2;
    let messages_vec = BestEffortReaderLocatorBehavior::produce_messages(
        &mut reader_locator,
        &history_cache,
        writer_entity_id,
        last_change_sequence_number,
    );

    let expected_data_submessage = RtpsStatelessSubmessage::Data(data_from_cache_change(
        &cache_change1,
        entityid_unknown(),
    ));
    let expected_gap_submessage = RtpsStatelessSubmessage::Gap(gap_for_seq_num(
        entityid_unknown(),
        writer_entity_id,
        2,
    ));
    assert_eq!(messages_vec.len(), 2);
    assert!(messages_vec.contains(&expected_data_submessage));
    assert!(messages_vec.contains(&expected_gap_submessage));
}

#[test]
fn data_then_gap_in_sequence_order() {
    // With only sequence number 1 in the cache and the stream at 2, the
    // locator gets DATA for 1 and then a GAP whose start is 2 and whose
    // list, based one past it, is empty.
    let locator = udpv4_locator(7400, [127, 0, 0, 1]);
    let mut reader_locator = ReaderLocator::new(locator, false);
    let writer_entity_id = participant_message_writer_id();
    let mut history_cache = HistoryCache::default();
    let writer_guid = Guid::new(GuidPrefix::new([5; 12]), writer_entity_id);
    history_cache.add_change(CacheChange::new(
        ChangeKind::Alive,
        writer_guid,
        [1; 16],
        1,
        None,
        Some(b"abc".to_vec()),
    ));

    let messages_vec = BestEffortReaderLocatorBehavior::produce_messages(
        &mut reader_locator,
        &history_cache,
        writer_entity_id,
        2,
    );

    assert_eq!(messages_vec.len(), 2);
    match &messages_vec[0] {
        RtpsStatelessSubmessage::Data(data) => {
            assert_eq!(data.writer_sn, 1);
            assert_eq!(data.serialized_payload.value, b"abc".to_vec());
            assert_eq!(data.reader_id, entityid_unknown());
        }
        RtpsStatelessSubmessage::Gap(_) => panic!("the cached change must go out as DATA"),
    }
    match &messages_vec[1] {
        RtpsStatelessSubmessage::Gap(gap) => {
            assert_eq!(gap.gap_start, 2);
            assert_eq!(gap.gap_list.base, 3);
            assert!(gap.gap_list.set.is_empty());
        }
        RtpsStatelessSubmessage::Data(_) => panic!("the absent change must go out as GAP"),
    }
}

#[test]
fn produce_destined_submessages_one_locator_one_submessage() {
    let guid = Guid::new(
        GuidPrefix::new([0; 12]),
        EntityId::new([1, 2, 3], EntityKind::UserDefinedWriterNoKey),
    );

    let mut writer = RtpsStatelessWriterImpl::new(
        guid,
        TopicKind::NoKey,
        ReliabilityKind::BestEffort,
        vec![],
        vec![],
        false,
    );
    writer.reader_locator_add(ReaderLocator::new(Locator::new(1, 1234, [6; 16]), false));

    let inline_qos = ParameterListSubmessageElement {
        parameter: vec![Parameter { parameter_id: 8, length: 3, value: vec![6, 1, 2] }],
    };
    let change = writer.new_change(
        ChangeKind::Alive,
        Some(vec![4, 1, 3]),
        Some(inline_qos),
        [0; 16],
    );
    writer.history_cache().add_change(change);

    let destined_submessages = writer.produce_destined_submessages();
    assert_eq!(1, destined_submessages.len());
    let (locator, submessages) = &destined_submessages[0];
    assert_eq!(&Locator::new(1, 1234, [6; 16]), locator);
    assert_eq!(1, submessages.len());

    match &submessages[0] {
        RtpsStatelessSubmessage::Data(data) => {
            assert_eq!(true, data.endianness_flag);
            assert_eq!(true, data.inline_qos_flag);
            assert_eq!(true, data.data_flag);
            assert_eq!(false, data.key_flag);
            assert_eq!(false, data.non_standard_payload_flag);
            assert_eq!(entityid_unknown(), data.reader_id);
            assert_eq!(guid.entity_id(), data.writer_id);
            assert_eq!(1, data.writer_sn);
            assert_eq!(1, data.inline_qos.parameter.len());
            assert_eq!(8, data.inline_qos.parameter[0].parameter_id);
            assert_eq!(vec![6, 1, 2], data.inline_qos.parameter[0].value);
            assert_eq!(vec![4, 1, 3], data.serialized_payload.value);
        }
        RtpsStatelessSubmessage::Gap(_) => panic!("the cached change must go out as DATA"),
    }
}
