//! The stateful endpoints end to end: heartbeats drive acknowledgments, and
//! acknowledgments drive repair.

use rtps_core::messages::{
    AckNackSubmessage, HeartbeatSubmessage, RtpsEndpointMessage, RtpsEndpointSubmessage,
};
use rtps_core::stateful_reader::{StatefulReader, WriterProxy};
use rtps_core::stateful_writer::{ReaderProxy, StatefulWriter};
use rtps_core::submessage_elements::SequenceNumberSet;
use rtps_core::time::Duration;
use rtps_core::types::{
    ChangeKind, Count, EntityId, EntityKind, Guid, GuidPrefix, ReliabilityKind, TopicKind,
};

fn writer_guid() -> Guid {
    Guid::new(
        GuidPrefix::new([1; 12]),
        EntityId::new([0, 0, 7], EntityKind::UserDefinedWriterWithKey),
    )
}

fn reader_guid() -> Guid {
    Guid::new(
        GuidPrefix::new([2; 12]),
        EntityId::new([0, 0, 9], EntityKind::UserDefinedReaderWithKey),
    )
}

fn reliable_reader() -> StatefulReader {
    let mut reader = StatefulReader::new(
        reader_guid(),
        TopicKind::WithKey,
        ReliabilityKind::Reliable,
        vec![],
        vec![],
        false,
        Duration::new(0, 200_000_000),
    );
    reader.matched_writer_add(WriterProxy::new(writer_guid(), vec![], vec![]));
    reader
}

fn heartbeat(first: i64, last: i64, count: i32) -> RtpsEndpointSubmessage {
    RtpsEndpointSubmessage::Heartbeat(HeartbeatSubmessage {
        endianness_flag: true,
        final_flag: false,
        liveliness_flag: false,
        reader_id: reader_guid().entity_id(),
        writer_id: writer_guid().entity_id(),
        first_sn: first,
        last_sn: last,
        count: Count::new(count),
    })
}

#[test]
fn heartbeat_draws_an_acknack_for_the_missing_changes() {
    let mut reader = reliable_reader();
    let wguid = writer_guid();

    let message = RtpsEndpointMessage::new(wguid.prefix(), vec![heartbeat(1, 3, 1)]);
    let reply = reader.run(&wguid, Some(&message)).expect("an acknowledgment is owed");

    assert_eq!(reply.guid_prefix, reader_guid().prefix());
    assert_eq!(reply.submessages.len(), 1);
    match &reply.submessages[0] {
        RtpsEndpointSubmessage::AckNack(acknack) => {
            assert_eq!(acknack.reader_sn_state.base, 1);
            let mut missing = acknack.reader_sn_state.set.clone();
            missing.sort();
            assert_eq!(missing, vec![1, 2, 3]);
            assert!(!acknack.final_flag);
            assert_eq!(acknack.count, Count::new(1));
        }
        other => panic!("an acknowledgment was owed, not {:?}", other),
    }

    // A duplicate of the same heartbeat is dropped: no new acknowledgment.
    let duplicate = RtpsEndpointMessage::new(wguid.prefix(), vec![heartbeat(1, 3, 1)]);
    assert!(reader.run(&wguid, Some(&duplicate)).is_none());

    // Once everything arrived, the next heartbeat draws a final, empty one.
    let mut data: Vec<RtpsEndpointSubmessage> = Vec::new();
    for sn in 1..=3 {
        data.push(RtpsEndpointSubmessage::Data(
            rtps_core::stateless_writer::data_from_cache_change(
                &rtps_core::cache::CacheChange::new(
                    ChangeKind::Alive,
                    wguid,
                    [0; 16],
                    sn,
                    None,
                    Some(vec![7]),
                ),
                reader_guid().entity_id(),
            ),
        ));
    }
    let data_message = RtpsEndpointMessage::new(wguid.prefix(), data);
    assert!(reader.run(&wguid, Some(&data_message)).is_none());
    assert_eq!(reader.reader_cache().len(), 3);

    let closing = RtpsEndpointMessage::new(wguid.prefix(), vec![heartbeat(1, 3, 2)]);
    let reply = reader.run(&wguid, Some(&closing)).expect("an acknowledgment is owed");
    match &reply.submessages[0] {
        RtpsEndpointSubmessage::AckNack(acknack) => {
            assert_eq!(acknack.reader_sn_state.base, 4);
            assert!(acknack.reader_sn_state.set.is_empty());
            assert!(acknack.final_flag);
            assert_eq!(acknack.count, Count::new(2));
        }
        other => panic!("an acknowledgment was owed, not {:?}", other),
    }
}

#[test]
fn writer_pushes_unsent_changes_and_repairs_requests() {
    let mut writer = StatefulWriter::new(
        writer_guid(),
        TopicKind::WithKey,
        ReliabilityKind::Reliable,
        vec![],
        vec![],
        true,
        Duration::new(0, 200_000_000),
        Duration::new(0, 200_000_000),
        Duration::new(0, 0),
    );
    let rguid = reader_guid();
    writer.matched_reader_add(ReaderProxy::new(rguid, vec![], vec![], false, true));

    let change1 = writer.new_change(ChangeKind::Alive, Some(vec![1]), None, [0; 16]);
    writer.history_cache().add_change(change1);
    let change2 = writer.new_change(ChangeKind::Alive, Some(vec![2]), None, [0; 16]);
    writer.history_cache().add_change(change2);

    // The first run pushes both changes and announces the range.
    let reply = writer.run(&rguid, None).expect("unsent changes go out");
    assert_eq!(reply.guid_prefix, writer_guid().prefix());
    assert_eq!(reply.submessages.len(), 3);
    match (&reply.submessages[0], &reply.submessages[1], &reply.submessages[2]) {
        (
            RtpsEndpointSubmessage::Data(first),
            RtpsEndpointSubmessage::Data(second),
            RtpsEndpointSubmessage::Heartbeat(announce),
        ) => {
            assert_eq!(first.writer_sn, 1);
            assert_eq!(second.writer_sn, 2);
            assert_eq!(announce.first_sn, 1);
            assert_eq!(announce.last_sn, 2);
            assert_eq!(announce.count, Count::new(1));
            assert!(!announce.final_flag);
        }
        other => panic!("two pushes and an announcement were owed, not {:?}", other),
    }

    // An acknowledgment up to 1 that asks for 1 again draws a repair.
    let acknack = RtpsEndpointSubmessage::AckNack(AckNackSubmessage {
        endianness_flag: true,
        final_flag: false,
        reader_id: rguid.entity_id(),
        writer_id: writer_guid().entity_id(),
        reader_sn_state: SequenceNumberSet { base: 2, set: vec![1] },
        count: Count::new(1),
    });
    let message = RtpsEndpointMessage::new(rguid.prefix(), vec![acknack]);
    let reply = writer.run(&rguid, Some(&message)).expect("a repair is owed");
    assert_eq!(reply.submessages.len(), 2);
    match (&reply.submessages[0], &reply.submessages[1]) {
        (
            RtpsEndpointSubmessage::Heartbeat(announce),
            RtpsEndpointSubmessage::Data(repair),
        ) => {
            assert_eq!(announce.count, Count::new(2));
            assert_eq!(repair.writer_sn, 1);
            assert_eq!(repair.serialized_payload.value, vec![1]);
        }
        other => panic!("an announcement and a repair were owed, not {:?}", other),
    }
}

#[test]
fn best_effort_reader_drops_stale_data() {
    let mut reader = StatefulReader::new(
        reader_guid(),
        TopicKind::WithKey,
        ReliabilityKind::BestEffort,
        vec![],
        vec![],
        false,
        Duration::new(0, 200_000_000),
    );
    let wguid = writer_guid();
    reader.matched_writer_add(WriterProxy::new(wguid, vec![], vec![]));

    let data_at = |sn: i64| {
        RtpsEndpointSubmessage::Data(rtps_core::stateless_writer::data_from_cache_change(
            &rtps_core::cache::CacheChange::new(
                ChangeKind::Alive,
                wguid,
                [0; 16],
                sn,
                None,
                Some(vec![9]),
            ),
            reader_guid().entity_id(),
        ))
    };

    let ahead = RtpsEndpointMessage::new(wguid.prefix(), vec![data_at(2)]);
    assert!(reader.run(&wguid, Some(&ahead)).is_none());
    assert_eq!(reader.reader_cache().len(), 1);

    // A sample at or under the highest processed number is dropped.
    let stale = RtpsEndpointMessage::new(wguid.prefix(), vec![data_at(1)]);
    assert!(reader.run(&wguid, Some(&stale)).is_none());
    assert_eq!(reader.reader_cache().len(), 1);
}
