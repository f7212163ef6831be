//! Participant discovery: the announced payload's byte-exact serialization,
//! the parse back, and the matching of the built-in endpoint proxies.

use rtps_core::spdp::{
    add_discovered_participant, announce_topic_change, entityid_sedp_builtin_publications_announcer,
    entityid_sedp_builtin_publications_detector, entityid_sedp_builtin_subscriptions_announcer,
    entityid_sedp_builtin_subscriptions_detector, entityid_sedp_builtin_topics_announcer,
    entityid_sedp_builtin_topics_detector, remove_discovered_participant, BuiltInEndpointSet,
    DiscoveredTopicData, Endianness, Participant, SPDPdiscoveredParticipantData,
    SedpBuiltinEndpoints,
    BUILTIN_ENDPOINT_PUBLICATIONS_ANNOUNCER, BUILTIN_ENDPOINT_PUBLICATIONS_DETECTOR,
    BUILTIN_ENDPOINT_SUBSCRIPTIONS_ANNOUNCER, BUILTIN_ENDPOINT_SUBSCRIPTIONS_DETECTOR,
    BUILTIN_ENDPOINT_TOPICS_ANNOUNCER, BUILTIN_ENDPOINT_TOPICS_DETECTOR,
};
use rtps_core::stateful_reader::StatefulReader;
use rtps_core::stateful_writer::StatefulWriter;
use rtps_core::time::Duration;
use rtps_core::types::{
    Count, EntityId, EntityKind, Guid, GuidPrefix, Locator, ProtocolVersion, ReliabilityKind,
    TopicKind, VendorId,
};

fn version_2_4() -> ProtocolVersion {
    ProtocolVersion::new(2, 4)
}

#[test]
fn complete_serialize_spdp_data() {
    let spdp_participant_data = SPDPdiscoveredParticipantData::new(
        0,
        b"abcd".to_vec(),
        version_2_4(),
        GuidPrefix::new([1, 2, 3, 4, 5, 6, 7, 1, 2, 3, 4, 5]),
        VendorId::new([99, 99]),
        true,
        vec![Locator::new(10, 100, [1; 16])],
        vec![Locator::new(20, 100, [5; 16]), Locator::new(5, 2300, [30; 16])],
        vec![Locator::new(10, 100, [1; 16]), Locator::new(5, 20000, [20; 16])],
        vec![
            Locator::new(50, 100, [9; 16]),
            Locator::new(5, 1300, [30; 16]),
            Locator::new(555, 1300, [30; 16]),
        ],
        BuiltInEndpointSet::new(123),
        Duration::new(30, 0),
        Count::new(0),
    );

    let key = spdp_participant_data.key();
    assert_eq!(key, [1, 2, 3, 4, 5, 6, 7, 1, 2, 3, 4, 5, 0, 0, 0, 0]);

    let data = spdp_participant_data.data(Endianness::BigEndian);
    assert_eq!(data, vec![
        0, 2, 0, 0, // PL_CDR_BE
        0, 15, 0, 4, // PID 0x000f (domain id), length 4
        0, 0, 0, 0, // the domain
        64, 20, 0, 12, // PID 0x4014 (domain tag), length 12
        0, 0, 0, 5, 97, 98, 99, 100, 0, 0, 0, 0, // the tag
        0, 21, 0, 4, // PID 0x0015 (protocol version), length 4
        2, 4, 0, 0, // the version
        0, 22, 0, 4, // PID 0x0016 (vendor id), length 4
        99, 99, 0, 0, // the vendor
        0, 67, 0, 4, // PID 0x0043 (expects inline QoS), length 4
        1, 0, 0, 0, // true
        0, 50, 0, 24, // PID 0x0032 (metatraffic unicast locator), length 24
        0, 0, 0, 10, 0, 0, 0, 100, 1, 1, 1, 1, 1, 1, 1, 1, 1, 1, 1, 1, 1, 1, 1, 1,
        0, 51, 0, 24, // PID 0x0033 (metatraffic multicast locator), length 24
        0, 0, 0, 20, 0, 0, 0, 100, 5, 5, 5, 5, 5, 5, 5, 5, 5, 5, 5, 5, 5, 5, 5, 5,
        0, 51, 0, 24, // PID 0x0033 (metatraffic multicast locator), length 24
        0, 0, 0, 5, 0, 0, 8, 252, 30, 30, 30, 30, 30, 30, 30, 30, 30, 30, 30, 30, 30, 30, 30, 30,
        0, 49, 0, 24, // PID 0x0031 (default unicast locator), length 24
        0, 0, 0, 10, 0, 0, 0, 100, 1, 1, 1, 1, 1, 1, 1, 1, 1, 1, 1, 1, 1, 1, 1, 1,
        0, 49, 0, 24, // PID 0x0031 (default unicast locator), length 24
        0, 0, 0, 5, 0, 0, 78, 32, 20, 20, 20, 20, 20, 20, 20, 20, 20, 20, 20, 20, 20, 20, 20, 20,
        0, 72, 0, 24, // PID 0x0048 (default multicast locator), length 24
        0, 0, 0, 50, 0, 0, 0, 100, 9, 9, 9, 9, 9, 9, 9, 9, 9, 9, 9, 9, 9, 9, 9, 9,
        0, 72, 0, 24, // PID 0x0048 (default multicast locator), length 24
        0, 0, 0, 5, 0, 0, 5, 20, 30, 30, 30, 30, 30, 30, 30, 30, 30, 30, 30, 30, 30, 30, 30, 30,
        0, 72, 0, 24, // PID 0x0048 (default multicast locator), length 24
        0, 0, 2, 43, 0, 0, 5, 20, 30, 30, 30, 30, 30, 30, 30, 30, 30, 30, 30, 30, 30, 30, 30, 30,
        0, 88, 0, 4, // PID 0x0058 (built-in endpoint set), length 4
        0, 0, 0, 123,
        0, 2, 0, 8, // PID 0x0002 (participant lease duration), length 8
        0, 0, 0, 30, 0, 0, 0, 0,
        0, 52, 0, 4, // PID 0x0034 (manual liveliness count), length 4
        0, 0, 0, 0,
        0, 1, 0, 0, // sentinel
    ]);

    let deserialized_spdp =
        SPDPdiscoveredParticipantData::from_key_data(key, &data, 0).unwrap();
    assert_eq!(deserialized_spdp, spdp_participant_data);

    let data = spdp_participant_data.data(Endianness::LittleEndian);
    assert_eq!(data, vec![
        0, 3, 0, 0, // PL_CDR_LE
        15, 0, 4, 0, // PID 0x000f (domain id), length 4
        0, 0, 0, 0, // the domain
        20, 64, 12, 0, // PID 0x4014 (domain tag), length 12
        5, 0, 0, 0, 97, 98, 99, 100, 0, 0, 0, 0, // the tag
        21, 0, 4, 0, // PID 0x0015 (protocol version), length 4
        2, 4, 0, 0, // the version
        22, 0, 4, 0, // PID 0x0016 (vendor id), length 4
        99, 99, 0, 0, // the vendor
        67, 0, 4, 0, // PID 0x0043 (expects inline QoS), length 4
        1, 0, 0, 0, // true
        50, 0, 24, 0, // PID 0x0032 (metatraffic unicast locator), length 24
        10, 0, 0, 0, 100, 0, 0, 0, 1, 1, 1, 1, 1, 1, 1, 1, 1, 1, 1, 1, 1, 1, 1, 1,
        51, 0, 24, 0, // PID 0x0033 (metatraffic multicast locator), length 24
        20, 0, 0, 0, 100, 0, 0, 0, 5, 5, 5, 5, 5, 5, 5, 5, 5, 5, 5, 5, 5, 5, 5, 5,
        51, 0, 24, 0, // PID 0x0033 (metatraffic multicast locator), length 24
        5, 0, 0, 0, 252, 8, 0, 0, 30, 30, 30, 30, 30, 30, 30, 30, 30, 30, 30, 30, 30, 30, 30, 30,
        49, 0, 24, 0, // PID 0x0031 (default unicast locator), length 24
        10, 0, 0, 0, 100, 0, 0, 0, 1, 1, 1, 1, 1, 1, 1, 1, 1, 1, 1, 1, 1, 1, 1, 1,
        49, 0, 24, 0, // PID 0x0031 (default unicast locator), length 24
        5, 0, 0, 0, 32, 78, 0, 0, 20, 20, 20, 20, 20, 20, 20, 20, 20, 20, 20, 20, 20, 20, 20, 20,
        72, 0, 24, 0, // PID 0x0048 (default multicast locator), length 24
        50, 0, 0, 0, 100, 0, 0, 0, 9, 9, 9, 9, 9, 9, 9, 9, 9, 9, 9, 9, 9, 9, 9, 9,
        72, 0, 24, 0, // PID 0x0048 (default multicast locator), length 24
        5, 0, 0, 0, 20, 5, 0, 0, 30, 30, 30, 30, 30, 30, 30, 30, 30, 30, 30, 30, 30, 30, 30, 30,
        72, 0, 24, 0, // PID 0x0048 (default multicast locator), length 24
        43, 2, 0, 0, 20, 5, 0, 0, 30, 30, 30, 30, 30, 30, 30, 30, 30, 30, 30, 30, 30, 30, 30, 30,
        88, 0, 4, 0, // PID 0x0058 (built-in endpoint set), length 4
        123, 0, 0, 0,
        2, 0, 8, 0, // PID 0x0002 (participant lease duration), length 8
        30, 0, 0, 0, 0, 0, 0, 0,
        52, 0, 4, 0, // PID 0x0034 (manual liveliness count), length 4
        0, 0, 0, 0,
        1, 0, 0, 0, // sentinel
    ]);

    let deserialized_spdp =
        SPDPdiscoveredParticipantData::from_key_data(key, &data, 0).unwrap();
    assert_eq!(deserialized_spdp, spdp_participant_data);
}

#[test]
fn serialize_spdp_data_with_defaults() {
    let spdp_participant_data = SPDPdiscoveredParticipantData::new(
        0,
        Vec::new(),
        version_2_4(),
        GuidPrefix::new([1, 2, 3, 4, 5, 6, 7, 1, 2, 3, 4, 5]),
        VendorId::new([99, 99]),
        false,
        vec![],
        vec![],
        vec![Locator::new(10, 100, [1; 16])],
        vec![],
        BuiltInEndpointSet::new(123),
        Duration::new(100, 0),
        Count::new(0),
    );

    let key = spdp_participant_data.key();

    let data = spdp_participant_data.data(Endianness::BigEndian);
    assert_eq!(data, vec![
        0, 2, 0, 0, // PL_CDR_BE
        0, 15, 0, 4, // PID 0x000f (domain id), length 4
        0, 0, 0, 0, // the domain
        0, 21, 0, 4, // PID 0x0015 (protocol version), length 4
        2, 4, 0, 0, // the version
        0, 22, 0, 4, // PID 0x0016 (vendor id), length 4
        99, 99, 0, 0, // the vendor
        0, 49, 0, 24, // PID 0x0031 (default unicast locator), length 24
        0, 0, 0, 10, 0, 0, 0, 100, 1, 1, 1, 1, 1, 1, 1, 1, 1, 1, 1, 1, 1, 1, 1, 1,
        0, 88, 0, 4, // PID 0x0058 (built-in endpoint set), length 4
        0, 0, 0, 123,
        0, 52, 0, 4, // PID 0x0034 (manual liveliness count), length 4
        0, 0, 0, 0,
        0, 1, 0, 0, // sentinel
    ]);

    let deserialized_spdp =
        SPDPdiscoveredParticipantData::from_key_data(key, &data, 0).unwrap();
    assert_eq!(deserialized_spdp, spdp_participant_data);
}

fn fresh_endpoints(prefix: GuidPrefix) -> SedpBuiltinEndpoints {
    let writer = |entity_id: EntityId| {
        StatefulWriter::new(
            Guid::new(prefix, entity_id),
            TopicKind::WithKey,
            ReliabilityKind::Reliable,
            vec![],
            vec![],
            true,
            Duration::new(0, 200_000_000),
            Duration::new(0, 200_000_000),
            Duration::new(0, 0),
        )
    };
    let reader = |entity_id: EntityId| {
        StatefulReader::new(
            Guid::new(prefix, entity_id),
            TopicKind::WithKey,
            ReliabilityKind::Reliable,
            vec![],
            vec![],
            false,
            Duration::new(0, 200_000_000),
        )
    };
    SedpBuiltinEndpoints {
        sedp_builtin_publications_writer: writer(entityid_sedp_builtin_publications_announcer()),
        sedp_builtin_publications_reader: reader(entityid_sedp_builtin_publications_detector()),
        sedp_builtin_subscriptions_writer: writer(
            entityid_sedp_builtin_subscriptions_announcer(),
        ),
        sedp_builtin_subscriptions_reader: reader(
            entityid_sedp_builtin_subscriptions_detector(),
        ),
        sedp_builtin_topics_writer: writer(entityid_sedp_builtin_topics_announcer()),
        sedp_builtin_topics_reader: reader(entityid_sedp_builtin_topics_detector()),
    }
}

fn all_sedp_endpoints() -> u32 {
    BUILTIN_ENDPOINT_PUBLICATIONS_ANNOUNCER
        | BUILTIN_ENDPOINT_PUBLICATIONS_DETECTOR
        | BUILTIN_ENDPOINT_SUBSCRIPTIONS_ANNOUNCER
        | BUILTIN_ENDPOINT_SUBSCRIPTIONS_DETECTOR
        | BUILTIN_ENDPOINT_TOPICS_ANNOUNCER
        | BUILTIN_ENDPOINT_TOPICS_DETECTOR
}

fn announcement_for(prefix: GuidPrefix) -> SPDPdiscoveredParticipantData {
    SPDPdiscoveredParticipantData::new(
        0,
        Vec::new(),
        version_2_4(),
        prefix,
        VendorId::new([99, 99]),
        false,
        vec![Locator::new(1, 7400, [1; 16])],
        vec![Locator::new(1, 7400, [2; 16])],
        vec![],
        vec![],
        BuiltInEndpointSet::new(all_sedp_endpoints()),
        Duration::new(100, 0),
        Count::new(0),
    )
}

#[test]
fn discovered_participant_matches_six_sedp_proxies() {
    // One participant announces itself; the other receives the payload off
    // the wire and matches a proxy on each of its six SEDP endpoints.
    let prefix_a = GuidPrefix::new([1; 12]);
    let prefix_b = GuidPrefix::new([2; 12]);
    let announcement = announcement_for(prefix_a);
    let bytes = announcement.data(Endianness::LittleEndian);
    let received =
        SPDPdiscoveredParticipantData::from_key_data(announcement.key(), &bytes, 0).unwrap();

    let mut endpoints_b = fresh_endpoints(prefix_b);
    add_discovered_participant(&mut endpoints_b, 0, &Vec::new(), &received);

    let guid = |entity_id: EntityId| Guid::new(prefix_a, entity_id);
    let pubs_proxy = endpoints_b
        .sedp_builtin_publications_writer
        .matched_reader_lookup(&guid(entityid_sedp_builtin_publications_detector()))
        .unwrap();
    // The proxy carries the announced metatraffic locators.
    assert_eq!(pubs_proxy.unicast_locator_list(), &vec![Locator::new(1, 7400, [1; 16])]);
    assert_eq!(pubs_proxy.multicast_locator_list(), &vec![Locator::new(1, 7400, [2; 16])]);
    let pubs_writer_proxy = endpoints_b
        .sedp_builtin_publications_reader
        .matched_writer_lookup(&guid(entityid_sedp_builtin_publications_announcer()))
        .unwrap();
    assert_eq!(pubs_writer_proxy.unicast_locator_list(), &vec![Locator::new(1, 7400, [1; 16])]);
    assert_eq!(
        pubs_writer_proxy.multicast_locator_list(),
        &vec![Locator::new(1, 7400, [2; 16])],
    );
    assert!(endpoints_b
        .sedp_builtin_publications_reader
        .matched_writer_lookup(&guid(entityid_sedp_builtin_publications_announcer()))
        .is_some());
    assert!(endpoints_b
        .sedp_builtin_subscriptions_writer
        .matched_reader_lookup(&guid(entityid_sedp_builtin_subscriptions_detector()))
        .is_some());
    assert!(endpoints_b
        .sedp_builtin_subscriptions_reader
        .matched_writer_lookup(&guid(entityid_sedp_builtin_subscriptions_announcer()))
        .is_some());
    assert!(endpoints_b
        .sedp_builtin_topics_writer
        .matched_reader_lookup(&guid(entityid_sedp_builtin_topics_detector()))
        .is_some());
    assert!(endpoints_b
        .sedp_builtin_topics_reader
        .matched_writer_lookup(&guid(entityid_sedp_builtin_topics_announcer()))
        .is_some());

    // The handshake is symmetric: after the announcing side receives the
    // other's announcement, its endpoints gain the mirror proxies.
    let mut endpoints_a = fresh_endpoints(prefix_a);
    let announcement_b = announcement_for(prefix_b);
    let bytes_b = announcement_b.data(Endianness::LittleEndian);
    let received_b =
        SPDPdiscoveredParticipantData::from_key_data(announcement_b.key(), &bytes_b, 0).unwrap();
    add_discovered_participant(&mut endpoints_a, 0, &Vec::new(), &received_b);
    let guid_b = |entity_id: EntityId| Guid::new(prefix_b, entity_id);
    assert!(endpoints_a
        .sedp_builtin_publications_writer
        .matched_reader_lookup(&guid_b(entityid_sedp_builtin_publications_detector()))
        .is_some());
    assert!(endpoints_a
        .sedp_builtin_subscriptions_reader
        .matched_writer_lookup(&guid_b(entityid_sedp_builtin_subscriptions_announcer()))
        .is_some());
}

#[test]
fn discovered_participant_of_other_domain_is_ignored() {
    let prefix_a = GuidPrefix::new([1; 12]);
    let prefix_b = GuidPrefix::new([2; 12]);
    let announcement = announcement_for(prefix_a);

    let mut endpoints_b = fresh_endpoints(prefix_b);
    add_discovered_participant(&mut endpoints_b, 7, &Vec::new(), &announcement);
    assert!(endpoints_b
        .sedp_builtin_publications_writer
        .matched_reader_lookup(&Guid::new(
            prefix_a,
            entityid_sedp_builtin_publications_detector()
        ))
        .is_none());
}

#[test]
fn removed_participant_loses_its_proxies() {
    let prefix_a = GuidPrefix::new([1; 12]);
    let prefix_b = GuidPrefix::new([2; 12]);
    let announcement = announcement_for(prefix_a);

    let mut endpoints_b = fresh_endpoints(prefix_b);
    add_discovered_participant(&mut endpoints_b, 0, &Vec::new(), &announcement);
    remove_discovered_participant(&mut endpoints_b, prefix_a);
    assert!(endpoints_b
        .sedp_builtin_publications_writer
        .matched_reader_lookup(&Guid::new(
            prefix_a,
            entityid_sedp_builtin_publications_detector()
        ))
        .is_none());
    assert!(endpoints_b
        .sedp_builtin_topics_reader
        .matched_writer_lookup(&Guid::new(
            prefix_a,
            entityid_sedp_builtin_topics_announcer()
        ))
        .is_none());
}

#[test]
fn malformed_spdp_payload_is_rejected() {
    // A payload whose required protocol-version parameter is absent.
    let data = vec![
        0, 3, 0, 0, // PL_CDR_LE
        1, 0, 0, 0, // sentinel
    ];
    assert!(SPDPdiscoveredParticipantData::from_key_data([0; 16], &data, 0).is_err());
}

#[test]
fn topic_data_bytes_both_endians() {
    let topic = DiscoveredTopicData { name: b"Topic".to_vec(), datatype_name: b"Point".to_vec() };
    let le = topic.topic_data_bytes(Endianness::LittleEndian);
    assert_eq!(le, vec![
        0, 3, 0, 0, // PL_CDR_LE
        5, 0, 12, 0, // PID 0x0005 (topic name), length 12
        6, 0, 0, 0, 84, 111, 112, 105, 99, 0, 0, 0, // "Topic"
        7, 0, 12, 0, // PID 0x0007 (type name), length 12
        6, 0, 0, 0, 80, 111, 105, 110, 116, 0, 0, 0, // "Point"
        1, 0, 0, 0, // sentinel
    ]);
    let be = topic.topic_data_bytes(Endianness::BigEndian);
    assert_eq!(be, vec![
        0, 2, 0, 0, // PL_CDR_BE
        0, 5, 0, 12, // PID 0x0005 (topic name), length 12
        0, 0, 0, 6, 84, 111, 112, 105, 99, 0, 0, 0, // "Topic"
        0, 7, 0, 12, // PID 0x0007 (type name), length 12
        0, 0, 0, 6, 80, 111, 105, 110, 116, 0, 0, 0, // "Point"
        0, 1, 0, 0, // sentinel
    ]);
}

#[test]
fn announce_topic_change_stores_the_serialized_topic() {
    let mut writer = StatefulWriter::new(
        Guid::new(
            GuidPrefix::new([7; 12]),
            EntityId::new([0, 0, 2], EntityKind::BuiltInWriterWithKey),
        ),
        TopicKind::WithKey,
        ReliabilityKind::Reliable,
        vec![],
        vec![],
        true,
        Duration::new(0, 200_000_000),
        Duration::new(0, 200_000_000),
        Duration::new(0, 0),
    );
    let topic = DiscoveredTopicData { name: b"Topic".to_vec(), datatype_name: b"Point".to_vec() };
    let sn = announce_topic_change(&mut writer, &topic, Endianness::LittleEndian);
    assert_eq!(sn, 1);
    assert_eq!(writer.last_change_sequence_number(), 1);
    let expected = topic.topic_data_bytes(Endianness::LittleEndian);
    let stored = writer.history_cache().get_change(1).unwrap();
    assert_eq!(stored.sequence_number(), 1);
    assert_eq!(stored.data_value().as_ref().unwrap(), &expected);
}

#[test]
fn participant_new_builds_the_builtin_endpoints() {
    let multicast = Locator::new(1, 7400, [239; 16]);
    let participant = Participant::new(
        GuidPrefix::new([3; 12]),
        7,
        b"tag".to_vec(),
        vec![Locator::new(1, 7410, [127; 16])],
        vec![multicast],
    );
    assert_eq!(participant.guid_prefix, GuidPrefix::new([3; 12]));
    assert_eq!(participant.domain_id, 7);
    assert_eq!(participant.domain_tag, b"tag".to_vec());
    assert_eq!(participant.builtin_endpoint_set.0, 0xFF);
    assert_eq!(
        participant.spdp_builtin_participant_writer.guid(),
        Guid::new(
            GuidPrefix::new([3; 12]),
            EntityId::new([0, 1, 0], EntityKind::BuiltInWriterWithKey),
        ),
    );
    assert_eq!(
        participant.sedp_builtin_endpoints.sedp_builtin_topics_writer.guid(),
        Guid::new(
            GuidPrefix::new([3; 12]),
            EntityId::new([0, 0, 2], EntityKind::BuiltInWriterWithKey),
        ),
    );
    assert_eq!(
        participant.sedp_builtin_endpoints.sedp_builtin_subscriptions_reader.guid(),
        Guid::new(
            GuidPrefix::new([3; 12]),
            EntityId::new([0, 0, 4], EntityKind::BuiltInReaderWithKey),
        ),
    );
}
