//! The wire codec: byte-exact serialization of the header and the carried
//! submessages, and the parse back.

use rtps_core::codec::{decode_header, decode_message, encode_header, encode_message, push_bytes};
use rtps_core::messages::{
    DataSubmessage, HeartbeatSubmessage, RtpsMessage, RtpsMessageHeader, RtpsSubmessage,
};
use rtps_core::submessage_elements::{
    Parameter, ParameterListSubmessageElement, SerializedDataSubmessageElement,
};
use rtps_core::types::{Count, EntityId, EntityKind, GuidPrefix, ProtocolVersion, VendorId};

fn example_header() -> RtpsMessageHeader {
    RtpsMessageHeader {
        protocol: *b"RTPS",
        version: ProtocolVersion::new(2, 3),
        vendor_id: VendorId::new([9, 8]),
        guid_prefix: GuidPrefix::new([3; 12]),
    }
}

fn example_data_submessage(data_flag: bool) -> DataSubmessage {
    DataSubmessage {
        endianness_flag: true,
        inline_qos_flag: true,
        data_flag,
        key_flag: false,
        non_standard_payload_flag: false,
        reader_id: EntityId::new([1, 2, 3], EntityKind::UserDefinedReaderNoKey),
        writer_id: EntityId::new([6, 7, 8], EntityKind::UserDefinedReaderGroup),
        writer_sn: 5,
        inline_qos: ParameterListSubmessageElement {
            parameter: vec![
                Parameter {
                    parameter_id: 6,
                    length: 4,
                    value: vec![10, 11, 12, 13],
                },
                Parameter {
                    parameter_id: 7,
                    length: 4,
                    value: vec![20, 21, 22, 23],
                },
            ],
        },
        serialized_payload: SerializedDataSubmessageElement { value: vec![] },
    }
}

fn example_message_bytes() -> Vec<u8> {
    vec![
        b'R', b'T', b'P', b'S', // Protocol
        2, 3, 9, 8, // ProtocolVersion | VendorId
        3, 3, 3, 3, // GuidPrefix
        3, 3, 3, 3, // GuidPrefix
        3, 3, 3, 3, // GuidPrefix
        0x15, 0b_0000_0011, 40, 0, // Submessage header
        0, 0, 16, 0, // extraFlags, octetsToInlineQos
        1, 2, 3, 4, // readerId: value[4]
        6, 7, 8, 9, // writerId: value[4]
        0, 0, 0, 0, // writerSN: high
        5, 0, 0, 0, // writerSN: low
        6, 0, 4, 0, // inlineQos: parameterId_1, length_1
        10, 11, 12, 13, // inlineQos: value_1[length_1]
        7, 0, 4, 0, // inlineQos: parameterId_2, length_2
        20, 21, 22, 23, // inlineQos: value_2[length_2]
        1, 0, 0, 0, // inlineQos: Sentinel
    ]
}

#[test]
fn serialize_rtps_message_header() {
    let value = example_header();
    let mut out: Vec<u8> = Vec::new();
    encode_header(&mut out, &value);
    assert_eq!(out, vec![
        b'R', b'T', b'P', b'S', // Protocol
        2, 3, 9, 8, // ProtocolVersion | VendorId
        3, 3, 3, 3, // GuidPrefix
        3, 3, 3, 3, // GuidPrefix
        3, 3, 3, 3, // GuidPrefix
    ]);
}

#[test]
fn deserialize_rtps_message_header() {
    let expected = example_header();
    let buf = vec![
        b'R', b'T', b'P', b'S', // Protocol
        2, 3, 9, 8, // ProtocolVersion | VendorId
        3, 3, 3, 3, // GuidPrefix
        3, 3, 3, 3, // GuidPrefix
        3, 3, 3, 3, // GuidPrefix
    ];
    let result = decode_header(&buf).unwrap();
    assert_eq!(expected, result);
}

#[test]
fn serialize_rtps_message_no_submessage() {
    let value = RtpsMessage { header: example_header(), submessages: Vec::new() };
    assert_eq!(encode_message(&value), vec![
        b'R', b'T', b'P', b'S', // Protocol
        2, 3, 9, 8, // ProtocolVersion | VendorId
        3, 3, 3, 3, // GuidPrefix
        3, 3, 3, 3, // GuidPrefix
        3, 3, 3, 3, // GuidPrefix
    ]);
}

#[test]
fn serialize_rtps_message() {
    let value = RtpsMessage {
        header: example_header(),
        submessages: vec![RtpsSubmessage::Data(example_data_submessage(false))],
    };
    assert_eq!(encode_message(&value), example_message_bytes());
}

#[test]
fn deserialize_rtps_message_no_submessage() {
    let expected = RtpsMessage { header: example_header(), submessages: Vec::new() };
    let buf = vec![
        b'R', b'T', b'P', b'S', // Protocol
        2, 3, 9, 8, // ProtocolVersion | VendorId
        3, 3, 3, 3, // GuidPrefix
        3, 3, 3, 3, // GuidPrefix
        3, 3, 3, 3, // GuidPrefix
    ];
    let result = decode_message(&buf).unwrap();
    assert_eq!(result, expected);
}

#[test]
fn deserialize_rtps_message() {
    let expected = RtpsMessage {
        header: example_header(),
        submessages: vec![RtpsSubmessage::Data(example_data_submessage(false))],
    };
    let buf = example_message_bytes();
    let result = decode_message(&buf).unwrap();
    assert_eq!(result, expected);
}

#[test]
fn deserialize_rtps_message_unknown_submessage() {
    let expected = RtpsMessage {
        header: example_header(),
        submessages: vec![RtpsSubmessage::Data(example_data_submessage(false))],
    };
    let mut buf = vec![
        b'R', b'T', b'P', b'S', // Protocol
        2, 3, 9, 8, // ProtocolVersion | VendorId
        3, 3, 3, 3, // GuidPrefix
        3, 3, 3, 3, // GuidPrefix
        3, 3, 3, 3, // GuidPrefix
        0x99, 0b_0101_0011, 4, 0, // Unknown submessage header
        9, 9, 9, 9, // Unknown data
    ];
    buf.extend_from_slice(&example_message_bytes()[20..]);
    let result = decode_message(&buf).unwrap();
    assert_eq!(result, expected);
}

#[test]
fn serialize_serialized_data() {
    let data = SerializedDataSubmessageElement { value: vec![1, 2, 3] };
    let mut out: Vec<u8> = Vec::new();
    push_bytes(&mut out, &data.value);
    assert_eq!(out, vec![1, 2, 3]);
}

#[test]
fn message_round_trip_both_endians() {
    let mut big_endian = example_data_submessage(true);
    big_endian.endianness_flag = false;
    big_endian.serialized_payload = SerializedDataSubmessageElement { value: vec![1, 2, 3, 4] };
    let mut little_endian = example_data_submessage(true);
    little_endian.serialized_payload =
        SerializedDataSubmessageElement { value: vec![5, 6, 7, 8] };
    let heartbeat = HeartbeatSubmessage {
        endianness_flag: false,
        final_flag: true,
        liveliness_flag: false,
        reader_id: EntityId::new([1, 2, 3], EntityKind::UserDefinedReaderNoKey),
        writer_id: EntityId::new([6, 7, 8], EntityKind::UserDefinedWriterWithKey),
        first_sn: 1,
        last_sn: 9,
        count: Count::new(-3),
    };
    let value = RtpsMessage {
        header: example_header(),
        submessages: vec![
            RtpsSubmessage::Data(big_endian),
            RtpsSubmessage::Heartbeat(heartbeat),
            RtpsSubmessage::Data(little_endian),
        ],
    };
    let bytes = encode_message(&value);
    let decoded = decode_message(&bytes).unwrap();
    assert_eq!(decoded, value);
}
