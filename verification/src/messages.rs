//! The wire-level message types: the fixed header, the submessages the
//! codec carries, and their mathematical views.

use vstd::prelude::*;

use crate::submessage_elements::{
    ParameterListSubmessageElement, SequenceNumberSet, SerializedDataSubmessageElement,
};
use crate::types::{Count, EntityId, GuidPrefix, ProtocolVersion, SequenceNumber, VendorId};

verus! {

pub const SUBMESSAGE_KIND_PAD: u8 = 0x01;
pub const SUBMESSAGE_KIND_ACKNACK: u8 = 0x06;
pub const SUBMESSAGE_KIND_HEARTBEAT: u8 = 0x07;
pub const SUBMESSAGE_KIND_GAP: u8 = 0x08;
pub const SUBMESSAGE_KIND_INFO_TS: u8 = 0x09;
pub const SUBMESSAGE_KIND_INFO_SRC: u8 = 0x0c;
pub const SUBMESSAGE_KIND_INFO_REPLY_IP4: u8 = 0x0d;
pub const SUBMESSAGE_KIND_INFO_DST: u8 = 0x0e;
pub const SUBMESSAGE_KIND_INFO_REPLY: u8 = 0x0f;
pub const SUBMESSAGE_KIND_NACK_FRAG: u8 = 0x12;
pub const SUBMESSAGE_KIND_HEARTBEAT_FRAG: u8 = 0x13;
pub const SUBMESSAGE_KIND_DATA: u8 = 0x15;
pub const SUBMESSAGE_KIND_DATA_FRAG: u8 = 0x16;

/// The fixed twenty-octet message header: magic, protocol version, vendor
/// and the sender's participant prefix.
#[derive(Clone, Copy, PartialEq, Debug)]
pub struct RtpsMessageHeader {
    pub protocol: [u8; 4],
    pub version: ProtocolVersion,
    pub vendor_id: VendorId,
    pub guid_prefix: GuidPrefix,
}

/// The primary carrier submessage: one cache change with its flags, inline
/// QoS parameters and serialized payload.
#[derive(Clone, PartialEq, Debug)]
pub struct DataSubmessage {
    pub endianness_flag: bool,
    pub inline_qos_flag: bool,
    pub data_flag: bool,
    pub key_flag: bool,
    pub non_standard_payload_flag: bool,
    pub reader_id: EntityId,
    pub writer_id: EntityId,
    pub writer_sn: SequenceNumber,
    pub inline_qos: ParameterListSubmessageElement,
    pub serialized_payload: SerializedDataSubmessageElement,
}

/// A filler submessage with an empty body.
#[derive(Clone, Copy, PartialEq, Debug)]
pub struct PadSubmessage {
    pub endianness_flag: bool,
}

/// A writer's declaration that some sequence numbers are irrelevant: the
/// range up to the set's base, plus the numbers in the set.
#[derive(Clone, PartialEq, Debug)]
pub struct GapSubmessage {
    pub endianness_flag: bool,
    pub reader_id: EntityId,
    pub writer_id: EntityId,
    pub gap_start: SequenceNumber,
    pub gap_list: SequenceNumberSet,
}

/// The submessages the codec carries.
#[derive(Clone, PartialEq, Debug)]
pub enum RtpsSubmessage {
    Data(DataSubmessage),
    Heartbeat(HeartbeatSubmessage),
    Pad(PadSubmessage),
}

/// A full message: the fixed header followed by any number of submessages.
#[derive(Clone, PartialEq, Debug)]
pub struct RtpsMessage {
    pub header: RtpsMessageHeader,
    pub submessages: Vec<RtpsSubmessage>,
}

/// Why an octet buffer was rejected.
#[derive(Clone, Copy, PartialEq, Eq, Structural, Debug)]
pub enum WireError {
    Truncated,
    Malformed,
}

/// The mathematical view of a data submessage: the parameters and the
/// payload as plain sequences.
pub struct DataView {
    pub endianness_flag: bool,
    pub inline_qos_flag: bool,
    pub data_flag: bool,
    pub key_flag: bool,
    pub non_standard_payload_flag: bool,
    pub reader_id: EntityId,
    pub writer_id: EntityId,
    pub writer_sn: int,
    pub inline_qos: Seq<(u16, Seq<u8>)>,
    pub payload: Seq<u8>,
}

/// The mathematical view of one submessage.
pub enum SubmessageView {
    Data(DataView),
    Heartbeat(HeartbeatSubmessage),
    Pad(bool),
}

/// The mathematical view of a whole message.
pub struct MessageView {
    pub header: RtpsMessageHeader,
    pub submessages: Seq<SubmessageView>,
}

impl DataSubmessage {
    /// This submessage as its view.
    pub open spec fn view_of(self) -> DataView {
        DataView {
            endianness_flag: self.endianness_flag,
            inline_qos_flag: self.inline_qos_flag,
            data_flag: self.data_flag,
            key_flag: self.key_flag,
            non_standard_payload_flag: self.non_standard_payload_flag,
            reader_id: self.reader_id,
            writer_id: self.writer_id,
            writer_sn: self.writer_sn as int,
            inline_qos: self.inline_qos.parameter@.map_values(
                |p: crate::submessage_elements::Parameter| (p.parameter_id, p.value@),
            ),
            payload: self.serialized_payload.value@,
        }
    }
}

impl RtpsSubmessage {
    /// This submessage as its view.
    pub open spec fn view_of(self) -> SubmessageView {
        match self {
            RtpsSubmessage::Data(d) => SubmessageView::Data(d.view_of()),
            RtpsSubmessage::Heartbeat(h) => SubmessageView::Heartbeat(h),
            RtpsSubmessage::Pad(p) => SubmessageView::Pad(p.endianness_flag),
        }
    }
}

impl RtpsMessage {
    /// This message as its view.
    pub open spec fn view_of(self) -> MessageView {
        MessageView {
            header: self.header,
            submessages: self.submessages@.map_values(|s: RtpsSubmessage| s.view_of()),
        }
    }
}

/// A writer's announcement of its available sequence-number range, with a
/// count to drop duplicates by.
#[derive(Clone, Copy, PartialEq, Debug)]
pub struct HeartbeatSubmessage {
    pub endianness_flag: bool,
    pub final_flag: bool,
    pub liveliness_flag: bool,
    pub reader_id: EntityId,
    pub writer_id: EntityId,
    pub first_sn: SequenceNumber,
    pub last_sn: SequenceNumber,
    pub count: Count,
}

/// A reader's acknowledgment: everything under the set's base has arrived,
/// and the numbers in the set are asked for again.
#[derive(Clone, PartialEq, Debug)]
pub struct AckNackSubmessage {
    pub endianness_flag: bool,
    pub final_flag: bool,
    pub reader_id: EntityId,
    pub writer_id: EntityId,
    pub reader_sn_state: SequenceNumberSet,
    pub count: Count,
}

/// The submessages the stateful endpoint behaviours exchange.
#[derive(Clone, PartialEq, Debug)]
pub enum RtpsEndpointSubmessage {
    Data(DataSubmessage),
    Gap(GapSubmessage),
    Heartbeat(HeartbeatSubmessage),
    AckNack(AckNackSubmessage),
}

/// A message as the endpoint behaviours see it: the sender's participant
/// prefix and the submessages.
#[derive(Clone, PartialEq, Debug)]
pub struct RtpsEndpointMessage {
    pub guid_prefix: GuidPrefix,
    pub submessages: Vec<RtpsEndpointSubmessage>,
}

impl RtpsEndpointMessage {
    pub fn new(guid_prefix: GuidPrefix, submessages: Vec<RtpsEndpointSubmessage>) -> (r: Self)
        ensures
            r.guid_prefix == guid_prefix,
            r.submessages@ == submessages@,
    {
        RtpsEndpointMessage { guid_prefix, submessages }
    }
}

} // verus!
