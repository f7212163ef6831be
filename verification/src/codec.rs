//! The wire codec: bit-exact serialization of messages to octet buffers and
//! the parse back, endian-parametric where the protocol is, with the decode
//! of an encode proved to give the message back.

use vstd::prelude::*;

use crate::messages::{
    DataSubmessage, DataView, HeartbeatSubmessage, MessageView, PadSubmessage, RtpsMessage,
    RtpsMessageHeader, RtpsSubmessage, SubmessageView, WireError, SUBMESSAGE_KIND_DATA,
    SUBMESSAGE_KIND_HEARTBEAT, SUBMESSAGE_KIND_PAD,
};
use crate::submessage_elements::{
    Parameter, ParameterListSubmessageElement, SerializedDataSubmessageElement,
};
use crate::types::{
    entity_kind_octet_known, spec_entity_kind_octet, spec_entity_kind_of_octet, Count, EntityId,
    EntityKind, GuidPrefix, ProtocolVersion, SequenceNumber, VendorId,
};

verus! {

/// A sixteen-bit value as two octets in the chosen endianness.
pub open spec fn spec_u16_bytes(v: u16, le: bool) -> Seq<u8> {
    if le {
        seq![(v % 256) as u8, (v / 256) as u8]
    } else {
        seq![(v / 256) as u8, (v % 256) as u8]
    }
}

/// A thirty-two-bit value as four octets in the chosen endianness.
pub open spec fn spec_u32_bytes(v: u32, le: bool) -> Seq<u8> {
    if le {
        spec_u16_bytes((v % 0x10000) as u16, le) + spec_u16_bytes((v / 0x10000) as u16, le)
    } else {
        spec_u16_bytes((v / 0x10000) as u16, le) + spec_u16_bytes((v % 0x10000) as u16, le)
    }
}

/// A non-negative sequence number as eight octets: the high word first, each
/// word in the chosen endianness.
pub open spec fn spec_sn_bytes(sn: int, le: bool) -> Seq<u8> {
    spec_u32_bytes((sn / 0x100000000) as u32, le) + spec_u32_bytes((sn % 0x100000000) as u32, le)
}

/// An entity identifier as its three key octets and the kind octet.
pub open spec fn spec_entity_id_bytes(e: EntityId) -> Seq<u8> {
    seq![
        e.entity_key[0],
        e.entity_key[1],
        e.entity_key[2],
        spec_entity_kind_octet(e.entity_kind),
    ]
}

/// The fixed twenty-octet header encoding.
pub open spec fn spec_header_bytes(h: RtpsMessageHeader) -> Seq<u8> {
    h.protocol@ + seq![h.version.major, h.version.minor] + h.vendor_id.0@ + h.guid_prefix.0@
}

/// The sixteen-bit value read from two octets in the chosen endianness.
pub open spec fn spec_u16_at(b: Seq<u8>, pos: int, le: bool) -> u16 {
    if le {
        (b[pos] + b[pos + 1] * 256) as u16
    } else {
        (b[pos + 1] + b[pos] * 256) as u16
    }
}

/// The thirty-two-bit value read from four octets in the chosen endianness.
pub open spec fn spec_u32_at(b: Seq<u8>, pos: int, le: bool) -> u32 {
    if le {
        (spec_u16_at(b, pos, le) + spec_u16_at(b, pos + 2, le) * 0x10000) as u32
    } else {
        (spec_u16_at(b, pos + 2, le) + spec_u16_at(b, pos, le) * 0x10000) as u32
    }
}

/// The sequence number read from eight octets, high word first.
pub open spec fn spec_sn_at(b: Seq<u8>, pos: int, le: bool) -> int {
    spec_u32_at(b, pos, le) * 0x100000000 + spec_u32_at(b, pos + 4, le)
}

/// Reading two encoded octets gives the value back.
pub proof fn lemma_u16_round(b: Seq<u8>, pos: int, v: u16, le: bool)
    requires
        0 <= pos,
        pos + 2 <= b.len(),
        b.subrange(pos, pos + 2) == spec_u16_bytes(v, le),
    ensures
        spec_u16_at(b, pos, le) == v,
{
    assert(b[pos] == b.subrange(pos, pos + 2)[0]);
    assert(b[pos + 1] == b.subrange(pos, pos + 2)[1]);
}

/// Reading four encoded octets gives the value back.
pub proof fn lemma_u32_round(b: Seq<u8>, pos: int, v: u32, le: bool)
    requires
        0 <= pos,
        pos + 4 <= b.len(),
        b.subrange(pos, pos + 4) == spec_u32_bytes(v, le),
    ensures
        spec_u32_at(b, pos, le) == v,
{
    let lo = (v % 0x10000) as u16;
    let hi = (v / 0x10000) as u16;
    let w = spec_u32_bytes(v, le);
    assert(b[pos] == b.subrange(pos, pos + 4)[0]);
    assert(b[pos + 1] == b.subrange(pos, pos + 4)[1]);
    assert(b[pos + 2] == b.subrange(pos, pos + 4)[2]);
    assert(b[pos + 3] == b.subrange(pos, pos + 4)[3]);
    if le {
        assert(w[0] == spec_u16_bytes(lo, le)[0]);
        assert(w[1] == spec_u16_bytes(lo, le)[1]);
        assert(w[2] == spec_u16_bytes(hi, le)[0]);
        assert(w[3] == spec_u16_bytes(hi, le)[1]);
        assert(b.subrange(pos, pos + 2) =~= spec_u16_bytes(lo, le));
        assert(b.subrange(pos + 2, pos + 4) =~= spec_u16_bytes(hi, le));
        lemma_u16_round(b, pos, lo, le);
        lemma_u16_round(b, pos + 2, hi, le);
    } else {
        assert(w[0] == spec_u16_bytes(hi, le)[0]);
        assert(w[1] == spec_u16_bytes(hi, le)[1]);
        assert(w[2] == spec_u16_bytes(lo, le)[0]);
        assert(w[3] == spec_u16_bytes(lo, le)[1]);
        assert(b.subrange(pos, pos + 2) =~= spec_u16_bytes(hi, le));
        assert(b.subrange(pos + 2, pos + 4) =~= spec_u16_bytes(lo, le));
        lemma_u16_round(b, pos, hi, le);
        lemma_u16_round(b, pos + 2, lo, le);
    }
}

/// Reading eight encoded octets gives the sequence number back.
pub proof fn lemma_sn_round(b: Seq<u8>, pos: int, sn: int, le: bool)
    requires
        0 <= pos,
        pos + 8 <= b.len(),
        0 <= sn <= i64::MAX,
        b.subrange(pos, pos + 8) == spec_sn_bytes(sn, le),
    ensures
        spec_sn_at(b, pos, le) == sn,
        spec_u32_at(b, pos, le) == sn / 0x100000000,
{
    let hi = (sn / 0x100000000) as u32;
    let lo = (sn % 0x100000000) as u32;
    let w = spec_sn_bytes(sn, le);
    assert(b[pos] == b.subrange(pos, pos + 8)[0]);
    assert(b[pos + 1] == b.subrange(pos, pos + 8)[1]);
    assert(b[pos + 2] == b.subrange(pos, pos + 8)[2]);
    assert(b[pos + 3] == b.subrange(pos, pos + 8)[3]);
    assert(b[pos + 4] == b.subrange(pos, pos + 8)[4]);
    assert(b[pos + 5] == b.subrange(pos, pos + 8)[5]);
    assert(b[pos + 6] == b.subrange(pos, pos + 8)[6]);
    assert(b[pos + 7] == b.subrange(pos, pos + 8)[7]);
    assert(w[4] == spec_u32_bytes(lo, le)[0]);
    assert(w[5] == spec_u32_bytes(lo, le)[1]);
    assert(w[6] == spec_u32_bytes(lo, le)[2]);
    assert(w[7] == spec_u32_bytes(lo, le)[3]);
    assert(b.subrange(pos, pos + 4) =~= spec_u32_bytes(hi, le));
    assert(b.subrange(pos + 4, pos + 8) =~= spec_u32_bytes(lo, le));
    lemma_u32_round(b, pos, hi, le);
    lemma_u32_round(b, pos + 4, lo, le);
}

/// Appends a sixteen-bit value in the chosen endianness.
pub fn push_u16(out: &mut Vec<u8>, v: u16, le: bool)
    ensures
        final(out)@ == old(out)@ + spec_u16_bytes(v, le),
{
    let lo: u8 = (v % 256) as u8;
    let hi: u8 = (v / 256) as u8;
    if le {
        out.push(lo);
        out.push(hi);
    } else {
        out.push(hi);
        out.push(lo);
    }
    proof {
        assert(out@ =~= old(out)@ + spec_u16_bytes(v, le));
    }
}

/// Appends a thirty-two-bit value in the chosen endianness.
pub fn push_u32(out: &mut Vec<u8>, v: u32, le: bool)
    ensures
        final(out)@ == old(out)@ + spec_u32_bytes(v, le),
{
    let lo: u16 = (v % 0x10000) as u16;
    let hi: u16 = (v / 0x10000) as u16;
    if le {
        push_u16(out, lo, le);
        push_u16(out, hi, le);
    } else {
        push_u16(out, hi, le);
        push_u16(out, lo, le);
    }
    proof {
        assert(out@ =~= old(out)@ + spec_u32_bytes(v, le));
    }
}

/// Appends a non-negative sequence number, high word first.
pub fn push_sn(out: &mut Vec<u8>, sn: SequenceNumber, le: bool)
    requires
        sn >= 0,
    ensures
        final(out)@ == old(out)@ + spec_sn_bytes(sn as int, le),
{
    let hi: u32 = (sn / 0x100000000) as u32;
    let lo: u32 = (sn % 0x100000000) as u32;
    push_u32(out, hi, le);
    push_u32(out, lo, le);
    proof {
        assert(out@ =~= old(out)@ + spec_sn_bytes(sn as int, le));
    }
}

/// Appends an entity identifier.
pub fn push_entity_id(out: &mut Vec<u8>, e: &EntityId)
    ensures
        final(out)@ == old(out)@ + spec_entity_id_bytes(*e),
{
    let key = e.entity_key();
    out.push(key[0]);
    out.push(key[1]);
    out.push(key[2]);
    out.push(e.entity_kind().to_octet());
    proof {
        assert(out@ =~= old(out)@ + spec_entity_id_bytes(*e));
    }
}

/// The sixteen-bit value at a position of the buffer.
pub fn read_u16(buf: &Vec<u8>, pos: usize, le: bool) -> (r: u16)
    requires
        pos + 2 <= buf@.len(),
    ensures
        r == spec_u16_at(buf@, pos as int, le),
{
    let n = buf.len();
    let b0 = buf[pos] as u16;
    let b1 = buf[pos + 1] as u16;
    if le {
        b0 + b1 * 256
    } else {
        b1 + b0 * 256
    }
}

/// The thirty-two-bit value at a position of the buffer.
pub fn read_u32(buf: &Vec<u8>, pos: usize, le: bool) -> (r: u32)
    requires
        pos + 4 <= buf@.len(),
    ensures
        r == spec_u32_at(buf@, pos as int, le),
{
    let n = buf.len();
    let w0 = read_u16(buf, pos, le) as u32;
    let w1 = read_u16(buf, pos + 2, le) as u32;
    if le {
        w0 + w1 * 0x10000
    } else {
        w1 + w0 * 0x10000
    }
}

/// The sequence number at a position of the buffer, read as a wrapping
/// sixty-four-bit value, high word first.
pub fn read_sn(buf: &Vec<u8>, pos: usize, le: bool) -> (r: SequenceNumber)
    requires
        pos + 8 <= buf@.len(),
    ensures
        spec_u32_at(buf@, pos as int, le) < 0x80000000 ==> r == spec_sn_at(
            buf@,
            pos as int,
            le,
        ),
    {
    let n = buf.len();
    let hi = read_u32(buf, pos, le);
    let lo = read_u32(buf, pos + 4, le);
    let wide: u64 = (hi as u64) * 0x100000000 + (lo as u64);
    let r: i64 = #[verifier::truncate] (wide as i64);
    r
}

/// Encodes the fixed twenty-octet header.
pub fn encode_header(out: &mut Vec<u8>, h: &RtpsMessageHeader)
    ensures
        final(out)@ == old(out)@ + spec_header_bytes(*h),
{
    out.push(h.protocol[0]);
    out.push(h.protocol[1]);
    out.push(h.protocol[2]);
    out.push(h.protocol[3]);
    out.push(h.version.major);
    out.push(h.version.minor);
    out.push(h.vendor_id.0[0]);
    out.push(h.vendor_id.0[1]);
    let mut i: usize = 0;
    while i < 12
        invariant
            i <= 12,
            out@ == old(out)@ + h.protocol@ + seq![h.version.major, h.version.minor]
                + h.vendor_id.0@ + h.guid_prefix.0@.take(i as int),
        decreases 12 - i,
    {
        let ghost before = out@;
        out.push(h.guid_prefix.0[i]);
        proof {
            assert(h.guid_prefix.0@.take(i + 1) =~= h.guid_prefix.0@.take(i as int).push(
                h.guid_prefix.0@[i as int],
            ));
            assert(out@ =~= old(out)@ + h.protocol@ + seq![h.version.major, h.version.minor]
                + h.vendor_id.0@ + h.guid_prefix.0@.take(i + 1));
        }
        i = i + 1;
    }
    proof {
        assert(h.guid_prefix.0@.take(12) =~= h.guid_prefix.0@);
        assert(out@ =~= old(out)@ + spec_header_bytes(*h));
    }
}

/// Parses the fixed header; twenty octets opening with the magic.
pub fn decode_header(buf: &Vec<u8>) -> (r: Result<RtpsMessageHeader, WireError>)
    ensures
        match r {
            Ok(h) => buf@.len() >= 20 && spec_header_bytes(h) == buf@.subrange(0, 20)
                && h.protocol@ == seq![82u8, 84u8, 80u8, 83u8],
            Err(_) => buf@.len() < 20 || !(buf@[0] == 82 && buf@[1] == 84 && buf@[2] == 80
                && buf@[3] == 83),
        },
{
    if buf.len() < 20 {
        return Err(WireError::Truncated);
    }
    if !(buf[0] == 82 && buf[1] == 84 && buf[2] == 80 && buf[3] == 83) {
        return Err(WireError::Malformed);
    }
    let protocol = protocol_magic();
    let version = ProtocolVersion::new(buf[4], buf[5]);
    let vendor_id = VendorId::new([buf[6], buf[7]]);
    let prefix_bytes: [u8; 12] = [
        buf[8],
        buf[9],
        buf[10],
        buf[11],
        buf[12],
        buf[13],
        buf[14],
        buf[15],
        buf[16],
        buf[17],
        buf[18],
        buf[19],
    ];
    let guid_prefix = GuidPrefix::new(prefix_bytes);
    let h = RtpsMessageHeader { protocol, version, vendor_id, guid_prefix };
    proof {
        assert(spec_header_bytes(h) =~= buf@.subrange(0, 20));
        assert(h.protocol@ =~= seq![82u8, 84u8, 80u8, 83u8]);
    }
    Ok(h)
}

/// The magic octets `RTPS`.
fn protocol_magic() -> (r: [u8; 4])
    ensures
        r@ == seq![82u8, 84u8, 80u8, 83u8],
        r[0] == 82 && r[1] == 84 && r[2] == 80 && r[3] == 83,
{
    let r = [82u8, 84u8, 80u8, 83u8];
    proof {
        assert(r@ =~= seq![82u8, 84u8, 80u8, 83u8]);
    }
    r
}

/// Law: a header survives the trip onto the wire and back.
pub proof fn lemma_header_round_trip(h: RtpsMessageHeader, b: Seq<u8>)
    requires
        b == spec_header_bytes(h),
    ensures
        b.len() == 20,
        spec_header_at(b) == h,
{
    assert(spec_header_at(b).protocol =~= h.protocol);
    assert(spec_header_at(b).vendor_id.0 =~= h.vendor_id.0);
    assert(spec_header_at(b).guid_prefix.0 =~= h.guid_prefix.0);
}

/// The header read back from the first twenty octets.
pub open spec fn spec_header_at(b: Seq<u8>) -> RtpsMessageHeader {
    RtpsMessageHeader {
        protocol: [b[0], b[1], b[2], b[3]],
        version: ProtocolVersion { major: b[4], minor: b[5] },
        vendor_id: VendorId([b[6], b[7]]),
        guid_prefix: GuidPrefix(
            [
                b[8],
                b[9],
                b[10],
                b[11],
                b[12],
                b[13],
                b[14],
                b[15],
                b[16],
                b[17],
                b[18],
                b[19],
            ],
        ),
    }
}

/// The closing parameter: identifier one, length zero.
pub open spec fn spec_sentinel_bytes(le: bool) -> Seq<u8> {
    spec_u16_bytes(1, le) + spec_u16_bytes(0, le)
}

/// One parameter as identifier, length and value octets.
pub open spec fn spec_param_bytes(p: Parameter, le: bool) -> Seq<u8> {
    spec_u16_bytes(p.parameter_id, le) + spec_u16_bytes(p.length as u16, le) + p.value@
}

/// A parameter is carried exactly where its length field matches its padded
/// value and its identifier is not the sentinel's.
pub open spec fn param_wf(p: Parameter) -> bool {
    &&& p.parameter_id != 1
    &&& 0 <= p.length
    &&& p.length as int == p.value@.len()
    &&& p.value@.len() % 4 == 0
}

/// A parameter list as its entries followed by the sentinel.
pub open spec fn spec_params_partial(ps: Seq<Parameter>, le: bool) -> Seq<u8>
    decreases ps.len(),
{
    if ps.len() == 0 {
        Seq::empty()
    } else {
        spec_param_bytes(ps[0], le) + spec_params_partial(ps.skip(1), le)
    }
}

/// A full parameter list: the entries and the sentinel.
pub open spec fn spec_params_bytes(ps: Seq<Parameter>, le: bool) -> Seq<u8> {
    spec_params_partial(ps, le) + spec_sentinel_bytes(le)
}

/// The entries of a list grow one at a time from the back.
pub proof fn lemma_params_partial_snoc(ps: Seq<Parameter>, le: bool)
    requires
        ps.len() > 0,
    ensures
        spec_params_partial(ps, le) == spec_params_partial(ps.drop_last(), le)
            + spec_param_bytes(ps.last(), le),
    decreases ps.len(),
{
    if ps.len() == 1 {
        assert(ps.skip(1) =~= Seq::<Parameter>::empty());
        assert(ps.drop_last() =~= Seq::<Parameter>::empty());
        assert(spec_params_partial(ps, le) =~= spec_params_partial(ps.drop_last(), le)
            + spec_param_bytes(ps.last(), le));
    } else {
        lemma_params_partial_snoc(ps.skip(1), le);
        assert(ps.skip(1).drop_last() =~= ps.drop_last().skip(1));
        assert(ps.skip(1).last() == ps.last());
        assert(ps.drop_last()[0] == ps[0]);
        assert(spec_params_partial(ps, le) =~= spec_params_partial(ps.drop_last(), le)
            + spec_param_bytes(ps.last(), le));
    }
}

/// The flags octet of a data submessage.
pub open spec fn spec_data_flags(d: DataSubmessage) -> u8 {
    ((if d.endianness_flag {
        1int
    } else {
        0int
    }) + (if d.inline_qos_flag {
        2int
    } else {
        0int
    }) + (if d.data_flag {
        4int
    } else {
        0int
    }) + (if d.key_flag {
        8int
    } else {
        0int
    }) + (if d.non_standard_payload_flag {
        16int
    } else {
        0int
    })) as u8
}

/// The body of a data submessage: the part after its four-octet header.
pub open spec fn spec_data_body(d: DataSubmessage) -> Seq<u8> {
    seq![0u8, 0u8] + spec_u16_bytes(16, d.endianness_flag) + spec_entity_id_bytes(d.reader_id)
        + spec_entity_id_bytes(d.writer_id) + spec_sn_bytes(d.writer_sn as int, d.endianness_flag)
        + (if d.inline_qos_flag {
        spec_params_bytes(d.inline_qos.parameter@, d.endianness_flag)
    } else {
        Seq::<u8>::empty()
    }) + (if d.data_flag || d.key_flag {
        d.serialized_payload.value@
    } else {
        Seq::<u8>::empty()
    })
}

/// A data submessage that can be carried: a non-negative sequence number,
/// parameters only under their flag, a payload only under its flags, and a
/// body that fits the length field.
pub open spec fn data_wf(d: DataSubmessage) -> bool {
    &&& 0 <= d.writer_sn
    &&& forall|i: int|
        0 <= i < d.inline_qos.parameter@.len() ==> param_wf(#[trigger] d.inline_qos.parameter@[i])
    &&& !d.inline_qos_flag ==> d.inline_qos.parameter@.len() == 0
    &&& !(d.data_flag || d.key_flag) ==> d.serialized_payload.value@.len() == 0
    &&& spec_data_body(d).len() <= 0xFFFF
}

/// A whole data submessage: kind octet, flags, body length, body.
pub open spec fn spec_data_bytes(d: DataSubmessage) -> Seq<u8> {
    seq![SUBMESSAGE_KIND_DATA, spec_data_flags(d)] + spec_u16_bytes(
        spec_data_body(d).len() as u16,
        d.endianness_flag,
    ) + spec_data_body(d)
}

/// A pad submessage: kind octet, flags, length zero, no body.
pub open spec fn spec_pad_bytes(p: PadSubmessage) -> Seq<u8> {
    seq![
        SUBMESSAGE_KIND_PAD,
        if p.endianness_flag {
            1u8
        } else {
            0u8
        },
    ] + spec_u16_bytes(0, p.endianness_flag)
}

/// The flags octet of a heartbeat submessage.
pub open spec fn spec_heartbeat_flags(h: HeartbeatSubmessage) -> u8 {
    ((if h.endianness_flag {
        1int
    } else {
        0int
    }) + (if h.final_flag {
        2int
    } else {
        0int
    }) + (if h.liveliness_flag {
        4int
    } else {
        0int
    })) as u8
}

/// The body of a heartbeat: the two entity ids, the first and last
/// sequence numbers, and the count.
pub open spec fn spec_heartbeat_body(h: HeartbeatSubmessage) -> Seq<u8> {
    spec_entity_id_bytes(h.reader_id) + spec_entity_id_bytes(h.writer_id) + spec_sn_bytes(
        h.first_sn as int,
        h.endianness_flag,
    ) + spec_sn_bytes(h.last_sn as int, h.endianness_flag) + spec_u32_bytes(
        h.count.0 as u32,
        h.endianness_flag,
    )
}

/// A heartbeat that can be carried: both sequence numbers non-negative.
pub open spec fn heartbeat_wf(h: HeartbeatSubmessage) -> bool {
    0 <= h.first_sn && 0 <= h.last_sn
}

/// A whole heartbeat submessage: kind octet, flags, body length, body.
pub open spec fn spec_heartbeat_bytes(h: HeartbeatSubmessage) -> Seq<u8> {
    seq![SUBMESSAGE_KIND_HEARTBEAT, spec_heartbeat_flags(h)] + spec_u16_bytes(
        28,
        h.endianness_flag,
    ) + spec_heartbeat_body(h)
}

/// One submessage on the wire.
pub open spec fn spec_submessage_bytes(s: RtpsSubmessage) -> Seq<u8> {
    match s {
        RtpsSubmessage::Data(d) => spec_data_bytes(d),
        RtpsSubmessage::Heartbeat(h) => spec_heartbeat_bytes(h),
        RtpsSubmessage::Pad(p) => spec_pad_bytes(p),
    }
}

/// Whether one submessage can be carried.
pub open spec fn submessage_wf(s: RtpsSubmessage) -> bool {
    match s {
        RtpsSubmessage::Data(d) => data_wf(d),
        RtpsSubmessage::Heartbeat(h) => heartbeat_wf(h),
        RtpsSubmessage::Pad(_) => true,
    }
}

/// A run of submessages on the wire.
pub open spec fn spec_submessages_bytes(ss: Seq<RtpsSubmessage>) -> Seq<u8>
    decreases ss.len(),
{
    if ss.len() == 0 {
        Seq::empty()
    } else {
        spec_submessage_bytes(ss[0]) + spec_submessages_bytes(ss.skip(1))
    }
}

/// A run of submessages grows one at a time from the back.
pub proof fn lemma_submessages_snoc(ss: Seq<RtpsSubmessage>)
    requires
        ss.len() > 0,
    ensures
        spec_submessages_bytes(ss) == spec_submessages_bytes(ss.drop_last())
            + spec_submessage_bytes(ss.last()),
    decreases ss.len(),
{
    if ss.len() == 1 {
        assert(ss.skip(1) =~= Seq::<RtpsSubmessage>::empty());
        assert(ss.drop_last() =~= Seq::<RtpsSubmessage>::empty());
        assert(spec_submessages_bytes(ss) =~= spec_submessages_bytes(ss.drop_last())
            + spec_submessage_bytes(ss.last()));
    } else {
        lemma_submessages_snoc(ss.skip(1));
        assert(ss.skip(1).drop_last() =~= ss.drop_last().skip(1));
        assert(ss.skip(1).last() == ss.last());
        assert(ss.drop_last()[0] == ss[0]);
        assert(spec_submessages_bytes(ss) =~= spec_submessages_bytes(ss.drop_last())
            + spec_submessage_bytes(ss.last()));
    }
}

/// A whole message on the wire: the header and its submessages.
pub open spec fn spec_message_bytes(m: RtpsMessage) -> Seq<u8> {
    spec_header_bytes(m.header) + spec_submessages_bytes(m.submessages@)
}

/// Whether a message can be carried: the magic opens it and every
/// submessage is carriable.
pub open spec fn message_wf(m: RtpsMessage) -> bool {
    &&& m.header.protocol@ == seq![82u8, 84u8, 80u8, 83u8]
    &&& forall|i: int|
        0 <= i < m.submessages@.len() ==> submessage_wf(#[trigger] m.submessages@[i])
}

/// Appends a copy of the source octets.
pub fn push_bytes(out: &mut Vec<u8>, src: &Vec<u8>)
    ensures
        final(out)@ == old(out)@ + src@,
{
    for i in 0..src.len()
        invariant
            out@ == old(out)@ + src@.take(i as int),
    {
        proof {
            assert(src@.take(i + 1) =~= src@.take(i as int).push(src@[i as int]));
            assert(out@.push(src@[i as int]) =~= old(out)@ + src@.take(i + 1));
        }
        let value = src[i];
        out.push(value);
    }
    proof {
        assert(src@.take(src@.len() as int) =~= src@);
    }
}

/// Encodes a parameter list with its closing sentinel.
pub fn encode_parameter_list(out: &mut Vec<u8>, ps: &Vec<Parameter>, le: bool)
    requires
        forall|i: int| 0 <= i < ps@.len() ==> param_wf(#[trigger] ps@[i]),
    ensures
        final(out)@ == old(out)@ + spec_params_bytes(ps@, le),
{
    for i in 0..ps.len()
        invariant
            forall|k: int| 0 <= k < ps@.len() ==> param_wf(#[trigger] ps@[k]),
            out@ == old(out)@ + spec_params_partial(ps@.take(i as int), le),
    {
        let ghost before = out@;
        let p = &ps[i];
        push_u16(out, p.parameter_id, le);
        push_u16(out, p.length as u16, le);
        push_bytes(out, &p.value);
        proof {
            assert(out@ =~= before + spec_param_bytes(ps@[i as int], le));
            lemma_params_partial_snoc(ps@.take(i + 1), le);
            assert(ps@.take(i + 1).drop_last() =~= ps@.take(i as int));
            assert(ps@.take(i + 1).last() == ps@[i as int]);
            assert(out@ =~= old(out)@ + spec_params_partial(ps@.take(i + 1), le));
        }
    }
    let ghost with_entries = out@;
    push_u16(out, 1, le);
    push_u16(out, 0, le);
    proof {
        assert(ps@.take(ps@.len() as int) =~= ps@);
        assert(out@ =~= old(out)@ + spec_params_bytes(ps@, le));
    }
}

/// Encodes one data submessage: kind, flags, length, body.
pub fn encode_data(out: &mut Vec<u8>, d: &DataSubmessage)
    requires
        data_wf(*d),
    ensures
        final(out)@ == old(out)@ + spec_data_bytes(*d),
{
    let le = d.endianness_flag;
    let mut body: Vec<u8> = Vec::new();
    body.push(0);
    body.push(0);
    proof {
        assert(body@ =~= seq![0u8, 0u8]);
    }
    push_u16(&mut body, 16, le);
    push_entity_id(&mut body, &d.reader_id);
    push_entity_id(&mut body, &d.writer_id);
    push_sn(&mut body, d.writer_sn, le);
    if d.inline_qos_flag {
        encode_parameter_list(&mut body, &d.inline_qos.parameter, le);
    }
    if d.data_flag || d.key_flag {
        push_bytes(&mut body, &d.serialized_payload.value);
    }
    proof {
        assert(body@ =~= spec_data_body(*d));
    }
    let mut flags: u8 = 0;
    if d.endianness_flag {
        flags = flags + 1;
    }
    if d.inline_qos_flag {
        flags = flags + 2;
    }
    if d.data_flag {
        flags = flags + 4;
    }
    if d.key_flag {
        flags = flags + 8;
    }
    if d.non_standard_payload_flag {
        flags = flags + 16;
    }
    let ghost base = out@;
    out.push(SUBMESSAGE_KIND_DATA);
    out.push(flags);
    push_u16(out, body.len() as u16, le);
    push_bytes(out, &body);
    proof {
        assert(flags == spec_data_flags(*d));
        assert(out@ =~= base + spec_data_bytes(*d));
    }
}

/// Encodes one pad submessage.
pub fn encode_pad(out: &mut Vec<u8>, p: &PadSubmessage)
    ensures
        final(out)@ == old(out)@ + spec_pad_bytes(*p),
{
    let ghost base = out@;
    out.push(SUBMESSAGE_KIND_PAD);
    if p.endianness_flag {
        out.push(1);
    } else {
        out.push(0);
    }
    push_u16(out, 0, p.endianness_flag);
    proof {
        assert(out@ =~= base + spec_pad_bytes(*p));
    }
}

/// Encodes one heartbeat submessage.
#[verifier::rlimit(100)]
#[verifier::spinoff_prover]
pub fn encode_heartbeat(out: &mut Vec<u8>, h: &HeartbeatSubmessage)
    requires
        heartbeat_wf(*h),
    ensures
        final(out)@ == old(out)@ + spec_heartbeat_bytes(*h),
{
    let le = h.endianness_flag;
    let mut flags: u8 = 0;
    if h.endianness_flag {
        flags = flags + 1;
    }
    if h.final_flag {
        flags = flags + 2;
    }
    if h.liveliness_flag {
        flags = flags + 4;
    }
    let ghost base = out@;
    out.push(SUBMESSAGE_KIND_HEARTBEAT);
    out.push(flags);
    push_u16(out, 28, le);
    push_entity_id(out, &h.reader_id);
    push_entity_id(out, &h.writer_id);
    push_sn(out, h.first_sn, le);
    push_sn(out, h.last_sn, le);
    let count_bits: u32 = #[verifier::truncate] (h.count.0 as u32);
    push_u32(out, count_bits, le);
    proof {
        assert(flags == spec_heartbeat_flags(*h));
        assert(out@ =~= base + spec_heartbeat_bytes(*h));
    }
}

/// Encodes a whole message: the header, then each submessage in order.
pub fn encode_message(msg: &RtpsMessage) -> (r: Vec<u8>)
    requires
        message_wf(*msg),
    ensures
        r@ == spec_message_bytes(*msg),
{
    let mut out: Vec<u8> = Vec::new();
    encode_header(&mut out, &msg.header);
    proof {
        assert(out@ =~= spec_header_bytes(msg.header));
    }
    for i in 0..msg.submessages.len()
        invariant
            message_wf(*msg),
            out@ == spec_header_bytes(msg.header) + spec_submessages_bytes(
                msg.submessages@.take(i as int),
            ),
    {
        let ghost before = out@;
        match &msg.submessages[i] {
            RtpsSubmessage::Data(d) => {
                proof {
                    assert(submessage_wf(msg.submessages@[i as int]));
                }
                encode_data(&mut out, d);
            },
            RtpsSubmessage::Heartbeat(h) => {
                proof {
                    assert(submessage_wf(msg.submessages@[i as int]));
                }
                encode_heartbeat(&mut out, h);
            },
            RtpsSubmessage::Pad(p) => {
                encode_pad(&mut out, p);
            },
        }
        proof {
            assert(out@ =~= before + spec_submessage_bytes(msg.submessages@[i as int]));
            lemma_submessages_snoc(msg.submessages@.take(i + 1));
            assert(msg.submessages@.take(i + 1).drop_last() =~= msg.submessages@.take(i as int));
            assert(msg.submessages@.take(i + 1).last() == msg.submessages@[i as int]);
            assert(out@ =~= spec_header_bytes(msg.header) + spec_submessages_bytes(
                msg.submessages@.take(i + 1),
            ));
        }
    }
    proof {
        assert(msg.submessages@.take(msg.submessages@.len() as int) =~= msg.submessages@);
    }
    out
}

/// Law: an encoding is never shorter than the twenty-octet header plus four
/// octets for each submessage header plus every submessage's own elements.
pub proof fn lemma_codec_monotone_growth(m: RtpsMessage)
    requires
        message_wf(m),
    ensures
        spec_message_bytes(m).len() == 20 + spec_submessages_bytes(m.submessages@).len(),
        spec_submessages_bytes(m.submessages@).len() >= 4 * m.submessages@.len(),
        forall|i: int|
            0 <= i < m.submessages@.len() ==> spec_submessage_bytes(
                #[trigger] m.submessages@[i],
            ).len() >= 4 + spec_submessage_elements_len(m.submessages@[i]),
{
    assert(spec_header_bytes(m.header).len() == 20);
    lemma_submessages_len(m.submessages@);
    assert forall|i: int|
        0 <= i < m.submessages@.len() implies spec_submessage_bytes(
        #[trigger] m.submessages@[i],
    ).len() >= 4 + spec_submessage_elements_len(m.submessages@[i]) by {
        match m.submessages@[i] {
            RtpsSubmessage::Data(d) => {
                assert(spec_data_bytes(d).len() == 4 + spec_data_body(d).len());
                assert(spec_data_body(d).len() >= 20 + (if d.data_flag || d.key_flag {
                    d.serialized_payload.value@.len() as int
                } else {
                    0int
                }));
            },
            RtpsSubmessage::Heartbeat(h) => {
                assert(spec_heartbeat_bytes(h).len() == 32);
            },
            RtpsSubmessage::Pad(p) => {
                assert(spec_pad_bytes(p).len() == 4);
            },
        }
    }
}

/// The octets of a submessage's own elements: the fixed fields and, for
/// data, the payload it carries.
pub open spec fn spec_submessage_elements_len(s: RtpsSubmessage) -> int {
    match s {
        RtpsSubmessage::Data(d) => 20 + (if d.data_flag || d.key_flag {
            d.serialized_payload.value@.len() as int
        } else {
            0int
        }),
        RtpsSubmessage::Heartbeat(_) => 28,
        RtpsSubmessage::Pad(_) => 0,
    }
}

/// Every submessage costs at least its four-octet header.
proof fn lemma_submessages_len(ss: Seq<RtpsSubmessage>)
    ensures
        spec_submessages_bytes(ss).len() >= 4 * ss.len(),
    decreases ss.len(),
{
    if ss.len() > 0 {
        lemma_submessages_len(ss.skip(1));
        match ss[0] {
            RtpsSubmessage::Data(d) => {
                assert(spec_data_bytes(d).len() >= 4);
            },
            RtpsSubmessage::Heartbeat(h) => {
                assert(spec_heartbeat_bytes(h).len() == 32);
            },
            RtpsSubmessage::Pad(p) => {
                assert(spec_pad_bytes(p).len() == 4);
            },
        }
    }
}

/// The parameters read from a buffer up to the sentinel: their identifiers
/// and value octets, with the position after the sentinel.
pub open spec fn spec_params_at(b: Seq<u8>, pos: int, limit: int, le: bool) -> Option<
    (Seq<(u16, Seq<u8>)>, int),
>
    decreases limit - pos,
{
    if pos + 4 > limit {
        None
    } else {
        let pid = spec_u16_at(b, pos, le);
        let plen = spec_u16_at(b, pos + 2, le) as int;
        if pid == 1 {
            Some((Seq::empty(), pos + 4))
        } else if pos + 4 + plen > limit {
            None
        } else {
            match spec_params_at(b, pos + 4 + plen, limit, le) {
                Some((rest, end)) => Some(
                    (seq![(pid, b.subrange(pos + 4, pos + 4 + plen))] + rest, end),
                ),
                None => None,
            }
        }
    }
}

/// The data submessage read at a position, and the position after it; the
/// caller has already checked that the submessage lies within the buffer.
#[verifier::opaque]
pub open spec fn spec_data_at(b: Seq<u8>, pos: int) -> Option<(DataView, int)> {
    let flags = b[pos + 1];
    let e = flags % 2 == 1;
    let iq = (flags / 2) % 2 == 1;
    let df = (flags / 4) % 2 == 1;
    let kf = (flags / 8) % 2 == 1;
    let np = (flags / 16) % 2 == 1;
    let len = spec_u16_at(b, pos + 2, e) as int;
    let limit = pos + 4 + len;
    if len < 20 {
        None
    } else if spec_u16_at(b, pos + 6, e) != 16 {
        None
    } else if !entity_kind_octet_known(b[pos + 11]) || !entity_kind_octet_known(b[pos + 15]) {
        None
    } else if spec_u32_at(b, pos + 16, e) >= 0x80000000 {
        None
    } else {
        let reader_id = EntityId {
            entity_key: [b[pos + 8], b[pos + 9], b[pos + 10]],
            entity_kind: spec_entity_kind_of_octet(b[pos + 11]),
        };
        let writer_id = EntityId {
            entity_key: [b[pos + 12], b[pos + 13], b[pos + 14]],
            entity_kind: spec_entity_kind_of_octet(b[pos + 15]),
        };
        let sn = spec_sn_at(b, pos + 16, e);
        let qos = if iq {
            spec_params_at(b, pos + 24, limit, e)
        } else {
            Some((Seq::<(u16, Seq<u8>)>::empty(), pos + 24))
        };
        match qos {
            None => None,
            Some((ps, qend)) => {
                let payload = if df || kf {
                    b.subrange(qend, limit)
                } else {
                    Seq::<u8>::empty()
                };
                Some(
                    (
                        DataView {
                            endianness_flag: e,
                            inline_qos_flag: iq,
                            data_flag: df,
                            key_flag: kf,
                            non_standard_payload_flag: np,
                            reader_id,
                            writer_id,
                            writer_sn: sn,
                            inline_qos: ps,
                            payload,
                        },
                        limit,
                    ),
                )
            },
        }
    }
}

/// The heartbeat submessage read at a position, and the position after it;
/// the caller has already checked that the submessage lies within the
/// buffer.
#[verifier::opaque]
pub open spec fn spec_heartbeat_at(b: Seq<u8>, pos: int) -> Option<(HeartbeatSubmessage, int)> {
    let flags = b[pos + 1];
    let e = flags % 2 == 1;
    let fin = (flags / 2) % 2 == 1;
    let liv = (flags / 4) % 2 == 1;
    let len = spec_u16_at(b, pos + 2, e) as int;
    let limit = pos + 4 + len;
    if len < 28 {
        None
    } else if !entity_kind_octet_known(b[pos + 7]) || !entity_kind_octet_known(b[pos + 11]) {
        None
    } else if spec_u32_at(b, pos + 12, e) >= 0x80000000 {
        None
    } else if spec_u32_at(b, pos + 20, e) >= 0x80000000 {
        None
    } else {
        Some(
            (
                HeartbeatSubmessage {
                    endianness_flag: e,
                    final_flag: fin,
                    liveliness_flag: liv,
                    reader_id: EntityId {
                        entity_key: [b[pos + 4], b[pos + 5], b[pos + 6]],
                        entity_kind: spec_entity_kind_of_octet(b[pos + 7]),
                    },
                    writer_id: EntityId {
                        entity_key: [b[pos + 8], b[pos + 9], b[pos + 10]],
                        entity_kind: spec_entity_kind_of_octet(b[pos + 11]),
                    },
                    first_sn: spec_sn_at(b, pos + 12, e) as i64,
                    last_sn: spec_sn_at(b, pos + 20, e) as i64,
                    count: Count(spec_u32_at(b, pos + 28, e) as i32),
                },
                limit,
            ),
        )
    }
}

/// The submessages read from a position to the end of the buffer. A run of
/// fewer than four octets, or a submessage that would pass the end, closes
/// the message; a submessage whose own content cannot be read rejects it.
pub open spec fn spec_decode_subs(b: Seq<u8>, pos: int) -> Option<Seq<SubmessageView>>
    decreases b.len() - pos,
{
    if pos + 4 > b.len() {
        Some(Seq::empty())
    } else {
        let id = b[pos];
        let flags = b[pos + 1];
        let e = flags % 2 == 1;
        let len = spec_u16_at(b, pos + 2, e) as int;
        let next = pos + 4 + len;
        if next > b.len() {
            Some(Seq::empty())
        } else if id == SUBMESSAGE_KIND_DATA {
            match spec_data_at(b, pos) {
                None => None,
                Some((dv, _)) => match spec_decode_subs(b, next) {
                    None => None,
                    Some(rest) => Some(seq![SubmessageView::Data(dv)] + rest),
                },
            }
        } else if id == SUBMESSAGE_KIND_HEARTBEAT {
            match spec_heartbeat_at(b, pos) {
                None => None,
                Some((hv, _)) => match spec_decode_subs(b, next) {
                    None => None,
                    Some(rest) => Some(seq![SubmessageView::Heartbeat(hv)] + rest),
                },
            }
        } else if id == SUBMESSAGE_KIND_PAD {
            match spec_decode_subs(b, next) {
                None => None,
                Some(rest) => Some(seq![SubmessageView::Pad(e)] + rest),
            }
        } else {
            if len == 0 {
                Some(Seq::empty())
            } else {
                spec_decode_subs(b, next)
            }
        }
    }
}

/// The whole message read from a buffer: the header, then the submessages.
pub open spec fn spec_decode_message(b: Seq<u8>) -> Option<MessageView> {
    if b.len() < 20 {
        None
    } else if !(b[0] == 82 && b[1] == 84 && b[2] == 80 && b[3] == 83) {
        None
    } else {
        match spec_decode_subs(b, 20) {
            None => None,
            Some(subs) => Some(MessageView { header: spec_header_at(b), submessages: subs }),
        }
    }
}


/// Splitting a known subrange at a concatenation boundary.
proof fn lemma_subrange_split(b: Seq<u8>, pos: int, head: Seq<u8>, tail: Seq<u8>)
    requires
        0 <= pos,
        pos + head.len() + tail.len() <= b.len(),
        b.subrange(pos, pos + head.len() + tail.len()) == head + tail,
    ensures
        b.subrange(pos, pos + head.len()) == head,
        b.subrange(pos + head.len(), pos + head.len() + tail.len()) == tail,
{
    let whole = b.subrange(pos, pos + head.len() + tail.len());
    assert forall|i: int|
        0 <= i < head.len() implies b.subrange(pos, pos + head.len())[i] == head[i] by {
        assert(b.subrange(pos, pos + head.len())[i] == b[pos + i]);
        assert(whole[i] == b[pos + i]);
        assert(whole[i] == (head + tail)[i]);
    }
    assert(b.subrange(pos, pos + head.len()) =~= head);
    let h = head.len() as int;
    assert forall|i: int|
        0 <= i < tail.len() implies b.subrange(pos + h, pos + h + tail.len())[i] == tail[i] by {
        assert(b.subrange(pos + h, pos + h + tail.len())[i] == b[pos + h + i]);
        assert(whole[h + i] == b[pos + (h + i)]);
        assert(whole[h + i] == (head + tail)[h + i]);
    }
    assert(b.subrange(pos + h, pos + h + tail.len()) =~= tail);
}

/// Reading an encoded parameter list gives the parameters back.
proof fn lemma_params_round(b: Seq<u8>, pos: int, limit: int, ps: Seq<Parameter>, le: bool)
    requires
        0 <= pos,
        forall|i: int| 0 <= i < ps.len() ==> param_wf(#[trigger] ps[i]),
        pos + spec_params_bytes(ps, le).len() <= limit,
        limit <= b.len(),
        b.subrange(pos, pos + spec_params_bytes(ps, le).len()) == spec_params_bytes(ps, le),
    ensures
        spec_params_at(b, pos, limit, le) == Some(
            (
                ps.map_values(|p: Parameter| (p.parameter_id, p.value@)),
                pos + spec_params_bytes(ps, le).len(),
            ),
        ),
    decreases ps.len(),
{
    let w = spec_params_bytes(ps, le);
    if ps.len() == 0 {
        assert(w =~= spec_u16_bytes(1, le) + spec_u16_bytes(0, le));
        lemma_subrange_split(b, pos, spec_u16_bytes(1, le), spec_u16_bytes(0, le));
        lemma_u16_round(b, pos, 1, le);
        assert(ps.map_values(|p: Parameter| (p.parameter_id, p.value@)) =~= Seq::<
            (u16, Seq<u8>),
        >::empty());
    } else {
        let p0 = ps[0];
        let head = spec_param_bytes(p0, le);
        let tail = spec_params_bytes(ps.skip(1), le);
        assert(spec_params_partial(ps, le) == spec_param_bytes(p0, le) + spec_params_partial(
            ps.skip(1),
            le,
        ));
        assert(w =~= head + tail);
        assert(param_wf(p0));
        let plen = p0.value@.len() as int;
        assert(head.len() == 4 + plen);
        lemma_subrange_split(b, pos, head, tail);
        assert(head =~= spec_u16_bytes(p0.parameter_id, le) + (spec_u16_bytes(
            p0.length as u16,
            le,
        ) + p0.value@));
        lemma_subrange_split(
            b,
            pos,
            spec_u16_bytes(p0.parameter_id, le),
            spec_u16_bytes(p0.length as u16, le) + p0.value@,
        );
        lemma_subrange_split(b, pos + 2, spec_u16_bytes(p0.length as u16, le), p0.value@);
        lemma_u16_round(b, pos, p0.parameter_id, le);
        lemma_u16_round(b, pos + 2, p0.length as u16, le);
        assert(spec_u16_at(b, pos, le) != 1);
        assert(spec_u16_at(b, pos + 2, le) as int == plen);
        assert(b.subrange(pos + 4, pos + 4 + plen) == p0.value@);
        lemma_params_round(b, pos + 4 + plen, limit, ps.skip(1), le);
        assert(seq![(p0.parameter_id, b.subrange(pos + 4, pos + 4 + plen))] + ps.skip(
            1,
        ).map_values(|p: Parameter| (p.parameter_id, p.value@)) =~= ps.map_values(
            |p: Parameter| (p.parameter_id, p.value@),
        ));
    }
}

/// The five flag bits read back from the flags octet.
proof fn lemma_data_flags_bits(d: DataSubmessage)
    ensures
        spec_data_flags(d) % 2 == 1 <==> d.endianness_flag,
        (spec_data_flags(d) / 2) % 2 == 1 <==> d.inline_qos_flag,
        (spec_data_flags(d) / 4) % 2 == 1 <==> d.data_flag,
        (spec_data_flags(d) / 8) % 2 == 1 <==> d.key_flag,
        (spec_data_flags(d) / 16) % 2 == 1 <==> d.non_standard_payload_flag,
{
}

/// The pieces of an encoded data submessage, each at its offset.
#[verifier::rlimit(100)]
#[verifier::spinoff_prover]
proof fn lemma_data_layout(b: Seq<u8>, pos: int, d: DataSubmessage)
    requires
        0 <= pos,
        data_wf(d),
        pos + spec_data_bytes(d).len() <= b.len(),
        b.subrange(pos, pos + spec_data_bytes(d).len()) == spec_data_bytes(d),
    ensures
        b[pos] == SUBMESSAGE_KIND_DATA,
        b[pos + 1] == spec_data_flags(d),
        spec_u16_at(b, pos + 2, d.endianness_flag) == spec_data_body(d).len(),
        spec_u16_at(b, pos + 6, d.endianness_flag) == 16,
        b[pos + 8] == d.reader_id.entity_key[0],
        b[pos + 9] == d.reader_id.entity_key[1],
        b[pos + 10] == d.reader_id.entity_key[2],
        b[pos + 11] == spec_entity_kind_octet(d.reader_id.entity_kind),
        b[pos + 12] == d.writer_id.entity_key[0],
        b[pos + 13] == d.writer_id.entity_key[1],
        b[pos + 14] == d.writer_id.entity_key[2],
        b[pos + 15] == spec_entity_kind_octet(d.writer_id.entity_kind),
        spec_sn_at(b, pos + 16, d.endianness_flag) == d.writer_sn,
        spec_u32_at(b, pos + 16, d.endianness_flag) == d.writer_sn / 0x100000000,
        d.inline_qos_flag ==> b.subrange(
            pos + 24,
            pos + 24 + spec_params_bytes(d.inline_qos.parameter@, d.endianness_flag).len(),
        ) == spec_params_bytes(d.inline_qos.parameter@, d.endianness_flag),
        (d.data_flag || d.key_flag) ==> b.subrange(
            pos + 24 + (if d.inline_qos_flag {
                spec_params_bytes(d.inline_qos.parameter@, d.endianness_flag).len() as int
            } else {
                0int
            }),
            pos + 4 + spec_data_body(d).len(),
        ) == d.serialized_payload.value@,
{
    let w = spec_data_bytes(d);
    let body = spec_data_body(d);
    let le = d.endianness_flag;
    let flags = spec_data_flags(d);
    assert(w =~= seq![SUBMESSAGE_KIND_DATA, flags] + (spec_u16_bytes(body.len() as u16, le)
        + body));
    lemma_subrange_split(
        b,
        pos,
        seq![SUBMESSAGE_KIND_DATA, flags],
        spec_u16_bytes(body.len() as u16, le) + body,
    );
    lemma_subrange_split(b, pos + 2, spec_u16_bytes(body.len() as u16, le), body);
    assert(b[pos] == b.subrange(pos, pos + 2)[0]);
    assert(b[pos + 1] == b.subrange(pos, pos + 2)[1]);
    lemma_u16_round(b, pos + 2, body.len() as u16, le);
    let fixed = seq![0u8, 0u8] + spec_u16_bytes(16, le) + spec_entity_id_bytes(d.reader_id)
        + spec_entity_id_bytes(d.writer_id) + spec_sn_bytes(d.writer_sn as int, le);
    let qos_bytes = if d.inline_qos_flag {
        spec_params_bytes(d.inline_qos.parameter@, le)
    } else {
        Seq::<u8>::empty()
    };
    let payload_bytes = if d.data_flag || d.key_flag {
        d.serialized_payload.value@
    } else {
        Seq::<u8>::empty()
    };
    assert(fixed.len() == 20);
    assert(body =~= fixed + (qos_bytes + payload_bytes));
    lemma_subrange_split(b, pos + 4, fixed, qos_bytes + payload_bytes);
    assert(fixed =~= seq![0u8, 0u8] + (spec_u16_bytes(16, le) + (spec_entity_id_bytes(
        d.reader_id,
    ) + (spec_entity_id_bytes(d.writer_id) + spec_sn_bytes(d.writer_sn as int, le)))));
    lemma_subrange_split(
        b,
        pos + 4,
        seq![0u8, 0u8],
        spec_u16_bytes(16, le) + (spec_entity_id_bytes(d.reader_id) + (spec_entity_id_bytes(
            d.writer_id,
        ) + spec_sn_bytes(d.writer_sn as int, le))),
    );
    lemma_subrange_split(
        b,
        pos + 6,
        spec_u16_bytes(16, le),
        spec_entity_id_bytes(d.reader_id) + (spec_entity_id_bytes(d.writer_id) + spec_sn_bytes(
            d.writer_sn as int,
            le,
        )),
    );
    lemma_subrange_split(
        b,
        pos + 8,
        spec_entity_id_bytes(d.reader_id),
        spec_entity_id_bytes(d.writer_id) + spec_sn_bytes(d.writer_sn as int, le),
    );
    lemma_subrange_split(
        b,
        pos + 12,
        spec_entity_id_bytes(d.writer_id),
        spec_sn_bytes(d.writer_sn as int, le),
    );
    lemma_u16_round(b, pos + 6, 16, le);
    assert(b[pos + 8] == b.subrange(pos + 8, pos + 12)[0]);
    assert(b[pos + 9] == b.subrange(pos + 8, pos + 12)[1]);
    assert(b[pos + 10] == b.subrange(pos + 8, pos + 12)[2]);
    assert(b[pos + 11] == b.subrange(pos + 8, pos + 12)[3]);
    assert(b[pos + 12] == b.subrange(pos + 12, pos + 16)[0]);
    assert(b[pos + 13] == b.subrange(pos + 12, pos + 16)[1]);
    assert(b[pos + 14] == b.subrange(pos + 12, pos + 16)[2]);
    assert(b[pos + 15] == b.subrange(pos + 12, pos + 16)[3]);
    lemma_sn_round(b, pos + 16, d.writer_sn as int, le);
    lemma_subrange_split(b, pos + 24, qos_bytes, payload_bytes);
}

/// Reading an encoded data submessage gives its view back.
#[verifier::rlimit(100)]
#[verifier::spinoff_prover]
proof fn lemma_data_round(b: Seq<u8>, pos: int, d: DataSubmessage)
    requires
        0 <= pos,
        data_wf(d),
        pos + spec_data_bytes(d).len() <= b.len(),
        b.subrange(pos, pos + spec_data_bytes(d).len()) == spec_data_bytes(d),
    ensures
        spec_data_at(b, pos) == Some((d.view_of(), pos + spec_data_bytes(d).len())),
{
    reveal(spec_data_at);
    let body = spec_data_body(d);
    let le = d.endianness_flag;
    lemma_data_layout(b, pos, d);
    lemma_data_flags_bits(d);
    let len = body.len() as int;
    let limit = pos + 4 + len;
    assert(len >= 20);
    assert(spec_u32_at(b, pos + 16, le) < 0x80000000);
    crate::types::lemma_entity_kind_octet_round(d.reader_id.entity_kind);
    crate::types::lemma_entity_kind_octet_round(d.writer_id.entity_kind);
    let reader_read = EntityId {
        entity_key: [b[pos + 8], b[pos + 9], b[pos + 10]],
        entity_kind: spec_entity_kind_of_octet(b[pos + 11]),
    };
    let writer_read = EntityId {
        entity_key: [b[pos + 12], b[pos + 13], b[pos + 14]],
        entity_kind: spec_entity_kind_of_octet(b[pos + 15]),
    };
    assert(reader_read.entity_key =~= d.reader_id.entity_key);
    assert(writer_read.entity_key =~= d.writer_id.entity_key);
    assert(reader_read == d.reader_id);
    assert(writer_read == d.writer_id);
    let qos_bytes_len = if d.inline_qos_flag {
        spec_params_bytes(d.inline_qos.parameter@, le).len() as int
    } else {
        0int
    };
    let qend = pos + 24 + qos_bytes_len;
    if d.inline_qos_flag {
        lemma_params_round(b, pos + 24, limit, d.inline_qos.parameter@, le);
    } else {
        assert(d.inline_qos.parameter@.len() == 0);
        assert(d.inline_qos.parameter@.map_values(|p: Parameter| (p.parameter_id, p.value@))
            =~= Seq::<(u16, Seq<u8>)>::empty());
    }
    if !(d.data_flag || d.key_flag) {
        assert(d.serialized_payload.value@ =~= Seq::<u8>::empty());
    }
    match spec_data_at(b, pos) {
        Some((dv, end)) => {
            assert(end == limit);
            assert(dv.endianness_flag == d.endianness_flag);
            assert(dv.inline_qos_flag == d.inline_qos_flag);
            assert(dv.data_flag == d.data_flag);
            assert(dv.key_flag == d.key_flag);
            assert(dv.non_standard_payload_flag == d.non_standard_payload_flag);
            assert(dv.reader_id == d.reader_id);
            assert(dv.writer_id == d.writer_id);
            assert(dv.writer_sn == d.writer_sn);
            assert(dv.inline_qos == d.view_of().inline_qos);
            assert(dv.payload == d.view_of().payload);
            assert(dv == d.view_of());
        },
        None => {
            assert(false);
        },
    }
}

/// The three flag bits read back from the heartbeat flags octet.
proof fn lemma_heartbeat_flags_bits(h: HeartbeatSubmessage)
    ensures
        spec_heartbeat_flags(h) % 2 == 1 <==> h.endianness_flag,
        (spec_heartbeat_flags(h) / 2) % 2 == 1 <==> h.final_flag,
        (spec_heartbeat_flags(h) / 4) % 2 == 1 <==> h.liveliness_flag,
{
}

/// The pieces of an encoded heartbeat, each at its offset.
#[verifier::rlimit(100)]
#[verifier::spinoff_prover]
proof fn lemma_heartbeat_layout(b: Seq<u8>, pos: int, h: HeartbeatSubmessage)
    requires
        0 <= pos,
        heartbeat_wf(h),
        pos + spec_heartbeat_bytes(h).len() <= b.len(),
        b.subrange(pos, pos + spec_heartbeat_bytes(h).len()) == spec_heartbeat_bytes(h),
    ensures
        b[pos] == SUBMESSAGE_KIND_HEARTBEAT,
        b[pos + 1] == spec_heartbeat_flags(h),
        spec_u16_at(b, pos + 2, h.endianness_flag) == 28,
        b[pos + 4] == h.reader_id.entity_key[0],
        b[pos + 5] == h.reader_id.entity_key[1],
        b[pos + 6] == h.reader_id.entity_key[2],
        b[pos + 7] == spec_entity_kind_octet(h.reader_id.entity_kind),
        b[pos + 8] == h.writer_id.entity_key[0],
        b[pos + 9] == h.writer_id.entity_key[1],
        b[pos + 10] == h.writer_id.entity_key[2],
        b[pos + 11] == spec_entity_kind_octet(h.writer_id.entity_kind),
        spec_sn_at(b, pos + 12, h.endianness_flag) == h.first_sn,
        spec_u32_at(b, pos + 12, h.endianness_flag) == h.first_sn / 0x100000000,
        spec_sn_at(b, pos + 20, h.endianness_flag) == h.last_sn,
        spec_u32_at(b, pos + 20, h.endianness_flag) == h.last_sn / 0x100000000,
        spec_u32_at(b, pos + 28, h.endianness_flag) == (h.count.0 as u32),
{
    let w = spec_heartbeat_bytes(h);
    let body = spec_heartbeat_body(h);
    let le = h.endianness_flag;
    let flags = spec_heartbeat_flags(h);
    assert(body.len() == 28);
    assert(w =~= seq![SUBMESSAGE_KIND_HEARTBEAT, flags] + (spec_u16_bytes(28, le) + body));
    lemma_subrange_split(
        b,
        pos,
        seq![SUBMESSAGE_KIND_HEARTBEAT, flags],
        spec_u16_bytes(28, le) + body,
    );
    lemma_subrange_split(b, pos + 2, spec_u16_bytes(28, le), body);
    assert(b[pos] == b.subrange(pos, pos + 2)[0]);
    assert(b[pos + 1] == b.subrange(pos, pos + 2)[1]);
    lemma_u16_round(b, pos + 2, 28, le);
    assert(body =~= spec_entity_id_bytes(h.reader_id) + (spec_entity_id_bytes(h.writer_id) + (
    spec_sn_bytes(h.first_sn as int, le) + (spec_sn_bytes(h.last_sn as int, le)
        + spec_u32_bytes(h.count.0 as u32, le)))));
    lemma_subrange_split(
        b,
        pos + 4,
        spec_entity_id_bytes(h.reader_id),
        spec_entity_id_bytes(h.writer_id) + (spec_sn_bytes(h.first_sn as int, le) + (
        spec_sn_bytes(h.last_sn as int, le) + spec_u32_bytes(h.count.0 as u32, le))),
    );
    lemma_subrange_split(
        b,
        pos + 8,
        spec_entity_id_bytes(h.writer_id),
        spec_sn_bytes(h.first_sn as int, le) + (spec_sn_bytes(h.last_sn as int, le)
            + spec_u32_bytes(h.count.0 as u32, le)),
    );
    lemma_subrange_split(
        b,
        pos + 12,
        spec_sn_bytes(h.first_sn as int, le),
        spec_sn_bytes(h.last_sn as int, le) + spec_u32_bytes(h.count.0 as u32, le),
    );
    lemma_subrange_split(
        b,
        pos + 20,
        spec_sn_bytes(h.last_sn as int, le),
        spec_u32_bytes(h.count.0 as u32, le),
    );
    assert(b[pos + 4] == b.subrange(pos + 4, pos + 8)[0]);
    assert(b[pos + 5] == b.subrange(pos + 4, pos + 8)[1]);
    assert(b[pos + 6] == b.subrange(pos + 4, pos + 8)[2]);
    assert(b[pos + 7] == b.subrange(pos + 4, pos + 8)[3]);
    assert(b[pos + 8] == b.subrange(pos + 8, pos + 12)[0]);
    assert(b[pos + 9] == b.subrange(pos + 8, pos + 12)[1]);
    assert(b[pos + 10] == b.subrange(pos + 8, pos + 12)[2]);
    assert(b[pos + 11] == b.subrange(pos + 8, pos + 12)[3]);
    lemma_sn_round(b, pos + 12, h.first_sn as int, le);
    lemma_sn_round(b, pos + 20, h.last_sn as int, le);
    lemma_u32_round(b, pos + 28, (h.count.0 as u32), le);
}

/// Reading an encoded heartbeat gives it back.
#[verifier::rlimit(100)]
#[verifier::spinoff_prover]
proof fn lemma_heartbeat_round(b: Seq<u8>, pos: int, h: HeartbeatSubmessage)
    requires
        0 <= pos,
        heartbeat_wf(h),
        pos + spec_heartbeat_bytes(h).len() <= b.len(),
        b.subrange(pos, pos + spec_heartbeat_bytes(h).len()) == spec_heartbeat_bytes(h),
    ensures
        spec_heartbeat_at(b, pos) == Some((h, pos + spec_heartbeat_bytes(h).len())),
{
    reveal(spec_heartbeat_at);
    lemma_heartbeat_layout(b, pos, h);
    lemma_heartbeat_flags_bits(h);
    crate::types::lemma_entity_kind_octet_round(h.reader_id.entity_kind);
    crate::types::lemma_entity_kind_octet_round(h.writer_id.entity_kind);
    let c = h.count.0;
    assert(((c as u32) as i32) == c) by (bit_vector);
    assert(((h.count.0 as u32) as i32) == h.count.0);
    match spec_heartbeat_at(b, pos) {
        Some((hv, end)) => {
            assert(end == pos + 32);
            assert(hv.reader_id.entity_key =~= h.reader_id.entity_key);
            assert(hv.writer_id.entity_key =~= h.writer_id.entity_key);
            assert(hv.reader_id == h.reader_id);
            assert(hv.writer_id == h.writer_id);
            assert(hv == h);
        },
        None => {
            assert(false);
        },
    }
}

/// Law: a well-formed message survives the trip onto the wire and back,
/// whichever endianness each submessage carries.
pub proof fn lemma_message_round_trip(m: RtpsMessage)
    requires
        message_wf(m),
    ensures
        spec_decode_message(spec_message_bytes(m)) == Some(m.view_of()),
{
    let b = spec_message_bytes(m);
    assert(b.subrange(0, b.len() as int) =~= b);
    lemma_subrange_split(b, 0, spec_header_bytes(m.header), spec_submessages_bytes(
        m.submessages@,
    ));
    assert(b.subrange(0, 20) == spec_header_bytes(m.header));
    assert(b[0] == b.subrange(0, 20)[0]);
    assert(b[1] == b.subrange(0, 20)[1]);
    assert(b[2] == b.subrange(0, 20)[2]);
    assert(b[3] == b.subrange(0, 20)[3]);
    lemma_header_round_trip(m.header, spec_header_bytes(m.header));
    assert(spec_header_at(b) == spec_header_at(spec_header_bytes(m.header))) by {
        assert(spec_header_at(b).protocol =~= spec_header_at(
            spec_header_bytes(m.header),
        ).protocol);
        assert(spec_header_at(b).vendor_id.0 =~= spec_header_at(
            spec_header_bytes(m.header),
        ).vendor_id.0);
        assert(spec_header_at(b).guid_prefix.0 =~= spec_header_at(
            spec_header_bytes(m.header),
        ).guid_prefix.0);
    }
    lemma_subs_round(b, 20, m.submessages@);
    assert(m.submessages@.map_values(|s: RtpsSubmessage| s.view_of()) == m.view_of().submessages);
}

/// Reading an encoded run of submessages gives their views back.
#[verifier::rlimit(100)]
#[verifier::spinoff_prover]
proof fn lemma_subs_round(b: Seq<u8>, pos: int, ss: Seq<RtpsSubmessage>)
    requires
        0 <= pos,
        forall|i: int| 0 <= i < ss.len() ==> submessage_wf(#[trigger] ss[i]),
        pos + spec_submessages_bytes(ss).len() == b.len(),
        b.subrange(pos, b.len() as int) == spec_submessages_bytes(ss),
    ensures
        spec_decode_subs(b, pos) == Some(ss.map_values(|s: RtpsSubmessage| s.view_of())),
    decreases ss.len(),
{
    let w = spec_submessages_bytes(ss);
    if ss.len() == 0 {
        assert(pos == b.len());
        assert(ss.map_values(|s: RtpsSubmessage| s.view_of()) =~= Seq::<
            SubmessageView,
        >::empty());
    } else {
        let s0 = ss[0];
        let head = spec_submessage_bytes(s0);
        let tail = spec_submessages_bytes(ss.skip(1));
        assert(w =~= head + tail);
        lemma_subrange_split(b, pos, head, tail);
        let next = pos + head.len();
        lemma_subs_round(b, next, ss.skip(1));
        match s0 {
            RtpsSubmessage::Data(d) => {
                let le = d.endianness_flag;
                let flags = spec_data_flags(d);
                let body = spec_data_body(d);
                assert(head =~= seq![SUBMESSAGE_KIND_DATA, flags] + (spec_u16_bytes(
                    body.len() as u16,
                    le,
                ) + body));
                lemma_subrange_split(
                    b,
                    pos,
                    seq![SUBMESSAGE_KIND_DATA, flags],
                    spec_u16_bytes(body.len() as u16, le) + body,
                );
                lemma_subrange_split(b, pos + 2, spec_u16_bytes(body.len() as u16, le), body);
                assert(b[pos] == b.subrange(pos, pos + 2)[0]);
                assert(b[pos + 1] == b.subrange(pos, pos + 2)[1]);
                assert(b[pos] == SUBMESSAGE_KIND_DATA);
                assert(b[pos + 1] == flags);
                assert(flags % 2 == 1 <==> d.endianness_flag);
                lemma_u16_round(b, pos + 2, body.len() as u16, le);
                lemma_data_round(b, pos, d);
                assert(seq![SubmessageView::Data(d.view_of())] + ss.skip(1).map_values(
                    |s: RtpsSubmessage| s.view_of(),
                ) =~= ss.map_values(|s: RtpsSubmessage| s.view_of()));
            },
            RtpsSubmessage::Heartbeat(h) => {
                let le = h.endianness_flag;
                let flags = spec_heartbeat_flags(h);
                assert(head =~= seq![SUBMESSAGE_KIND_HEARTBEAT, flags] + (spec_u16_bytes(
                    28,
                    le,
                ) + spec_heartbeat_body(h)));
                lemma_subrange_split(
                    b,
                    pos,
                    seq![SUBMESSAGE_KIND_HEARTBEAT, flags],
                    spec_u16_bytes(28, le) + spec_heartbeat_body(h),
                );
                lemma_subrange_split(b, pos + 2, spec_u16_bytes(28, le), spec_heartbeat_body(h));
                assert(b[pos] == b.subrange(pos, pos + 2)[0]);
                assert(b[pos + 1] == b.subrange(pos, pos + 2)[1]);
                assert(b[pos] == SUBMESSAGE_KIND_HEARTBEAT);
                assert(b[pos + 1] == flags);
                lemma_heartbeat_flags_bits(h);
                lemma_u16_round(b, pos + 2, 28, le);
                lemma_heartbeat_round(b, pos, h);
                assert(seq![SubmessageView::Heartbeat(h)] + ss.skip(1).map_values(
                    |s: RtpsSubmessage| s.view_of(),
                ) =~= ss.map_values(|s: RtpsSubmessage| s.view_of()));
            },
            RtpsSubmessage::Pad(p) => {
                let flag_octet: u8 = if p.endianness_flag {
                    1u8
                } else {
                    0u8
                };
                assert(head =~= seq![SUBMESSAGE_KIND_PAD, flag_octet] + spec_u16_bytes(
                    0,
                    p.endianness_flag,
                ));
                lemma_subrange_split(
                    b,
                    pos,
                    seq![SUBMESSAGE_KIND_PAD, flag_octet],
                    spec_u16_bytes(0, p.endianness_flag),
                );
                assert(b[pos] == b.subrange(pos, pos + 2)[0]);
                assert(b[pos + 1] == b.subrange(pos, pos + 2)[1]);
                assert(b[pos] == SUBMESSAGE_KIND_PAD);
                assert(b[pos + 1] == flag_octet);
                lemma_u16_round(b, pos + 2, 0, p.endianness_flag);
                assert(seq![SubmessageView::Pad(p.endianness_flag)] + ss.skip(1).map_values(
                    |s: RtpsSubmessage| s.view_of(),
                ) =~= ss.map_values(|s: RtpsSubmessage| s.view_of()));
            },
        }
    }
}

/// A copy of the octets in `[from, to)`.
pub fn copy_range(buf: &Vec<u8>, from: usize, to: usize) -> (r: Vec<u8>)
    requires
        from <= to <= buf@.len(),
    ensures
        r@ == buf@.subrange(from as int, to as int),
{
    let mut r: Vec<u8> = Vec::new();
    let mut i = from;
    proof {
        assert(r@ =~= buf@.subrange(from as int, from as int));
    }
    while i < to
        invariant
            from <= i <= to <= buf@.len(),
            r@ == buf@.subrange(from as int, i as int),
        decreases to - i,
    {
        proof {
            assert(buf@.subrange(from as int, i + 1) =~= buf@.subrange(
                from as int,
                i as int,
            ).push(buf@[i as int]));
        }
        let value = buf[i];
        r.push(value);
        i = i + 1;
    }
    r
}

/// Parses a parameter list up to its sentinel, within the given limit.
pub fn parse_params(buf: &Vec<u8>, pos: usize, limit: usize, le: bool) -> (r: Result<
    (Vec<Parameter>, usize),
    WireError,
>)
    requires
        pos <= limit <= buf@.len(),
    ensures
        match r {
            Ok((ps, end)) => spec_params_at(buf@, pos as int, limit as int, le) == Some(
                (ps@.map_values(|p: Parameter| (p.parameter_id, p.value@)), end as int),
            ) && pos <= end <= limit,
            Err(_) => spec_params_at(buf@, pos as int, limit as int, le) is None,
        },
{
    let mut ps: Vec<Parameter> = Vec::new();
    let mut cur = pos;
    proof {
        assert(ps@.map_values(|p: Parameter| (p.parameter_id, p.value@)) =~= Seq::<
            (u16, Seq<u8>),
        >::empty());
    }
    loop
        invariant
            pos <= cur <= limit <= buf@.len(),
            match spec_params_at(buf@, cur as int, limit as int, le) {
                Some(pr) => spec_params_at(buf@, pos as int, limit as int, le) == Some(
                    (
                        ps@.map_values(|p: Parameter| (p.parameter_id, p.value@)) + pr.0,
                        pr.1,
                    ),
                ),
                None => spec_params_at(buf@, pos as int, limit as int, le) is None,
            },
        decreases limit - cur,
    {
        if limit - cur < 4 {
            return Err(WireError::Truncated);
        }
        let pid = read_u16(buf, cur, le);
        let plen = read_u16(buf, cur + 2, le) as usize;
        if pid == 1 {
            proof {
                assert(spec_params_at(buf@, cur as int, limit as int, le) == Some(
                    (Seq::<(u16, Seq<u8>)>::empty(), cur + 4),
                ));
                assert(ps@.map_values(|p: Parameter| (p.parameter_id, p.value@)) + Seq::<
                    (u16, Seq<u8>),
                >::empty() =~= ps@.map_values(|p: Parameter| (p.parameter_id, p.value@)));
            }
            return Ok((ps, cur + 4));
        }
        if plen > limit - cur - 4 {
            return Err(WireError::Truncated);
        }
        let value = copy_range(buf, cur + 4, cur + 4 + plen);
        let length: i16 = #[verifier::truncate] (plen as i16);
        let ghost before = ps@;
        let p = Parameter { parameter_id: pid, length, value };
        ps.push(p);
        proof {
            let f = |p: Parameter| (p.parameter_id, p.value@);
            assert(ps@.map_values(f) =~= before.map_values(f).push(
                (pid, buf@.subrange(cur + 4, cur + 4 + plen)),
            ));
            match spec_params_at(buf@, cur + 4 + plen, limit as int, le) {
                Some(pr) => {
                    assert(spec_params_at(buf@, cur as int, limit as int, le) == Some(
                        (seq![(pid, buf@.subrange(cur + 4, cur + 4 + plen))] + pr.0, pr.1),
                    ));
                    assert(before.map_values(f) + (seq![
                        (pid, buf@.subrange(cur + 4, cur + 4 + plen)),
                    ] + pr.0) =~= ps@.map_values(f) + pr.0);
                },
                None => {
                    assert(spec_params_at(buf@, cur as int, limit as int, le) is None);
                },
            }
        }
        cur = cur + 4 + plen;
    }
}

/// Parses one data submessage whose four-octet header sits at `pos` and
/// whose body reaches exactly to `next`.
fn parse_data(buf: &Vec<u8>, pos: usize, next: usize) -> (r: Result<DataSubmessage, WireError>)
    requires
        pos + 4 <= buf@.len(),
        next <= buf@.len(),
        buf@[pos as int] == SUBMESSAGE_KIND_DATA,
        next == pos + 4 + spec_u16_at(buf@, pos + 2, buf@[pos + 1] % 2 == 1),
    ensures
        match r {
            Ok(d) => spec_data_at(buf@, pos as int) == Some((d.view_of(), next as int)),
            Err(_) => spec_data_at(buf@, pos as int) is None,
        },
{
    proof {
        reveal(spec_data_at);
    }
    let flags = buf[pos + 1];
    let e = flags % 2 == 1;
    let iq = (flags / 2) % 2 == 1;
    let df = (flags / 4) % 2 == 1;
    let kf = (flags / 8) % 2 == 1;
    let np = (flags / 16) % 2 == 1;
    let len = read_u16(buf, pos + 2, e) as usize;
    if len < 20 {
        return Err(WireError::Malformed);
    }
    let octets_to_qos = read_u16(buf, pos + 6, e);
    if octets_to_qos != 16 {
        return Err(WireError::Malformed);
    }
    let reader_kind = match EntityKind::from_octet(buf[pos + 11]) {
        Some(k) => k,
        None => {
            return Err(WireError::Malformed);
        },
    };
    let writer_kind = match EntityKind::from_octet(buf[pos + 15]) {
        Some(k) => k,
        None => {
            return Err(WireError::Malformed);
        },
    };
    proof {
        crate::types::lemma_entity_kind_octet_injective(
            reader_kind,
            spec_entity_kind_of_octet(buf@[pos + 11]),
        );
        crate::types::lemma_entity_kind_octet_injective(
            writer_kind,
            spec_entity_kind_of_octet(buf@[pos + 15]),
        );
    }
    let reader_id = EntityId::new([buf[pos + 8], buf[pos + 9], buf[pos + 10]], reader_kind);
    let writer_id = EntityId::new([buf[pos + 12], buf[pos + 13], buf[pos + 14]], writer_kind);
    let high = read_u32(buf, pos + 16, e);
    if high >= 0x80000000 {
        return Err(WireError::Malformed);
    }
    let writer_sn = read_sn(buf, pos + 16, e);
    let (qos, qend) = if iq {
        match parse_params(buf, pos + 24, next, e) {
            Ok((ps, end)) => (ps, end),
            Err(err) => {
                return Err(err);
            },
        }
    } else {
        (Vec::new(), pos + 24)
    };
    let payload = if df || kf {
        copy_range(buf, qend, next)
    } else {
        Vec::new()
    };
    let d = DataSubmessage {
        endianness_flag: e,
        inline_qos_flag: iq,
        data_flag: df,
        key_flag: kf,
        non_standard_payload_flag: np,
        reader_id,
        writer_id,
        writer_sn,
        inline_qos: ParameterListSubmessageElement { parameter: qos },
        serialized_payload: SerializedDataSubmessageElement { value: payload },
    };
    proof {
        reveal(spec_data_at);
        if !iq {
            assert(d.inline_qos.parameter@.map_values(
                |p: Parameter| (p.parameter_id, p.value@),
            ) =~= Seq::<(u16, Seq<u8>)>::empty());
        }
        if !(df || kf) {
            assert(d.serialized_payload.value@ =~= Seq::<u8>::empty());
        }
        match spec_data_at(buf@, pos as int) {
            Some((dv, end)) => {
                assert(dv == d.view_of());
                assert(end == next);
            },
            None => {
                assert(false);
            },
        }
    }
    Ok(d)
}

/// Parses one heartbeat submessage whose four-octet header sits at `pos`
/// and whose body reaches exactly to `next`.
fn parse_heartbeat(buf: &Vec<u8>, pos: usize, next: usize) -> (r: Result<
    HeartbeatSubmessage,
    WireError,
>)
    requires
        pos + 4 <= buf@.len(),
        next <= buf@.len(),
        buf@[pos as int] == SUBMESSAGE_KIND_HEARTBEAT,
        next == pos + 4 + spec_u16_at(buf@, pos + 2, buf@[pos + 1] % 2 == 1),
    ensures
        match r {
            Ok(h) => spec_heartbeat_at(buf@, pos as int) == Some((h, next as int)),
            Err(_) => spec_heartbeat_at(buf@, pos as int) is None,
        },
{
    proof {
        reveal(spec_heartbeat_at);
    }
    let flags = buf[pos + 1];
    let e = flags % 2 == 1;
    let fin = (flags / 2) % 2 == 1;
    let liv = (flags / 4) % 2 == 1;
    let len = read_u16(buf, pos + 2, e) as usize;
    if len < 28 {
        return Err(WireError::Malformed);
    }
    let reader_kind = match EntityKind::from_octet(buf[pos + 7]) {
        Some(k) => k,
        None => {
            return Err(WireError::Malformed);
        },
    };
    let writer_kind = match EntityKind::from_octet(buf[pos + 11]) {
        Some(k) => k,
        None => {
            return Err(WireError::Malformed);
        },
    };
    proof {
        crate::types::lemma_entity_kind_octet_injective(
            reader_kind,
            spec_entity_kind_of_octet(buf@[pos + 7]),
        );
        crate::types::lemma_entity_kind_octet_injective(
            writer_kind,
            spec_entity_kind_of_octet(buf@[pos + 11]),
        );
    }
    let first_high = read_u32(buf, pos + 12, e);
    if first_high >= 0x80000000 {
        return Err(WireError::Malformed);
    }
    let last_high = read_u32(buf, pos + 20, e);
    if last_high >= 0x80000000 {
        return Err(WireError::Malformed);
    }
    let count_bits = read_u32(buf, pos + 28, e);
    let count_value: i32 = #[verifier::truncate] (count_bits as i32);
    let h = HeartbeatSubmessage {
        endianness_flag: e,
        final_flag: fin,
        liveliness_flag: liv,
        reader_id: EntityId::new([buf[pos + 4], buf[pos + 5], buf[pos + 6]], reader_kind),
        writer_id: EntityId::new([buf[pos + 8], buf[pos + 9], buf[pos + 10]], writer_kind),
        first_sn: read_sn(buf, pos + 12, e),
        last_sn: read_sn(buf, pos + 20, e),
        count: Count(count_value),
    };
    proof {
        match spec_heartbeat_at(buf@, pos as int) {
            Some((hv, end)) => {
                assert(hv.reader_id.entity_key =~= h.reader_id.entity_key);
                assert(hv.writer_id.entity_key =~= h.writer_id.entity_key);
                assert(hv.reader_id == h.reader_id);
                assert(hv.writer_id == h.writer_id);
                assert(hv == h);
                assert(end == next);
            },
            None => {
                assert(false);
            },
        }
    }
    Ok(h)
}

/// Parses a whole message: the header, then each submessage, skipping the
/// kinds the codec does not carry and stopping at the datagram boundary.
#[verifier::rlimit(100)]
#[verifier::spinoff_prover]
pub fn decode_message(buf: &Vec<u8>) -> (r: Result<RtpsMessage, WireError>)
    ensures
        match r {
            Ok(m) => spec_decode_message(buf@) == Some(m.view_of()),
            Err(_) => spec_decode_message(buf@) is None,
        },
{
    let header = match decode_header(buf) {
        Ok(h) => h,
        Err(err) => {
            return Err(err);
        },
    };
    proof {
        lemma_header_round_trip(header, buf@.subrange(0, 20));
        assert(spec_header_at(buf@).protocol =~= spec_header_at(
            buf@.subrange(0, 20),
        ).protocol);
        assert(spec_header_at(buf@).vendor_id.0 =~= spec_header_at(
            buf@.subrange(0, 20),
        ).vendor_id.0);
        assert(spec_header_at(buf@).guid_prefix.0 =~= spec_header_at(
            buf@.subrange(0, 20),
        ).guid_prefix.0);
        assert(spec_header_at(buf@) == header);
        assert(buf@[0] == buf@.subrange(0, 20)[0]);
        assert(buf@[1] == buf@.subrange(0, 20)[1]);
        assert(buf@[2] == buf@.subrange(0, 20)[2]);
        assert(buf@[3] == buf@.subrange(0, 20)[3]);
    }
    let mut subs: Vec<RtpsSubmessage> = Vec::new();
    let mut pos: usize = 20;
    let ghost f = |s: RtpsSubmessage| s.view_of();
    proof {
        assert(subs@.map_values(f) =~= Seq::<SubmessageView>::empty());
    }
    loop
        invariant
            20 <= pos <= buf@.len(),
            buf@.len() >= 20,
            buf@[0] == 82 && buf@[1] == 84 && buf@[2] == 80 && buf@[3] == 83,
            spec_header_at(buf@) == header,
            f == (|s: RtpsSubmessage| s.view_of()),
            match spec_decode_subs(buf@, pos as int) {
                Some(rest) => spec_decode_subs(buf@, 20) == Some(subs@.map_values(f) + rest),
                None => spec_decode_subs(buf@, 20) is None,
            },
        ensures
            spec_decode_subs(buf@, 20) == Some(subs@.map_values(f)),
        decreases buf@.len() - pos,
    {
        if buf.len() - pos < 4 {
            proof {
                assert(spec_decode_subs(buf@, pos as int) == Some(
                    Seq::<SubmessageView>::empty(),
                ));
                assert(subs@.map_values(f) + Seq::<SubmessageView>::empty() =~= subs@.map_values(
                    f,
                ));
            }
            break ;
        }
        let id = buf[pos];
        let flags = buf[pos + 1];
        let e = flags % 2 == 1;
        let len = read_u16(buf, pos + 2, e) as usize;
        if len > buf.len() - pos - 4 {
            proof {
                assert(spec_decode_subs(buf@, pos as int) == Some(
                    Seq::<SubmessageView>::empty(),
                ));
                assert(subs@.map_values(f) + Seq::<SubmessageView>::empty() =~= subs@.map_values(
                    f,
                ));
            }
            break ;
        }
        let next = pos + 4 + len;
        if id == SUBMESSAGE_KIND_DATA {
            let d = match parse_data(buf, pos, next) {
                Ok(d) => d,
                Err(err) => {
                    proof {
                        assert(spec_decode_subs(buf@, pos as int) is None);
                    }
                    return Err(err);
                },
            };
            let ghost before = subs@;
            subs.push(RtpsSubmessage::Data(d));
            proof {
                assert(subs@.map_values(f) =~= before.map_values(f).push(
                    SubmessageView::Data(d.view_of()),
                ));
                match spec_decode_subs(buf@, next as int) {
                    Some(rest) => {
                        assert(spec_decode_subs(buf@, pos as int) == Some(
                            seq![SubmessageView::Data(d.view_of())] + rest,
                        ));
                        assert(before.map_values(f) + (seq![SubmessageView::Data(d.view_of())]
                            + rest) =~= subs@.map_values(f) + rest);
                    },
                    None => {
                        assert(spec_decode_subs(buf@, pos as int) is None);
                    },
                }
            }
            pos = next;
        } else if id == SUBMESSAGE_KIND_HEARTBEAT {
            let h = match parse_heartbeat(buf, pos, next) {
                Ok(h) => h,
                Err(err) => {
                    proof {
                        assert(spec_decode_subs(buf@, pos as int) is None);
                    }
                    return Err(err);
                },
            };
            let ghost before = subs@;
            subs.push(RtpsSubmessage::Heartbeat(h));
            proof {
                assert(subs@.map_values(f) =~= before.map_values(f).push(
                    SubmessageView::Heartbeat(h),
                ));
                match spec_decode_subs(buf@, next as int) {
                    Some(rest) => {
                        assert(spec_decode_subs(buf@, pos as int) == Some(
                            seq![SubmessageView::Heartbeat(h)] + rest,
                        ));
                        assert(before.map_values(f) + (seq![SubmessageView::Heartbeat(h)]
                            + rest) =~= subs@.map_values(f) + rest);
                    },
                    None => {
                        assert(spec_decode_subs(buf@, pos as int) is None);
                    },
                }
            }
            pos = next;
        } else if id == SUBMESSAGE_KIND_PAD {
            let ghost before = subs@;
            subs.push(RtpsSubmessage::Pad(PadSubmessage { endianness_flag: e }));
            proof {
                assert(subs@.map_values(f) =~= before.map_values(f).push(
                    SubmessageView::Pad(e),
                ));
                match spec_decode_subs(buf@, next as int) {
                    Some(rest) => {
                        assert(spec_decode_subs(buf@, pos as int) == Some(
                            seq![SubmessageView::Pad(e)] + rest,
                        ));
                        assert(before.map_values(f) + (seq![SubmessageView::Pad(e)] + rest)
                            =~= subs@.map_values(f) + rest);
                    },
                    None => {
                        assert(spec_decode_subs(buf@, pos as int) is None);
                    },
                }
            }
            pos = next;
        } else {
            if len == 0 {
                proof {
                    assert(spec_decode_subs(buf@, pos as int) == Some(
                        Seq::<SubmessageView>::empty(),
                    ));
                    assert(subs@.map_values(f) + Seq::<SubmessageView>::empty()
                        =~= subs@.map_values(f));
                }
                break ;
            }
            pos = next;
        }
    }
    let m = RtpsMessage { header, submessages: subs };
    proof {
        assert(spec_decode_subs(buf@, 20) == Some(m.view_of().submessages));
        assert(spec_decode_message(buf@) == Some(m.view_of()));
    }
    Ok(m)
}

} // verus!
