//! Participant discovery: the SPDP payload that a participant multicasts
//! about itself, its parameter-list serialization, and the matching of the
//! built-in endpoint proxies when another participant is discovered.

use vstd::prelude::*;

use crate::codec::{push_u16, push_u32, spec_u16_bytes, spec_u32_bytes, spec_u32_at};
use crate::messages::WireError;
use crate::time::{Duration};
use crate::types::{Count, GuidPrefix, InstanceHandle, Locator, ProtocolVersion, VendorId};

verus! {

/// The identifier of a domain.
pub type DomainId = u32;

pub const PID_DOMAIN_ID: u16 = 0x000f;
pub const PID_DOMAIN_TAG: u16 = 0x4014;
pub const PID_PROTOCOL_VERSION: u16 = 0x0015;
pub const PID_VENDOR_ID: u16 = 0x0016;
pub const PID_EXPECTS_INLINE_QOS: u16 = 0x0043;
pub const PID_METATRAFFIC_UNICAST_LOCATOR: u16 = 0x0032;
pub const PID_METATRAFFIC_MULTICAST_LOCATOR: u16 = 0x0033;
pub const PID_DEFAULT_UNICAST_LOCATOR: u16 = 0x0031;
pub const PID_DEFAULT_MULTICAST_LOCATOR: u16 = 0x0048;
pub const PID_BUILTIN_ENDPOINT_SET: u16 = 0x0058;
pub const PID_PARTICIPANT_LEASE_DURATION: u16 = 0x0002;
pub const PID_PARTICIPANT_MANUAL_LIVELINESS_COUNT: u16 = 0x0034;
pub const PID_SENTINEL: u16 = 0x0001;
pub const PID_TOPIC_NAME: u16 = 0x0005;
pub const PID_TYPE_NAME: u16 = 0x0007;

pub const BUILTIN_ENDPOINT_PARTICIPANT_ANNOUNCER: u32 = 1;
pub const BUILTIN_ENDPOINT_PARTICIPANT_DETECTOR: u32 = 2;
pub const BUILTIN_ENDPOINT_PUBLICATIONS_ANNOUNCER: u32 = 4;
pub const BUILTIN_ENDPOINT_PUBLICATIONS_DETECTOR: u32 = 8;
pub const BUILTIN_ENDPOINT_SUBSCRIPTIONS_ANNOUNCER: u32 = 16;
pub const BUILTIN_ENDPOINT_SUBSCRIPTIONS_DETECTOR: u32 = 32;
pub const BUILTIN_ENDPOINT_TOPICS_ANNOUNCER: u32 = 64;
pub const BUILTIN_ENDPOINT_TOPICS_DETECTOR: u32 = 128;

/// The default participant lease where none is announced: one hundred
/// seconds.
pub const DEFAULT_PARTICIPANT_LEASE_SECONDS: i32 = 100;

/// Which endianness a payload is serialized with.
#[derive(Clone, Copy, PartialEq, Eq, Structural, Debug)]
pub enum Endianness {
    BigEndian,
    LittleEndian,
}

impl Endianness {
    /// Whether this is the little-endian encoding.
    pub open spec fn spec_is_le(self) -> bool {
        self == Endianness::LittleEndian
    }

    /// Whether this is the little-endian encoding.
    pub fn is_le(self) -> (r: bool)
        ensures
            r == self.spec_is_le(),
    {
        match self {
            Endianness::LittleEndian => true,
            Endianness::BigEndian => false,
        }
    }
}

/// The set of built-in discovery endpoints a participant advertises, one
/// bit each.
#[derive(Clone, Copy, PartialEq, Eq, Structural, Debug)]
pub struct BuiltInEndpointSet(pub u32);

impl BuiltInEndpointSet {
    pub fn new(value: u32) -> (r: Self)
        ensures
            r.0 == value,
    {
        BuiltInEndpointSet(value)
    }

    /// Whether the endpoint named by the mask is advertised.
    pub fn has(&self, endpoint: u32) -> (r: bool)
        ensures
            r == ((self.0 & endpoint) != 0),
    {
        (self.0 & endpoint) != 0
    }
}

/// What one participant announces about itself: identity, locators, the
/// built-in endpoints it offers, and its lease.
#[derive(Clone, PartialEq, Debug)]
pub struct SPDPdiscoveredParticipantData {
    domain_id: DomainId,
    domain_tag: Vec<u8>,
    protocol_version: ProtocolVersion,
    guid_prefix: GuidPrefix,
    vendor_id: VendorId,
    expects_inline_qos: bool,
    metatraffic_unicast_locator_list: Vec<Locator>,
    metatraffic_multicast_locator_list: Vec<Locator>,
    default_unicast_locator_list: Vec<Locator>,
    default_multicast_locator_list: Vec<Locator>,
    available_built_in_endpoints: BuiltInEndpointSet,
    lease_duration: Duration,
    manual_liveliness_count: Count,
}

/// The mathematical view of an announcement.
pub struct SpdpView {
    pub domain_id: DomainId,
    pub domain_tag: Seq<u8>,
    pub protocol_version: ProtocolVersion,
    pub guid_prefix: GuidPrefix,
    pub vendor_id: VendorId,
    pub expects_inline_qos: bool,
    pub metatraffic_unicast: Seq<Locator>,
    pub metatraffic_multicast: Seq<Locator>,
    pub default_unicast: Seq<Locator>,
    pub default_multicast: Seq<Locator>,
    pub available_built_in_endpoints: BuiltInEndpointSet,
    pub lease_duration: Duration,
    pub manual_liveliness_count: Count,
}

impl SPDPdiscoveredParticipantData {
    /// This announcement as its view.
    pub closed spec fn view_of(self) -> SpdpView {
        SpdpView {
            domain_id: self.domain_id,
            domain_tag: self.domain_tag@,
            protocol_version: self.protocol_version,
            guid_prefix: self.guid_prefix,
            vendor_id: self.vendor_id,
            expects_inline_qos: self.expects_inline_qos,
            metatraffic_unicast: self.metatraffic_unicast_locator_list@,
            metatraffic_multicast: self.metatraffic_multicast_locator_list@,
            default_unicast: self.default_unicast_locator_list@,
            default_multicast: self.default_multicast_locator_list@,
            available_built_in_endpoints: self.available_built_in_endpoints,
            lease_duration: self.lease_duration,
            manual_liveliness_count: self.manual_liveliness_count,
        }
    }

    /// Builds an announcement from its parts.
    pub fn new(
        domain_id: DomainId,
        domain_tag: Vec<u8>,
        protocol_version: ProtocolVersion,
        guid_prefix: GuidPrefix,
        vendor_id: VendorId,
        expects_inline_qos: bool,
        metatraffic_unicast_locator_list: Vec<Locator>,
        metatraffic_multicast_locator_list: Vec<Locator>,
        default_unicast_locator_list: Vec<Locator>,
        default_multicast_locator_list: Vec<Locator>,
        available_built_in_endpoints: BuiltInEndpointSet,
        lease_duration: Duration,
        manual_liveliness_count: Count,
    ) -> (r: Self)
        ensures
            r.view_of() == (SpdpView {
                domain_id,
                domain_tag: domain_tag@,
                protocol_version,
                guid_prefix,
                vendor_id,
                expects_inline_qos,
                metatraffic_unicast: metatraffic_unicast_locator_list@,
                metatraffic_multicast: metatraffic_multicast_locator_list@,
                default_unicast: default_unicast_locator_list@,
                default_multicast: default_multicast_locator_list@,
                available_built_in_endpoints,
                lease_duration,
                manual_liveliness_count,
            }),
    {
        SPDPdiscoveredParticipantData {
            domain_id,
            domain_tag,
            protocol_version,
            guid_prefix,
            vendor_id,
            expects_inline_qos,
            metatraffic_unicast_locator_list,
            metatraffic_multicast_locator_list,
            default_unicast_locator_list,
            default_multicast_locator_list,
            available_built_in_endpoints,
            lease_duration,
            manual_liveliness_count,
        }
    }

    pub fn domain_id(&self) -> (r: DomainId)
        ensures
            r == self.view_of().domain_id,
    {
        self.domain_id
    }

    pub fn domain_tag(&self) -> (r: &Vec<u8>)
        ensures
            r@ == self.view_of().domain_tag,
    {
        &self.domain_tag
    }

    pub fn guid_prefix(&self) -> (r: GuidPrefix)
        ensures
            r == self.view_of().guid_prefix,
    {
        self.guid_prefix
    }

    pub fn expects_inline_qos(&self) -> (r: bool)
        ensures
            r == self.view_of().expects_inline_qos,
    {
        self.expects_inline_qos
    }

    pub fn metatraffic_unicast_locator_list(&self) -> (r: &Vec<Locator>)
        ensures
            r@ == self.view_of().metatraffic_unicast,
    {
        &self.metatraffic_unicast_locator_list
    }

    pub fn metatraffic_multicast_locator_list(&self) -> (r: &Vec<Locator>)
        ensures
            r@ == self.view_of().metatraffic_multicast,
    {
        &self.metatraffic_multicast_locator_list
    }

    pub fn default_unicast_locator_list(&self) -> (r: &Vec<Locator>)
        ensures
            r@ == self.view_of().default_unicast,
    {
        &self.default_unicast_locator_list
    }

    pub fn default_multicast_locator_list(&self) -> (r: &Vec<Locator>)
        ensures
            r@ == self.view_of().default_multicast,
    {
        &self.default_multicast_locator_list
    }

    pub fn available_built_in_endpoints(&self) -> (r: &BuiltInEndpointSet)
        ensures
            *r == self.view_of().available_built_in_endpoints,
    {
        &self.available_built_in_endpoints
    }

    /// The instance key: the participant prefix padded to sixteen octets.
    pub fn key(&self) -> (r: InstanceHandle)
        ensures
            r@ == self.view_of().guid_prefix.0@ + seq![0u8, 0u8, 0u8, 0u8],
    {
        let p = &self.guid_prefix.0;
        let r: InstanceHandle = [
            p[0],
            p[1],
            p[2],
            p[3],
            p[4],
            p[5],
            p[6],
            p[7],
            p[8],
            p[9],
            p[10],
            p[11],
            0,
            0,
            0,
            0,
        ];
        proof {
            assert(r@ =~= self.guid_prefix.0@ + seq![0u8, 0u8, 0u8, 0u8]);
        }
        r
    }
}

/// One parameter: identifier, length, then the value octets.
pub open spec fn spec_spdp_param(pid: u16, value: Seq<u8>, le: bool) -> Seq<u8> {
    spec_u16_bytes(pid, le) + spec_u16_bytes(value.len() as u16, le) + value
}

/// The serialized tag: a length-prefixed, nul-terminated octet string padded
/// to a four-octet boundary.
pub open spec fn spec_tag_value(tag: Seq<u8>, le: bool) -> Seq<u8> {
    spec_u32_bytes((tag.len() + 1) as u32, le) + tag + seq![0u8] + spec_pad_zeros(
        (4 - ((tag.len() + 1) % 4)) % 4,
    )
}

/// A run of zero octets.
pub open spec fn spec_pad_zeros(n: int) -> Seq<u8> {
    Seq::new(n as nat, |i: int| 0u8)
}

/// A serialized locator: kind, port, then the sixteen address octets.
pub open spec fn spec_locator_value(loc: Locator, le: bool) -> Seq<u8> {
    spec_u32_bytes(loc.kind as u32, le) + spec_u32_bytes(loc.port, le) + loc.address@
}

/// A run of locator parameters, all with one identifier.
pub open spec fn spec_locator_params(pid: u16, locs: Seq<Locator>, le: bool) -> Seq<u8>
    decreases locs.len(),
{
    if locs.len() == 0 {
        Seq::empty()
    } else {
        spec_spdp_param(pid, spec_locator_value(locs[0], le), le) + spec_locator_params(
            pid,
            locs.skip(1),
            le,
        )
    }
}

/// Whether the announced lease is the default one.
pub open spec fn spec_lease_is_default(d: Duration) -> bool {
    d.sec == DEFAULT_PARTICIPANT_LEASE_SECONDS && d.nanosec == 0
}

/// The whole serialized announcement, in the chosen endianness.
pub open spec fn spec_spdp_bytes(v: SpdpView, e: Endianness) -> Seq<u8> {
    let le = e.spec_is_le();
    seq![
        0u8,
        if le {
            3u8
        } else {
            2u8
        },
        0u8,
        0u8,
    ] + spec_spdp_param(PID_DOMAIN_ID, spec_u32_bytes(v.domain_id, le), le) + (if v.domain_tag.len()
        > 0 {
        spec_spdp_param(PID_DOMAIN_TAG, spec_tag_value(v.domain_tag, le), le)
    } else {
        Seq::<u8>::empty()
    }) + spec_spdp_param(
        PID_PROTOCOL_VERSION,
        seq![v.protocol_version.major, v.protocol_version.minor, 0u8, 0u8],
        le,
    ) + spec_spdp_param(
        PID_VENDOR_ID,
        seq![v.vendor_id.0[0], v.vendor_id.0[1], 0u8, 0u8],
        le,
    ) + (if v.expects_inline_qos {
        spec_spdp_param(PID_EXPECTS_INLINE_QOS, seq![1u8, 0u8, 0u8, 0u8], le)
    } else {
        Seq::<u8>::empty()
    }) + spec_locator_params(PID_METATRAFFIC_UNICAST_LOCATOR, v.metatraffic_unicast, le)
        + spec_locator_params(PID_METATRAFFIC_MULTICAST_LOCATOR, v.metatraffic_multicast, le)
        + spec_locator_params(PID_DEFAULT_UNICAST_LOCATOR, v.default_unicast, le)
        + spec_locator_params(PID_DEFAULT_MULTICAST_LOCATOR, v.default_multicast, le)
        + spec_spdp_param(
        PID_BUILTIN_ENDPOINT_SET,
        spec_u32_bytes(v.available_built_in_endpoints.0, le),
        le,
    ) + (if !spec_lease_is_default(v.lease_duration) {
        spec_spdp_param(
            PID_PARTICIPANT_LEASE_DURATION,
            spec_u32_bytes(v.lease_duration.sec as u32, le) + spec_u32_bytes(
                v.lease_duration.nanosec,
                le,
            ),
            le,
        )
    } else {
        Seq::<u8>::empty()
    }) + spec_spdp_param(
        PID_PARTICIPANT_MANUAL_LIVELINESS_COUNT,
        spec_u32_bytes(v.manual_liveliness_count.0 as u32, le),
        le,
    ) + spec_u16_bytes(PID_SENTINEL, le) + spec_u16_bytes(0, le)
}

/// Appends one parameter: identifier, length, value.
fn push_param(out: &mut Vec<u8>, pid: u16, value: &Vec<u8>, le: bool)
    requires
        value@.len() <= 0xFFFF,
    ensures
        final(out)@ == old(out)@ + spec_spdp_param(pid, value@, le),
{
    push_u16(out, pid, le);
    push_u16(out, value.len() as u16, le);
    crate::codec::push_bytes(out, value);
    proof {
        assert(out@ =~= old(out)@ + spec_spdp_param(pid, value@, le));
    }
}

/// The serialized form of one locator.
fn locator_value(loc: &Locator, le: bool) -> (r: Vec<u8>)
    ensures
        r@ == spec_locator_value(*loc, le),
{
    let mut r: Vec<u8> = Vec::new();
    let kind_bits: u32 = #[verifier::truncate] (loc.kind() as u32);
    push_u32(&mut r, kind_bits, le);
    push_u32(&mut r, loc.port(), le);
    let address = loc.address();
    let mut i: usize = 0;
    let ghost fixed = r@;
    while i < 16
        invariant
            i <= 16,
            r@ == fixed + address@.take(i as int),
        decreases 16 - i,
    {
        proof {
            assert(address@.take(i + 1) =~= address@.take(i as int).push(address@[i as int]));
            assert(r@.push(address@[i as int]) =~= fixed + address@.take(i + 1));
        }
        r.push(address[i]);
        i = i + 1;
    }
    proof {
        assert(address@.take(16) =~= address@);
        assert(address@ == loc.address@);
        assert(r@ =~= spec_locator_value(*loc, le));
    }
    r
}

/// Appends the locator parameters of one list.
fn push_locator_params(out: &mut Vec<u8>, pid: u16, locs: &Vec<Locator>, le: bool)
    ensures
        final(out)@ == old(out)@ + spec_locator_params(pid, locs@, le),
{
    for i in 0..locs.len()
        invariant
            out@ == old(out)@ + spec_locator_params(pid, locs@.take(i as int), le),
    {
        let ghost before = out@;
        let value = locator_value(&locs[i], le);
        push_param(out, pid, &value, le);
        proof {
            lemma_locator_params_snoc(pid, locs@.take(i + 1), le);
            assert(locs@.take(i + 1).drop_last() =~= locs@.take(i as int));
            assert(locs@.take(i + 1).last() == locs@[i as int]);
            assert(out@ =~= old(out)@ + spec_locator_params(pid, locs@.take(i + 1), le));
        }
    }
    proof {
        assert(locs@.take(locs@.len() as int) =~= locs@);
    }
}

/// A locator run grows one at a time from the back.
proof fn lemma_locator_params_snoc(pid: u16, locs: Seq<Locator>, le: bool)
    requires
        locs.len() > 0,
    ensures
        spec_locator_params(pid, locs, le) == spec_locator_params(pid, locs.drop_last(), le)
            + spec_spdp_param(pid, spec_locator_value(locs.last(), le), le),
    decreases locs.len(),
{
    if locs.len() == 1 {
        assert(locs.skip(1) =~= Seq::<Locator>::empty());
        assert(locs.drop_last() =~= Seq::<Locator>::empty());
        assert(spec_locator_params(pid, locs, le) =~= spec_locator_params(
            pid,
            locs.drop_last(),
            le,
        ) + spec_spdp_param(pid, spec_locator_value(locs.last(), le), le));
    } else {
        lemma_locator_params_snoc(pid, locs.skip(1), le);
        assert(locs.skip(1).drop_last() =~= locs.drop_last().skip(1));
        assert(locs.skip(1).last() == locs.last());
        assert(locs.drop_last()[0] == locs[0]);
        assert(spec_locator_params(pid, locs, le) =~= spec_locator_params(
            pid,
            locs.drop_last(),
            le,
        ) + spec_spdp_param(pid, spec_locator_value(locs.last(), le), le));
    }
}

impl SPDPdiscoveredParticipantData {
    /// Serializes the announcement as a parameter list in the chosen
    /// endianness: the domain identifier leads, default-valued fields are
    /// left out, and the sentinel closes the list.
    #[verifier::rlimit(100)]
    #[verifier::spinoff_prover]
    pub fn data(&self, endianness: Endianness) -> (r: Vec<u8>)
        requires
            self.view_of().domain_tag.len() + 8 <= 0xFFFF,
            self.view_of().metatraffic_unicast.len() < 1000,
            self.view_of().metatraffic_multicast.len() < 1000,
            self.view_of().default_unicast.len() < 1000,
            self.view_of().default_multicast.len() < 1000,
        ensures
            r@ == spec_spdp_bytes(self.view_of(), endianness),
    {
        let le = endianness.is_le();
        let mut out: Vec<u8> = Vec::new();
        out.push(0);
        if le {
            out.push(3);
        } else {
            out.push(2);
        }
        out.push(0);
        out.push(0);
        proof {
            assert(out@ =~= seq![
                0u8,
                if le {
                    3u8
                } else {
                    2u8
                },
                0u8,
                0u8,
            ]);
        }
        let mut domain_value: Vec<u8> = Vec::new();
        push_u32(&mut domain_value, self.domain_id, le);
        push_param(&mut out, PID_DOMAIN_ID, &domain_value, le);
        if self.domain_tag.len() > 0 {
            let mut tag_value: Vec<u8> = Vec::new();
            push_u32(&mut tag_value, (self.domain_tag.len() + 1) as u32, le);
            crate::codec::push_bytes(&mut tag_value, &self.domain_tag);
            tag_value.push(0);
            let pad = (4 - ((self.domain_tag.len() + 1) % 4)) % 4;
            let mut k: usize = 0;
            let ghost unpadded = tag_value@;
            while k < pad
                invariant
                    k <= pad,
                    pad < 4,
                    tag_value@ == unpadded + spec_pad_zeros(k as int),
                decreases pad - k,
            {
                proof {
                    assert(spec_pad_zeros(k + 1) =~= spec_pad_zeros(k as int).push(0u8));
                    assert(tag_value@.push(0u8) =~= unpadded + spec_pad_zeros(k + 1));
                }
                tag_value.push(0);
                k = k + 1;
            }
            proof {
                assert(tag_value@ =~= spec_tag_value(self.view_of().domain_tag, le));
            }
            let ghost before = out@;
            push_param(&mut out, PID_DOMAIN_TAG, &tag_value, le);
        }
        let mut version_value: Vec<u8> = Vec::new();
        version_value.push(self.protocol_version.major());
        version_value.push(self.protocol_version.minor());
        version_value.push(0);
        version_value.push(0);
        proof {
            assert(version_value@ =~= seq![
                self.view_of().protocol_version.major,
                self.view_of().protocol_version.minor,
                0u8,
                0u8,
            ]);
        }
        push_param(&mut out, PID_PROTOCOL_VERSION, &version_value, le);
        let mut vendor_value: Vec<u8> = Vec::new();
        vendor_value.push(self.vendor_id.0[0]);
        vendor_value.push(self.vendor_id.0[1]);
        vendor_value.push(0);
        vendor_value.push(0);
        proof {
            assert(vendor_value@ =~= seq![
                self.view_of().vendor_id.0[0],
                self.view_of().vendor_id.0[1],
                0u8,
                0u8,
            ]);
        }
        push_param(&mut out, PID_VENDOR_ID, &vendor_value, le);
        if self.expects_inline_qos {
            let mut flag_value: Vec<u8> = Vec::new();
            flag_value.push(1);
            flag_value.push(0);
            flag_value.push(0);
            flag_value.push(0);
            proof {
                assert(flag_value@ =~= seq![1u8, 0u8, 0u8, 0u8]);
            }
            push_param(&mut out, PID_EXPECTS_INLINE_QOS, &flag_value, le);
        }
        push_locator_params(
            &mut out,
            PID_METATRAFFIC_UNICAST_LOCATOR,
            &self.metatraffic_unicast_locator_list,
            le,
        );
        push_locator_params(
            &mut out,
            PID_METATRAFFIC_MULTICAST_LOCATOR,
            &self.metatraffic_multicast_locator_list,
            le,
        );
        push_locator_params(
            &mut out,
            PID_DEFAULT_UNICAST_LOCATOR,
            &self.default_unicast_locator_list,
            le,
        );
        push_locator_params(
            &mut out,
            PID_DEFAULT_MULTICAST_LOCATOR,
            &self.default_multicast_locator_list,
            le,
        );
        let mut endpoints_value: Vec<u8> = Vec::new();
        push_u32(&mut endpoints_value, self.available_built_in_endpoints.0, le);
        push_param(&mut out, PID_BUILTIN_ENDPOINT_SET, &endpoints_value, le);
        let lease_default = self.lease_duration.sec() == DEFAULT_PARTICIPANT_LEASE_SECONDS
            && self.lease_duration.nanosec() == 0;
        if !lease_default {
            let mut lease_value: Vec<u8> = Vec::new();
            let sec_bits: u32 = #[verifier::truncate] (self.lease_duration.sec() as u32);
            push_u32(&mut lease_value, sec_bits, le);
            push_u32(&mut lease_value, self.lease_duration.nanosec(), le);
            push_param(&mut out, PID_PARTICIPANT_LEASE_DURATION, &lease_value, le);
        }
        let mut count_value: Vec<u8> = Vec::new();
        let count_bits: u32 = #[verifier::truncate] (self.manual_liveliness_count.0 as u32);
        push_u32(&mut count_value, count_bits, le);
        push_param(&mut out, PID_PARTICIPANT_MANUAL_LIVELINESS_COUNT, &count_value, le);
        push_u16(&mut out, PID_SENTINEL, le);
        push_u16(&mut out, 0, le);
        proof {
            assert(out@ =~= spec_spdp_bytes(self.view_of(), endianness));
        }
        out
    }
}

/// The first value carried under the identifier, if any.
pub open spec fn spec_find(ps: Seq<(u16, Seq<u8>)>, pid: u16) -> Option<Seq<u8>>
    decreases ps.len(),
{
    if ps.len() == 0 {
        None
    } else if ps[0].0 == pid {
        Some(ps[0].1)
    } else {
        spec_find(ps.skip(1), pid)
    }
}

/// Every value carried under the identifier, in order.
pub open spec fn spec_find_all(ps: Seq<(u16, Seq<u8>)>, pid: u16) -> Seq<Seq<u8>>
    decreases ps.len(),
{
    if ps.len() == 0 {
        Seq::empty()
    } else if ps[0].0 == pid {
        seq![ps[0].1] + spec_find_all(ps.skip(1), pid)
    } else {
        spec_find_all(ps.skip(1), pid)
    }
}

/// The locator read from twenty-four value octets.
pub open spec fn spec_locator_of(v: Seq<u8>, le: bool) -> Locator {
    Locator {
        kind: spec_u32_at(v, 0, le) as i32,
        port: spec_u32_at(v, 4, le),
        address: [
            v[8],
            v[9],
            v[10],
            v[11],
            v[12],
            v[13],
            v[14],
            v[15],
            v[16],
            v[17],
            v[18],
            v[19],
            v[20],
            v[21],
            v[22],
            v[23],
        ],
    }
}

/// The locators read from a run of parameter values; a value of the wrong
/// width rejects the payload.
pub open spec fn spec_locators_of(vs: Seq<Seq<u8>>, le: bool) -> Option<Seq<Locator>>
    decreases vs.len(),
{
    if vs.len() == 0 {
        Some(Seq::empty())
    } else if vs[0].len() != 24 {
        None
    } else {
        match spec_locators_of(vs.skip(1), le) {
            Some(rest) => Some(seq![spec_locator_of(vs[0], le)] + rest),
            None => None,
        }
    }
}

/// The announcement read from the parsed parameters, the instance key and
/// the receiver's own domain.
pub open spec fn spec_spdp_from_params(
    ps: Seq<(u16, Seq<u8>)>,
    key: InstanceHandle,
    default_domain_id: DomainId,
    le: bool,
) -> Option<SpdpView> {
    let domain_ok = match spec_find(ps, PID_DOMAIN_ID) {
        Some(v) => v.len() >= 4,
        None => true,
    };
    let tag_ok = match spec_find(ps, PID_DOMAIN_TAG) {
        Some(v) => v.len() >= 4 && 1 <= spec_u32_at(v, 0, le) && 4 + spec_u32_at(v, 0, le)
            <= v.len(),
        None => true,
    };
    let version_ok = match spec_find(ps, PID_PROTOCOL_VERSION) {
        Some(v) => v.len() >= 2,
        None => false,
    };
    let vendor_ok = match spec_find(ps, PID_VENDOR_ID) {
        Some(v) => v.len() >= 2,
        None => false,
    };
    let qos_ok = match spec_find(ps, PID_EXPECTS_INLINE_QOS) {
        Some(v) => v.len() >= 1,
        None => true,
    };
    let endpoints_ok = match spec_find(ps, PID_BUILTIN_ENDPOINT_SET) {
        Some(v) => v.len() >= 4,
        None => false,
    };
    let lease_ok = match spec_find(ps, PID_PARTICIPANT_LEASE_DURATION) {
        Some(v) => v.len() >= 8,
        None => true,
    };
    let count_ok = match spec_find(ps, PID_PARTICIPANT_MANUAL_LIVELINESS_COUNT) {
        Some(v) => v.len() >= 4,
        None => false,
    };
    if !(domain_ok && tag_ok && version_ok && vendor_ok && qos_ok && endpoints_ok && lease_ok
        && count_ok) {
        None
    } else {
        let mu = spec_locators_of(spec_find_all(ps, PID_METATRAFFIC_UNICAST_LOCATOR), le);
        let mm = spec_locators_of(spec_find_all(ps, PID_METATRAFFIC_MULTICAST_LOCATOR), le);
        let du = spec_locators_of(spec_find_all(ps, PID_DEFAULT_UNICAST_LOCATOR), le);
        let dm = spec_locators_of(spec_find_all(ps, PID_DEFAULT_MULTICAST_LOCATOR), le);
        if mu is None || mm is None || du is None || dm is None {
            None
        } else {
            Some(
                SpdpView {
                    domain_id: match spec_find(ps, PID_DOMAIN_ID) {
                        Some(v) => spec_u32_at(v, 0, le),
                        None => default_domain_id,
                    },
                    domain_tag: match spec_find(ps, PID_DOMAIN_TAG) {
                        Some(v) => v.subrange(4, 4 + spec_u32_at(v, 0, le) - 1),
                        None => Seq::empty(),
                    },
                    protocol_version: {
                        let v = spec_find(ps, PID_PROTOCOL_VERSION).unwrap();
                        ProtocolVersion { major: v[0], minor: v[1] }
                    },
                    guid_prefix: GuidPrefix(
                        [
                            key[0],
                            key[1],
                            key[2],
                            key[3],
                            key[4],
                            key[5],
                            key[6],
                            key[7],
                            key[8],
                            key[9],
                            key[10],
                            key[11],
                        ],
                    ),
                    vendor_id: {
                        let v = spec_find(ps, PID_VENDOR_ID).unwrap();
                        VendorId([v[0], v[1]])
                    },
                    expects_inline_qos: match spec_find(ps, PID_EXPECTS_INLINE_QOS) {
                        Some(v) => v[0] == 1,
                        None => false,
                    },
                    metatraffic_unicast: mu.unwrap(),
                    metatraffic_multicast: mm.unwrap(),
                    default_unicast: du.unwrap(),
                    default_multicast: dm.unwrap(),
                    available_built_in_endpoints: BuiltInEndpointSet(
                        spec_u32_at(spec_find(ps, PID_BUILTIN_ENDPOINT_SET).unwrap(), 0, le),
                    ),
                    lease_duration: match spec_find(ps, PID_PARTICIPANT_LEASE_DURATION) {
                        Some(v) => Duration {
                            sec: spec_u32_at(v, 0, le) as i32,
                            nanosec: spec_u32_at(v, 4, le),
                        },
                        None => Duration { sec: DEFAULT_PARTICIPANT_LEASE_SECONDS, nanosec: 0 },
                    },
                    manual_liveliness_count: Count(
                        spec_u32_at(
                            spec_find(ps, PID_PARTICIPANT_MANUAL_LIVELINESS_COUNT).unwrap(),
                            0,
                            le,
                        ) as i32,
                    ),
                },
            )
        }
    }
}

/// The announcement read from a serialized payload and its instance key.
pub open spec fn spec_spdp_parse(
    b: Seq<u8>,
    key: InstanceHandle,
    default_domain_id: DomainId,
) -> Option<SpdpView> {
    if b.len() < 4 {
        None
    } else if !(b[0] == 0 && (b[1] == 2 || b[1] == 3)) {
        None
    } else {
        let le = b[1] == 3;
        match crate::codec::spec_params_at(b, 4, b.len() as int, le) {
            None => None,
            Some((ps, _)) => spec_spdp_from_params(ps, key, default_domain_id, le),
        }
    }
}

/// The identifiers and value octets of a parameter run.
pub open spec fn params_view(ps: Seq<crate::submessage_elements::Parameter>) -> Seq<
    (u16, Seq<u8>),
> {
    ps.map_values(|p: crate::submessage_elements::Parameter| (p.parameter_id, p.value@))
}

/// The first parameter with the identifier, if any.
fn find_param<'a>(
    ps: &'a Vec<crate::submessage_elements::Parameter>,
    pid: u16,
) -> (r: Option<&'a Vec<u8>>)
    ensures
        match r {
            Some(v) => spec_find(params_view(ps@), pid) == Some(v@),
            None => spec_find(params_view(ps@), pid) is None,
        },
{
    let ghost view = params_view(ps@);
    proof {
        assert(view.skip(0) =~= view);
    }
    for i in 0..ps.len()
        invariant
            view == params_view(ps@),
            spec_find(view, pid) == spec_find(view.skip(i as int), pid),
            forall|j: int| 0 <= j < i ==> ps@[j].parameter_id != pid,
    {
        if ps[i].parameter_id == pid {
            proof {
                assert(view.skip(i as int)[0] == view[i as int]);
                assert(view[i as int].0 == pid);
                assert(spec_find(view.skip(i as int), pid) == Some(view[i as int].1));
            }
            return Some(&ps[i].value);
        }
        proof {
            assert(view.skip(i as int)[0] == view[i as int]);
            assert(view[i as int].0 != pid);
            assert(view.skip(i as int).skip(1) =~= view.skip(i + 1));
        }
    }
    proof {
        assert(view.skip(view.len() as int) =~= Seq::<(u16, Seq<u8>)>::empty());
    }
    None
}

/// The locators carried under the identifier, in order; a value of the
/// wrong width rejects the payload.
fn collect_locators(
    ps: &Vec<crate::submessage_elements::Parameter>,
    pid: u16,
    le: bool,
) -> (r: Result<Vec<Locator>, WireError>)
    ensures
        match r {
            Ok(ls) => spec_locators_of(spec_find_all(params_view(ps@), pid), le) == Some(ls@),
            Err(_) => spec_locators_of(spec_find_all(params_view(ps@), pid), le) is None,
        },
{
    let ghost view = params_view(ps@);
    proof {
        assert(view.skip(0) =~= view);
    }
    let mut ls: Vec<Locator> = Vec::new();
    for i in 0..ps.len()
        invariant
            view == params_view(ps@),
            match spec_locators_of(spec_find_all(view.skip(i as int), pid), le) {
                Some(rest) => spec_locators_of(spec_find_all(view, pid), le) == Some(
                    ls@ + rest,
                ),
                None => spec_locators_of(spec_find_all(view, pid), le) is None,
            },
    {
        proof {
            assert(view.skip(i as int)[0] == view[i as int]);
            assert(view.skip(i as int).skip(1) =~= view.skip(i + 1));
        }
        if ps[i].parameter_id == pid {
            let v = &ps[i].value;
            if v.len() != 24 {
                proof {
                    assert(spec_find_all(view.skip(i as int), pid)[0] == view[i as int].1);
                    assert(spec_locators_of(
                        spec_find_all(view.skip(i as int), pid),
                        le,
                    ) is None);
                }
                return Err(WireError::Malformed);
            }
            let kind_bits = crate::codec::read_u32(v, 0, le);
            let kind: i32 = #[verifier::truncate] (kind_bits as i32);
            let port = crate::codec::read_u32(v, 4, le);
            let address: [u8; 16] = [
                v[8],
                v[9],
                v[10],
                v[11],
                v[12],
                v[13],
                v[14],
                v[15],
                v[16],
                v[17],
                v[18],
                v[19],
                v[20],
                v[21],
                v[22],
                v[23],
            ];
            let loc = Locator::new(kind, port, address);
            let ghost before = ls@;
            ls.push(loc);
            proof {
                assert(loc.address =~= spec_locator_of(view[i as int].1, le).address);
                assert(loc == spec_locator_of(view[i as int].1, le));
                assert(spec_find_all(view.skip(i as int), pid) =~= seq![view[i as int].1]
                    + spec_find_all(view.skip(i + 1), pid));
                assert(spec_find_all(view.skip(i as int), pid)[0] == view[i as int].1);
                assert(spec_find_all(view.skip(i as int), pid).skip(1) =~= spec_find_all(
                    view.skip(i + 1),
                    pid,
                ));
                match spec_locators_of(spec_find_all(view.skip(i + 1), pid), le) {
                    Some(rest) => {
                        assert(spec_locators_of(
                            spec_find_all(view.skip(i as int), pid),
                            le,
                        ) == Some(seq![loc] + rest));
                        assert(before + (seq![loc] + rest) =~= ls@ + rest);
                    },
                    None => {
                        assert(spec_locators_of(
                            spec_find_all(view.skip(i as int), pid),
                            le,
                        ) is None);
                    },
                }
            }
        } else {
            proof {
                assert(spec_find_all(view.skip(i as int), pid) == spec_find_all(
                    view.skip(i + 1),
                    pid,
                ));
            }
        }
    }
    proof {
        assert(view.skip(view.len() as int) =~= Seq::<(u16, Seq<u8>)>::empty());
        assert(ls@ + Seq::<Locator>::empty() =~= ls@);
    }
    Ok(ls)
}

impl SPDPdiscoveredParticipantData {
    /// Reads an announcement back from its instance key and serialized
    /// payload; a payload whose required parameters are absent or ill-shaped
    /// is rejected.
    #[verifier::rlimit(100)]
    #[verifier::spinoff_prover]
    pub fn from_key_data(
        key: InstanceHandle,
        data: &Vec<u8>,
        default_domain_id: DomainId,
    ) -> (r: Result<Self, WireError>)
        ensures
            match r {
                Ok(v) => spec_spdp_parse(data@, key, default_domain_id) == Some(v.view_of()),
                Err(_) => spec_spdp_parse(data@, key, default_domain_id) is None,
            },
    {
        if data.len() < 4 {
            return Err(WireError::Truncated);
        }
        if !(data[0] == 0 && (data[1] == 2 || data[1] == 3)) {
            return Err(WireError::Malformed);
        }
        let le = data[1] == 3;
        let ps = match crate::codec::parse_params(data, 4, data.len(), le) {
            Ok((ps, _)) => ps,
            Err(err) => {
                return Err(err);
            },
        };
        let ghost view = params_view(ps@);
        proof {
            assert(ps@.map_values(
                |p: crate::submessage_elements::Parameter| (p.parameter_id, p.value@),
            ) =~= view);
        }
        let domain_id = match find_param(&ps, PID_DOMAIN_ID) {
            Some(v) => {
                if v.len() < 4 {
                    return Err(WireError::Malformed);
                }
                crate::codec::read_u32(v, 0, le)
            },
            None => default_domain_id,
        };
        let domain_tag: Vec<u8> = match find_param(&ps, PID_DOMAIN_TAG) {
            Some(v) => {
                if v.len() < 4 {
                    return Err(WireError::Malformed);
                }
                let slen = crate::codec::read_u32(v, 0, le);
                if slen == 0 || slen as usize > v.len() - 4 {
                    return Err(WireError::Malformed);
                }
                crate::codec::copy_range(v, 4, 4 + (slen - 1) as usize)
            },
            None => Vec::new(),
        };
        let protocol_version = match find_param(&ps, PID_PROTOCOL_VERSION) {
            Some(v) => {
                if v.len() < 2 {
                    return Err(WireError::Malformed);
                }
                ProtocolVersion::new(v[0], v[1])
            },
            None => {
                return Err(WireError::Malformed);
            },
        };
        let vendor_id = match find_param(&ps, PID_VENDOR_ID) {
            Some(v) => {
                if v.len() < 2 {
                    return Err(WireError::Malformed);
                }
                VendorId::new([v[0], v[1]])
            },
            None => {
                return Err(WireError::Malformed);
            },
        };
        let expects_inline_qos = match find_param(&ps, PID_EXPECTS_INLINE_QOS) {
            Some(v) => {
                if v.len() < 1 {
                    return Err(WireError::Malformed);
                }
                v[0] == 1
            },
            None => false,
        };
        let metatraffic_unicast_locator_list = match collect_locators(
            &ps,
            PID_METATRAFFIC_UNICAST_LOCATOR,
            le,
        ) {
            Ok(ls) => ls,
            Err(err) => {
                return Err(err);
            },
        };
        let metatraffic_multicast_locator_list = match collect_locators(
            &ps,
            PID_METATRAFFIC_MULTICAST_LOCATOR,
            le,
        ) {
            Ok(ls) => ls,
            Err(err) => {
                return Err(err);
            },
        };
        let default_unicast_locator_list = match collect_locators(
            &ps,
            PID_DEFAULT_UNICAST_LOCATOR,
            le,
        ) {
            Ok(ls) => ls,
            Err(err) => {
                return Err(err);
            },
        };
        let default_multicast_locator_list = match collect_locators(
            &ps,
            PID_DEFAULT_MULTICAST_LOCATOR,
            le,
        ) {
            Ok(ls) => ls,
            Err(err) => {
                return Err(err);
            },
        };
        let available_built_in_endpoints = match find_param(&ps, PID_BUILTIN_ENDPOINT_SET) {
            Some(v) => {
                if v.len() < 4 {
                    return Err(WireError::Malformed);
                }
                BuiltInEndpointSet::new(crate::codec::read_u32(v, 0, le))
            },
            None => {
                return Err(WireError::Malformed);
            },
        };
        let lease_duration = match find_param(&ps, PID_PARTICIPANT_LEASE_DURATION) {
            Some(v) => {
                if v.len() < 8 {
                    return Err(WireError::Malformed);
                }
                let sec_bits = crate::codec::read_u32(v, 0, le);
                let sec: i32 = #[verifier::truncate] (sec_bits as i32);
                Duration { sec, nanosec: crate::codec::read_u32(v, 4, le) }
            },
            None => Duration { sec: DEFAULT_PARTICIPANT_LEASE_SECONDS, nanosec: 0 },
        };
        let manual_liveliness_count = match find_param(
            &ps,
            PID_PARTICIPANT_MANUAL_LIVELINESS_COUNT,
        ) {
            Some(v) => {
                if v.len() < 4 {
                    return Err(WireError::Malformed);
                }
                let bits = crate::codec::read_u32(v, 0, le);
                let value: i32 = #[verifier::truncate] (bits as i32);
                Count(value)
            },
            None => {
                return Err(WireError::Malformed);
            },
        };
        let guid_prefix = GuidPrefix::new(
            [
                key[0],
                key[1],
                key[2],
                key[3],
                key[4],
                key[5],
                key[6],
                key[7],
                key[8],
                key[9],
                key[10],
                key[11],
            ],
        );
        let result = SPDPdiscoveredParticipantData {
            domain_id,
            domain_tag,
            protocol_version,
            guid_prefix,
            vendor_id,
            expects_inline_qos,
            metatraffic_unicast_locator_list,
            metatraffic_multicast_locator_list,
            default_unicast_locator_list,
            default_multicast_locator_list,
            available_built_in_endpoints,
            lease_duration,
            manual_liveliness_count,
        };
        proof {
            let parsed = spec_spdp_from_params(view, key, default_domain_id, le);
            match parsed {
                Some(pv) => {
                    assert(result.view_of().guid_prefix.0 =~= pv.guid_prefix.0);
                    assert(result.view_of().vendor_id.0 =~= pv.vendor_id.0);
                    assert(result.view_of().domain_tag =~= pv.domain_tag);
                    assert(result.view_of() == pv);
                },
                None => {
                    assert(false);
                },
            }
        }
        Ok(result)
    }
}

/// The entity id of the SEDP publications announcer.
pub fn entityid_sedp_builtin_publications_announcer() -> (r: crate::types::EntityId)
    ensures
        r.entity_key == [0u8, 0u8, 3u8] && r.entity_kind
            == crate::types::EntityKind::BuiltInWriterWithKey,
{
    crate::types::EntityId::new([0, 0, 3], crate::types::EntityKind::BuiltInWriterWithKey)
}

/// The entity id of the SEDP publications detector.
pub fn entityid_sedp_builtin_publications_detector() -> (r: crate::types::EntityId)
    ensures
        r.entity_key == [0u8, 0u8, 3u8] && r.entity_kind
            == crate::types::EntityKind::BuiltInReaderWithKey,
{
    crate::types::EntityId::new([0, 0, 3], crate::types::EntityKind::BuiltInReaderWithKey)
}

/// The entity id of the SEDP subscriptions announcer.
pub fn entityid_sedp_builtin_subscriptions_announcer() -> (r: crate::types::EntityId)
    ensures
        r.entity_key == [0u8, 0u8, 4u8] && r.entity_kind
            == crate::types::EntityKind::BuiltInWriterWithKey,
{
    crate::types::EntityId::new([0, 0, 4], crate::types::EntityKind::BuiltInWriterWithKey)
}

/// The entity id of the SEDP subscriptions detector.
pub fn entityid_sedp_builtin_subscriptions_detector() -> (r: crate::types::EntityId)
    ensures
        r.entity_key == [0u8, 0u8, 4u8] && r.entity_kind
            == crate::types::EntityKind::BuiltInReaderWithKey,
{
    crate::types::EntityId::new([0, 0, 4], crate::types::EntityKind::BuiltInReaderWithKey)
}

/// The entity id of the SEDP topics announcer.
pub fn entityid_sedp_builtin_topics_announcer() -> (r: crate::types::EntityId)
    ensures
        r.entity_key == [0u8, 0u8, 2u8] && r.entity_kind
            == crate::types::EntityKind::BuiltInWriterWithKey,
{
    crate::types::EntityId::new([0, 0, 2], crate::types::EntityKind::BuiltInWriterWithKey)
}

/// The entity id of the SEDP topics detector.
pub fn entityid_sedp_builtin_topics_detector() -> (r: crate::types::EntityId)
    ensures
        r.entity_key == [0u8, 0u8, 2u8] && r.entity_kind
            == crate::types::EntityKind::BuiltInReaderWithKey,
{
    crate::types::EntityId::new([0, 0, 2], crate::types::EntityKind::BuiltInReaderWithKey)
}

/// The six built-in endpoint-discovery endpoints a participant drives: one
/// announcing writer and one detecting reader each for publications,
/// subscriptions and topics.
pub struct SedpBuiltinEndpoints {
    pub sedp_builtin_publications_writer: crate::stateful_writer::StatefulWriter,
    pub sedp_builtin_publications_reader: crate::stateful_reader::StatefulReader,
    pub sedp_builtin_subscriptions_writer: crate::stateful_writer::StatefulWriter,
    pub sedp_builtin_subscriptions_reader: crate::stateful_reader::StatefulReader,
    pub sedp_builtin_topics_writer: crate::stateful_writer::StatefulWriter,
    pub sedp_builtin_topics_reader: crate::stateful_reader::StatefulReader,
}

impl SedpBuiltinEndpoints {
    /// All six endpoints are well formed.
    pub open spec fn wf(self) -> bool {
        &&& self.sedp_builtin_publications_writer.wf()
        &&& self.sedp_builtin_publications_reader.wf()
        &&& self.sedp_builtin_subscriptions_writer.wf()
        &&& self.sedp_builtin_subscriptions_reader.wf()
        &&& self.sedp_builtin_topics_writer.wf()
        &&& self.sedp_builtin_topics_reader.wf()
    }
}

/// The GUID of one of a participant's built-in SEDP endpoints: the prefix
/// with the fixed entity key and kind of that endpoint.
pub open spec fn spec_sedp_guid(
    prefix: GuidPrefix,
    key: u8,
    kind: crate::types::EntityKind,
) -> crate::types::Guid {
    crate::types::Guid {
        prefix,
        entity_id: crate::types::EntityId { entity_key: [0u8, 0u8, key], entity_kind: kind },
    }
}

/// Whether the local writer holds a reader proxy under the GUID carrying
/// the discovered participant's metatraffic locators and QoS expectation.
pub open spec fn spec_matched_reader_for(
    w: crate::stateful_writer::StatefulWriter,
    g: crate::types::Guid,
    d: SpdpView,
) -> bool {
    &&& w.has_matched_reader(g)
    &&& w.spec_proxy_with(g).spec_unicast() == d.metatraffic_unicast
    &&& w.spec_proxy_with(g).spec_multicast() == d.metatraffic_multicast
    &&& w.spec_proxy_with(g).spec_expects_inline_qos() == d.expects_inline_qos
}

/// Whether the local reader holds a writer proxy under the GUID carrying
/// the discovered participant's metatraffic locators.
pub open spec fn spec_matched_writer_for(
    r: crate::stateful_reader::StatefulReader,
    g: crate::types::Guid,
    d: SpdpView,
) -> bool {
    &&& r.has_matched_writer(g)
    &&& r.spec_proxy_with(g).spec_unicast() == d.metatraffic_unicast
    &&& r.spec_proxy_with(g).spec_multicast() == d.metatraffic_multicast
}

/// Whether the discovered participant names this domain and domain tag.
pub open spec fn spec_same_domain(v: SpdpView, local_domain_id: DomainId, tag: Seq<u8>) -> bool {
    v.domain_id == local_domain_id && v.domain_tag == tag
}

/// Matches the discovered participant's advertised built-in endpoints with
/// the local SEDP endpoints: for each advertised detector the local writer
/// gains a reader proxy, and for each advertised announcer the local reader
/// gains a writer proxy. A participant of another domain, or with another
/// domain tag, is left unmatched.
pub fn add_discovered_participant(
    endpoints: &mut SedpBuiltinEndpoints,
    local_domain_id: DomainId,
    local_domain_tag: &Vec<u8>,
    discovered_participant: &SPDPdiscoveredParticipantData,
)
    requires
        old(endpoints).wf(),
    ensures
        final(endpoints).wf(),
        !spec_same_domain(discovered_participant.view_of(), local_domain_id, local_domain_tag@) ==> *final(endpoints) == *old(endpoints),
        (spec_same_domain(discovered_participant.view_of(), local_domain_id, local_domain_tag@) && (discovered_participant.view_of().available_built_in_endpoints.0
            & BUILTIN_ENDPOINT_PUBLICATIONS_DETECTOR) != 0) ==> spec_matched_reader_for(
            final(endpoints).sedp_builtin_publications_writer,
            spec_sedp_guid(discovered_participant.view_of().guid_prefix, 3u8, crate::types::EntityKind::BuiltInReaderWithKey),
            discovered_participant.view_of(),
        ),
        (spec_same_domain(discovered_participant.view_of(), local_domain_id, local_domain_tag@) && (discovered_participant.view_of().available_built_in_endpoints.0
            & BUILTIN_ENDPOINT_PUBLICATIONS_DETECTOR) == 0) ==> final(endpoints).sedp_builtin_publications_writer == old(endpoints).sedp_builtin_publications_writer,
        spec_same_domain(discovered_participant.view_of(), local_domain_id, local_domain_tag@) ==> forall|p: crate::stateful_writer::ReaderProxy| #![auto]
            old(endpoints).sedp_builtin_publications_writer.spec_matched_readers().contains(p) && p.spec_guid()
                != spec_sedp_guid(discovered_participant.view_of().guid_prefix, 3u8, crate::types::EntityKind::BuiltInReaderWithKey) ==> final(endpoints).sedp_builtin_publications_writer.spec_matched_readers().contains(p),
        final(endpoints).sedp_builtin_publications_writer.spec_guid() == old(endpoints).sedp_builtin_publications_writer.spec_guid(),
        final(endpoints).sedp_builtin_publications_writer.spec_cache() == old(endpoints).sedp_builtin_publications_writer.spec_cache(),
        (spec_same_domain(discovered_participant.view_of(), local_domain_id, local_domain_tag@) && (discovered_participant.view_of().available_built_in_endpoints.0
            & BUILTIN_ENDPOINT_PUBLICATIONS_ANNOUNCER) != 0) ==> spec_matched_writer_for(
            final(endpoints).sedp_builtin_publications_reader,
            spec_sedp_guid(discovered_participant.view_of().guid_prefix, 3u8, crate::types::EntityKind::BuiltInWriterWithKey),
            discovered_participant.view_of(),
        ),
        (spec_same_domain(discovered_participant.view_of(), local_domain_id, local_domain_tag@) && (discovered_participant.view_of().available_built_in_endpoints.0
            & BUILTIN_ENDPOINT_PUBLICATIONS_ANNOUNCER) == 0) ==> final(endpoints).sedp_builtin_publications_reader == old(endpoints).sedp_builtin_publications_reader,
        spec_same_domain(discovered_participant.view_of(), local_domain_id, local_domain_tag@) ==> forall|p: crate::stateful_reader::WriterProxy| #![auto]
            old(endpoints).sedp_builtin_publications_reader.spec_matched_writers().contains(p) && p.spec_guid()
                != spec_sedp_guid(discovered_participant.view_of().guid_prefix, 3u8, crate::types::EntityKind::BuiltInWriterWithKey) ==> final(endpoints).sedp_builtin_publications_reader.spec_matched_writers().contains(p),
        final(endpoints).sedp_builtin_publications_reader.spec_guid() == old(endpoints).sedp_builtin_publications_reader.spec_guid(),
        final(endpoints).sedp_builtin_publications_reader.spec_cache() == old(endpoints).sedp_builtin_publications_reader.spec_cache(),
        (spec_same_domain(discovered_participant.view_of(), local_domain_id, local_domain_tag@) && (discovered_participant.view_of().available_built_in_endpoints.0
            & BUILTIN_ENDPOINT_SUBSCRIPTIONS_DETECTOR) != 0) ==> spec_matched_reader_for(
            final(endpoints).sedp_builtin_subscriptions_writer,
            spec_sedp_guid(discovered_participant.view_of().guid_prefix, 4u8, crate::types::EntityKind::BuiltInReaderWithKey),
            discovered_participant.view_of(),
        ),
        (spec_same_domain(discovered_participant.view_of(), local_domain_id, local_domain_tag@) && (discovered_participant.view_of().available_built_in_endpoints.0
            & BUILTIN_ENDPOINT_SUBSCRIPTIONS_DETECTOR) == 0) ==> final(endpoints).sedp_builtin_subscriptions_writer == old(endpoints).sedp_builtin_subscriptions_writer,
        spec_same_domain(discovered_participant.view_of(), local_domain_id, local_domain_tag@) ==> forall|p: crate::stateful_writer::ReaderProxy| #![auto]
            old(endpoints).sedp_builtin_subscriptions_writer.spec_matched_readers().contains(p) && p.spec_guid()
                != spec_sedp_guid(discovered_participant.view_of().guid_prefix, 4u8, crate::types::EntityKind::BuiltInReaderWithKey) ==> final(endpoints).sedp_builtin_subscriptions_writer.spec_matched_readers().contains(p),
        final(endpoints).sedp_builtin_subscriptions_writer.spec_guid() == old(endpoints).sedp_builtin_subscriptions_writer.spec_guid(),
        final(endpoints).sedp_builtin_subscriptions_writer.spec_cache() == old(endpoints).sedp_builtin_subscriptions_writer.spec_cache(),
        (spec_same_domain(discovered_participant.view_of(), local_domain_id, local_domain_tag@) && (discovered_participant.view_of().available_built_in_endpoints.0
            & BUILTIN_ENDPOINT_SUBSCRIPTIONS_ANNOUNCER) != 0) ==> spec_matched_writer_for(
            final(endpoints).sedp_builtin_subscriptions_reader,
            spec_sedp_guid(discovered_participant.view_of().guid_prefix, 4u8, crate::types::EntityKind::BuiltInWriterWithKey),
            discovered_participant.view_of(),
        ),
        (spec_same_domain(discovered_participant.view_of(), local_domain_id, local_domain_tag@) && (discovered_participant.view_of().available_built_in_endpoints.0
            & BUILTIN_ENDPOINT_SUBSCRIPTIONS_ANNOUNCER) == 0) ==> final(endpoints).sedp_builtin_subscriptions_reader == old(endpoints).sedp_builtin_subscriptions_reader,
        spec_same_domain(discovered_participant.view_of(), local_domain_id, local_domain_tag@) ==> forall|p: crate::stateful_reader::WriterProxy| #![auto]
            old(endpoints).sedp_builtin_subscriptions_reader.spec_matched_writers().contains(p) && p.spec_guid()
                != spec_sedp_guid(discovered_participant.view_of().guid_prefix, 4u8, crate::types::EntityKind::BuiltInWriterWithKey) ==> final(endpoints).sedp_builtin_subscriptions_reader.spec_matched_writers().contains(p),
        final(endpoints).sedp_builtin_subscriptions_reader.spec_guid() == old(endpoints).sedp_builtin_subscriptions_reader.spec_guid(),
        final(endpoints).sedp_builtin_subscriptions_reader.spec_cache() == old(endpoints).sedp_builtin_subscriptions_reader.spec_cache(),
        (spec_same_domain(discovered_participant.view_of(), local_domain_id, local_domain_tag@) && (discovered_participant.view_of().available_built_in_endpoints.0
            & BUILTIN_ENDPOINT_TOPICS_DETECTOR) != 0) ==> spec_matched_reader_for(
            final(endpoints).sedp_builtin_topics_writer,
            spec_sedp_guid(discovered_participant.view_of().guid_prefix, 2u8, crate::types::EntityKind::BuiltInReaderWithKey),
            discovered_participant.view_of(),
        ),
        (spec_same_domain(discovered_participant.view_of(), local_domain_id, local_domain_tag@) && (discovered_participant.view_of().available_built_in_endpoints.0
            & BUILTIN_ENDPOINT_TOPICS_DETECTOR) == 0) ==> final(endpoints).sedp_builtin_topics_writer == old(endpoints).sedp_builtin_topics_writer,
        spec_same_domain(discovered_participant.view_of(), local_domain_id, local_domain_tag@) ==> forall|p: crate::stateful_writer::ReaderProxy| #![auto]
            old(endpoints).sedp_builtin_topics_writer.spec_matched_readers().contains(p) && p.spec_guid()
                != spec_sedp_guid(discovered_participant.view_of().guid_prefix, 2u8, crate::types::EntityKind::BuiltInReaderWithKey) ==> final(endpoints).sedp_builtin_topics_writer.spec_matched_readers().contains(p),
        final(endpoints).sedp_builtin_topics_writer.spec_guid() == old(endpoints).sedp_builtin_topics_writer.spec_guid(),
        final(endpoints).sedp_builtin_topics_writer.spec_cache() == old(endpoints).sedp_builtin_topics_writer.spec_cache(),
        (spec_same_domain(discovered_participant.view_of(), local_domain_id, local_domain_tag@) && (discovered_participant.view_of().available_built_in_endpoints.0
            & BUILTIN_ENDPOINT_TOPICS_ANNOUNCER) != 0) ==> spec_matched_writer_for(
            final(endpoints).sedp_builtin_topics_reader,
            spec_sedp_guid(discovered_participant.view_of().guid_prefix, 2u8, crate::types::EntityKind::BuiltInWriterWithKey),
            discovered_participant.view_of(),
        ),
        (spec_same_domain(discovered_participant.view_of(), local_domain_id, local_domain_tag@) && (discovered_participant.view_of().available_built_in_endpoints.0
            & BUILTIN_ENDPOINT_TOPICS_ANNOUNCER) == 0) ==> final(endpoints).sedp_builtin_topics_reader == old(endpoints).sedp_builtin_topics_reader,
        spec_same_domain(discovered_participant.view_of(), local_domain_id, local_domain_tag@) ==> forall|p: crate::stateful_reader::WriterProxy| #![auto]
            old(endpoints).sedp_builtin_topics_reader.spec_matched_writers().contains(p) && p.spec_guid()
                != spec_sedp_guid(discovered_participant.view_of().guid_prefix, 2u8, crate::types::EntityKind::BuiltInWriterWithKey) ==> final(endpoints).sedp_builtin_topics_reader.spec_matched_writers().contains(p),
        final(endpoints).sedp_builtin_topics_reader.spec_guid() == old(endpoints).sedp_builtin_topics_reader.spec_guid(),
        final(endpoints).sedp_builtin_topics_reader.spec_cache() == old(endpoints).sedp_builtin_topics_reader.spec_cache(),
{
    if discovered_participant.domain_id() != local_domain_id {
        return ;
    }
    let tags_equal = bytes_vec_eq(discovered_participant.domain_tag(), local_domain_tag);
    if !tags_equal {
        return ;
    }
    let prefix = discovered_participant.guid_prefix();
    if discovered_participant.available_built_in_endpoints().has(
        BUILTIN_ENDPOINT_PUBLICATIONS_DETECTOR,
    ) {
        let guid = crate::types::Guid::new(prefix, entityid_sedp_builtin_publications_detector());
        let proxy = crate::stateful_writer::ReaderProxy::new(
            guid,
            clone_locators(discovered_participant.metatraffic_unicast_locator_list()),
            clone_locators(discovered_participant.metatraffic_multicast_locator_list()),
            discovered_participant.expects_inline_qos(),
            true,
        );
        let ghost gp = proxy;
        endpoints.sedp_builtin_publications_writer.matched_reader_add(proxy);
        proof {
            endpoints.sedp_builtin_publications_writer.lemma_proxy_with_is(gp);
            assert(guid == spec_sedp_guid(
                discovered_participant.view_of().guid_prefix,
                3u8,
                crate::types::EntityKind::BuiltInReaderWithKey,
            ));
        }
    }
    if discovered_participant.available_built_in_endpoints().has(
        BUILTIN_ENDPOINT_PUBLICATIONS_ANNOUNCER,
    ) {
        let guid = crate::types::Guid::new(
            prefix,
            entityid_sedp_builtin_publications_announcer(),
        );
        let proxy = crate::stateful_reader::WriterProxy::new(
            guid,
            clone_locators(discovered_participant.metatraffic_unicast_locator_list()),
            clone_locators(discovered_participant.metatraffic_multicast_locator_list()),
        );
        let ghost gp = proxy;
        endpoints.sedp_builtin_publications_reader.matched_writer_add(proxy);
        proof {
            endpoints.sedp_builtin_publications_reader.lemma_proxy_with_is(gp);
            assert(guid == spec_sedp_guid(
                discovered_participant.view_of().guid_prefix,
                3u8,
                crate::types::EntityKind::BuiltInWriterWithKey,
            ));
        }
    }
    if discovered_participant.available_built_in_endpoints().has(
        BUILTIN_ENDPOINT_SUBSCRIPTIONS_DETECTOR,
    ) {
        let guid = crate::types::Guid::new(
            prefix,
            entityid_sedp_builtin_subscriptions_detector(),
        );
        let proxy = crate::stateful_writer::ReaderProxy::new(
            guid,
            clone_locators(discovered_participant.metatraffic_unicast_locator_list()),
            clone_locators(discovered_participant.metatraffic_multicast_locator_list()),
            discovered_participant.expects_inline_qos(),
            true,
        );
        let ghost gp = proxy;
        endpoints.sedp_builtin_subscriptions_writer.matched_reader_add(proxy);
        proof {
            endpoints.sedp_builtin_subscriptions_writer.lemma_proxy_with_is(gp);
            assert(guid == spec_sedp_guid(
                discovered_participant.view_of().guid_prefix,
                4u8,
                crate::types::EntityKind::BuiltInReaderWithKey,
            ));
        }
    }
    if discovered_participant.available_built_in_endpoints().has(
        BUILTIN_ENDPOINT_SUBSCRIPTIONS_ANNOUNCER,
    ) {
        let guid = crate::types::Guid::new(
            prefix,
            entityid_sedp_builtin_subscriptions_announcer(),
        );
        let proxy = crate::stateful_reader::WriterProxy::new(
            guid,
            clone_locators(discovered_participant.metatraffic_unicast_locator_list()),
            clone_locators(discovered_participant.metatraffic_multicast_locator_list()),
        );
        let ghost gp = proxy;
        endpoints.sedp_builtin_subscriptions_reader.matched_writer_add(proxy);
        proof {
            endpoints.sedp_builtin_subscriptions_reader.lemma_proxy_with_is(gp);
            assert(guid == spec_sedp_guid(
                discovered_participant.view_of().guid_prefix,
                4u8,
                crate::types::EntityKind::BuiltInWriterWithKey,
            ));
        }
    }
    if discovered_participant.available_built_in_endpoints().has(
        BUILTIN_ENDPOINT_TOPICS_DETECTOR,
    ) {
        let guid = crate::types::Guid::new(prefix, entityid_sedp_builtin_topics_detector());
        let proxy = crate::stateful_writer::ReaderProxy::new(
            guid,
            clone_locators(discovered_participant.metatraffic_unicast_locator_list()),
            clone_locators(discovered_participant.metatraffic_multicast_locator_list()),
            discovered_participant.expects_inline_qos(),
            true,
        );
        let ghost gp = proxy;
        endpoints.sedp_builtin_topics_writer.matched_reader_add(proxy);
        proof {
            endpoints.sedp_builtin_topics_writer.lemma_proxy_with_is(gp);
            assert(guid == spec_sedp_guid(
                discovered_participant.view_of().guid_prefix,
                2u8,
                crate::types::EntityKind::BuiltInReaderWithKey,
            ));
        }
    }
    if discovered_participant.available_built_in_endpoints().has(
        BUILTIN_ENDPOINT_TOPICS_ANNOUNCER,
    ) {
        let guid = crate::types::Guid::new(prefix, entityid_sedp_builtin_topics_announcer());
        let proxy = crate::stateful_reader::WriterProxy::new(
            guid,
            clone_locators(discovered_participant.metatraffic_unicast_locator_list()),
            clone_locators(discovered_participant.metatraffic_multicast_locator_list()),
        );
        let ghost gp = proxy;
        endpoints.sedp_builtin_topics_reader.matched_writer_add(proxy);
        proof {
            endpoints.sedp_builtin_topics_reader.lemma_proxy_with_is(gp);
            assert(guid == spec_sedp_guid(
                discovered_participant.view_of().guid_prefix,
                2u8,
                crate::types::EntityKind::BuiltInWriterWithKey,
            ));
        }
    }
}

/// Tears down the six proxies of a previously discovered participant.
pub fn remove_discovered_participant(
    endpoints: &mut SedpBuiltinEndpoints,
    remote_participant_guid_prefix: GuidPrefix,
)
    requires
        old(endpoints).wf(),
    ensures
        final(endpoints).wf(),
        !final(endpoints).sedp_builtin_publications_writer.has_matched_reader(
            spec_sedp_guid(remote_participant_guid_prefix, 3u8, crate::types::EntityKind::BuiltInReaderWithKey),
        ),
        forall|p: crate::stateful_writer::ReaderProxy| #![auto]
            old(endpoints).sedp_builtin_publications_writer.spec_matched_readers().contains(p) && p.spec_guid()
                != spec_sedp_guid(remote_participant_guid_prefix, 3u8, crate::types::EntityKind::BuiltInReaderWithKey) ==> final(endpoints).sedp_builtin_publications_writer.spec_matched_readers().contains(p),
        final(endpoints).sedp_builtin_publications_writer.spec_guid() == old(endpoints).sedp_builtin_publications_writer.spec_guid(),
        final(endpoints).sedp_builtin_publications_writer.spec_cache() == old(endpoints).sedp_builtin_publications_writer.spec_cache(),
        !final(endpoints).sedp_builtin_publications_reader.has_matched_writer(
            spec_sedp_guid(remote_participant_guid_prefix, 3u8, crate::types::EntityKind::BuiltInWriterWithKey),
        ),
        forall|p: crate::stateful_reader::WriterProxy| #![auto]
            old(endpoints).sedp_builtin_publications_reader.spec_matched_writers().contains(p) && p.spec_guid()
                != spec_sedp_guid(remote_participant_guid_prefix, 3u8, crate::types::EntityKind::BuiltInWriterWithKey) ==> final(endpoints).sedp_builtin_publications_reader.spec_matched_writers().contains(p),
        final(endpoints).sedp_builtin_publications_reader.spec_guid() == old(endpoints).sedp_builtin_publications_reader.spec_guid(),
        final(endpoints).sedp_builtin_publications_reader.spec_cache() == old(endpoints).sedp_builtin_publications_reader.spec_cache(),
        !final(endpoints).sedp_builtin_subscriptions_writer.has_matched_reader(
            spec_sedp_guid(remote_participant_guid_prefix, 4u8, crate::types::EntityKind::BuiltInReaderWithKey),
        ),
        forall|p: crate::stateful_writer::ReaderProxy| #![auto]
            old(endpoints).sedp_builtin_subscriptions_writer.spec_matched_readers().contains(p) && p.spec_guid()
                != spec_sedp_guid(remote_participant_guid_prefix, 4u8, crate::types::EntityKind::BuiltInReaderWithKey) ==> final(endpoints).sedp_builtin_subscriptions_writer.spec_matched_readers().contains(p),
        final(endpoints).sedp_builtin_subscriptions_writer.spec_guid() == old(endpoints).sedp_builtin_subscriptions_writer.spec_guid(),
        final(endpoints).sedp_builtin_subscriptions_writer.spec_cache() == old(endpoints).sedp_builtin_subscriptions_writer.spec_cache(),
        !final(endpoints).sedp_builtin_subscriptions_reader.has_matched_writer(
            spec_sedp_guid(remote_participant_guid_prefix, 4u8, crate::types::EntityKind::BuiltInWriterWithKey),
        ),
        forall|p: crate::stateful_reader::WriterProxy| #![auto]
            old(endpoints).sedp_builtin_subscriptions_reader.spec_matched_writers().contains(p) && p.spec_guid()
                != spec_sedp_guid(remote_participant_guid_prefix, 4u8, crate::types::EntityKind::BuiltInWriterWithKey) ==> final(endpoints).sedp_builtin_subscriptions_reader.spec_matched_writers().contains(p),
        final(endpoints).sedp_builtin_subscriptions_reader.spec_guid() == old(endpoints).sedp_builtin_subscriptions_reader.spec_guid(),
        final(endpoints).sedp_builtin_subscriptions_reader.spec_cache() == old(endpoints).sedp_builtin_subscriptions_reader.spec_cache(),
        !final(endpoints).sedp_builtin_topics_writer.has_matched_reader(
            spec_sedp_guid(remote_participant_guid_prefix, 2u8, crate::types::EntityKind::BuiltInReaderWithKey),
        ),
        forall|p: crate::stateful_writer::ReaderProxy| #![auto]
            old(endpoints).sedp_builtin_topics_writer.spec_matched_readers().contains(p) && p.spec_guid()
                != spec_sedp_guid(remote_participant_guid_prefix, 2u8, crate::types::EntityKind::BuiltInReaderWithKey) ==> final(endpoints).sedp_builtin_topics_writer.spec_matched_readers().contains(p),
        final(endpoints).sedp_builtin_topics_writer.spec_guid() == old(endpoints).sedp_builtin_topics_writer.spec_guid(),
        final(endpoints).sedp_builtin_topics_writer.spec_cache() == old(endpoints).sedp_builtin_topics_writer.spec_cache(),
        !final(endpoints).sedp_builtin_topics_reader.has_matched_writer(
            spec_sedp_guid(remote_participant_guid_prefix, 2u8, crate::types::EntityKind::BuiltInWriterWithKey),
        ),
        forall|p: crate::stateful_reader::WriterProxy| #![auto]
            old(endpoints).sedp_builtin_topics_reader.spec_matched_writers().contains(p) && p.spec_guid()
                != spec_sedp_guid(remote_participant_guid_prefix, 2u8, crate::types::EntityKind::BuiltInWriterWithKey) ==> final(endpoints).sedp_builtin_topics_reader.spec_matched_writers().contains(p),
        final(endpoints).sedp_builtin_topics_reader.spec_guid() == old(endpoints).sedp_builtin_topics_reader.spec_guid(),
        final(endpoints).sedp_builtin_topics_reader.spec_cache() == old(endpoints).sedp_builtin_topics_reader.spec_cache(),
{
    let guid = crate::types::Guid::new(
        remote_participant_guid_prefix,
        entityid_sedp_builtin_publications_detector(),
    );
    endpoints.sedp_builtin_publications_writer.matched_reader_remove_by_guid(&guid);
    proof {
        assert(guid == spec_sedp_guid(
            remote_participant_guid_prefix,
            3u8,
            crate::types::EntityKind::BuiltInReaderWithKey,
        ));
    }
    let guid = crate::types::Guid::new(
        remote_participant_guid_prefix,
        entityid_sedp_builtin_publications_announcer(),
    );
    endpoints.sedp_builtin_publications_reader.matched_writer_remove_by_guid(&guid);
    proof {
        assert(guid == spec_sedp_guid(
            remote_participant_guid_prefix,
            3u8,
            crate::types::EntityKind::BuiltInWriterWithKey,
        ));
    }
    let guid = crate::types::Guid::new(
        remote_participant_guid_prefix,
        entityid_sedp_builtin_subscriptions_detector(),
    );
    endpoints.sedp_builtin_subscriptions_writer.matched_reader_remove_by_guid(&guid);
    proof {
        assert(guid == spec_sedp_guid(
            remote_participant_guid_prefix,
            4u8,
            crate::types::EntityKind::BuiltInReaderWithKey,
        ));
    }
    let guid = crate::types::Guid::new(
        remote_participant_guid_prefix,
        entityid_sedp_builtin_subscriptions_announcer(),
    );
    endpoints.sedp_builtin_subscriptions_reader.matched_writer_remove_by_guid(&guid);
    proof {
        assert(guid == spec_sedp_guid(
            remote_participant_guid_prefix,
            4u8,
            crate::types::EntityKind::BuiltInWriterWithKey,
        ));
    }
    let guid = crate::types::Guid::new(
        remote_participant_guid_prefix,
        entityid_sedp_builtin_topics_detector(),
    );
    endpoints.sedp_builtin_topics_writer.matched_reader_remove_by_guid(&guid);
    proof {
        assert(guid == spec_sedp_guid(
            remote_participant_guid_prefix,
            2u8,
            crate::types::EntityKind::BuiltInReaderWithKey,
        ));
    }
    let guid = crate::types::Guid::new(
        remote_participant_guid_prefix,
        entityid_sedp_builtin_topics_announcer(),
    );
    endpoints.sedp_builtin_topics_reader.matched_writer_remove_by_guid(&guid);
    proof {
        assert(guid == spec_sedp_guid(
            remote_participant_guid_prefix,
            2u8,
            crate::types::EntityKind::BuiltInWriterWithKey,
        ));
    }
}

/// Octet-vector equality, by contents.
fn bytes_vec_eq(a: &Vec<u8>, b: &Vec<u8>) -> (r: bool)
    ensures
        r == (a@ == b@),
{
    if a.len() != b.len() {
        proof {
            assert(a@ != b@);
        }
        return false;
    }
    for i in 0..a.len()
        invariant
            a@.len() == b@.len(),
            forall|j: int| 0 <= j < i ==> a@[j] == b@[j],
    {
        if a[i] != b[i] {
            proof {
                assert(a@[i as int] != b@[i as int]);
            }
            return false;
        }
    }
    proof {
        assert(a@ =~= b@);
    }
    true
}

/// A copy of a locator list.
fn clone_locators(src: &Vec<Locator>) -> (r: Vec<Locator>)
    ensures
        r@ == src@,
{
    let mut r: Vec<Locator> = Vec::new();
    proof {
        assert(r@ =~= src@.take(0));
    }
    for i in 0..src.len()
        invariant
            r@ == src@.take(i as int),
    {
        proof {
            assert(src@.take(i + 1) =~= src@.take(i as int).push(src@[i as int]));
        }
        let value = src[i];
        r.push(value);
    }
    proof {
        assert(src@.take(src@.len() as int) =~= src@);
    }
    r
}

/// Appends one string parameter: the value is the string's length with its
/// terminator, the octets, a terminating zero and padding to four octets.
fn push_string_param(out: &mut Vec<u8>, pid: u16, s: &Vec<u8>, le: bool)
    requires
        s@.len() + 8 <= 0xFFFF,
    ensures
        final(out)@ == old(out)@ + spec_spdp_param(pid, spec_tag_value(s@, le), le),
{
    let mut value: Vec<u8> = Vec::new();
    push_u32(&mut value, (s.len() + 1) as u32, le);
    crate::codec::push_bytes(&mut value, s);
    value.push(0);
    let pad = (4 - ((s.len() + 1) % 4)) % 4;
    let mut k: usize = 0;
    let ghost unpadded = value@;
    while k < pad
        invariant
            k <= pad,
            pad < 4,
            value@ == unpadded + spec_pad_zeros(k as int),
        decreases pad - k,
    {
        proof {
            assert(spec_pad_zeros(k + 1) =~= spec_pad_zeros(k as int).push(0u8));
            assert(value@.push(0u8) =~= unpadded + spec_pad_zeros(k + 1));
        }
        value.push(0);
        k = k + 1;
    }
    proof {
        assert(value@ =~= spec_tag_value(s@, le));
    }
    push_param(out, pid, &value, le);
}

/// What a topic announcement carries: the topic's name and its type's name.
#[derive(Clone, PartialEq, Debug)]
pub struct DiscoveredTopicData {
    pub name: Vec<u8>,
    pub datatype_name: Vec<u8>,
}

/// The serialized topic announcement: the representation header, the topic
/// name, the type name, the sentinel.
pub open spec fn spec_topic_data_bytes(name: Seq<u8>, datatype_name: Seq<u8>, e: Endianness) -> Seq<
    u8,
> {
    let le = e.spec_is_le();
    seq![
        0u8,
        if le {
            3u8
        } else {
            2u8
        },
        0u8,
        0u8,
    ] + spec_spdp_param(PID_TOPIC_NAME, spec_tag_value(name, le), le) + spec_spdp_param(
        PID_TYPE_NAME,
        spec_tag_value(datatype_name, le),
        le,
    ) + spec_u16_bytes(PID_SENTINEL, le) + spec_u16_bytes(0, le)
}

impl DiscoveredTopicData {
    /// Serializes the announcement as a parameter list in the chosen
    /// endianness.
    pub fn topic_data_bytes(&self, endianness: Endianness) -> (r: Vec<u8>)
        requires
            self.name@.len() + 8 <= 0xFFFF,
            self.datatype_name@.len() + 8 <= 0xFFFF,
        ensures
            r@ == spec_topic_data_bytes(self.name@, self.datatype_name@, endianness),
    {
        let le = endianness.is_le();
        let mut out: Vec<u8> = Vec::new();
        out.push(0);
        if le {
            out.push(3);
        } else {
            out.push(2);
        }
        out.push(0);
        out.push(0);
        proof {
            assert(out@ =~= seq![
                0u8,
                if le {
                    3u8
                } else {
                    2u8
                },
                0u8,
                0u8,
            ]);
        }
        push_string_param(&mut out, PID_TOPIC_NAME, &self.name, le);
        push_string_param(&mut out, PID_TYPE_NAME, &self.datatype_name, le);
        push_u16(&mut out, PID_SENTINEL, le);
        push_u16(&mut out, 0, le);
        proof {
            assert(out@ =~= spec_topic_data_bytes(self.name@, self.datatype_name@, endianness));
        }
        out
    }
}

/// Announces a topic through the given announcing writer: the serialized
/// announcement becomes the writer's next change, under the next sequence
/// number, and is stored in its history for the matched readers.
pub fn announce_topic_change(
    writer: &mut crate::stateful_writer::StatefulWriter,
    topic: &DiscoveredTopicData,
    endianness: Endianness,
) -> (r: crate::types::SequenceNumber)
    requires
        old(writer).wf(),
        old(writer).spec_last_change_sn() < i64::MAX,
        topic.name@.len() + 8 <= 0xFFFF,
        topic.datatype_name@.len() + 8 <= 0xFFFF,
    ensures
        final(writer).wf(),
        final(writer).spec_guid() == old(writer).spec_guid(),
        final(writer).spec_matched_readers() == old(writer).spec_matched_readers(),
        final(writer).spec_reliability_level() == old(writer).spec_reliability_level(),
        final(writer).spec_push_mode() == old(writer).spec_push_mode(),
        final(writer).spec_last_change_sn() == old(writer).spec_last_change_sn() + 1,
        r == final(writer).spec_last_change_sn(),
        final(writer).spec_cache().has_seq(old(writer).spec_last_change_sn() + 1),
        forall|s: int| #![auto]
            final(writer).spec_cache().has_seq(s) <==> (old(writer).spec_cache().has_seq(s) || s
                == old(writer).spec_last_change_sn() + 1),
        !old(writer).spec_cache().has_seq(old(writer).spec_last_change_sn() + 1) ==> {
            let cs = final(writer).spec_cache().spec_changes();
            let n = old(writer).spec_cache().spec_changes().len() as int;
            &&& cs.len() == n + 1
            &&& cs[n].spec_kind() == crate::types::ChangeKind::Alive
            &&& cs[n].spec_writer_guid() == old(writer).spec_guid()
            &&& cs[n].spec_sequence_number() == old(writer).spec_last_change_sn() + 1
            &&& cs[n].spec_inline_qos() is None
            &&& (cs[n].spec_data_value() matches Some(d) && d@ == spec_topic_data_bytes(
                topic.name@,
                topic.datatype_name@,
                endianness,
            ))
            &&& forall|i: int| 0 <= i < n ==> cs[i] == old(writer).spec_cache().spec_changes()[i]
        },
{
    let bytes = topic.topic_data_bytes(endianness);
    let change = writer.new_change(
        crate::types::ChangeKind::Alive,
        Some(bytes),
        None,
        [0u8; 16],
    );
    writer.add_cache_change(change);
    writer.last_change_sequence_number()
}

/// A participant's built-in machinery: the SPDP announcing writer with one
/// reader locator per metatraffic multicast locator, the SPDP detecting
/// reader, the six SEDP endpoints, and the advertised built-in endpoint
/// set.
pub struct Participant {
    pub guid_prefix: GuidPrefix,
    pub domain_id: DomainId,
    pub domain_tag: Vec<u8>,
    pub spdp_builtin_participant_writer: crate::stateless_writer::RtpsStatelessWriterImpl,
    pub spdp_builtin_participant_reader: crate::stateful_reader::StatefulReader,
    pub sedp_builtin_endpoints: SedpBuiltinEndpoints,
    pub builtin_endpoint_set: BuiltInEndpointSet,
}

impl Participant {
    /// Every built-in endpoint is sound.
    pub open spec fn wf(self) -> bool {
        &&& self.spdp_builtin_participant_writer.wf()
        &&& self.spdp_builtin_participant_reader.wf()
        &&& self.sedp_builtin_endpoints.wf()
    }

    /// Builds the participant's built-in endpoints: the best-effort SPDP
    /// pair under the participant-discovery entity id, with one reader
    /// locator per given metatraffic multicast locator; the six reliable
    /// SEDP endpoints under their fixed entity ids, unmatched; and the
    /// advertisement of all eight built-in endpoints.
    pub fn new(
        guid_prefix: GuidPrefix,
        domain_id: DomainId,
        domain_tag: Vec<u8>,
        metatraffic_unicast_locator_list: Vec<Locator>,
        metatraffic_multicast_locator_list: Vec<Locator>,
    ) -> (r: Self)
        ensures
            r.wf(),
            r.guid_prefix == guid_prefix,
            r.domain_id == domain_id,
            r.domain_tag@ == domain_tag@,
            r.builtin_endpoint_set.0 == 0xFFu32,
            r.spdp_builtin_participant_writer.spec_guid() == (crate::types::Guid {
                prefix: guid_prefix,
                entity_id: crate::types::EntityId {
                    entity_key: [0u8, 1u8, 0u8],
                    entity_kind: crate::types::EntityKind::BuiltInWriterWithKey,
                },
            }),
            r.spdp_builtin_participant_writer.spec_last_change_sn() == 0,
            r.spdp_builtin_participant_writer.spec_cache().spec_changes().len() == 0,
            r.spdp_builtin_participant_writer.spec_reader_locators().len()
                == metatraffic_multicast_locator_list@.len(),
            forall|i: int|
                0 <= i < metatraffic_multicast_locator_list@.len() ==> (
                #[trigger] r.spdp_builtin_participant_writer.spec_reader_locators()[i]).spec_locator()
                    == metatraffic_multicast_locator_list@[i]
                    && !r.spdp_builtin_participant_writer.spec_reader_locators()[i].spec_expects_inline_qos(),
            r.spdp_builtin_participant_reader.spec_guid() == (crate::types::Guid {
                prefix: guid_prefix,
                entity_id: crate::types::EntityId {
                    entity_key: [0u8, 1u8, 0u8],
                    entity_kind: crate::types::EntityKind::BuiltInReaderWithKey,
                },
            }),
            r.spdp_builtin_participant_reader.spec_matched_writers().len() == 0,
            r.sedp_builtin_endpoints.sedp_builtin_publications_writer.spec_guid()
                == spec_sedp_guid(
                guid_prefix,
                3u8,
                crate::types::EntityKind::BuiltInWriterWithKey,
            ),
            r.sedp_builtin_endpoints.sedp_builtin_publications_writer.spec_matched_readers().len()
                == 0,
            r.sedp_builtin_endpoints.sedp_builtin_publications_writer.spec_reliability_level()
                == crate::types::ReliabilityKind::Reliable,
            r.sedp_builtin_endpoints.sedp_builtin_publications_reader.spec_guid()
                == spec_sedp_guid(
                guid_prefix,
                3u8,
                crate::types::EntityKind::BuiltInReaderWithKey,
            ),
            r.sedp_builtin_endpoints.sedp_builtin_publications_reader.spec_matched_writers().len()
                == 0,
            r.sedp_builtin_endpoints.sedp_builtin_subscriptions_writer.spec_guid()
                == spec_sedp_guid(
                guid_prefix,
                4u8,
                crate::types::EntityKind::BuiltInWriterWithKey,
            ),
            r.sedp_builtin_endpoints.sedp_builtin_subscriptions_writer.spec_matched_readers().len()
                == 0,
            r.sedp_builtin_endpoints.sedp_builtin_subscriptions_writer.spec_reliability_level()
                == crate::types::ReliabilityKind::Reliable,
            r.sedp_builtin_endpoints.sedp_builtin_subscriptions_reader.spec_guid()
                == spec_sedp_guid(
                guid_prefix,
                4u8,
                crate::types::EntityKind::BuiltInReaderWithKey,
            ),
            r.sedp_builtin_endpoints.sedp_builtin_subscriptions_reader.spec_matched_writers().len()
                == 0,
            r.sedp_builtin_endpoints.sedp_builtin_topics_writer.spec_guid() == spec_sedp_guid(
                guid_prefix,
                2u8,
                crate::types::EntityKind::BuiltInWriterWithKey,
            ),
            r.sedp_builtin_endpoints.sedp_builtin_topics_writer.spec_matched_readers().len() == 0,
            r.sedp_builtin_endpoints.sedp_builtin_topics_writer.spec_reliability_level()
                == crate::types::ReliabilityKind::Reliable,
            r.sedp_builtin_endpoints.sedp_builtin_topics_reader.spec_guid() == spec_sedp_guid(
                guid_prefix,
                2u8,
                crate::types::EntityKind::BuiltInReaderWithKey,
            ),
            r.sedp_builtin_endpoints.sedp_builtin_topics_reader.spec_matched_writers().len() == 0,
    {
        let spdp_writer_guid = crate::types::Guid::new(
            guid_prefix,
            crate::types::EntityId::new(
                [0, 1, 0],
                crate::types::EntityKind::BuiltInWriterWithKey,
            ),
        );
        let mut spdp_writer = crate::stateless_writer::RtpsStatelessWriterImpl::new(
            spdp_writer_guid,
            crate::types::TopicKind::WithKey,
            crate::types::ReliabilityKind::BestEffort,
            clone_locators(&metatraffic_unicast_locator_list),
            clone_locators(&metatraffic_multicast_locator_list),
            true,
        );
        let n = metatraffic_multicast_locator_list.len();
        for i in 0..n
            invariant
                n == metatraffic_multicast_locator_list@.len(),
                spdp_writer.wf(),
                spdp_writer.spec_guid() == spdp_writer_guid,
                spdp_writer.spec_last_change_sn() == 0,
                spdp_writer.spec_cache().spec_changes().len() == 0,
                spdp_writer.spec_reader_locators().len() == i,
                forall|j: int|
                    0 <= j < i ==> (
                    #[trigger] spdp_writer.spec_reader_locators()[j]).spec_locator()
                        == metatraffic_multicast_locator_list@[j]
                        && !spdp_writer.spec_reader_locators()[j].spec_expects_inline_qos(),
        {
            let entry = crate::stateless_writer::ReaderLocator::new(
                metatraffic_multicast_locator_list[i],
                false,
            );
            spdp_writer.reader_locator_add(entry);
        }
        let spdp_reader = crate::stateful_reader::StatefulReader::new(
            crate::types::Guid::new(
                guid_prefix,
                crate::types::EntityId::new(
                    [0, 1, 0],
                    crate::types::EntityKind::BuiltInReaderWithKey,
                ),
            ),
            crate::types::TopicKind::WithKey,
            crate::types::ReliabilityKind::BestEffort,
            clone_locators(&metatraffic_unicast_locator_list),
            clone_locators(&metatraffic_multicast_locator_list),
            false,
            Duration::new(0, 200_000_000),
        );
        let sedp = SedpBuiltinEndpoints {
            sedp_builtin_publications_writer: sedp_writer_of(
                guid_prefix,
                entityid_sedp_builtin_publications_announcer(),
                &metatraffic_unicast_locator_list,
                &metatraffic_multicast_locator_list,
            ),
            sedp_builtin_publications_reader: sedp_reader_of(
                guid_prefix,
                entityid_sedp_builtin_publications_detector(),
                &metatraffic_unicast_locator_list,
                &metatraffic_multicast_locator_list,
            ),
            sedp_builtin_subscriptions_writer: sedp_writer_of(
                guid_prefix,
                entityid_sedp_builtin_subscriptions_announcer(),
                &metatraffic_unicast_locator_list,
                &metatraffic_multicast_locator_list,
            ),
            sedp_builtin_subscriptions_reader: sedp_reader_of(
                guid_prefix,
                entityid_sedp_builtin_subscriptions_detector(),
                &metatraffic_unicast_locator_list,
                &metatraffic_multicast_locator_list,
            ),
            sedp_builtin_topics_writer: sedp_writer_of(
                guid_prefix,
                entityid_sedp_builtin_topics_announcer(),
                &metatraffic_unicast_locator_list,
                &metatraffic_multicast_locator_list,
            ),
            sedp_builtin_topics_reader: sedp_reader_of(
                guid_prefix,
                entityid_sedp_builtin_topics_detector(),
                &metatraffic_unicast_locator_list,
                &metatraffic_multicast_locator_list,
            ),
        };
        Participant {
            guid_prefix,
            domain_id,
            domain_tag,
            spdp_builtin_participant_writer: spdp_writer,
            spdp_builtin_participant_reader: spdp_reader,
            sedp_builtin_endpoints: sedp,
            builtin_endpoint_set: BuiltInEndpointSet::new(0xFF),
        }
    }
}

/// One local reliable SEDP writer under its fixed entity id.
fn sedp_writer_of(
    prefix: GuidPrefix,
    entity_id: crate::types::EntityId,
    unicast: &Vec<Locator>,
    multicast: &Vec<Locator>,
) -> (r: crate::stateful_writer::StatefulWriter)
    ensures
        r.wf(),
        r.spec_guid() == (crate::types::Guid { prefix, entity_id }),
        r.spec_matched_readers().len() == 0,
        r.spec_last_change_sn() == 0,
        r.spec_cache().spec_changes().len() == 0,
        r.spec_reliability_level() == crate::types::ReliabilityKind::Reliable,
{
    crate::stateful_writer::StatefulWriter::new(
        crate::types::Guid::new(prefix, entity_id),
        crate::types::TopicKind::WithKey,
        crate::types::ReliabilityKind::Reliable,
        clone_locators(unicast),
        clone_locators(multicast),
        true,
        Duration::new(0, 200_000_000),
        Duration::new(0, 200_000_000),
        Duration::new(0, 0),
    )
}

/// One local reliable SEDP reader under its fixed entity id.
fn sedp_reader_of(
    prefix: GuidPrefix,
    entity_id: crate::types::EntityId,
    unicast: &Vec<Locator>,
    multicast: &Vec<Locator>,
) -> (r: crate::stateful_reader::StatefulReader)
    ensures
        r.wf(),
        r.spec_guid() == (crate::types::Guid { prefix, entity_id }),
        r.spec_matched_writers().len() == 0,
        r.spec_cache().spec_changes().len() == 0,
        r.spec_reliability_level() == crate::types::ReliabilityKind::Reliable,
{
    crate::stateful_reader::StatefulReader::new(
        crate::types::Guid::new(prefix, entity_id),
        crate::types::TopicKind::WithKey,
        crate::types::ReliabilityKind::Reliable,
        clone_locators(unicast),
        clone_locators(multicast),
        false,
        Duration::new(0, 200_000_000),
    )
}

} // verus!
