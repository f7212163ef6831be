//! The attribute types of the RTPS entities and classes: identifiers,
//! sequence numbers, locators and the small wire-level scalars.

use vstd::prelude::*;

verus! {

/// Octet-array equality, proved equivalent to structural equality.
fn bytes_eq<const N: usize>(a: &[u8; N], b: &[u8; N]) -> (r: bool)
    ensures
        r == (a@ == b@),
{
    for i in 0..N
        invariant
            forall|j: int| 0 <= j < i ==> a@[j] == b@[j],
    {
        if a[i] != b[i] {
            assert(a@[i as int] != b@[i as int]);
            return false;
        }
    }
    assert(a@ =~= b@);
    true
}

/// Type used to hold the prefix of the globally-unique RTPS-entity
/// identifiers. The GUIDs of entities belonging to the same participant all
/// have the same prefix.
#[derive(Clone, Copy, Debug)]
pub struct GuidPrefix(pub [u8; 12]);

impl PartialEq for GuidPrefix {
    fn eq(&self, other: &GuidPrefix) -> (r: bool) {
        let r = bytes_eq(&self.0, &other.0);
        proof {
            if self.0@ == other.0@ {
                assert(self.0 =~= other.0);
            }
        }
        r
    }
}

impl Eq for GuidPrefix {
}

impl vstd::std_specs::cmp::PartialEqSpecImpl for GuidPrefix {
    open spec fn obeys_eq_spec() -> bool {
        true
    }

    open spec fn eq_spec(&self, other: &GuidPrefix) -> bool {
        *self == *other
    }
}

impl GuidPrefix {
    pub fn new(value: [u8; 12]) -> (r: Self)
        ensures
            r.0 == value,
    {
        GuidPrefix(value)
    }
}

/// The suffix part of a GUID: it uniquely identifies an entity within a
/// participant.
#[derive(Clone, Copy, Debug)]
pub struct EntityId {
    pub entity_key: [u8; 3],
    pub entity_kind: EntityKind,
}

impl PartialEq for EntityId {
    fn eq(&self, other: &EntityId) -> (r: bool) {
        let keys = bytes_eq(&self.entity_key, &other.entity_key);
        let r = keys && self.entity_kind == other.entity_kind;
        proof {
            if self.entity_key@ == other.entity_key@ {
                assert(self.entity_key =~= other.entity_key);
            }
        }
        r
    }
}

impl Eq for EntityId {
}

impl vstd::std_specs::cmp::PartialEqSpecImpl for EntityId {
    open spec fn obeys_eq_spec() -> bool {
        true
    }

    open spec fn eq_spec(&self, other: &EntityId) -> bool {
        *self == *other
    }
}

/// The kind octet of an `EntityId`, distinguishing built-in from user-defined
/// entities, readers from writers, keyed from unkeyed ones, and groups.
#[derive(Clone, Copy, PartialEq, Eq, Structural, Debug)]
pub enum EntityKind {
    UserDefinedUnknown,
    BuiltInUnknown,
    BuiltInParticipant,
    UserDefinedWriterWithKey,
    BuiltInWriterWithKey,
    UserDefinedWriterNoKey,
    BuiltInWriterNoKey,
    UserDefinedReaderWithKey,
    BuiltInReaderWithKey,
    UserDefinedReaderNoKey,
    BuiltInReaderNoKey,
    UserDefinedWriterGroup,
    BuiltInWriterGroup,
    UserDefinedReaderGroup,
    BuiltInReaderGroup,
    BuiltInTopic,
    UserDefinedTopic,
}

/// The wire octet that stands for an entity kind.
pub open spec fn spec_entity_kind_octet(kind: EntityKind) -> u8 {
    match kind {
        EntityKind::UserDefinedUnknown => 0x00,
        EntityKind::BuiltInUnknown => 0xc0,
        EntityKind::BuiltInParticipant => 0xc1,
        EntityKind::UserDefinedWriterWithKey => 0x02,
        EntityKind::BuiltInWriterWithKey => 0xc2,
        EntityKind::UserDefinedWriterNoKey => 0x03,
        EntityKind::BuiltInWriterNoKey => 0xc3,
        EntityKind::UserDefinedReaderWithKey => 0x07,
        EntityKind::BuiltInReaderWithKey => 0xc7,
        EntityKind::UserDefinedReaderNoKey => 0x04,
        EntityKind::BuiltInReaderNoKey => 0xc4,
        EntityKind::UserDefinedWriterGroup => 0x08,
        EntityKind::BuiltInWriterGroup => 0xc8,
        EntityKind::UserDefinedReaderGroup => 0x09,
        EntityKind::BuiltInReaderGroup => 0xc9,
        EntityKind::UserDefinedTopic => 0x0a,
        EntityKind::BuiltInTopic => 0xca,
    }
}

/// Whether an octet stands for some entity kind.
pub open spec fn entity_kind_octet_known(value: u8) -> bool {
    value == 0x00 || value == 0xc0 || value == 0xc1 || value == 0x02 || value == 0xc2
        || value == 0x03 || value == 0xc3 || value == 0x07 || value == 0xc7 || value == 0x04
        || value == 0xc4 || value == 0x08 || value == 0xc8 || value == 0x09 || value == 0xc9
        || value == 0x0a || value == 0xca
}

/// The kind an octet stands for; octets outside the table give the
/// user-defined unknown kind.
pub open spec fn spec_entity_kind_of_octet(value: u8) -> EntityKind {
    if value == 0xc0 {
        EntityKind::BuiltInUnknown
    } else if value == 0xc1 {
        EntityKind::BuiltInParticipant
    } else if value == 0x02 {
        EntityKind::UserDefinedWriterWithKey
    } else if value == 0xc2 {
        EntityKind::BuiltInWriterWithKey
    } else if value == 0x03 {
        EntityKind::UserDefinedWriterNoKey
    } else if value == 0xc3 {
        EntityKind::BuiltInWriterNoKey
    } else if value == 0x07 {
        EntityKind::UserDefinedReaderWithKey
    } else if value == 0xc7 {
        EntityKind::BuiltInReaderWithKey
    } else if value == 0x04 {
        EntityKind::UserDefinedReaderNoKey
    } else if value == 0xc4 {
        EntityKind::BuiltInReaderNoKey
    } else if value == 0x08 {
        EntityKind::UserDefinedWriterGroup
    } else if value == 0xc8 {
        EntityKind::BuiltInWriterGroup
    } else if value == 0x09 {
        EntityKind::UserDefinedReaderGroup
    } else if value == 0xc9 {
        EntityKind::BuiltInReaderGroup
    } else if value == 0x0a {
        EntityKind::UserDefinedTopic
    } else if value == 0xca {
        EntityKind::BuiltInTopic
    } else {
        EntityKind::UserDefinedUnknown
    }
}

/// Every kind's octet is in the table, and reading it back gives the kind.
pub proof fn lemma_entity_kind_octet_round(k: EntityKind)
    ensures
        entity_kind_octet_known(spec_entity_kind_octet(k)),
        spec_entity_kind_of_octet(spec_entity_kind_octet(k)) == k,
{
}

/// No two entity kinds share a wire octet.
pub proof fn lemma_entity_kind_octet_injective(k1: EntityKind, k2: EntityKind)
    requires
        spec_entity_kind_octet(k1) == spec_entity_kind_octet(k2),
    ensures
        k1 == k2,
{
}

impl EntityKind {
    /// The octet that carries this kind on the wire.
    pub fn to_octet(self) -> (r: u8)
        ensures
            r == spec_entity_kind_octet(self),
    {
        match self {
            EntityKind::UserDefinedUnknown => 0x00,
            EntityKind::BuiltInUnknown => 0xc0,
            EntityKind::BuiltInParticipant => 0xc1,
            EntityKind::UserDefinedWriterWithKey => 0x02,
            EntityKind::BuiltInWriterWithKey => 0xc2,
            EntityKind::UserDefinedWriterNoKey => 0x03,
            EntityKind::BuiltInWriterNoKey => 0xc3,
            EntityKind::UserDefinedReaderWithKey => 0x07,
            EntityKind::BuiltInReaderWithKey => 0xc7,
            EntityKind::UserDefinedReaderNoKey => 0x04,
            EntityKind::BuiltInReaderNoKey => 0xc4,
            EntityKind::UserDefinedWriterGroup => 0x08,
            EntityKind::BuiltInWriterGroup => 0xc8,
            EntityKind::UserDefinedReaderGroup => 0x09,
            EntityKind::BuiltInReaderGroup => 0xc9,
            EntityKind::UserDefinedTopic => 0x0a,
            EntityKind::BuiltInTopic => 0xca,
        }
    }

    /// Reads a kind back from its wire octet; octets outside the table are
    /// rejected.
    pub fn from_octet(value: u8) -> (r: Option<EntityKind>)
        ensures
            r matches Some(kind) ==> spec_entity_kind_octet(kind) == value,
            r is None <==> !entity_kind_octet_known(value),
    {
        match value {
            0x00 => Some(EntityKind::UserDefinedUnknown),
            0xc0 => Some(EntityKind::BuiltInUnknown),
            0xc1 => Some(EntityKind::BuiltInParticipant),
            0x02 => Some(EntityKind::UserDefinedWriterWithKey),
            0xc2 => Some(EntityKind::BuiltInWriterWithKey),
            0x03 => Some(EntityKind::UserDefinedWriterNoKey),
            0xc3 => Some(EntityKind::BuiltInWriterNoKey),
            0x07 => Some(EntityKind::UserDefinedReaderWithKey),
            0xc7 => Some(EntityKind::BuiltInReaderWithKey),
            0x04 => Some(EntityKind::UserDefinedReaderNoKey),
            0xc4 => Some(EntityKind::BuiltInReaderNoKey),
            0x08 => Some(EntityKind::UserDefinedWriterGroup),
            0xc8 => Some(EntityKind::BuiltInWriterGroup),
            0x09 => Some(EntityKind::UserDefinedReaderGroup),
            0xc9 => Some(EntityKind::BuiltInReaderGroup),
            0x0a => Some(EntityKind::UserDefinedTopic),
            0xca => Some(EntityKind::BuiltInTopic),
            _ => None,
        }
    }
}

pub type EntityKey = [u8; 3];

/// The reserved identifier standing for no entity in particular; a DATA
/// submessage carrying it is for every matched reader.
pub open spec fn spec_entityid_unknown() -> EntityId {
    EntityId { entity_key: [0u8, 0u8, 0u8], entity_kind: EntityKind::UserDefinedUnknown }
}

impl EntityId {
    pub fn new(entity_key: EntityKey, entity_kind: EntityKind) -> (r: Self)
        ensures
            r.entity_key == entity_key,
            r.entity_kind == entity_kind,
    {
        EntityId { entity_key, entity_kind }
    }

    pub fn entity_key(&self) -> (r: EntityKey)
        ensures
            r == self.entity_key,
    {
        self.entity_key
    }

    pub fn entity_kind(&self) -> (r: EntityKind)
        ensures
            r == self.entity_kind,
    {
        self.entity_kind
    }


}

/// Globally-unique RTPS-entity identifier: a participant prefix plus an
/// entity id, sixteen octets in all.
#[derive(Clone, Copy, Debug)]
pub struct Guid {
    pub prefix: GuidPrefix,
    pub entity_id: EntityId,
}

impl PartialEq for Guid {
    fn eq(&self, other: &Guid) -> (r: bool) {
        self.prefix == other.prefix && self.entity_id == other.entity_id
    }
}

impl Eq for Guid {
}

impl vstd::std_specs::cmp::PartialEqSpecImpl for Guid {
    open spec fn obeys_eq_spec() -> bool {
        true
    }

    open spec fn eq_spec(&self, other: &Guid) -> bool {
        *self == *other
    }
}

impl Guid {
    pub fn new(prefix: GuidPrefix, entity_id: EntityId) -> (r: Self)
        ensures
            r.prefix == prefix,
            r.entity_id == entity_id,
    {
        Guid { prefix, entity_id }
    }

    pub fn prefix(&self) -> (r: GuidPrefix)
        ensures
            r == self.prefix,
    {
        self.prefix
    }

    pub fn entity_id(&self) -> (r: EntityId)
        ensures
            r == self.entity_id,
    {
        self.entity_id
    }


}

impl Guid {
    /// This identifier as its sixteen octets: the prefix, the entity key,
    /// and the kind octet.
    pub fn to_bytes(self) -> (r: [u8; 16])
        ensures
            r@ == self.prefix.0@ + self.entity_id.entity_key@ + seq![
                spec_entity_kind_octet(self.entity_id.entity_kind),
            ],
    {
        let p = self.prefix.0;
        let k = self.entity_id.entity_key;
        let r: [u8; 16] = [
            p[0],
            p[1],
            p[2],
            p[3],
            p[4],
            p[5],
            p[6],
            p[7],
            p[8],
            p[9],
            p[10],
            p[11],
            k[0],
            k[1],
            k[2],
            self.entity_id.entity_kind.to_octet(),
        ];
        proof {
            assert(r@ =~= self.prefix.0@ + self.entity_id.entity_key@ + seq![
                spec_entity_kind_octet(self.entity_id.entity_kind),
            ]);
        }
        r
    }

    /// The identifier read back from sixteen octets; a last octet outside
    /// the kind table is rejected. Reading what `to_bytes` wrote gives the
    /// identifier back.
    pub fn from_bytes(bytes: [u8; 16]) -> (r: Option<Guid>)
        ensures
            match r {
                Some(g) => g.prefix.0@ == bytes@.subrange(0, 12) && g.entity_id.entity_key@
                    == bytes@.subrange(12, 15) && spec_entity_kind_octet(
                    g.entity_id.entity_kind,
                ) == bytes[15],
                None => !entity_kind_octet_known(bytes[15]),
            },
    {
        let kind = match EntityKind::from_octet(bytes[15]) {
            Some(k) => k,
            None => {
                return None;
            },
        };
        let g = Guid {
            prefix: GuidPrefix(
                [
                    bytes[0],
                    bytes[1],
                    bytes[2],
                    bytes[3],
                    bytes[4],
                    bytes[5],
                    bytes[6],
                    bytes[7],
                    bytes[8],
                    bytes[9],
                    bytes[10],
                    bytes[11],
                ],
            ),
            entity_id: EntityId { entity_key: [bytes[12], bytes[13], bytes[14]], entity_kind: kind },
        };
        proof {
            assert(g.prefix.0@ =~= bytes@.subrange(0, 12));
            assert(g.entity_id.entity_key@ =~= bytes@.subrange(12, 15));
            lemma_entity_kind_octet_injective(kind, spec_entity_kind_of_octet(bytes[15]));
            lemma_entity_kind_octet_round(kind);
        }
        Some(g)
    }
}

/// Law: a GUID survives the trip through its sixteen-octet form.
pub proof fn lemma_guid_bytes_round(g: Guid, bytes: [u8; 16])
    requires
        bytes@ == g.prefix.0@ + g.entity_id.entity_key@ + seq![
            spec_entity_kind_octet(g.entity_id.entity_kind),
        ],
    ensures
        entity_kind_octet_known(bytes[15]),
        forall|h: Guid|
            (#[trigger] h.prefix.0@) == bytes@.subrange(0, 12) && h.entity_id.entity_key@
                == bytes@.subrange(12, 15) && spec_entity_kind_octet(h.entity_id.entity_kind)
                == bytes[15] ==> h == g,
{
    lemma_entity_kind_octet_round(g.entity_id.entity_kind);
    assert(bytes@[15] == spec_entity_kind_octet(g.entity_id.entity_kind));
    assert forall|h: Guid|
        (#[trigger] h.prefix.0@) == bytes@.subrange(0, 12) && h.entity_id.entity_key@
            == bytes@.subrange(12, 15) && spec_entity_kind_octet(h.entity_id.entity_kind)
            == bytes[15] implies h == g by {
        assert(g.prefix.0@ =~= bytes@.subrange(0, 12));
        assert(g.entity_id.entity_key@ =~= bytes@.subrange(12, 15));
        assert(h.prefix.0 =~= g.prefix.0);
        assert(h.entity_id.entity_key =~= g.entity_id.entity_key);
        lemma_entity_kind_octet_injective(h.entity_id.entity_kind, g.entity_id.entity_kind);
    }
}

/// Type used to hold sequence numbers; they are monotonic within one writer
/// and compared arithmetically.
pub type SequenceNumber = i64;

pub const SEQUENCE_NUMBER_UNKNOWN: SequenceNumber = i64::MIN;

/// Sixteen-octet key hash naming a data instance.
pub type InstanceHandle = [u8; 16];

/// Whether a topic's data type carries key fields.
#[derive(Clone, Copy, PartialEq, Eq, Structural, Debug)]
pub enum TopicKind {
    NoKey,
    WithKey,
}

/// The kind of change made to a data instance.
#[derive(Clone, Copy, PartialEq, Eq, Structural, Debug)]
pub enum ChangeKind {
    Alive,
    AliveFiltered,
    NotAliveDisposed,
    NotAliveUnregistered,
}

/// The delivery guarantee of an endpoint.
#[derive(Clone, Copy, PartialEq, Eq, Structural, Debug)]
pub enum ReliabilityKind {
    BestEffort,
    Reliable,
}

/// The version of the RTPS protocol, a major and a minor number.
#[derive(Clone, Copy, PartialEq, Eq, Structural, Debug)]
pub struct ProtocolVersion {
    pub major: u8,
    pub minor: u8,
}

impl ProtocolVersion {
    pub fn new(major: u8, minor: u8) -> (r: Self)
        ensures
            r.major == major,
            r.minor == minor,
    {
        ProtocolVersion { major, minor }
    }

    pub fn major(&self) -> (r: u8)
        ensures
            r == self.major,
    {
        self.major
    }

    pub fn minor(&self) -> (r: u8)
        ensures
            r == self.minor,
    {
        self.minor
    }


}

/// The vendor of the service implementing the protocol.
#[derive(Clone, Copy, Debug)]
pub struct VendorId(pub [u8; 2]);

impl PartialEq for VendorId {
    fn eq(&self, other: &VendorId) -> (r: bool) {
        let r = bytes_eq(&self.0, &other.0);
        proof {
            if self.0@ == other.0@ {
                assert(self.0 =~= other.0);
            }
        }
        r
    }
}

impl Eq for VendorId {
}

impl vstd::std_specs::cmp::PartialEqSpecImpl for VendorId {
    open spec fn obeys_eq_spec() -> bool {
        true
    }

    open spec fn eq_spec(&self, other: &VendorId) -> bool {
        *self == *other
    }
}

impl VendorId {
    pub fn new(value: [u8; 2]) -> (r: Self)
        ensures
            r.0 == value,
    {
        VendorId(value)
    }
}

/// A count that is advanced monotonically, used to identify message
/// duplicates; advancing wraps at the numeric bounds.
#[derive(Clone, Copy, PartialEq, Eq, Structural, Debug)]
pub struct Count(pub i32);

impl Count {
    pub fn new(value: i32) -> (r: Self)
        ensures
            r.0 == value,
    {
        Count(value)
    }

    pub fn wrapping_add(self, rhs: i32) -> (r: Self)
        ensures
            r.0 == self.0.wrapping_add(rhs),
    {
        Count(self.0.wrapping_add(rhs))
    }
}

pub type LocatorKind = i32;
pub type LocatorPort = u32;
pub type LocatorAddress = [u8; 16];

pub const LOCATOR_KIND_INVALID: LocatorKind = -1;
pub const LOCATOR_KIND_RESERVED: LocatorKind = 0;
pub const LOCATOR_KIND_UDPV4: LocatorKind = 1;
pub const LOCATOR_KIND_UDPV6: LocatorKind = 2;
pub const LOCATOR_PORT_INVALID: LocatorPort = 0;

/// The addressing information needed to send a message to an endpoint: a
/// transport kind, a port and a sixteen-octet address.
#[derive(Clone, Copy, Debug)]
pub struct Locator {
    pub kind: LocatorKind,
    pub port: LocatorPort,
    pub address: LocatorAddress,
}

impl PartialEq for Locator {
    fn eq(&self, other: &Locator) -> (r: bool) {
        let addresses = bytes_eq(&self.address, &other.address);
        let r = self.kind == other.kind && self.port == other.port && addresses;
        proof {
            if self.address@ == other.address@ {
                assert(self.address =~= other.address);
            }
        }
        r
    }
}

impl Eq for Locator {
}

impl vstd::std_specs::cmp::PartialEqSpecImpl for Locator {
    open spec fn obeys_eq_spec() -> bool {
        true
    }

    open spec fn eq_spec(&self, other: &Locator) -> bool {
        *self == *other
    }
}

impl Locator {
    pub fn new(kind: LocatorKind, port: LocatorPort, address: LocatorAddress) -> (r: Self)
        ensures
            r.kind == kind,
            r.port == port,
            r.address == address,
    {
        Locator { kind, port, address }
    }

    pub fn kind(&self) -> (r: LocatorKind)
        ensures
            r == self.kind,
    {
        self.kind
    }

    pub fn port(&self) -> (r: LocatorPort)
        ensures
            r == self.port,
    {
        self.port
    }

    pub fn address(&self) -> (r: LocatorAddress)
        ensures
            r == self.address,
    {
        self.address
    }



}

} // verus!
