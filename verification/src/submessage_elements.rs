//! The submessage elements: the small aggregates out of which submessages
//! are put together on the wire.

use vstd::prelude::*;

use crate::types::{Locator, SequenceNumber};

verus! {

/// A fragment number, counting from one.
pub type FragmentNumber = u32;

#[derive(Clone, PartialEq, Eq, Debug)]
pub struct UShortSubmessageElement {
    pub value: u16,
}

#[derive(Clone, PartialEq, Eq, Debug)]
pub struct ULongSubmessageElement {
    pub value: u32,
}

/// A set of sequence numbers carried as a base plus offsets from it.
#[derive(Clone, PartialEq, Eq, Debug)]
pub struct SequenceNumberSet {
    pub base: SequenceNumber,
    pub set: Vec<SequenceNumber>,
}

/// A set of fragment numbers carried as a base plus offsets from it.
#[derive(Clone, PartialEq, Eq, Debug)]
pub struct FragmentNumberSet {
    pub base: FragmentNumber,
    pub set: Vec<FragmentNumber>,
}

#[derive(Clone, PartialEq, Eq, Debug)]
pub struct TimestampSubmessageElement {
    pub value: u64,
}

/// One entry of a parameter list: an identifier, a length and the value
/// octets.
#[derive(Clone, PartialEq, Eq, Debug)]
pub struct Parameter {
    pub parameter_id: u16,
    pub length: i16,
    pub value: Vec<u8>,
}

/// A terminated stream of parameters, the canonical serialization for
/// discovery payloads and inline QoS.
#[derive(Clone, PartialEq, Eq, Debug)]
pub struct ParameterListSubmessageElement {
    pub parameter: Vec<Parameter>,
}

#[derive(Clone, PartialEq, Eq, Debug)]
pub struct LocatorListSubmessageElement {
    pub value: Vec<Locator>,
}

#[derive(Clone, PartialEq, Eq, Debug)]
pub struct SerializedDataSubmessageElement {
    pub value: Vec<u8>,
}

#[derive(Clone, PartialEq, Eq, Debug)]
pub struct SerializedDataFragmentSubmessageElement {
    pub value: Vec<u8>,
}

#[derive(Clone, PartialEq, Eq, Debug)]
pub struct GroupDigestSubmessageElement {
    pub value: [u8; 4],
}

} // verus!
