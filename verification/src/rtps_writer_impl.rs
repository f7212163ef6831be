//! A plain writer without per-remote state: the endpoint attributes, the
//! writer configuration, the change counter and the owned history cache.

use vstd::prelude::*;

use crate::cache::{CacheChange, HistoryCache};
use crate::submessage_elements::ParameterListSubmessageElement;
use crate::time::Duration;
use crate::types::{
    ChangeKind, Guid, InstanceHandle, Locator, ReliabilityKind, TopicKind,
};

verus! {

/// The attributes every endpoint carries: identity, topic kind, reliability
/// and its locators.
pub struct RtpsEndpointImpl {
    pub guid: Guid,
    pub topic_kind: TopicKind,
    pub reliability_level: ReliabilityKind,
    pub unicast_locator_list: Vec<Locator>,
    pub multicast_locator_list: Vec<Locator>,
}

impl RtpsEndpointImpl {
    pub fn new(
        guid: Guid,
        topic_kind: TopicKind,
        reliability_level: ReliabilityKind,
        unicast_locator_list: Vec<Locator>,
        multicast_locator_list: Vec<Locator>,
    ) -> (r: Self)
        ensures
            r.guid == guid,
            r.topic_kind == topic_kind,
            r.reliability_level == reliability_level,
            r.unicast_locator_list@ == unicast_locator_list@,
            r.multicast_locator_list@ == multicast_locator_list@,
    {
        RtpsEndpointImpl {
            guid,
            topic_kind,
            reliability_level,
            unicast_locator_list,
            multicast_locator_list,
        }
    }
}

/// A writer over an endpoint: configuration, the change counter, and the
/// history cache it owns.
pub struct RtpsWriterImpl {
    endpoint: RtpsEndpointImpl,
    push_mode: bool,
    heartbeat_period: Duration,
    nack_response_delay: Duration,
    nack_suppression_duration: Duration,
    last_change_sequence_number: crate::types::SequenceNumber,
    data_max_size_serialized: Option<i32>,
    writer_cache: HistoryCache,
}

impl RtpsWriterImpl {
    /// The writer's own identifier.
    pub closed spec fn spec_guid(self) -> Guid {
        self.endpoint.guid
    }

    /// The sequence number of the latest change handed out.
    pub closed spec fn spec_last_change_sn(self) -> int {
        self.last_change_sequence_number as int
    }

    /// The writer's history cache.
    pub closed spec fn spec_cache(self) -> HistoryCache {
        self.writer_cache
    }

    /// The writer invariant.
    pub open spec fn wf(self) -> bool {
        &&& self.spec_cache().wf()
        &&& 0 <= self.spec_last_change_sn()
    }

    /// A fresh writer over the endpoint: no changes yet.
    pub fn new(
        endpoint: RtpsEndpointImpl,
        push_mode: bool,
        heartbeat_period: Duration,
        nack_response_delay: Duration,
        nack_suppression_duration: Duration,
        data_max_size_serialized: Option<i32>,
    ) -> (r: Self)
        ensures
            r.wf(),
            r.spec_guid() == endpoint.guid,
            r.spec_last_change_sn() == 0,
            r.spec_cache().spec_changes().len() == 0,
    {
        RtpsWriterImpl {
            endpoint,
            push_mode,
            heartbeat_period,
            nack_response_delay,
            nack_suppression_duration,
            last_change_sequence_number: 0,
            data_max_size_serialized,
            writer_cache: HistoryCache::new(),
        }
    }

    /// The writer's own identifier.
    pub fn guid(&self) -> (r: Guid)
        ensures
            r == self.spec_guid(),
    {
        self.endpoint.guid
    }

    /// Builds the next change of this writer: the sequence number advances
    /// by one and the change carries it.
    pub fn new_change(
        &mut self,
        kind: ChangeKind,
        data: Option<Vec<u8>>,
        inline_qos: Option<ParameterListSubmessageElement>,
        handle: InstanceHandle,
    ) -> (r: CacheChange)
        requires
            old(self).wf(),
            old(self).spec_last_change_sn() < i64::MAX,
        ensures
            final(self).wf(),
            final(self).spec_guid() == old(self).spec_guid(),
            final(self).spec_cache() == old(self).spec_cache(),
            final(self).spec_last_change_sn() == old(self).spec_last_change_sn() + 1,
            r.spec_kind() == kind,
            r.spec_writer_guid() == old(self).spec_guid(),
            r.spec_instance_handle() == handle,
            r.spec_sequence_number() == old(self).spec_last_change_sn() + 1,
            r.spec_inline_qos() == inline_qos,
            r.spec_data_value() == data,
    {
        self.last_change_sequence_number = self.last_change_sequence_number + 1;
        CacheChange::new(
            kind,
            self.endpoint.guid,
            handle,
            self.last_change_sequence_number,
            inline_qos,
            data,
        )
    }

    /// The writer's history cache, for adding and removing changes.
    pub fn writer_cache(&mut self) -> (r: &mut HistoryCache)
        ensures
            *r == old(self).spec_cache(),
            final(self).spec_cache() == *final(r),
            final(self).spec_guid() == old(self).spec_guid(),
            final(self).spec_last_change_sn() == old(self).spec_last_change_sn(),
    {
        &mut self.writer_cache
    }
}

} // verus!
