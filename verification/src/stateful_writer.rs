//! The stateful writer side of the reliable protocol: per-matched-reader
//! bookkeeping of what has been sent, acknowledged and requested, and the
//! writer that owns the history cache and hands out sequence numbers.

use vstd::prelude::*;

use crate::cache::{CacheChange, HistoryCache};
use crate::seq_num_set::{
    contains_num, num_set_insert, num_set_min, num_set_range, num_set_remove,
};
use crate::messages::{AckNackSubmessage, HeartbeatSubmessage, RtpsEndpointMessage, RtpsEndpointSubmessage};
use crate::submessage_elements::ParameterListSubmessageElement;
use crate::time::{duration_nanos, time_nanos, Duration, Time};
use crate::types::{
    ChangeKind, Count, Guid, InstanceHandle, Locator, ReliabilityKind, SequenceNumber, TopicKind,
};

verus! {

/// What a stateful writer keeps about one matched remote reader: how far the
/// change stream has been sent and acknowledged, and which numbers the
/// reader has asked to have repaired.
pub struct ReaderProxy {
    remote_reader_guid: Guid,
    unicast_locator_list: Vec<Locator>,
    multicast_locator_list: Vec<Locator>,
    expects_inline_qos: bool,
    is_active: bool,
    highest_sequence_number_sent: SequenceNumber,
    highest_sequence_number_acknowledged: SequenceNumber,
    sequence_numbers_requested: Vec<SequenceNumber>,
    heartbeat_count: Count,
    time_last_sent_data: Time,
    time_nack_received: Time,
    highest_nack_count_received: Count,
}

impl ReaderProxy {
    /// The matched remote reader.
    pub closed spec fn spec_guid(self) -> Guid {
        self.remote_reader_guid
    }

    /// The highest sequence number handed out for sending.
    pub closed spec fn spec_highest_sent(self) -> int {
        self.highest_sequence_number_sent as int
    }

    /// The highest sequence number the reader has acknowledged.
    pub closed spec fn spec_highest_acked(self) -> int {
        self.highest_sequence_number_acknowledged as int
    }

    /// The numbers the reader has asked to have repaired.
    pub closed spec fn spec_requested(self) -> Seq<i64> {
        self.sequence_numbers_requested@
    }

    /// The count carried by the next heartbeat.
    pub closed spec fn spec_heartbeat_count(self) -> Count {
        self.heartbeat_count
    }

    /// The highest acknowledgment count seen from this reader.
    pub closed spec fn spec_nack_count(self) -> Count {
        self.highest_nack_count_received
    }

    /// Whether the reader asks for inline QoS with each sample.
    pub closed spec fn spec_expects_inline_qos(self) -> bool {
        self.expects_inline_qos
    }

    /// Whether the reader is considered active.
    pub closed spec fn spec_is_active(self) -> bool {
        self.is_active
    }

    /// When data was last sent to this reader.
    pub closed spec fn spec_last_sent_instant(self) -> Time {
        self.time_last_sent_data
    }

    /// When the last acknowledgment arrived.
    pub closed spec fn spec_nack_instant(self) -> Time {
        self.time_nack_received
    }

    /// The unicast locators of the remote reader.
    pub closed spec fn spec_unicast(self) -> Seq<Locator> {
        self.unicast_locator_list@
    }

    /// The multicast locators of the remote reader.
    pub closed spec fn spec_multicast(self) -> Seq<Locator> {
        self.multicast_locator_list@
    }

    /// The proxy invariant: the requested set is duplicate-free and the sent
    /// and acknowledged marks are non-negative.
    pub open spec fn wf(self) -> bool {
        &&& self.spec_requested().no_duplicates()
        &&& 0 <= self.spec_highest_sent()
        &&& 0 <= self.spec_highest_acked()
    }

    /// A fresh proxy: nothing sent, nothing acknowledged, nothing requested.
    pub fn new(
        remote_reader_guid: Guid,
        unicast_locator_list: Vec<Locator>,
        multicast_locator_list: Vec<Locator>,
        expects_inline_qos: bool,
        is_active: bool,
    ) -> (r: Self)
        ensures
            r.wf(),
            r.spec_guid() == remote_reader_guid,
            r.spec_unicast() == unicast_locator_list@,
            r.spec_multicast() == multicast_locator_list@,
            r.spec_expects_inline_qos() == expects_inline_qos,
            r.spec_is_active() == is_active,
            r.spec_highest_sent() == 0,
            r.spec_highest_acked() == 0,
            r.spec_requested().len() == 0,
            r.spec_heartbeat_count() == (Count(0)),
            r.spec_nack_count() == (Count(0)),
    {
        ReaderProxy {
            remote_reader_guid,
            unicast_locator_list,
            multicast_locator_list,
            expects_inline_qos,
            is_active,
            highest_sequence_number_sent: 0,
            highest_sequence_number_acknowledged: 0,
            sequence_numbers_requested: Vec::new(),
            heartbeat_count: Count(0),
            time_last_sent_data: Time::new(0, 0),
            time_nack_received: Time::new(0, 0),
            highest_nack_count_received: Count(0),
        }
    }

    /// The matched remote reader.
    pub fn remote_reader_guid(&self) -> (r: Guid)
        ensures
            r == self.spec_guid(),
    {
        self.remote_reader_guid
    }

    /// The count carried by the next heartbeat.
    pub fn heartbeat_count(&self) -> (r: Count)
        ensures
            r == self.spec_heartbeat_count(),
    {
        self.heartbeat_count
    }

    /// The remote reader's unicast addresses.
    pub fn unicast_locator_list(&self) -> (r: &Vec<Locator>)
        ensures
            r@ == self.spec_unicast(),
    {
        &self.unicast_locator_list
    }

    /// The remote reader's multicast addresses.
    pub fn multicast_locator_list(&self) -> (r: &Vec<Locator>)
        ensures
            r@ == self.spec_multicast(),
    {
        &self.multicast_locator_list
    }

    /// Hands out the next unsent sequence number, if the writer has one past
    /// the highest sent so far, and advances the sent mark to it.
    pub fn next_unsent_change(
        &mut self,
        last_change_sequence_number: SequenceNumber,
    ) -> (r: Option<SequenceNumber>)
        requires
            old(self).wf(),
        ensures
            final(self).wf(),
            final(self).same_admin(*old(self)),
            final(self).spec_highest_acked() == old(self).spec_highest_acked(),
            final(self).spec_requested() == old(self).spec_requested(),
            if old(self).spec_highest_sent() < last_change_sequence_number {
                r == Some((old(self).spec_highest_sent() + 1) as SequenceNumber)
                    && final(self).spec_highest_sent() == old(self).spec_highest_sent() + 1
            } else {
                r is None && final(self).spec_highest_sent() == old(self).spec_highest_sent()
            },
    {
        if self.highest_sequence_number_sent < last_change_sequence_number {
            let next = self.highest_sequence_number_sent + 1;
            self.highest_sequence_number_sent = next;
            Some(next)
        } else {
            None
        }
    }

    /// The fields untouched by the sending and acknowledgment operations.
    pub open spec fn same_admin(self, other: ReaderProxy) -> bool {
        &&& self.spec_guid() == other.spec_guid()
        &&& self.spec_unicast() == other.spec_unicast()
        &&& self.spec_multicast() == other.spec_multicast()
        &&& self.spec_expects_inline_qos() == other.spec_expects_inline_qos()
        &&& self.spec_is_active() == other.spec_is_active()
        &&& self.spec_heartbeat_count() == other.spec_heartbeat_count()
        &&& self.spec_nack_count() == other.spec_nack_count()
        &&& self.spec_last_sent_instant() == other.spec_last_sent_instant()
        &&& self.spec_nack_instant() == other.spec_nack_instant()
    }

    /// The numbers past the sent mark, up to the writer's last change.
    pub fn unsent_changes(&self, last_change_sequence_number: SequenceNumber) -> (r: Vec<
        SequenceNumber,
    >)
        ensures
            r@.no_duplicates(),
            forall|y: int| #![auto]
                contains_num(r@, y) <==> self.spec_highest_sent() < y
                    <= last_change_sequence_number,
            r@.len() == if last_change_sequence_number > self.spec_highest_sent() {
                last_change_sequence_number - self.spec_highest_sent()
            } else {
                0
            },
    {
        num_set_range(self.highest_sequence_number_sent, last_change_sequence_number)
    }

    /// Records the highest sequence number the reader has acknowledged.
    pub fn acked_changes_set(&mut self, committed_seq_num: SequenceNumber)
        requires
            old(self).wf(),
            committed_seq_num >= 0,
        ensures
            final(self).wf(),
            final(self).same_admin(*old(self)),
            final(self).spec_highest_acked() == committed_seq_num,
            final(self).spec_highest_sent() == old(self).spec_highest_sent(),
            final(self).spec_requested() == old(self).spec_requested(),
    {
        self.highest_sequence_number_acknowledged = committed_seq_num;
    }

    /// The numbers past the acknowledged mark, up to the writer's last
    /// change.
    pub fn unacked_changes(&self, last_change_sequence_number: SequenceNumber) -> (r: Vec<
        SequenceNumber,
    >)
        ensures
            r@.no_duplicates(),
            forall|y: int| #![auto]
                contains_num(r@, y) <==> self.spec_highest_acked() < y
                    <= last_change_sequence_number,
            r@.len() == if last_change_sequence_number > self.spec_highest_acked() {
                last_change_sequence_number - self.spec_highest_acked()
            } else {
                0
            },
    {
        num_set_range(self.highest_sequence_number_acknowledged, last_change_sequence_number)
    }

    /// Unions the requested numbers into the requested set; earlier requests
    /// are kept.
    pub fn requested_changes_set(&mut self, req_seq_num_set: Vec<SequenceNumber>)
        requires
            old(self).wf(),
        ensures
            final(self).wf(),
            final(self).same_admin(*old(self)),
            final(self).spec_highest_sent() == old(self).spec_highest_sent(),
            final(self).spec_highest_acked() == old(self).spec_highest_acked(),
            forall|y: int|
                #![trigger contains_num(final(self).spec_requested(), y)]
                #![trigger contains_num(old(self).spec_requested(), y)]
                contains_num(final(self).spec_requested(), y) <==> (contains_num(
                    old(self).spec_requested(),
                    y,
                ) || contains_num(req_seq_num_set@, y)),
    {
        let ghost pre = *self;
        let ghost from = req_seq_num_set@;
        for i in 0..req_seq_num_set.len()
            invariant
                req_seq_num_set@ == from,
                pre.wf(),
                self.remote_reader_guid == pre.remote_reader_guid,
                self.unicast_locator_list == pre.unicast_locator_list,
                self.multicast_locator_list == pre.multicast_locator_list,
                self.expects_inline_qos == pre.expects_inline_qos,
                self.is_active == pre.is_active,
                self.highest_sequence_number_sent == pre.highest_sequence_number_sent,
                self.highest_sequence_number_acknowledged
                    == pre.highest_sequence_number_acknowledged,
                self.heartbeat_count == pre.heartbeat_count,
                self.time_last_sent_data == pre.time_last_sent_data,
                self.time_nack_received == pre.time_nack_received,
                self.highest_nack_count_received == pre.highest_nack_count_received,
                self.sequence_numbers_requested@.no_duplicates(),
                forall|y: int|
                    #![trigger contains_num(self.spec_requested(), y)]
                    #![trigger contains_num(pre.spec_requested(), y)]
                    contains_num(self.spec_requested(), y) <==> (contains_num(
                        pre.spec_requested(),
                        y,
                    ) || contains_num(from.take(i as int), y)),
        {
            let ghost prev = *self;
            let value = req_seq_num_set[i];
            num_set_insert(&mut self.sequence_numbers_requested, value);
            proof {
                assert forall|y: int|
                    #![trigger contains_num(self.spec_requested(), y)]
                    #![trigger contains_num(pre.spec_requested(), y)]
                    contains_num(self.spec_requested(), y) <==> (contains_num(
                        pre.spec_requested(),
                        y,
                    ) || contains_num(from.take(i + 1), y)) by {
                    crate::seq_num_set::lemma_contains_take_step(from, i as int, y);
                    assert(contains_num(self.spec_requested(), y) <==> (contains_num(
                        prev.spec_requested(),
                        y,
                    ) || y == from[i as int]));
                }
            }
        }
        proof {
            assert(from.take(from.len() as int) =~= from);
        }
    }

    /// The numbers the reader has asked to have repaired.
    pub fn requested_changes(&self) -> (r: Vec<SequenceNumber>)
        ensures
            r@ == self.spec_requested(),
    {
        let mut r: Vec<SequenceNumber> = Vec::new();
        proof {
            assert(r@ =~= self.sequence_numbers_requested@.take(0));
        }
        for i in 0..self.sequence_numbers_requested.len()
            invariant
                r@ == self.sequence_numbers_requested@.take(i as int),
        {
            let value = self.sequence_numbers_requested[i];
            proof {
                assert(self.sequence_numbers_requested@.take(i + 1)
                    =~= self.sequence_numbers_requested@.take(i as int).push(
                    self.sequence_numbers_requested@[i as int],
                ));
            }
            r.push(value);
        }
        proof {
            assert(self.sequence_numbers_requested@.take(
                self.sequence_numbers_requested@.len() as int,
            ) =~= self.sequence_numbers_requested@);
        }
        r
    }

    /// Pops the least requested number, where any is requested at all.
    pub fn next_requested_change(&mut self) -> (r: Option<SequenceNumber>)
        requires
            old(self).wf(),
        ensures
            final(self).wf(),
            final(self).same_admin(*old(self)),
            final(self).spec_highest_sent() == old(self).spec_highest_sent(),
            final(self).spec_highest_acked() == old(self).spec_highest_acked(),
            match r {
                Some(m) => contains_num(old(self).spec_requested(), m as int) && (forall|y: int|
                    contains_num(old(self).spec_requested(), y) ==> m <= y) && final(
                    self
                ).spec_requested().len() < old(self).spec_requested().len() && forall|y: int|
                    #![auto]
                    contains_num(final(self).spec_requested(), y) <==> (contains_num(
                        old(self).spec_requested(),
                        y,
                    ) && y != m),
                None => old(self).spec_requested().len() == 0 && final(self).spec_requested()
                    == old(self).spec_requested(),
            },
    {
        let m = num_set_min(&self.sequence_numbers_requested);
        match m {
            Some(m) => {
                num_set_remove(&mut self.sequence_numbers_requested, m);
                Some(m)
            },
            None => None,
        }
    }

    /// The highest acknowledgment count seen from this reader.
    pub fn nack_received(&self) -> (r: Count)
        ensures
            r == self.spec_nack_count(),
    {
        self.highest_nack_count_received
    }

    /// Records the highest acknowledgment count seen from this reader.
    pub fn nack_received_set(&mut self, highest_nack_count_received: Count)
        ensures
            final(self).spec_nack_count() == highest_nack_count_received,
            final(self).spec_guid() == old(self).spec_guid(),
            final(self).spec_highest_sent() == old(self).spec_highest_sent(),
            final(self).spec_highest_acked() == old(self).spec_highest_acked(),
            final(self).spec_requested() == old(self).spec_requested(),
            final(self).spec_heartbeat_count() == old(self).spec_heartbeat_count(),
            final(self).wf() == old(self).wf(),
    {
        self.highest_nack_count_received = highest_nack_count_received;
    }

    /// Records when data was last sent to this reader.
    pub fn time_last_sent_data_reset(&mut self, now: Time)
        ensures
            final(self).spec_last_sent_instant() == now,
            final(self).spec_guid() == old(self).spec_guid(),
            final(self).spec_highest_sent() == old(self).spec_highest_sent(),
            final(self).spec_highest_acked() == old(self).spec_highest_acked(),
            final(self).spec_requested() == old(self).spec_requested(),
            final(self).spec_heartbeat_count() == old(self).spec_heartbeat_count(),
            final(self).spec_nack_count() == old(self).spec_nack_count(),
            final(self).spec_nack_instant() == old(self).spec_nack_instant(),
            final(self).wf() == old(self).wf(),
    {
        self.time_last_sent_data = now;
    }

    /// Records when the last acknowledgment arrived.
    pub fn time_nack_received_reset(&mut self, now: Time)
        ensures
            final(self).spec_nack_instant() == now,
            final(self).spec_guid() == old(self).spec_guid(),
            final(self).spec_highest_sent() == old(self).spec_highest_sent(),
            final(self).spec_highest_acked() == old(self).spec_highest_acked(),
            final(self).spec_requested() == old(self).spec_requested(),
            final(self).spec_heartbeat_count() == old(self).spec_heartbeat_count(),
            final(self).spec_nack_count() == old(self).spec_nack_count(),
            final(self).spec_last_sent_instant() == old(self).spec_last_sent_instant(),
            final(self).wf() == old(self).wf(),
    {
        self.time_nack_received = now;
    }

    /// How long ago data was last sent, measured against `now`.
    pub fn duration_since_last_sent_data(&self, now: Time) -> (r: Duration)
        requires
            now.wf(),
            self.spec_last_sent_instant().wf(),
            i32::MIN <= now.sec - self.spec_last_sent_instant().sec - 1,
            now.sec - self.spec_last_sent_instant().sec <= i32::MAX,
        ensures
            r.wf(),
            duration_nanos(r) == time_nanos(now) - time_nanos(self.spec_last_sent_instant()),
    {
        now.sub_time(self.time_last_sent_data)
    }

    /// How long ago the last acknowledgment arrived, measured against `now`.
    pub fn duration_since_nack_received(&self, now: Time) -> (r: Duration)
        requires
            now.wf(),
            self.spec_nack_instant().wf(),
            i32::MIN <= now.sec - self.spec_nack_instant().sec - 1,
            now.sec - self.spec_nack_instant().sec <= i32::MAX,
        ensures
            r.wf(),
            duration_nanos(r) == time_nanos(now) - time_nanos(self.spec_nack_instant()),
    {
        now.sub_time(self.time_nack_received)
    }

    /// Advances the heartbeat count, wrapping at the numeric bound.
    pub fn increment_heartbeat_count(&mut self)
        ensures
            final(self).spec_heartbeat_count().0 == old(
                self,
            ).spec_heartbeat_count().0.wrapping_add(1),
            final(self).spec_guid() == old(self).spec_guid(),
            final(self).spec_highest_sent() == old(self).spec_highest_sent(),
            final(self).spec_highest_acked() == old(self).spec_highest_acked(),
            final(self).spec_requested() == old(self).spec_requested(),
            final(self).spec_nack_count() == old(self).spec_nack_count(),
            final(self).wf() == old(self).wf(),
    {
        self.heartbeat_count = Count(self.heartbeat_count.0.wrapping_add(1));
    }
}

/// A writer with full per-reader state: it owns the history cache, hands out
/// sequence numbers, and tracks each matched reader through a `ReaderProxy`.
pub struct StatefulWriter {
    guid: Guid,
    topic_kind: TopicKind,
    reliability_level: ReliabilityKind,
    unicast_locator_list: Vec<Locator>,
    multicast_locator_list: Vec<Locator>,
    push_mode: bool,
    heartbeat_period: Duration,
    nack_response_delay: Duration,
    nack_suppression_duration: Duration,
    last_change_sequence_number: SequenceNumber,
    writer_cache: HistoryCache,
    data_max_sized_serialized: Option<i32>,
    matched_readers: Vec<ReaderProxy>,
}

impl StatefulWriter {
    /// The writer's own identifier.
    pub closed spec fn spec_guid(self) -> Guid {
        self.guid
    }

    /// The matched reader proxies.
    pub closed spec fn spec_matched_readers(self) -> Seq<ReaderProxy> {
        self.matched_readers@
    }

    /// The sequence number of the latest change handed out.
    pub closed spec fn spec_last_change_sn(self) -> int {
        self.last_change_sequence_number as int
    }

    /// The writer's history cache.
    pub closed spec fn spec_cache(self) -> HistoryCache {
        self.writer_cache
    }

    /// The writer's delivery guarantee.
    pub closed spec fn spec_reliability_level(self) -> ReliabilityKind {
        self.reliability_level
    }

    /// Whether unsent changes are pushed without waiting for a request.
    pub closed spec fn spec_push_mode(self) -> bool {
        self.push_mode
    }

    /// Whether a proxy for the reader is held.
    pub open spec fn has_matched_reader(self, guid: Guid) -> bool {
        exists|i: int|
            0 <= i < self.spec_matched_readers().len() && self.spec_matched_readers()[
                i
            ].spec_guid() == guid
    }

    /// The writer invariant: the cache and each proxy are well formed, each
    /// reader is matched at most once, and the change counter is
    /// non-negative.
    pub open spec fn wf(self) -> bool {
        &&& self.spec_cache().wf()
        &&& 0 <= self.spec_last_change_sn()
        &&& forall|i: int|
            0 <= i < self.spec_matched_readers().len()
                ==> (#[trigger] self.spec_matched_readers()[i]).wf()
        &&& forall|i: int, j: int|
            0 <= i < self.spec_matched_readers().len() && 0 <= j
                < self.spec_matched_readers().len() && i != j
                ==> self.spec_matched_readers()[i].spec_guid()
                != self.spec_matched_readers()[j].spec_guid()
    }

    /// A fresh writer with no changes and no matched readers.
    pub fn new(
        guid: Guid,
        topic_kind: TopicKind,
        reliability_level: ReliabilityKind,
        unicast_locator_list: Vec<Locator>,
        multicast_locator_list: Vec<Locator>,
        push_mode: bool,
        heartbeat_period: Duration,
        nack_response_delay: Duration,
        nack_suppression_duration: Duration,
    ) -> (r: Self)
        ensures
            r.wf(),
            r.spec_guid() == guid,
            r.spec_last_change_sn() == 0,
            r.spec_cache().spec_changes().len() == 0,
            r.spec_matched_readers().len() == 0,
            r.spec_reliability_level() == reliability_level,
            r.spec_push_mode() == push_mode,
    {
        StatefulWriter {
            guid,
            topic_kind,
            reliability_level,
            unicast_locator_list,
            multicast_locator_list,
            push_mode,
            heartbeat_period,
            nack_response_delay,
            nack_suppression_duration,
            last_change_sequence_number: 0,
            writer_cache: HistoryCache::new(),
            data_max_sized_serialized: None,
            matched_readers: Vec::new(),
        }
    }

    /// Builds the next change of this writer: the sequence number advances
    /// by one and the change carries it.
    pub fn new_change(
        &mut self,
        kind: ChangeKind,
        data: Option<Vec<u8>>,
        inline_qos: Option<ParameterListSubmessageElement>,
        handle: InstanceHandle,
    ) -> (r: CacheChange)
        requires
            old(self).wf(),
            old(self).spec_last_change_sn() < i64::MAX,
        ensures
            final(self).wf(),
            final(self).spec_last_change_sn() == old(self).spec_last_change_sn() + 1,
            final(self).spec_guid() == old(self).spec_guid(),
            final(self).spec_cache() == old(self).spec_cache(),
            final(self).spec_matched_readers() == old(self).spec_matched_readers(),
            final(self).spec_reliability_level() == old(self).spec_reliability_level(),
            final(self).spec_push_mode() == old(self).spec_push_mode(),
            r.spec_kind() == kind,
            r.spec_writer_guid() == old(self).spec_guid(),
            r.spec_instance_handle() == handle,
            r.spec_sequence_number() == old(self).spec_last_change_sn() + 1,
            r.spec_inline_qos() == inline_qos,
            r.spec_data_value() == data,
    {
        self.last_change_sequence_number = self.last_change_sequence_number + 1;
        CacheChange::new(
            kind,
            self.guid,
            handle,
            self.last_change_sequence_number,
            inline_qos,
            data,
        )
    }

    /// The writer's history cache, for adding and removing changes.
    /// Stores a built change in this writer's history: the cache gains it
    /// unless its sequence number is already present.
    pub fn add_cache_change(&mut self, change: CacheChange)
        requires
            old(self).wf(),
        ensures
            final(self).wf(),
            final(self).spec_guid() == old(self).spec_guid(),
            final(self).spec_last_change_sn() == old(self).spec_last_change_sn(),
            final(self).spec_reliability_level() == old(self).spec_reliability_level(),
            final(self).spec_push_mode() == old(self).spec_push_mode(),
            final(self).spec_matched_readers() == old(self).spec_matched_readers(),
            old(self).spec_cache().has_seq(change.spec_sequence_number())
                ==> final(self).spec_cache() == old(self).spec_cache(),
            !old(self).spec_cache().has_seq(change.spec_sequence_number())
                ==> final(self).spec_cache().spec_changes() == old(
                self,
            ).spec_cache().spec_changes().push(change),
            forall|s: int| #![auto]
                final(self).spec_cache().has_seq(s) <==> (old(self).spec_cache().has_seq(s) || s
                    == change.spec_sequence_number()),
    {
        self.writer_cache.add_change(change);
    }

    pub fn history_cache(&mut self) -> (r: &mut HistoryCache)
        ensures
            *r == old(self).spec_cache(),
            final(self).spec_cache() == *final(r),
            final(self).spec_guid() == old(self).spec_guid(),
            final(self).spec_last_change_sn() == old(self).spec_last_change_sn(),
            final(self).spec_matched_readers() == old(self).spec_matched_readers(),
    {
        &mut self.writer_cache
    }

    /// Matches a reader: an existing proxy for the same reader is replaced.
    pub fn matched_reader_add(&mut self, a_reader_proxy: ReaderProxy)
        requires
            old(self).wf(),
            a_reader_proxy.wf(),
        ensures
            final(self).wf(),
            final(self).spec_guid() == old(self).spec_guid(),
            final(self).spec_last_change_sn() == old(self).spec_last_change_sn(),
            final(self).spec_cache() == old(self).spec_cache(),
            final(self).spec_reliability_level() == old(self).spec_reliability_level(),
            final(self).spec_push_mode() == old(self).spec_push_mode(),
            final(self).has_matched_reader(a_reader_proxy.spec_guid()),
            forall|g: Guid| #![auto]
                final(self).has_matched_reader(g) <==> (old(self).has_matched_reader(g) || g
                    == a_reader_proxy.spec_guid()),
            final(self).spec_matched_readers().contains(a_reader_proxy),
            forall|p: ReaderProxy| #![auto]
                old(self).spec_matched_readers().contains(p) && p.spec_guid()
                    != a_reader_proxy.spec_guid() ==> final(self).spec_matched_readers().contains(
                    p,
                ),
    {
        self.matched_reader_remove_by_guid(&a_reader_proxy.remote_reader_guid);
        let ghost mid = *self;
        let ghost n = self.matched_readers@.len() as int;
        self.matched_readers.push(a_reader_proxy);
        proof {
            assert(self.spec_matched_readers()[n] == a_reader_proxy);
            assert(self.spec_matched_readers().contains(a_reader_proxy));
            assert forall|a: int|
                0 <= a < self.spec_matched_readers().len() implies (
            #[trigger] self.spec_matched_readers()[a]).wf() by {
                if a < n {
                    assert(self.spec_matched_readers()[a] == mid.spec_matched_readers()[a]);
                    assert(mid.spec_matched_readers()[a].wf());
                }
            }
            assert forall|a: int, b: int|
                0 <= a < self.spec_matched_readers().len() && 0 <= b
                    < self.spec_matched_readers().len() && a != b implies self
                .spec_matched_readers()[a].spec_guid() != self.spec_matched_readers()[
                b
            ].spec_guid() by {
                if a < n {
                    assert(self.spec_matched_readers()[a] == mid.spec_matched_readers()[a]);
                }
                if b < n {
                    assert(self.spec_matched_readers()[b] == mid.spec_matched_readers()[b]);
                }
                if a < n && b == n {
                    if self.spec_matched_readers()[a].spec_guid() == a_reader_proxy.spec_guid() {
                        assert(mid.has_matched_reader(a_reader_proxy.spec_guid()));
                    }
                }
                if b < n && a == n {
                    if self.spec_matched_readers()[b].spec_guid() == a_reader_proxy.spec_guid() {
                        assert(mid.has_matched_reader(a_reader_proxy.spec_guid()));
                    }
                }
            }
            assert forall|g: Guid| #![auto]
                self.has_matched_reader(g) implies (mid.has_matched_reader(g) || g
                == a_reader_proxy.spec_guid()) by {
                let i = choose|i: int|
                    0 <= i < self.spec_matched_readers().len() && self.spec_matched_readers()[
                        i
                    ].spec_guid() == g;
                if i < n {
                    assert(mid.spec_matched_readers()[i].spec_guid() == g);
                }
            }
            assert forall|g: Guid| #![auto]
                (mid.has_matched_reader(g) || g == a_reader_proxy.spec_guid()) implies self
                .has_matched_reader(g) by {
                if mid.has_matched_reader(g) {
                    let i = choose|i: int|
                        0 <= i < mid.spec_matched_readers().len() && mid.spec_matched_readers()[
                            i
                        ].spec_guid() == g;
                    assert(self.spec_matched_readers()[i].spec_guid() == g);
                } else {
                    assert(self.spec_matched_readers()[n].spec_guid() == g);
                }
            }
            assert forall|p: ReaderProxy| #![auto]
                mid.spec_matched_readers().contains(p) implies self.spec_matched_readers()
                .contains(p) by {
                if mid.spec_matched_readers().contains(p) {
                    let i = choose|i: int|
                        0 <= i < mid.spec_matched_readers().len() && mid.spec_matched_readers()[
                            i
                        ] == p;
                    assert(self.spec_matched_readers()[i] == p);
                }
            }
        }
    }

    /// Unmatches the reader with the given identifier, if it is matched.
    pub fn matched_reader_remove_by_guid(&mut self, a_reader_guid: &Guid)
        requires
            old(self).wf(),
        ensures
            final(self).wf(),
            final(self).spec_guid() == old(self).spec_guid(),
            final(self).spec_last_change_sn() == old(self).spec_last_change_sn(),
            final(self).spec_cache() == old(self).spec_cache(),
            final(self).spec_reliability_level() == old(self).spec_reliability_level(),
            final(self).spec_push_mode() == old(self).spec_push_mode(),
            forall|g: Guid| #![auto]
                final(self).has_matched_reader(g) <==> (old(self).has_matched_reader(g) && g
                    != *a_reader_guid),
            forall|i: int|
                0 <= i < final(self).spec_matched_readers().len() ==> old(
                    self,
                ).spec_matched_readers().contains(final(self).spec_matched_readers()[i]),
            forall|p: ReaderProxy| #![auto]
                old(self).spec_matched_readers().contains(p) && p.spec_guid() != *a_reader_guid
                    ==> final(self).spec_matched_readers().contains(p),
    {
        let ghost orig = self.matched_readers@;
        proof {
            assert(orig == old(self).spec_matched_readers());
        }
        let n = self.matched_readers.len();
        for i in 0..n
            invariant
                n == self.matched_readers@.len(),
                self.matched_readers@ == orig,
                orig == old(self).spec_matched_readers(),
                self.guid == old(self).guid,
                self.last_change_sequence_number == old(self).last_change_sequence_number,
                self.writer_cache == old(self).writer_cache,
                self.reliability_level == old(self).reliability_level,
                self.push_mode == old(self).push_mode,
                old(self).spec_cache().wf(),
                0 <= old(self).spec_last_change_sn(),
                forall|a: int, b: int|
                    0 <= a < orig.len() && 0 <= b < orig.len() && a != b
                        ==> orig[a].spec_guid() != orig[b].spec_guid(),
                forall|a: int| 0 <= a < orig.len() ==> (#[trigger] orig[a]).wf(),
                forall|j: int| 0 <= j < i ==> orig[j].spec_guid() != *a_reader_guid,
        {
            let found = self.matched_readers[i].remote_reader_guid() == *a_reader_guid;
            if found {
                self.matched_readers.remove(i);
                proof {
                    assert forall|g: Guid| #![auto]
                        self.has_matched_reader(g) implies ((exists|a: int|
                            0 <= a < orig.len() && orig[a].spec_guid() == g) && g
                            != *a_reader_guid) by {
                        let a = choose|a: int|
                            0 <= a < self.spec_matched_readers().len()
                                && self.spec_matched_readers()[a].spec_guid() == g;
                        if a < i {
                            assert(orig[a].spec_guid() == g);
                        } else {
                            assert(orig[a + 1].spec_guid() == g);
                        }
                    }
                    assert forall|g: Guid| #![auto]
                        ((exists|a: int|
                            0 <= a < orig.len() && orig[a].spec_guid() == g) && g
                            != *a_reader_guid) implies self.has_matched_reader(g) by {
                        let a = choose|a: int|
                            0 <= a < orig.len() && orig[a].spec_guid() == g;
                        if a < i {
                            assert(self.spec_matched_readers()[a].spec_guid() == g);
                        } else {
                            assert(a != i);
                            assert(self.spec_matched_readers()[a - 1].spec_guid() == g);
                        }
                        assert(self.has_matched_reader(g));
                    }
                    assert forall|a: int|
                        0 <= a < self.spec_matched_readers().len() implies orig.contains(
                        self.spec_matched_readers()[a],
                    ) by {
                        if a < i {
                            assert(self.spec_matched_readers()[a] == orig[a]);
                        } else {
                            assert(self.spec_matched_readers()[a] == orig[a + 1]);
                        }
                    }
                    assert forall|p: ReaderProxy| #![auto]
                        orig.contains(p) && p.spec_guid() != *a_reader_guid implies self
                        .spec_matched_readers().contains(p) by {
                        if orig.contains(p) && p.spec_guid() != *a_reader_guid {
                            let a = choose|a: int| 0 <= a < orig.len() && orig[a] == p;
                            assert(a != i);
                            if a < i {
                                assert(self.spec_matched_readers()[a] == p);
                            } else {
                                assert(self.spec_matched_readers()[a - 1] == p);
                            }
                        }
                    }
                    assert forall|a: int, b: int|
                        0 <= a < self.spec_matched_readers().len() && 0 <= b
                            < self.spec_matched_readers().len() && a != b implies self
                        .spec_matched_readers()[a].spec_guid() != self.spec_matched_readers()[
                        b
                    ].spec_guid() by {
                        if a < i {
                            assert(self.spec_matched_readers()[a] == orig[a]);
                        } else {
                            assert(self.spec_matched_readers()[a] == orig[a + 1]);
                        }
                        if b < i {
                            assert(self.spec_matched_readers()[b] == orig[b]);
                        } else {
                            assert(self.spec_matched_readers()[b] == orig[b + 1]);
                        }
                    }
                    assert forall|a: int|
                        0 <= a < self.spec_matched_readers().len() implies (
                        #[trigger] self.spec_matched_readers()[a]).wf() by {
                        if a < i {
                            assert(self.spec_matched_readers()[a] == orig[a]);
                            assert(orig[a].wf());
                        } else {
                            assert(self.spec_matched_readers()[a] == orig[a + 1]);
                            assert(orig[a + 1].wf());
                        }
                    }
                }
                return ;
            }
        }
        proof {
            assert(!self.has_matched_reader(*a_reader_guid));
        }
    }

    /// Unmatches the given reader's proxy, if its reader is matched.
    pub fn matched_reader_remove(&mut self, a_reader_proxy: &ReaderProxy)
        requires
            old(self).wf(),
        ensures
            final(self).wf(),
            final(self).spec_guid() == old(self).spec_guid(),
            final(self).spec_last_change_sn() == old(self).spec_last_change_sn(),
            final(self).spec_cache() == old(self).spec_cache(),
            forall|g: Guid| #![auto]
                final(self).has_matched_reader(g) <==> (old(self).has_matched_reader(g) && g
                    != a_reader_proxy.spec_guid()),
            forall|i: int|
                0 <= i < final(self).spec_matched_readers().len() ==> old(
                    self,
                ).spec_matched_readers().contains(final(self).spec_matched_readers()[i]),
            forall|p: ReaderProxy| #![auto]
                old(self).spec_matched_readers().contains(p) && p.spec_guid()
                    != a_reader_proxy.spec_guid() ==> final(self).spec_matched_readers().contains(
                    p,
                ),
    {
        let guid = a_reader_proxy.remote_reader_guid();
        self.matched_reader_remove_by_guid(&guid);
    }

    /// The proxy of the given reader, if it is matched.
    pub fn matched_reader_lookup(&self, a_reader_guid: &Guid) -> (r: Option<&ReaderProxy>)
        requires
            self.wf(),
        ensures
            match r {
                Some(p) => self.spec_matched_readers().contains(*p) && p.spec_guid()
                    == *a_reader_guid,
                None => !self.has_matched_reader(*a_reader_guid),
            },
    {
        for i in 0..self.matched_readers.len()
            invariant
                forall|j: int|
                    0 <= j < i ==> self.matched_readers@[j].spec_guid() != *a_reader_guid,
        {
            if self.matched_readers[i].remote_reader_guid() == *a_reader_guid {
                proof {
                    assert(self.spec_matched_readers().contains(
                        self.spec_matched_readers()[i as int],
                    ));
                }
                return Some(&self.matched_readers[i]);
            }
        }
        None
    }

    /// Whether every change handed out so far has been acknowledged by every
    /// matched reader.
    pub fn is_acked_by_all(&self) -> (r: bool)
        requires
            self.wf(),
        ensures
            r == forall|i: int|
                0 <= i < self.spec_matched_readers().len()
                    ==> (#[trigger] self.spec_matched_readers()[i]).spec_highest_acked()
                    >= self.spec_last_change_sn(),
    {
        for i in 0..self.matched_readers.len()
            invariant
                forall|j: int|
                    0 <= j < i ==> (#[trigger] self.spec_matched_readers()[j]).spec_highest_acked()
                        >= self.spec_last_change_sn(),
        {
            let acked = self.matched_readers[i].highest_sequence_number_acknowledged;
            if acked < self.last_change_sequence_number {
                proof {
                    assert(self.spec_matched_readers()[i as int].spec_highest_acked()
                        < self.spec_last_change_sn());
                }
                return false;
            }
        }
        true
    }

    /// The writer's own identifier.
    pub fn guid(&self) -> (r: Guid)
        ensures
            r == self.spec_guid(),
    {
        self.guid
    }

    /// The sequence number of the latest change handed out.
    pub fn last_change_sequence_number(&self) -> (r: SequenceNumber)
        ensures
            r == self.spec_last_change_sn(),
    {
        self.last_change_sequence_number
    }
}

impl StatefulWriter {
    /// The proxy held for the reader; meaningful where one is matched.
    pub open spec fn spec_proxy_with(self, guid: Guid) -> ReaderProxy {
        self.spec_matched_readers()[choose|i: int|
            0 <= i < self.spec_matched_readers().len() && self.spec_matched_readers()[
                i
            ].spec_guid() == guid]
    }

    /// A matched proxy equal in identity to a held one is that held one.
    pub proof fn lemma_proxy_with_is(self, p: ReaderProxy)
        requires
            self.wf(),
            self.spec_matched_readers().contains(p),
        ensures
            self.has_matched_reader(p.spec_guid()),
            self.spec_proxy_with(p.spec_guid()) == p,
    {
        let i = choose|i: int|
            0 <= i < self.spec_matched_readers().len() && self.spec_matched_readers()[i] == p;
        assert(self.spec_matched_readers()[i].spec_guid() == p.spec_guid());
        let j = choose|j: int|
            0 <= j < self.spec_matched_readers().len() && self.spec_matched_readers()[
                j
            ].spec_guid() == p.spec_guid();
        assert(self.spec_matched_readers()[j].spec_guid() == p.spec_guid());
        if i != j {
            assert(self.spec_matched_readers()[i].spec_guid() != self.spec_matched_readers()[
                j
            ].spec_guid());
        }
    }

    /// Takes the reader's proxy out, to operate on and put back.
    fn matched_reader_take(&mut self, a_reader_guid: &Guid) -> (r: Option<ReaderProxy>)
        requires
            old(self).wf(),
        ensures
            final(self).wf(),
            final(self).spec_guid() == old(self).spec_guid(),
            final(self).spec_cache() == old(self).spec_cache(),
            final(self).spec_last_change_sn() == old(self).spec_last_change_sn(),
            final(self).spec_reliability_level() == old(self).spec_reliability_level(),
            final(self).spec_push_mode() == old(self).spec_push_mode(),
            forall|g: Guid| #![auto]
                final(self).has_matched_reader(g) <==> (old(self).has_matched_reader(g) && g
                    != *a_reader_guid),
            forall|p: ReaderProxy| #![auto]
                old(self).spec_matched_readers().contains(p) && p.spec_guid() != *a_reader_guid
                    ==> final(self).spec_matched_readers().contains(p),
            match r {
                Some(p) => old(self).has_matched_reader(*a_reader_guid) && p.wf()
                    && p.spec_guid() == *a_reader_guid && p == old(self).spec_proxy_with(
                    *a_reader_guid,
                ),
                None => !old(self).has_matched_reader(*a_reader_guid),
            },
    {
        let ghost orig = self.matched_readers@;
        proof {
            assert(orig == old(self).spec_matched_readers());
        }
        let n = self.matched_readers.len();
        for i in 0..n
            invariant
                n == self.matched_readers@.len(),
                self.matched_readers@ == orig,
                orig == old(self).spec_matched_readers(),
                self.guid == old(self).guid,
                self.writer_cache == old(self).writer_cache,
                self.last_change_sequence_number == old(self).last_change_sequence_number,
                self.reliability_level == old(self).reliability_level,
                self.push_mode == old(self).push_mode,
                old(self).spec_cache().wf(),
                0 <= old(self).spec_last_change_sn(),
                forall|a: int, b: int|
                    0 <= a < orig.len() && 0 <= b < orig.len() && a != b
                        ==> orig[a].spec_guid() != orig[b].spec_guid(),
                forall|a: int| 0 <= a < orig.len() ==> (#[trigger] orig[a]).wf(),
                forall|j: int| 0 <= j < i ==> orig[j].spec_guid() != *a_reader_guid,
        {
            let found = self.matched_readers[i].remote_reader_guid() == *a_reader_guid;
            if found {
                let taken = self.matched_readers.remove(i);
                proof {
                    assert(taken == orig[i as int]);
                    assert(old(self).spec_matched_readers().contains(orig[i as int]));
                    old(self).lemma_proxy_with_is(taken);
                    assert forall|g: Guid| #![auto]
                        self.has_matched_reader(g) implies ((exists|a: int|
                            0 <= a < orig.len() && orig[a].spec_guid() == g) && g
                            != *a_reader_guid) by {
                        let a = choose|a: int|
                            0 <= a < self.spec_matched_readers().len()
                                && self.spec_matched_readers()[a].spec_guid() == g;
                        if a < i {
                            assert(orig[a].spec_guid() == g);
                        } else {
                            assert(orig[a + 1].spec_guid() == g);
                        }
                    }
                    assert forall|g: Guid| #![auto]
                        ((exists|a: int|
                            0 <= a < orig.len() && orig[a].spec_guid() == g) && g
                            != *a_reader_guid) implies self.has_matched_reader(g) by {
                        let a = choose|a: int|
                            0 <= a < orig.len() && orig[a].spec_guid() == g;
                        if a < i {
                            assert(self.spec_matched_readers()[a].spec_guid() == g);
                        } else {
                            assert(a != i);
                            assert(self.spec_matched_readers()[a - 1].spec_guid() == g);
                        }
                        assert(self.has_matched_reader(g));
                    }
                    assert forall|a: int, b: int|
                        0 <= a < self.spec_matched_readers().len() && 0 <= b
                            < self.spec_matched_readers().len() && a != b implies self
                        .spec_matched_readers()[a].spec_guid() != self.spec_matched_readers()[
                        b
                    ].spec_guid() by {
                        if a < i {
                            assert(self.spec_matched_readers()[a] == orig[a]);
                        } else {
                            assert(self.spec_matched_readers()[a] == orig[a + 1]);
                        }
                        if b < i {
                            assert(self.spec_matched_readers()[b] == orig[b]);
                        } else {
                            assert(self.spec_matched_readers()[b] == orig[b + 1]);
                        }
                    }
                    assert forall|a: int|
                        0 <= a < self.spec_matched_readers().len() implies (
                        #[trigger] self.spec_matched_readers()[a]).wf() by {
                        if a < i {
                            assert(self.spec_matched_readers()[a] == orig[a]);
                            assert(orig[a].wf());
                        } else {
                            assert(self.spec_matched_readers()[a] == orig[a + 1]);
                            assert(orig[a + 1].wf());
                        }
                    }
                    assert forall|p: ReaderProxy| #![auto]
                        orig.contains(p) && p.spec_guid() != *a_reader_guid implies self
                        .spec_matched_readers().contains(p) by {
                        if orig.contains(p) && p.spec_guid() != *a_reader_guid {
                            let a = choose|a: int| 0 <= a < orig.len() && orig[a] == p;
                            assert(a != i);
                            if a < i {
                                assert(self.spec_matched_readers()[a] == p);
                            } else {
                                assert(self.spec_matched_readers()[a - 1] == p);
                            }
                        }
                    }
                }
                return Some(taken);
            }
        }
        proof {
            assert(!self.has_matched_reader(*a_reader_guid));
        }
        None
    }

    /// One run of the writer towards the matched reader: a newer
    /// acknowledgment moves the acknowledged mark to one under its base and
    /// files its set for repair, each unsent number goes out in order as the
    /// cached change (DATA) or a GAP, the reliable path announces the cached
    /// range under the advanced heartbeat count, and every filed repair is
    /// answered the same way until none is left.
    #[verifier::rlimit(100)]
    #[verifier::spinoff_prover]
    pub fn run(
        &mut self,
        a_reader_guid: &Guid,
        received_message: Option<&RtpsEndpointMessage>,
    ) -> (r: Option<RtpsEndpointMessage>)
        requires
            old(self).wf(),
            old(self).has_matched_reader(*a_reader_guid),
            old(self).spec_last_change_sn() < i64::MAX,
        ensures
            final(self).wf(),
            final(self).spec_guid() == old(self).spec_guid(),
            final(self).spec_cache() == old(self).spec_cache(),
            final(self).spec_last_change_sn() == old(self).spec_last_change_sn(),
            final(self).spec_reliability_level() == old(self).spec_reliability_level(),
            final(self).spec_push_mode() == old(self).spec_push_mode(),
            forall|g: Guid| #![auto]
                final(self).has_matched_reader(g) == old(self).has_matched_reader(g),
            forall|p: ReaderProxy| #![auto]
                old(self).spec_matched_readers().contains(p) && p.spec_guid() != *a_reader_guid
                    ==> final(self).spec_matched_readers().contains(p),
            (final(self).spec_reliability_level() == ReliabilityKind::BestEffort || final(
                self
            ).spec_push_mode()) ==> final(self).spec_proxy_with(*a_reader_guid).spec_highest_sent()
                == if old(self).spec_last_change_sn() > old(self).spec_proxy_with(
                *a_reader_guid,
            ).spec_highest_sent() {
                old(self).spec_last_change_sn()
            } else {
                old(self).spec_proxy_with(*a_reader_guid).spec_highest_sent()
            },
            final(self).spec_reliability_level() == ReliabilityKind::Reliable ==> final(
                self
            ).spec_proxy_with(*a_reader_guid).spec_requested().len() == 0,
            final(self).spec_reliability_level() == ReliabilityKind::Reliable ==> r is Some,
            final(self).spec_reliability_level() == ReliabilityKind::BestEffort ==> ((r is Some)
                <==> old(self).spec_last_change_sn() > old(self).spec_proxy_with(
                *a_reader_guid,
            ).spec_highest_sent()),
            match r {
                Some(m) => m.guid_prefix == final(self).spec_guid().prefix
                    && m.submessages@.len() > 0 && m.submessages@.len() >= spec_pushed_count(
                    *old(self),
                    *a_reader_guid,
                ) && (forall|t: int|
                    #![auto]
                    0 <= t < spec_pushed_count(*old(self), *a_reader_guid) ==> spec_emitted_at(
                        old(self).spec_cache(),
                        a_reader_guid.entity_id,
                        old(self).spec_guid().entity_id,
                        old(self).spec_proxy_with(*a_reader_guid).spec_highest_sent() + 1 + t,
                        m.submessages@[t],
                    )) && (final(self).spec_reliability_level() == ReliabilityKind::Reliable
                    ==> m.submessages@.len() > spec_pushed_count(*old(self), *a_reader_guid) && (
                m.submessages@[spec_pushed_count(*old(self), *a_reader_guid)] matches
                    RtpsEndpointSubmessage::Heartbeat(h) && spec_heartbeat_announce(
                    h,
                    old(self).spec_cache(),
                    a_reader_guid.entity_id,
                    old(self).spec_guid().entity_id,
                    final(self).spec_proxy_with(*a_reader_guid).spec_heartbeat_count(),
                    final(self).spec_proxy_with(*a_reader_guid).spec_highest_acked() >= old(
                        self,
                    ).spec_last_change_sn(),
                )) && final(self).spec_proxy_with(*a_reader_guid).spec_heartbeat_count().0
                    == old(self).spec_proxy_with(*a_reader_guid).spec_heartbeat_count()
                    .0.wrapping_add(1) && forall|t: int|
                    #![trigger m.submessages@[t]]
                    spec_pushed_count(*old(self), *a_reader_guid) < t && t < m.submessages@.len()
                        ==> spec_emits_some(
                        old(self).spec_cache(),
                        a_reader_guid.entity_id,
                        old(self).spec_guid().entity_id,
                        m.submessages@[t],
                    )),
                None => final(self).spec_proxy_with(*a_reader_guid).spec_heartbeat_count()
                    == old(self).spec_proxy_with(*a_reader_guid).spec_heartbeat_count(),
            },
            received_message matches Some(m) ==> ((final(self).spec_reliability_level()
                == ReliabilityKind::Reliable && m.submessages@.len() == 1) ==> (
            m.submessages@[0] matches RtpsEndpointSubmessage::AckNack(a) ==> (a.reader_id
                == a_reader_guid.entity_id ==> spec_acknack_outcome(
                old(self).spec_proxy_with(*a_reader_guid),
                final(self).spec_proxy_with(*a_reader_guid),
                a,
            )))),
            (received_message is None && final(self).spec_reliability_level()
                == ReliabilityKind::Reliable) ==> (r matches Some(m) ==> forall|y: int|
                #![trigger contains_num(old(self).spec_proxy_with(*a_reader_guid).spec_requested(), y)]
                contains_num(old(self).spec_proxy_with(*a_reader_guid).spec_requested(), y) && (
                y < i64::MAX || old(self).spec_cache().has_seq(y)) ==> spec_repaired(
                    old(self).spec_cache(),
                    a_reader_guid.entity_id,
                    old(self).spec_guid().entity_id,
                    y,
                    m.submessages@,
                    spec_pushed_count(*old(self), *a_reader_guid),
                )),
            received_message matches Some(rm) ==> ((final(self).spec_reliability_level()
                == ReliabilityKind::Reliable && rm.submessages@.len() == 1) ==> (
            rm.submessages@[0] matches RtpsEndpointSubmessage::AckNack(a) ==> ((a.reader_id
                == a_reader_guid.entity_id && a.count.0.wrapping_sub(
                old(self).spec_proxy_with(*a_reader_guid).spec_nack_count().0,
            ) > 0) ==> (r matches Some(m) ==> forall|y: int|
                #![trigger contains_num(old(self).spec_proxy_with(*a_reader_guid).spec_requested(), y)]
                #![trigger contains_num(a.reader_sn_state.set@, y)]
                (contains_num(old(self).spec_proxy_with(*a_reader_guid).spec_requested(), y)
                    || contains_num(a.reader_sn_state.set@, y)) && (y < i64::MAX || old(
                    self,
                ).spec_cache().has_seq(y)) ==> spec_repaired(
                    old(self).spec_cache(),
                    a_reader_guid.entity_id,
                    old(self).spec_guid().entity_id,
                    y,
                    m.submessages@,
                    spec_pushed_count(*old(self), *a_reader_guid),
                ))))),
    {
        let ghost pre = *self;
        let taken = self.matched_reader_take(a_reader_guid);
        let mut proxy = match taken {
            Some(p) => p,
            None => {
                proof {
                    assert(false);
                }
                return None;
            },
        };
        let ghost mid = *self;
        let ghost start_proxy = proxy;
        let ghost start_sent = proxy.spec_highest_sent();
        let best_effort = match self.reliability_level {
            ReliabilityKind::BestEffort => true,
            ReliabilityKind::Reliable => false,
        };
        let push = best_effort || self.push_mode;
        let last = self.last_change_sequence_number;
        let ghost pushed = spec_pushed_count(pre, *a_reader_guid);
        proof {
            assert(pre.spec_proxy_with(*a_reader_guid) == start_proxy) by {
                pre.lemma_proxy_with_is(start_proxy);
            }
            assert(pushed == if push {
                if last > start_sent {
                    last - start_sent
                } else {
                    0
                }
            } else {
                0
            });
        }
        let mut submessages: Vec<RtpsEndpointSubmessage> = Vec::new();
        if !best_effort {
            if let Some(message) = received_message {
                let n = message.submessages.len();
                for i in 0..n
                    invariant
                        n == message.submessages@.len(),
                        proxy.wf(),
                        proxy.spec_guid() == *a_reader_guid,
                        proxy.spec_highest_sent() == start_sent,
                        proxy.spec_heartbeat_count() == start_proxy.spec_heartbeat_count(),
                        i == 0 ==> proxy == start_proxy,
                        (n == 1 && i >= 1) ==> (message.submessages@[0] matches
                            RtpsEndpointSubmessage::AckNack(a) ==> (a.reader_id
                            == a_reader_guid.entity_id ==> spec_acknack_outcome(
                            start_proxy,
                            proxy,
                            a,
                        ) && spec_requested_union(start_proxy, proxy, a))),
                        (n == 1 && i >= 1) ==> (message.submessages@[0] matches
                            RtpsEndpointSubmessage::AckNack(a) ==> (a.reader_id
                            != a_reader_guid.entity_id ==> proxy == start_proxy)),
                        (n == 1 && i >= 1) ==> (!(message.submessages@[0] is AckNack)
                            ==> proxy == start_proxy),
                {
                    match &message.submessages[i] {
                        RtpsEndpointSubmessage::AckNack(acknack) => {
                            if acknack.reader_id == a_reader_guid.entity_id() {
                                let ghost ack_entry = proxy;
                                let newer = acknack.count.0.wrapping_sub(
                                    proxy.nack_received().0,
                                ) > 0;
                                if newer {
                                    proxy.nack_received_set(acknack.count);
                                    if acknack.reader_sn_state.base >= 1 {
                                        proxy.acked_changes_set(acknack.reader_sn_state.base - 1);
                                    }
                                    let requested = crate::seq_num_set::num_set_copy(
                                        &acknack.reader_sn_state.set,
                                    );
                                    let ghost req_view = requested@;
                                    let ghost before_req = proxy;
                                    proxy.requested_changes_set(requested);
                                    proof {
                                        assert forall|y: int| #![auto]
                                            contains_num(proxy.spec_requested(), y) <==> (
                                            contains_num(ack_entry.spec_requested(), y)
                                                || contains_num(
                                                acknack.reader_sn_state.set@,
                                                y,
                                            )) by {
                                            assert(req_view == acknack.reader_sn_state.set@);
                                            assert(before_req.spec_requested()
                                                == ack_entry.spec_requested());
                                            assert(contains_num(proxy.spec_requested(), y)
                                                <==> (contains_num(
                                                before_req.spec_requested(),
                                                y,
                                            ) || contains_num(req_view, y)));
                                        }
                                    }
                                }
                                proof {
                                    if i == 0 {
                                        assert(ack_entry == start_proxy);
                                        assert(spec_acknack_outcome(
                                            start_proxy,
                                            proxy,
                                            *acknack,
                                        ));
                                        assert(spec_requested_union(
                                            start_proxy,
                                            proxy,
                                            *acknack,
                                        ));
                                        assert(message.submessages@[i as int]
                                            == RtpsEndpointSubmessage::AckNack(*acknack));
                                    }
                                }
                            }
                        },
                        RtpsEndpointSubmessage::Data(_) => {},
                        RtpsEndpointSubmessage::Gap(_) => {},
                        RtpsEndpointSubmessage::Heartbeat(_) => {},
                    }
                }
            }
        }
        let ghost acked_proxy = proxy;
        if push {
            loop
                invariant
                    pre.spec_last_change_sn() < i64::MAX,
                    last == pre.spec_last_change_sn(),
                    proxy.wf(),
                    proxy.spec_guid() == *a_reader_guid,
                    start_sent <= proxy.spec_highest_sent(),
                    proxy.spec_highest_sent() <= last || proxy.spec_highest_sent()
                        == start_sent,
                    proxy.spec_heartbeat_count() == acked_proxy.spec_heartbeat_count(),
                    proxy.spec_requested() == acked_proxy.spec_requested(),
                    proxy.spec_highest_acked() == acked_proxy.spec_highest_acked(),
                    proxy.spec_nack_count() == acked_proxy.spec_nack_count(),
                    self.writer_cache == mid.writer_cache,
                    mid.spec_cache().wf(),
                    self.guid == mid.guid,
                    submessages@.len() == proxy.spec_highest_sent() - start_sent,
                    forall|t: int|
                        #![auto]
                        0 <= t < submessages@.len() ==> spec_emitted_at(
                            mid.spec_cache(),
                            a_reader_guid.entity_id,
                            mid.spec_guid().entity_id,
                            start_sent + 1 + t,
                            submessages@[t],
                        ),
                ensures
                    proxy.wf(),
                    proxy.spec_guid() == *a_reader_guid,
                    proxy.spec_heartbeat_count() == acked_proxy.spec_heartbeat_count(),
                    proxy.spec_requested() == acked_proxy.spec_requested(),
                    proxy.spec_highest_acked() == acked_proxy.spec_highest_acked(),
                    proxy.spec_nack_count() == acked_proxy.spec_nack_count(),
                    proxy.spec_highest_sent() == if last > start_sent {
                        last as int
                    } else {
                        start_sent
                    },
                    self.writer_cache == mid.writer_cache,
                    self.guid == mid.guid,
                    submessages@.len() == proxy.spec_highest_sent() - start_sent,
                    forall|t: int|
                        #![auto]
                        0 <= t < submessages@.len() ==> spec_emitted_at(
                            mid.spec_cache(),
                            a_reader_guid.entity_id,
                            mid.spec_guid().entity_id,
                            start_sent + 1 + t,
                            submessages@[t],
                        ),
                decreases last - proxy.spec_highest_sent() + 1,
            {
                let next = proxy.next_unsent_change(last);
                match next {
                    Some(seq_num) => {
                        let ghost before = submessages@;
                        match self.writer_cache.get_change(seq_num) {
                            Some(change) => {
                                let data = crate::stateless_writer::data_from_cache_change(
                                    change,
                                    a_reader_guid.entity_id(),
                                );
                                proof {
                                    assert(crate::stateless_writer::spec_change_with(
                                        mid.spec_cache(),
                                        seq_num as int,
                                    ) == *change);
                                }
                                submessages.push(RtpsEndpointSubmessage::Data(data));
                            },
                            None => {
                                let gap = crate::stateless_writer::gap_for_seq_num(
                                    a_reader_guid.entity_id(),
                                    self.guid.entity_id(),
                                    seq_num,
                                );
                                submessages.push(RtpsEndpointSubmessage::Gap(gap));
                            },
                        }
                        proof {
                            assert(spec_emitted_at(
                                mid.spec_cache(),
                                a_reader_guid.entity_id,
                                mid.spec_guid().entity_id,
                                seq_num as int,
                                submessages@[before.len() as int],
                            ));
                            assert(forall|t: int|
                                0 <= t < before.len() ==> submessages@[t] == before[t]);
                        }
                    },
                    None => {
                        break ;
                    },
                }
            }
        }
        let ghost hb_index = submessages@.len() as int;
        proof {
            assert(mid.spec_cache() == pre.spec_cache());
            assert(mid.spec_guid() == pre.spec_guid());
            if push {
                assert(hb_index == pushed);
            } else {
                assert(hb_index == 0);
                assert(pushed == 0);
            }
            assert forall|t: int| #![auto]
                0 <= t && t < submessages@.len() implies spec_emitted_at(
                pre.spec_cache(),
                a_reader_guid.entity_id,
                pre.spec_guid().entity_id,
                start_sent + 1 + t,
                submessages@[t],
            ) by {
                assert(spec_emitted_at(
                    mid.spec_cache(),
                    a_reader_guid.entity_id,
                    mid.spec_guid().entity_id,
                    start_sent + 1 + t,
                    submessages@[t],
                ));
            }
        }
        if !best_effort {
            proxy.increment_heartbeat_count();
            let first_sn = match self.writer_cache.get_seq_num_min() {
                Some(m) => m,
                None => 1,
            };
            let last_sn = match self.writer_cache.get_seq_num_max() {
                Some(m) => m,
                None => 0,
            };
            let unacked = proxy.unacked_changes(last);
            let heartbeat = HeartbeatSubmessage {
                endianness_flag: true,
                final_flag: unacked.len() == 0,
                liveliness_flag: false,
                reader_id: a_reader_guid.entity_id(),
                writer_id: self.guid.entity_id(),
                first_sn,
                last_sn,
                count: proxy.heartbeat_count(),
            };
            let ghost before_hb = submessages@;
            submessages.push(RtpsEndpointSubmessage::Heartbeat(heartbeat));
            proof {
                assert(submessages@[hb_index] == RtpsEndpointSubmessage::Heartbeat(heartbeat));
                assert(spec_heartbeat_announce(
                    heartbeat,
                    mid.spec_cache(),
                    a_reader_guid.entity_id,
                    mid.spec_guid().entity_id,
                    proxy.spec_heartbeat_count(),
                    proxy.spec_highest_acked() >= last,
                ));
                assert(forall|t: int|
                    0 <= t < before_hb.len() ==> submessages@[t] == before_hb[t]);
            }
            let ghost before_repair = submessages@;
            let ghost repair_requested = proxy.spec_requested();
            let ghost repair_proxy = proxy;
            proof {
                assert(submessages@.take(before_repair.len() as int) =~= before_repair);
            }
            loop
                invariant
                    proxy.wf(),
                    proxy.spec_guid() == *a_reader_guid,
                    proxy.spec_heartbeat_count() == repair_proxy.spec_heartbeat_count(),
                    proxy.spec_highest_sent() == repair_proxy.spec_highest_sent(),
                    proxy.spec_highest_acked() == repair_proxy.spec_highest_acked(),
                    proxy.spec_nack_count() == repair_proxy.spec_nack_count(),
                    self.writer_cache == mid.writer_cache,
                    mid.spec_cache().wf(),
                    self.guid == mid.guid,
                    before_repair.len() == hb_index + 1,
                    submessages@.len() >= before_repair.len(),
                    submessages@.take(before_repair.len() as int) == before_repair,
                    repair_requested == repair_proxy.spec_requested(),
                    forall|y: int| #![auto]
                        contains_num(proxy.spec_requested(), y) ==> contains_num(
                            repair_requested,
                            y,
                        ),
                    forall|t: int|
                        #![trigger submessages@[t]]
                        hb_index < t && t < submessages@.len() ==> spec_emits_some(
                            mid.spec_cache(),
                            a_reader_guid.entity_id,
                            mid.spec_guid().entity_id,
                            submessages@[t],
                        ),
                    forall|y: int|
                        #![trigger contains_num(repair_requested, y)]
                        contains_num(repair_requested, y) && !contains_num(
                            proxy.spec_requested(),
                            y,
                        ) && (y < i64::MAX || mid.spec_cache().has_seq(y)) ==> spec_repaired(
                            mid.spec_cache(),
                            a_reader_guid.entity_id,
                            mid.spec_guid().entity_id,
                            y,
                            submessages@,
                            hb_index,
                        ),
                ensures
                    proxy.wf(),
                    proxy.spec_guid() == *a_reader_guid,
                    proxy.spec_heartbeat_count() == repair_proxy.spec_heartbeat_count(),
                    proxy.spec_highest_sent() == repair_proxy.spec_highest_sent(),
                    proxy.spec_highest_acked() == repair_proxy.spec_highest_acked(),
                    proxy.spec_nack_count() == repair_proxy.spec_nack_count(),
                    proxy.spec_requested().len() == 0,
                    submessages@.len() >= before_repair.len(),
                    submessages@.take(before_repair.len() as int) == before_repair,
                    forall|t: int|
                        #![trigger submessages@[t]]
                        hb_index < t && t < submessages@.len() ==> spec_emits_some(
                            mid.spec_cache(),
                            a_reader_guid.entity_id,
                            mid.spec_guid().entity_id,
                            submessages@[t],
                        ),
                    forall|y: int|
                        #![trigger contains_num(repair_requested, y)]
                        contains_num(repair_requested, y) && (y < i64::MAX
                            || mid.spec_cache().has_seq(y)) ==> spec_repaired(
                            mid.spec_cache(),
                            a_reader_guid.entity_id,
                            mid.spec_guid().entity_id,
                            y,
                            submessages@,
                            hb_index,
                        ),
                decreases proxy.spec_requested().len(),
            {
                let ghost step_pre = proxy;
                let next = proxy.next_requested_change();
                let seq_num = match next {
                    Some(s) => s,
                    None => {
                        break ;
                    },
                };
                let ghost before = submessages@;
                let mut emitted = false;
                match self.writer_cache.get_change(seq_num) {
                    Some(change) => {
                        let data = crate::stateless_writer::data_from_cache_change(
                            change,
                            a_reader_guid.entity_id(),
                        );
                        proof {
                            assert(crate::stateless_writer::spec_change_with(
                                mid.spec_cache(),
                                seq_num as int,
                            ) == *change);
                        }
                        submessages.push(RtpsEndpointSubmessage::Data(data));
                        emitted = true;
                    },
                    None => {
                        // A request at the numeric bound names no real
                        // change and is passed over.
                        if seq_num < i64::MAX {
                            let gap = crate::stateless_writer::gap_for_seq_num(
                                a_reader_guid.entity_id(),
                                self.guid.entity_id(),
                                seq_num,
                            );
                            submessages.push(RtpsEndpointSubmessage::Gap(gap));
                            emitted = true;
                        }
                    },
                }
                proof {
                    assert(forall|t: int|
                        0 <= t < before.len() ==> submessages@[t] == before[t]);
                    assert(submessages@.take(before_repair.len() as int) =~= before_repair);
                    if !emitted {
                        assert(submessages@ == before);
                    } else {
                        assert(submessages@.len() == before.len() + 1);
                        assert(spec_emitted_at(
                            mid.spec_cache(),
                            a_reader_guid.entity_id,
                            mid.spec_guid().entity_id,
                            seq_num as int,
                            submessages@[before.len() as int],
                        ));
                        assert(spec_emits_some(
                            mid.spec_cache(),
                            a_reader_guid.entity_id,
                            mid.spec_guid().entity_id,
                            submessages@[before.len() as int],
                        ));
                    }
                    assert forall|t: int|
                        #![trigger submessages@[t]]
                        hb_index < t && t < submessages@.len() implies spec_emits_some(
                        mid.spec_cache(),
                        a_reader_guid.entity_id,
                        mid.spec_guid().entity_id,
                        submessages@[t],
                    ) by {
                        if t < before.len() {
                            assert(spec_emits_some(
                                mid.spec_cache(),
                                a_reader_guid.entity_id,
                                mid.spec_guid().entity_id,
                                before[t],
                            ));
                            assert(submessages@[t] == before[t]);
                        }
                    }
                    assert forall|y: int|
                        #![trigger contains_num(repair_requested, y)]
                        contains_num(repair_requested, y) && !contains_num(
                            proxy.spec_requested(),
                            y,
                        ) && (y < i64::MAX || mid.spec_cache().has_seq(y)) implies spec_repaired(
                        mid.spec_cache(),
                        a_reader_guid.entity_id,
                        mid.spec_guid().entity_id,
                        y,
                        submessages@,
                        hb_index,
                    ) by {
                        if y == seq_num {
                            if !emitted {
                                assert(seq_num == i64::MAX);
                                assert(!mid.spec_cache().has_seq(seq_num as int));
                                assert(false);
                            }
                            let tw = before.len() as int;
                            assert(hb_index < tw && tw < submessages@.len()
                                && spec_emitted_at(
                                mid.spec_cache(),
                                a_reader_guid.entity_id,
                                mid.spec_guid().entity_id,
                                y,
                                submessages@[tw],
                            ));
                            assert(spec_repaired(
                                mid.spec_cache(),
                                a_reader_guid.entity_id,
                                mid.spec_guid().entity_id,
                                y,
                                submessages@,
                                hb_index,
                            ));
                        } else {
                            if contains_num(step_pre.spec_requested(), y) {
                                assert(contains_num(proxy.spec_requested(), y));
                                assert(false);
                            }
                            assert(spec_repaired(
                                mid.spec_cache(),
                                a_reader_guid.entity_id,
                                mid.spec_guid().entity_id,
                                y,
                                before,
                                hb_index,
                            ));
                            let t0 = choose|t0: int|
                                hb_index < t0 && t0 < before.len() && spec_emitted_at(
                                    mid.spec_cache(),
                                    a_reader_guid.entity_id,
                                    mid.spec_guid().entity_id,
                                    y,
                                    before[t0],
                                );
                            assert(submessages@[t0] == before[t0]);
                            assert(spec_repaired(
                                mid.spec_cache(),
                                a_reader_guid.entity_id,
                                mid.spec_guid().entity_id,
                                y,
                                submessages@,
                                hb_index,
                            ));
                        }
                    }
                                }
            }
            proof {
                assert(before_repair.len() == hb_index + 1);
                assert(submessages@.len() > hb_index);
                assert forall|t: int| #![auto]
                    0 <= t && t <= hb_index implies submessages@[t] == before_repair[t] by {
                    assert(submessages@.take(before_repair.len() as int)[t] == submessages@[t]);
                }
                assert(submessages@[hb_index] == RtpsEndpointSubmessage::Heartbeat(heartbeat));
                assert forall|t: int| #![auto]
                    0 <= t && t < pushed implies spec_emitted_at(
                    pre.spec_cache(),
                    a_reader_guid.entity_id,
                    pre.spec_guid().entity_id,
                    start_sent + 1 + t,
                    submessages@[t],
                ) by {
                    assert(submessages@[t] == before_repair[t]);
                    assert(before_repair[t] == before_hb[t]);
                }
                assert forall|t: int|
                    #![trigger submessages@[t]]
                    hb_index < t && t < submessages@.len() implies spec_emits_some(
                    pre.spec_cache(),
                    a_reader_guid.entity_id,
                    pre.spec_guid().entity_id,
                    submessages@[t],
                ) by {
                    assert(spec_emits_some(
                        mid.spec_cache(),
                        a_reader_guid.entity_id,
                        mid.spec_guid().entity_id,
                        submessages@[t],
                    ));
                }
                assert(repair_requested == acked_proxy.spec_requested());
                if received_message is None {
                    assert(acked_proxy == start_proxy);
                }
                assert forall|y: int|
                    #![trigger contains_num(repair_requested, y)]
                    contains_num(repair_requested, y) && (y < i64::MAX
                        || pre.spec_cache().has_seq(y)) implies spec_repaired(
                    pre.spec_cache(),
                    a_reader_guid.entity_id,
                    pre.spec_guid().entity_id,
                    y,
                    submessages@,
                    hb_index,
                ) by {
                    assert(spec_repaired(
                        mid.spec_cache(),
                        a_reader_guid.entity_id,
                        mid.spec_guid().entity_id,
                        y,
                        submessages@,
                        hb_index,
                    ));
                }
                assert(spec_heartbeat_announce(
                    heartbeat,
                    pre.spec_cache(),
                    a_reader_guid.entity_id,
                    pre.spec_guid().entity_id,
                    proxy.spec_heartbeat_count(),
                    proxy.spec_highest_acked() >= last,
                ));
                assert(proxy.spec_heartbeat_count().0
                    == start_proxy.spec_heartbeat_count().0.wrapping_add(1));
                match received_message {
                    Some(rm) => {
                        if rm.submessages@.len() == 1 {
                            match rm.submessages@[0] {
                                RtpsEndpointSubmessage::AckNack(a) => {
                                    if a.reader_id == a_reader_guid.entity_id
                                        && a.count.0.wrapping_sub(
                                        start_proxy.spec_nack_count().0,
                                    ) > 0 {
                                        assert(spec_requested_union(
                                            start_proxy,
                                            acked_proxy,
                                            a,
                                        ));
                                        assert forall|y: int|
                                            #![trigger contains_num(start_proxy.spec_requested(), y)]
                                            #![trigger contains_num(a.reader_sn_state.set@, y)]
                                            (contains_num(start_proxy.spec_requested(), y)
                                                || contains_num(a.reader_sn_state.set@, y)) && (
                                            y < i64::MAX || pre.spec_cache().has_seq(
                                                y,
                                            )) implies spec_repaired(
                                            pre.spec_cache(),
                                            a_reader_guid.entity_id,
                                            pre.spec_guid().entity_id,
                                            y,
                                            submessages@,
                                            pushed,
                                        ) by {
                                            assert(contains_num(
                                                acked_proxy.spec_requested(),
                                                y,
                                            ));
                                            assert(contains_num(repair_requested, y));
                                        }
                                    }
                                },
                                _ => {},
                            }
                        }
                    },
                    None => {},
                }
            }
        }
        proof {
            assert forall|a: int|
                0 <= a < self.spec_matched_readers().len() implies (
            #[trigger] self.spec_matched_readers()[a]).wf() by {
                assert(self.spec_matched_readers()[a] == mid.spec_matched_readers()[a]);
                assert(mid.spec_matched_readers()[a].wf());
            }
            assert forall|a: int, b: int|
                0 <= a < self.spec_matched_readers().len() && 0 <= b
                    < self.spec_matched_readers().len() && a != b implies self
                .spec_matched_readers()[a].spec_guid() != self.spec_matched_readers()[
                b
            ].spec_guid() by {
                assert(self.spec_matched_readers()[a] == mid.spec_matched_readers()[a]);
                assert(self.spec_matched_readers()[b] == mid.spec_matched_readers()[b]);
            }
            assert forall|p: ReaderProxy| #![auto]
                mid.spec_matched_readers().contains(p) implies self.spec_matched_readers()
                .contains(p) by {
                if mid.spec_matched_readers().contains(p) {
                    let a = choose|a: int|
                        0 <= a < mid.spec_matched_readers().len() && mid.spec_matched_readers()[
                            a
                        ] == p;
                    assert(self.spec_matched_readers()[a] == p);
                }
            }
        }
        let ghost end_proxy = proxy;
        self.matched_reader_add(proxy);
        proof {
            self.lemma_proxy_with_is(end_proxy);
            assert(self.spec_proxy_with(*a_reader_guid) == end_proxy);
            assert forall|g: Guid| #![auto]
                self.has_matched_reader(g) == pre.has_matched_reader(g) by {
                if g == *a_reader_guid {
                    assert(self.has_matched_reader(g));
                }
            }
        }
        if submessages.len() > 0 {
            Some(RtpsEndpointMessage::new(self.guid.prefix(), submessages))
        } else {
            None
        }
    }
}

/// How many unsent numbers a run hands the reader: the distance from its
/// sent mark to the writer's last change, where the writer pushes.
pub open spec fn spec_pushed_count(w: StatefulWriter, reader: Guid) -> int {
    if w.spec_reliability_level() == ReliabilityKind::BestEffort || w.spec_push_mode() {
        if w.spec_last_change_sn() > w.spec_proxy_with(reader).spec_highest_sent() {
            w.spec_last_change_sn() - w.spec_proxy_with(reader).spec_highest_sent()
        } else {
            0
        }
    } else {
        0
    }
}

/// Whether the submessage hands some number to the reader.
pub open spec fn spec_emits_some(
    cache: HistoryCache,
    reader_id: crate::types::EntityId,
    writer_id: crate::types::EntityId,
    s: RtpsEndpointSubmessage,
) -> bool {
    exists|y: int| spec_emitted_at(cache, reader_id, writer_id, y, s)
}

/// Whether some submessage past the index hands the number to the reader.
pub open spec fn spec_repaired(
    cache: HistoryCache,
    reader_id: crate::types::EntityId,
    writer_id: crate::types::EntityId,
    y: int,
    subs: Seq<RtpsEndpointSubmessage>,
    from: int,
) -> bool {
    exists|t: int|
        from < t && t < subs.len() && spec_emitted_at(cache, reader_id, writer_id, y, subs[t])
}

/// Whether the submessage hands the number to the reader: the cached change
/// as DATA, or a GAP where the cache does not hold it.
pub open spec fn spec_emitted_at(
    cache: HistoryCache,
    reader_id: crate::types::EntityId,
    writer_id: crate::types::EntityId,
    seq_num: int,
    s: RtpsEndpointSubmessage,
) -> bool {
    match s {
        RtpsEndpointSubmessage::Data(d) => cache.has_seq(seq_num)
            && crate::stateless_writer::spec_data_carries(
            d,
            crate::stateless_writer::spec_change_with(cache, seq_num),
            reader_id,
        ),
        RtpsEndpointSubmessage::Gap(g) => !cache.has_seq(seq_num)
            && crate::stateless_writer::spec_gap_declares(g, seq_num, reader_id, writer_id),
        _ => false,
    }
}

/// What the announcing heartbeat carries: the cached range — first the
/// least stored number or one, last the greatest or zero — the given count,
/// and the final flag as given.
pub open spec fn spec_heartbeat_announce(
    h: HeartbeatSubmessage,
    cache: HistoryCache,
    reader_id: crate::types::EntityId,
    writer_id: crate::types::EntityId,
    count: Count,
    final_flag: bool,
) -> bool {
    &&& h.endianness_flag
    &&& !h.liveliness_flag
    &&& h.reader_id == reader_id
    &&& h.writer_id == writer_id
    &&& h.count == count
    &&& h.final_flag == final_flag
    &&& if cache.spec_changes().len() == 0 {
        h.first_sn == 1 && h.last_sn == 0
    } else {
        cache.has_seq(h.first_sn as int) && cache.has_seq(h.last_sn as int) && forall|i: int|
            0 <= i < cache.spec_changes().len() ==> h.first_sn <= (
            #[trigger] cache.spec_changes()[i]).spec_sequence_number() && cache.spec_changes()[
                i
            ].spec_sequence_number() <= h.last_sn
    }
}

/// How an acknowledgment settles the proxy's marks: a newer count records
/// itself and moves the acknowledged mark to one under the base; a stale
/// count changes neither. (What it files for repair is observable in the
/// repairs the run emits.)
pub open spec fn spec_acknack_outcome(
    pre: ReaderProxy,
    post: ReaderProxy,
    a: AckNackSubmessage,
) -> bool {
    if a.count.0.wrapping_sub(pre.spec_nack_count().0) > 0 {
        &&& post.spec_nack_count() == a.count
        &&& (a.reader_sn_state.base >= 1 ==> post.spec_highest_acked() == a.reader_sn_state.base
            - 1)
        &&& (a.reader_sn_state.base < 1 ==> post.spec_highest_acked()
            == pre.spec_highest_acked())
    } else {
        &&& post.spec_nack_count() == pre.spec_nack_count()
        &&& post.spec_highest_acked() == pre.spec_highest_acked()
    }
}

/// The requested set right after an acknowledgment is taken in: the old
/// requests unioned with the newer acknowledgment's set.
pub open spec fn spec_requested_union(
    pre: ReaderProxy,
    post: ReaderProxy,
    a: AckNackSubmessage,
) -> bool {
    if a.count.0.wrapping_sub(pre.spec_nack_count().0) > 0 {
        forall|y: int| #![auto]
            contains_num(post.spec_requested(), y) <==> (contains_num(pre.spec_requested(), y)
                || contains_num(a.reader_sn_state.set@, y))
    } else {
        post.spec_requested() == pre.spec_requested()
    }
}

} // verus!