//! The stateless writer: best-effort sending with no per-remote state beyond
//! a locator list, emitting a DATA submessage for each cached change and a
//! GAP for each sequence number the cache no longer holds.

use vstd::prelude::*;

use crate::cache::{CacheChange, HistoryCache};
use crate::messages::{DataSubmessage, GapSubmessage};
use crate::submessage_elements::{
    ParameterListSubmessageElement, SequenceNumberSet, SerializedDataSubmessageElement,
};
use crate::types::{
    EntityId, EntityKind, Guid, Locator, ReliabilityKind, SequenceNumber, TopicKind,
};

verus! {

/// The reader id carried when a change is sent to every reader.
pub fn entityid_unknown() -> (r: EntityId)
    ensures
        r == crate::types::spec_entityid_unknown(),
{
    let r = EntityId::new([0, 0, 0], EntityKind::UserDefinedUnknown)
    ;
    proof {
        assert(r.entity_key =~= crate::types::spec_entityid_unknown().entity_key);
    }
    r
}

/// What a stateless writer keeps about one remote locator: where to send
/// and how far the change stream has been sent.
pub struct ReaderLocator {
    locator: Locator,
    expects_inline_qos: bool,
    highest_sent_change_sn: SequenceNumber,
}

impl ReaderLocator {
    /// The remote address.
    pub closed spec fn spec_locator(self) -> Locator {
        self.locator
    }

    /// The highest sequence number handed out for sending.
    pub closed spec fn spec_highest_sent(self) -> int {
        self.highest_sent_change_sn as int
    }

    /// Whether the reader asks for inline QoS with each sample.
    pub closed spec fn spec_expects_inline_qos(self) -> bool {
        self.expects_inline_qos
    }

    /// The sent mark never goes negative.
    pub open spec fn wf(self) -> bool {
        0 <= self.spec_highest_sent()
    }

    /// A fresh locator entry: nothing sent yet.
    pub fn new(locator: Locator, expects_inline_qos: bool) -> (r: Self)
        ensures
            r.wf(),
            r.spec_locator() == locator,
            r.spec_expects_inline_qos() == expects_inline_qos,
            r.spec_highest_sent() == 0,
    {
        ReaderLocator { locator, expects_inline_qos, highest_sent_change_sn: 0 }
    }

    /// The remote address.
    pub fn locator(&self) -> (r: Locator)
        ensures
            r == self.spec_locator(),
    {
        self.locator
    }

    /// Hands out the next unsent sequence number, if the writer has one past
    /// the highest sent so far, and advances the sent mark to it.
    pub fn next_unsent_change(
        &mut self,
        last_change_sequence_number: SequenceNumber,
    ) -> (r: Option<SequenceNumber>)
        requires
            old(self).wf(),
        ensures
            final(self).wf(),
            final(self).spec_locator() == old(self).spec_locator(),
            final(self).spec_expects_inline_qos() == old(self).spec_expects_inline_qos(),
            if old(self).spec_highest_sent() < last_change_sequence_number {
                r == Some((old(self).spec_highest_sent() + 1) as SequenceNumber)
                    && final(self).spec_highest_sent() == old(self).spec_highest_sent() + 1
            } else {
                r is None && final(self).spec_highest_sent() == old(self).spec_highest_sent()
            },
    {
        if self.highest_sent_change_sn < last_change_sequence_number {
            let next = self.highest_sent_change_sn + 1;
            self.highest_sent_change_sn = next;
            Some(next)
        } else {
            None
        }
    }

    /// How many numbers past the sent mark the writer holds.
    pub fn unsent_changes_count(&self, last_change_sequence_number: SequenceNumber) -> (r: u64)
        requires
            self.wf(),
        ensures
            r == if last_change_sequence_number > self.spec_highest_sent() {
                last_change_sequence_number - self.spec_highest_sent()
            } else {
                0
            },
    {
        if last_change_sequence_number > self.highest_sent_change_sn {
            (last_change_sequence_number - self.highest_sent_change_sn) as u64
        } else {
            0
        }
    }

    /// Forgets what has been sent, so everything goes out again.
    pub fn unsent_changes_reset(&mut self)
        ensures
            final(self).wf(),
            final(self).spec_locator() == old(self).spec_locator(),
            final(self).spec_expects_inline_qos() == old(self).spec_expects_inline_qos(),
            final(self).spec_highest_sent() == 0,
    {
        self.highest_sent_change_sn = 0;
    }
}

/// A submessage produced by the stateless writer for one locator.
#[derive(Clone, PartialEq, Debug)]
pub enum RtpsStatelessSubmessage {
    Data(DataSubmessage),
    Gap(GapSubmessage),
}

/// A parameter's identifier, length and value octets.
pub open spec fn param_view(p: crate::submessage_elements::Parameter) -> (u16, i16, Seq<u8>) {
    (p.parameter_id, p.length, p.value@)
}

/// A deep copy of a parameter list.
pub fn clone_parameter_list(src: &ParameterListSubmessageElement) -> (r:
    ParameterListSubmessageElement)
    ensures
        r.parameter@.map_values(|p: crate::submessage_elements::Parameter| param_view(p))
            == src.parameter@.map_values(
            |p: crate::submessage_elements::Parameter| param_view(p),
        ),
{
    let mut out: Vec<crate::submessage_elements::Parameter> = Vec::new();
    let ghost f = |p: crate::submessage_elements::Parameter| param_view(p);
    proof {
        assert(out@.map_values(f) =~= src.parameter@.map_values(f).take(0));
    }
    for i in 0..src.parameter.len()
        invariant
            f == (|p: crate::submessage_elements::Parameter| param_view(p)),
            out@.map_values(f) == src.parameter@.map_values(f).take(i as int),
    {
        let mut value: Vec<u8> = Vec::new();
        crate::codec::push_bytes(&mut value, &src.parameter[i].value);
        let p = crate::submessage_elements::Parameter {
            parameter_id: src.parameter[i].parameter_id,
            length: src.parameter[i].length,
            value,
        };
        let ghost before = out@;
        out.push(p);
        proof {
            assert(out@.map_values(f) =~= before.map_values(f).push(param_view(p)));
            assert(param_view(p) == src.parameter@.map_values(f)[i as int]);
            assert(src.parameter@.map_values(f).take(i + 1) =~= src.parameter@.map_values(
                f,
            ).take(i as int).push(src.parameter@.map_values(f)[i as int]));
            assert(out@.map_values(f) =~= src.parameter@.map_values(f).take(i + 1));
        }
    }
    proof {
        assert(src.parameter@.map_values(f).take(src.parameter@.len() as int)
            =~= src.parameter@.map_values(f));
    }
    ParameterListSubmessageElement { parameter: out }
}

/// The DATA submessage that carries one cache change to every reader.
pub fn data_from_cache_change(change: &CacheChange, reader_id: EntityId) -> (r: DataSubmessage)
    ensures
        r.endianness_flag == true,
        r.inline_qos_flag == (change.spec_inline_qos() is Some),
        r.data_flag == (change.spec_data_value() is Some),
        !r.key_flag,
        !r.non_standard_payload_flag,
        r.reader_id == reader_id,
        r.writer_id == change.spec_writer_guid().entity_id,
        r.writer_sn == change.spec_sequence_number(),
        change.spec_inline_qos() matches Some(q) ==> r.inline_qos.parameter@.map_values(
            |p: crate::submessage_elements::Parameter| param_view(p),
        ) == q.parameter@.map_values(
            |p: crate::submessage_elements::Parameter| param_view(p),
        ),
        change.spec_inline_qos() is None ==> r.inline_qos.parameter@.len() == 0,
        change.spec_data_value() matches Some(v) ==> r.serialized_payload.value@ == v@,
        change.spec_data_value() is None ==> r.serialized_payload.value@.len() == 0,
{
    let inline_qos_flag = change.inline_qos().is_some();
    let data_flag = change.data_value().is_some();
    let inline_qos = match change.inline_qos() {
        Some(q) => clone_parameter_list(q),
        None => ParameterListSubmessageElement { parameter: Vec::new() },
    };
    let payload = match change.data_value() {
        Some(v) => {
            let mut copy: Vec<u8> = Vec::new();
            crate::codec::push_bytes(&mut copy, v);
            copy
        },
        None => Vec::new(),
    };
    DataSubmessage {
        endianness_flag: true,
        inline_qos_flag,
        data_flag,
        key_flag: false,
        non_standard_payload_flag: false,
        reader_id,
        writer_id: change.writer_guid().entity_id(),
        writer_sn: change.sequence_number(),
        inline_qos,
        serialized_payload: SerializedDataSubmessageElement { value: payload },
    }
}

/// The GAP submessage declaring exactly one sequence number irrelevant: the
/// gap starts at it and the list beyond it is empty.
pub fn gap_for_seq_num(
    reader_id: EntityId,
    writer_id: EntityId,
    gap_start: SequenceNumber,
) -> (r: GapSubmessage)
    requires
        gap_start < i64::MAX,
    ensures
        r.endianness_flag == true,
        r.reader_id == reader_id,
        r.writer_id == writer_id,
        r.gap_start == gap_start,
        r.gap_list.base == gap_start + 1,
        r.gap_list.set@.len() == 0,
{
    GapSubmessage {
        endianness_flag: true,
        reader_id,
        writer_id,
        gap_start,
        gap_list: SequenceNumberSet { base: gap_start + 1, set: Vec::new() },
    }
}

/// The cached change with the sequence number; meaningful where one is
/// stored.
pub open spec fn spec_change_with(cache: HistoryCache, seq_num: int) -> CacheChange {
    cache.spec_changes()[choose|i: int|
        0 <= i < cache.spec_changes().len() && cache.spec_changes()[i].spec_sequence_number()
            == seq_num]
}

/// Whether a DATA submessage carries exactly the given cached change to the
/// given reader: its flags, identifiers, sequence number, inline QoS and
/// payload all follow the change.
pub open spec fn spec_data_carries(
    d: DataSubmessage,
    c: CacheChange,
    reader_id: EntityId,
) -> bool {
    &&& d.endianness_flag
    &&& !d.key_flag
    &&& !d.non_standard_payload_flag
    &&& d.reader_id == reader_id
    &&& d.writer_id == c.spec_writer_guid().entity_id
    &&& d.writer_sn == c.spec_sequence_number()
    &&& d.inline_qos_flag == (c.spec_inline_qos() is Some)
    &&& d.data_flag == (c.spec_data_value() is Some)
    &&& (c.spec_inline_qos() matches Some(q) ==> d.inline_qos.parameter@.map_values(
        |p: crate::submessage_elements::Parameter| param_view(p),
    ) == q.parameter@.map_values(|p: crate::submessage_elements::Parameter| param_view(p)))
    &&& (c.spec_inline_qos() is None ==> d.inline_qos.parameter@.len() == 0)
    &&& (c.spec_data_value() matches Some(v) ==> d.serialized_payload.value@ == v@)
    &&& (c.spec_data_value() is None ==> d.serialized_payload.value@.len() == 0)
}

/// Whether a GAP submessage declares exactly the one sequence number
/// irrelevant, to the given reader from the given writer: the gap starts at
/// it and the list, based one past it, is empty.
pub open spec fn spec_gap_declares(
    g: GapSubmessage,
    seq_num: int,
    reader_id: EntityId,
    writer_id: EntityId,
) -> bool {
    &&& g.endianness_flag
    &&& g.reader_id == reader_id
    &&& g.writer_id == writer_id
    &&& g.gap_start == seq_num
    &&& g.gap_list.base == seq_num + 1
    &&& g.gap_list.set@.len() == 0
}

/// What the best-effort stateless writer sends for one sequence number: the
/// cached change as DATA to every reader, or a GAP where the cache no
/// longer holds it.
pub open spec fn spec_produced_at(
    cache: HistoryCache,
    writer_id: EntityId,
    seq_num: int,
    r: RtpsStatelessSubmessage,
) -> bool {
    match r {
        RtpsStatelessSubmessage::Data(d) => cache.has_seq(seq_num) && spec_data_carries(
            d,
            spec_change_with(cache, seq_num),
            crate::types::spec_entityid_unknown(),
        ),
        RtpsStatelessSubmessage::Gap(g) => !cache.has_seq(seq_num) && spec_gap_declares(
            g,
            seq_num,
            crate::types::spec_entityid_unknown(),
            writer_id,
        ),
    }
}

/// The best-effort behaviour of a stateless writer towards one locator.
pub struct BestEffortReaderLocatorBehavior;

impl BestEffortReaderLocatorBehavior {
    /// Sends every unsent change up to the writer's last sequence number:
    /// one submessage per number, DATA where the cache holds the change and
    /// GAP where it does not, in ascending sequence-number order.
    pub fn produce_messages(
        reader_locator: &mut ReaderLocator,
        history_cache: &HistoryCache,
        writer_entity_id: EntityId,
        last_change_sequence_number: SequenceNumber,
    ) -> (r: Vec<RtpsStatelessSubmessage>)
        requires
            old(reader_locator).wf(),
            history_cache.wf(),
            last_change_sequence_number < i64::MAX,
        ensures
            final(reader_locator).wf(),
            final(reader_locator).spec_locator() == old(reader_locator).spec_locator(),
            final(reader_locator).spec_expects_inline_qos() == old(
                reader_locator,
            ).spec_expects_inline_qos(),
            final(reader_locator).spec_highest_sent() == if last_change_sequence_number > old(
                reader_locator,
            ).spec_highest_sent() {
                last_change_sequence_number as int
            } else {
                old(reader_locator).spec_highest_sent()
            },
            r@.len() == if last_change_sequence_number > old(reader_locator).spec_highest_sent() {
                last_change_sequence_number - old(reader_locator).spec_highest_sent()
            } else {
                0
            },
            forall|k: int|
                0 <= k < r@.len() ==> spec_produced_at(
                    *history_cache,
                    writer_entity_id,
                    old(reader_locator).spec_highest_sent() + 1 + k,
                    #[trigger] r@[k],
                ),
    {
        let mut message_queue: Vec<RtpsStatelessSubmessage> = Vec::new();
        let ghost start = reader_locator.spec_highest_sent();
        loop
            invariant
                history_cache.wf(),
                reader_locator.wf(),
                last_change_sequence_number < i64::MAX,
                reader_locator.spec_locator() == old(reader_locator).spec_locator(),
                reader_locator.spec_expects_inline_qos() == old(
                    reader_locator,
                ).spec_expects_inline_qos(),
                start == old(reader_locator).spec_highest_sent(),
                start <= reader_locator.spec_highest_sent(),
                reader_locator.spec_highest_sent() <= last_change_sequence_number
                    || reader_locator.spec_highest_sent() == start,
                message_queue@.len() == reader_locator.spec_highest_sent() - start,
                forall|k: int|
                    0 <= k < message_queue@.len() ==> spec_produced_at(
                        *history_cache,
                        writer_entity_id,
                        start + 1 + k,
                        #[trigger] message_queue@[k],
                    ),
            ensures
                reader_locator.spec_highest_sent() == if last_change_sequence_number > start {
                    last_change_sequence_number as int
                } else {
                    start
                },
                message_queue@.len() == if last_change_sequence_number > start {
                    last_change_sequence_number - start
                } else {
                    0
                },
                forall|k: int|
                    0 <= k < message_queue@.len() ==> spec_produced_at(
                        *history_cache,
                        writer_entity_id,
                        start + 1 + k,
                        #[trigger] message_queue@[k],
                    ),
            decreases last_change_sequence_number - reader_locator.spec_highest_sent() + 1,
        {
            let next = reader_locator.next_unsent_change(last_change_sequence_number);
            match next {
                Some(seq_num) => {
                    let ghost before = message_queue@;
                    match history_cache.get_change(seq_num) {
                        Some(cache_change) => {
                            let data = data_from_cache_change(cache_change, entityid_unknown());
                            proof {
                                let i = choose|i: int|
                                    0 <= i < history_cache.spec_changes().len()
                                        && history_cache.spec_changes()[i]
                                        == *cache_change;
                                assert(history_cache.spec_changes()[i].spec_sequence_number()
                                    == seq_num);
                                assert(history_cache.has_seq(seq_num as int));
                            }
                            message_queue.push(RtpsStatelessSubmessage::Data(data));
                            proof {
                                let j = choose|j: int|
                                    0 <= j < history_cache.spec_changes().len()
                                        && history_cache.spec_changes()[
                                        j
                                    ].spec_sequence_number() == seq_num;
                                assert(history_cache.spec_changes().contains(*cache_change));
                                let i = choose|i: int|
                                    0 <= i < history_cache.spec_changes().len()
                                        && history_cache.spec_changes()[i]
                                        == *cache_change;
                                assert(history_cache.spec_changes()[j]
                                    == history_cache.spec_changes()[i]);
                                assert(spec_change_with(*history_cache, seq_num as int)
                                    == *cache_change);
                                assert(spec_data_carries(
                                    data,
                                    *cache_change,
                                    crate::types::spec_entityid_unknown(),
                                ));
                                assert(spec_produced_at(
                                    *history_cache,
                                    writer_entity_id,
                                    seq_num as int,
                                    message_queue@[before.len() as int],
                                ));
                                assert(forall|k: int|
                                    0 <= k < before.len() ==> message_queue@[k] == before[k]);
                            }
                        },
                        None => {
                            let gap = gap_for_seq_num(
                                entityid_unknown(),
                                writer_entity_id,
                                seq_num,
                            );
                            message_queue.push(RtpsStatelessSubmessage::Gap(gap));
                            proof {
                                assert(spec_produced_at(
                                    *history_cache,
                                    writer_entity_id,
                                    seq_num as int,
                                    message_queue@[before.len() as int],
                                ));
                                assert(forall|k: int|
                                    0 <= k < before.len() ==> message_queue@[k] == before[k]);
                            }
                        },
                    }
                },
                None => {
                    break ;
                },
            }
        }
        message_queue
    }
}

/// A writer without per-reader state: a plain writer plus its reader
/// locators; each tick offers every locator the unsent part of the cache.
pub struct RtpsStatelessWriterImpl {
    guid: Guid,
    topic_kind: TopicKind,
    reliability_level: ReliabilityKind,
    unicast_locator_list: Vec<Locator>,
    multicast_locator_list: Vec<Locator>,
    push_mode: bool,
    last_change_sequence_number: SequenceNumber,
    writer_cache: HistoryCache,
    reader_locators: Vec<ReaderLocator>,
}

impl RtpsStatelessWriterImpl {
    /// The writer's own identifier.
    pub closed spec fn spec_guid(self) -> Guid {
        self.guid
    }

    /// The writer's history cache.
    pub closed spec fn spec_cache(self) -> HistoryCache {
        self.writer_cache
    }

    /// The reader locators.
    pub closed spec fn spec_reader_locators(self) -> Seq<ReaderLocator> {
        self.reader_locators@
    }

    /// The sequence number of the latest change handed out.
    pub closed spec fn spec_last_change_sn(self) -> int {
        self.last_change_sequence_number as int
    }

    /// The writer invariant.
    pub open spec fn wf(self) -> bool {
        &&& self.spec_cache().wf()
        &&& 0 <= self.spec_last_change_sn()
        &&& forall|i: int|
            0 <= i < self.spec_reader_locators().len()
                ==> (#[trigger] self.spec_reader_locators()[i]).wf()
    }

    /// A fresh stateless writer with no changes and no locators.
    pub fn new(
        guid: Guid,
        topic_kind: TopicKind,
        reliability_level: ReliabilityKind,
        unicast_locator_list: Vec<Locator>,
        multicast_locator_list: Vec<Locator>,
        push_mode: bool,
    ) -> (r: Self)
        ensures
            r.wf(),
            r.spec_guid() == guid,
            r.spec_last_change_sn() == 0,
            r.spec_cache().spec_changes().len() == 0,
            r.spec_reader_locators().len() == 0,
    {
        RtpsStatelessWriterImpl {
            guid,
            topic_kind,
            reliability_level,
            unicast_locator_list,
            multicast_locator_list,
            push_mode,
            last_change_sequence_number: 0,
            writer_cache: HistoryCache::new(),
            reader_locators: Vec::new(),
        }
    }

    /// This writer's GUID.
    pub fn guid(&self) -> (r: Guid)
        ensures
            r == self.spec_guid(),
    {
        self.guid
    }

    /// Adds a remote locator to offer changes to.
    pub fn reader_locator_add(&mut self, a_locator: ReaderLocator)
        requires
            old(self).wf(),
            a_locator.wf(),
        ensures
            final(self).wf(),
            final(self).spec_guid() == old(self).spec_guid(),
            final(self).spec_cache() == old(self).spec_cache(),
            final(self).spec_last_change_sn() == old(self).spec_last_change_sn(),
            final(self).spec_reader_locators() == old(self).spec_reader_locators().push(
                a_locator,
            ),
    {
        let ghost n = self.reader_locators@.len() as int;
        self.reader_locators.push(a_locator);
        proof {
            assert forall|i: int|
                0 <= i < self.spec_reader_locators().len() implies (
            #[trigger] self.spec_reader_locators()[i]).wf() by {
                if i < n {
                    assert(self.spec_reader_locators()[i] == old(
                        self,
                    ).spec_reader_locators()[i]);
                }
            }
        }
    }

    /// Forgets what has been sent on every locator.
    pub fn unsent_changes_reset(&mut self)
        requires
            old(self).wf(),
        ensures
            final(self).wf(),
            final(self).spec_guid() == old(self).spec_guid(),
            final(self).spec_cache() == old(self).spec_cache(),
            final(self).spec_last_change_sn() == old(self).spec_last_change_sn(),
            final(self).spec_reader_locators().len() == old(self).spec_reader_locators().len(),
            forall|i: int|
                0 <= i < final(self).spec_reader_locators().len() ==> (
                #[trigger] final(self).spec_reader_locators()[i]).spec_highest_sent() == 0,
    {
        let n = self.reader_locators.len();
        let ghost pre = *self;
        proof {
            assert forall|j: int|
                0 <= j < n implies (#[trigger] self.reader_locators@[j]).wf() by {
                assert(pre.spec_reader_locators()[j].wf());
            }
        }
        for i in 0..n
            invariant
                n == self.reader_locators@.len(),
                self.guid == pre.guid,
                self.writer_cache == pre.writer_cache,
                self.last_change_sequence_number == pre.last_change_sequence_number,
                pre.spec_cache().wf(),
                0 <= pre.spec_last_change_sn(),
                forall|j: int|
                    0 <= j < n ==> (#[trigger] self.reader_locators@[j]).wf(),
                forall|j: int|
                    0 <= j < i ==> (#[trigger] self.reader_locators@[j]).spec_highest_sent()
                        == 0,
        {
            let fresh = ReaderLocator {
                locator: self.reader_locators[i].locator,
                expects_inline_qos: self.reader_locators[i].expects_inline_qos,
                highest_sent_change_sn: 0,
            };
            self.reader_locators.set(i, fresh);
        }
    }

    /// Builds the next change of this writer.
    pub fn new_change(
        &mut self,
        kind: crate::types::ChangeKind,
        data: Option<Vec<u8>>,
        inline_qos: Option<ParameterListSubmessageElement>,
        handle: crate::types::InstanceHandle,
    ) -> (r: CacheChange)
        requires
            old(self).wf(),
            old(self).spec_last_change_sn() < i64::MAX,
        ensures
            final(self).wf(),
            final(self).spec_guid() == old(self).spec_guid(),
            final(self).spec_cache() == old(self).spec_cache(),
            final(self).spec_reader_locators() == old(self).spec_reader_locators(),
            final(self).spec_last_change_sn() == old(self).spec_last_change_sn() + 1,
            r.spec_kind() == kind,
            r.spec_writer_guid() == old(self).spec_guid(),
            r.spec_instance_handle() == handle,
            r.spec_sequence_number() == old(self).spec_last_change_sn() + 1,
            r.spec_inline_qos() == inline_qos,
            r.spec_data_value() == data,
    {
        self.last_change_sequence_number = self.last_change_sequence_number + 1;
        proof {
            assert forall|i: int|
                0 <= i < self.spec_reader_locators().len() implies (
            #[trigger] self.spec_reader_locators()[i]).wf() by {
                assert(old(self).spec_reader_locators()[i].wf());
            }
        }
        CacheChange::new(
            kind,
            self.guid,
            handle,
            self.last_change_sequence_number,
            inline_qos,
            data,
        )
    }

    /// The writer's history cache, for adding and removing changes.
    pub fn history_cache(&mut self) -> (r: &mut HistoryCache)
        ensures
            *r == old(self).spec_cache(),
            final(self).spec_cache() == *final(r),
            final(self).spec_guid() == old(self).spec_guid(),
            final(self).spec_last_change_sn() == old(self).spec_last_change_sn(),
            final(self).spec_reader_locators() == old(self).spec_reader_locators(),
    {
        &mut self.writer_cache
    }

    /// One tick of the best-effort path: each locator with unsent changes
    /// gets exactly one pair carrying that locator and, for each of its
    /// unsent numbers in ascending order, the cached change as DATA or a
    /// GAP; locators with nothing unsent contribute no pair, and every
    /// locator's sent mark advances to the writer's last change.
    pub fn produce_destined_submessages(&mut self) -> (r: Vec<
        (Locator, Vec<RtpsStatelessSubmessage>),
    >)
        requires
            old(self).wf(),
            old(self).spec_last_change_sn() < i64::MAX,
        ensures
            final(self).wf(),
            final(self).spec_guid() == old(self).spec_guid(),
            final(self).spec_cache() == old(self).spec_cache(),
            final(self).spec_last_change_sn() == old(self).spec_last_change_sn(),
            final(self).spec_reader_locators().len() == old(self).spec_reader_locators().len(),
            forall|j: int|
                0 <= j < final(self).spec_reader_locators().len() ==> (
                #[trigger] final(self).spec_reader_locators()[j]).spec_locator() == old(
                    self,
                ).spec_reader_locators()[j].spec_locator() && final(self).spec_reader_locators()[
                    j
                ].spec_expects_inline_qos() == old(self).spec_reader_locators()[
                    j
                ].spec_expects_inline_qos() && final(self).spec_reader_locators()[
                    j
                ].spec_highest_sent() == if old(self).spec_last_change_sn() > old(
                    self,
                ).spec_reader_locators()[j].spec_highest_sent() {
                    old(self).spec_last_change_sn()
                } else {
                    old(self).spec_reader_locators()[j].spec_highest_sent()
                },
            r@.len() == spec_destined(
                old(self).spec_reader_locators(),
                old(self).spec_last_change_sn(),
            ).len(),
            forall|k: int|
                #![auto]
                0 <= k < r@.len() ==> r@[k].0 == spec_destined(
                    old(self).spec_reader_locators(),
                    old(self).spec_last_change_sn(),
                )[k].0 && r@[k].1@.len() == old(self).spec_last_change_sn() - spec_destined(
                    old(self).spec_reader_locators(),
                    old(self).spec_last_change_sn(),
                )[k].1,
            forall|k: int, t: int|
                #![auto]
                0 <= k < r@.len() && 0 <= t < r@[k].1@.len() ==> spec_produced_at(
                    old(self).spec_cache(),
                    old(self).spec_guid().entity_id,
                    spec_destined(
                        old(self).spec_reader_locators(),
                        old(self).spec_last_change_sn(),
                    )[k].1 + 1 + t,
                    r@[k].1@[t],
                ),
    {
        let mut destined: Vec<(Locator, Vec<RtpsStatelessSubmessage>)> = Vec::new();
        let n = self.reader_locators.len();
        let ghost pre = *self;
        let ghost pre_locs = pre.spec_reader_locators();
        let ghost last_sn = pre.spec_last_change_sn();
        proof {
            assert forall|j: int|
                0 <= j < n implies (#[trigger] self.reader_locators@[j]).wf() by {
                assert(pre.spec_reader_locators()[j].wf());
            }
            assert(pre_locs.take(0) =~= Seq::<ReaderLocator>::empty());
        }
        let writer_entity_id = self.guid.entity_id();
        let last = self.last_change_sequence_number;
        for i in 0..n
            invariant
                n == self.reader_locators@.len(),
                n == pre_locs.len(),
                self.guid == pre.guid,
                self.writer_cache == pre.writer_cache,
                self.last_change_sequence_number == pre.last_change_sequence_number,
                last == pre.last_change_sequence_number,
                last_sn == last,
                writer_entity_id == pre.guid.entity_id,
                pre_locs == pre.spec_reader_locators(),
                pre.spec_cache().wf(),
                0 <= pre.spec_last_change_sn(),
                pre.spec_last_change_sn() < i64::MAX,
                forall|j: int| 0 <= j < n ==> (#[trigger] pre_locs[j]).wf(),
                forall|j: int|
                    i <= j < n ==> (#[trigger] self.reader_locators@[j]) == pre_locs[j],
                forall|j: int|
                    0 <= j < i ==> (#[trigger] self.reader_locators@[j]).spec_locator()
                        == pre_locs[j].spec_locator() && self.reader_locators@[
                        j
                    ].spec_expects_inline_qos() == pre_locs[j].spec_expects_inline_qos()
                        && self.reader_locators@[j].spec_highest_sent() == if last_sn > pre_locs[
                        j
                    ].spec_highest_sent() {
                        last_sn
                    } else {
                        pre_locs[j].spec_highest_sent()
                    },
                destined@.len() == spec_destined(pre_locs.take(i as int), last_sn).len(),
                forall|k: int|
                    #![auto]
                    0 <= k < destined@.len() ==> destined@[k].0 == spec_destined(
                        pre_locs.take(i as int),
                        last_sn,
                    )[k].0 && destined@[k].1@.len() == last_sn - spec_destined(
                        pre_locs.take(i as int),
                        last_sn,
                    )[k].1,
                forall|k: int, t: int|
                    #![auto]
                    0 <= k < destined@.len() && 0 <= t < destined@[k].1@.len()
                        ==> spec_produced_at(
                        pre.spec_cache(),
                        pre.spec_guid().entity_id,
                        spec_destined(pre_locs.take(i as int), last_sn)[k].1 + 1 + t,
                        destined@[k].1@[t],
                    ),
        {
            let mut entry = ReaderLocator {
                locator: self.reader_locators[i].locator,
                expects_inline_qos: self.reader_locators[i].expects_inline_qos,
                highest_sent_change_sn: self.reader_locators[i].highest_sent_change_sn,
            };
            proof {
                assert(entry == pre_locs[i as int]);
            }
            let submessages = BestEffortReaderLocatorBehavior::produce_messages(
                &mut entry,
                &self.writer_cache,
                writer_entity_id,
                last,
            );
            let locator = entry.locator();
            self.reader_locators.set(i, entry);
            proof {
                lemma_destined_snoc(pre_locs.take(i + 1), last_sn);
                assert(pre_locs.take(i + 1).drop_last() =~= pre_locs.take(i as int));
                assert(pre_locs.take(i + 1).last() == pre_locs[i as int]);
            }
            if submessages.len() > 0 {
                let ghost before = destined@;
                destined.push((locator, submessages));
                proof {
                    assert(pre_locs[i as int].spec_highest_sent() < last_sn);
                    assert(spec_destined(pre_locs.take(i + 1), last_sn) =~= spec_destined(
                        pre_locs.take(i as int),
                        last_sn,
                    ).push(
                        (pre_locs[i as int].spec_locator(), pre_locs[i as int].spec_highest_sent()),
                    ));
                    assert(forall|k: int|
                        0 <= k < before.len() ==> destined@[k] == before[k]);
                }
            } else {
                proof {
                    assert(!(pre_locs[i as int].spec_highest_sent() < last_sn));
                    assert(spec_destined(pre_locs.take(i + 1), last_sn) =~= spec_destined(
                        pre_locs.take(i as int),
                        last_sn,
                    ));
                }
            }
        }
        proof {
            assert(pre_locs.take(n as int) =~= pre_locs);
        }
        destined
    }
}

/// The locators owed a run this tick — those whose sent mark trails the
/// writer's last change — paired with their sent marks, in locator order.
pub open spec fn spec_destined(locs: Seq<ReaderLocator>, last: int) -> Seq<(Locator, int)>
    decreases locs.len(),
{
    if locs.len() == 0 {
        Seq::empty()
    } else {
        let rest = spec_destined(locs.skip(1), last);
        if locs[0].spec_highest_sent() < last {
            seq![(locs[0].spec_locator(), locs[0].spec_highest_sent())] + rest
        } else {
            rest
        }
    }
}

/// The owed-run list grows one at a time from the back.
proof fn lemma_destined_snoc(locs: Seq<ReaderLocator>, last: int)
    requires
        locs.len() > 0,
    ensures
        spec_destined(locs, last) == spec_destined(locs.drop_last(), last) + (if locs.last()
            .spec_highest_sent() < last {
            seq![(locs.last().spec_locator(), locs.last().spec_highest_sent())]
        } else {
            Seq::<(Locator, int)>::empty()
        }),
    decreases locs.len(),
{
    if locs.len() == 1 {
        assert(locs.skip(1) =~= Seq::<ReaderLocator>::empty());
        assert(locs.drop_last() =~= Seq::<ReaderLocator>::empty());
        assert(spec_destined(locs, last) =~= spec_destined(locs.drop_last(), last) + (if locs
            .last().spec_highest_sent() < last {
            seq![(locs.last().spec_locator(), locs.last().spec_highest_sent())]
        } else {
            Seq::<(Locator, int)>::empty()
        }));
    } else {
        lemma_destined_snoc(locs.skip(1), last);
        assert(locs.skip(1).drop_last() =~= locs.drop_last().skip(1));
        assert(locs.skip(1).last() == locs.last());
        assert(locs.drop_last()[0] == locs[0]);
        assert(spec_destined(locs, last) =~= spec_destined(locs.drop_last(), last) + (if locs
            .last().spec_highest_sent() < last {
            seq![(locs.last().spec_locator(), locs.last().spec_highest_sent())]
        } else {
            Seq::<(Locator, int)>::empty()
        }));
    }
}

} // verus!