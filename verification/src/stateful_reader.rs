//! The stateful reader side of the reliable protocol: per-remote-writer
//! bookkeeping of which sequence numbers are still unknown, known missing, or
//! lost, and the highest number processed so far.

use vstd::prelude::*;

use crate::seq_num_set::{
    contains_num, lemma_contains_push, lemma_push_no_dup, num_set_append, num_set_min,
    num_set_remove, num_set_take_low,
};
use crate::cache::HistoryCache;
use crate::messages::{AckNackSubmessage, RtpsEndpointMessage, RtpsEndpointSubmessage};
use crate::time::{duration_nanos, time_nanos, Duration, Time};
use crate::types::{Count, Guid, Locator, ReliabilityKind, SequenceNumber, TopicKind};

verus! {

/// What a stateful reader keeps about one matched remote writer.
///
/// The sets `unknown`, `missing` and `lost` partition the not-yet-received
/// part of `[1, highest_processed]`: every number up to the highest processed
/// one is either received (in none of the sets), not yet accounted for
/// (`unknown`), known to be available at the writer but not received
/// (`missing`), or no longer available there (`lost`).
pub struct WriterProxy {
    remote_writer_guid: Guid,
    unicast_locator_list: Vec<Locator>,
    multicast_locator_list: Vec<Locator>,
    highest_processed_sequence_number: SequenceNumber,
    unknown_changes: Vec<SequenceNumber>,
    lost_changes: Vec<SequenceNumber>,
    missing_changes: Vec<SequenceNumber>,
    must_send_ack: bool,
    time_heartbeat_received: Time,
    ackanck_count: Count,
    highest_received_heartbeat_count: Count,
}

impl WriterProxy {
    /// The numbers not yet accounted for.
    pub closed spec fn spec_unknown(self) -> Seq<i64> {
        self.unknown_changes@
    }

    /// The numbers known missing.
    pub closed spec fn spec_missing(self) -> Seq<i64> {
        self.missing_changes@
    }

    /// The numbers no longer available at the writer.
    pub closed spec fn spec_lost(self) -> Seq<i64> {
        self.lost_changes@
    }

    /// The highest sequence number processed so far.
    pub closed spec fn spec_highest(self) -> int {
        self.highest_processed_sequence_number as int
    }

    /// The matched remote writer.
    pub closed spec fn spec_guid(self) -> Guid {
        self.remote_writer_guid
    }

    /// Whether an acknowledgment is owed.
    pub closed spec fn spec_must_send_ack(self) -> bool {
        self.must_send_ack
    }

    /// The count carried by the next acknowledgment.
    pub closed spec fn spec_acknack_count(self) -> Count {
        self.ackanck_count
    }

    /// The highest heartbeat count seen from this writer.
    pub closed spec fn spec_heartbeat_count(self) -> Count {
        self.highest_received_heartbeat_count
    }

    /// When the last heartbeat arrived.
    pub closed spec fn spec_heartbeat_instant(self) -> Time {
        self.time_heartbeat_received
    }

    /// The unicast locators of the remote writer.
    pub closed spec fn spec_unicast(self) -> Seq<Locator> {
        self.unicast_locator_list@
    }

    /// The multicast locators of the remote writer.
    pub closed spec fn spec_multicast(self) -> Seq<Locator> {
        self.multicast_locator_list@
    }

    /// The fields untouched by the set-tracking operations.
    pub open spec fn same_admin(self, other: WriterProxy) -> bool {
        &&& self.spec_guid() == other.spec_guid()
        &&& self.spec_unicast() == other.spec_unicast()
        &&& self.spec_multicast() == other.spec_multicast()
        &&& self.spec_must_send_ack() == other.spec_must_send_ack()
        &&& self.spec_heartbeat_instant() == other.spec_heartbeat_instant()
        &&& self.spec_acknack_count() == other.spec_acknack_count()
        &&& self.spec_heartbeat_count() == other.spec_heartbeat_count()
    }

    /// The proxy invariant: the three sets are duplicate-free, pairwise
    /// disjoint, and live within `[1, highest_processed]`.
    pub open spec fn wf(self) -> bool {
        &&& self.spec_unknown().no_duplicates()
        &&& self.spec_missing().no_duplicates()
        &&& self.spec_lost().no_duplicates()
        &&& 0 <= self.spec_highest()
        &&& forall|x: int| #![auto]
            contains_num(self.spec_unknown(), x) ==> 1 <= x <= self.spec_highest()
        &&& forall|x: int| #![auto]
            contains_num(self.spec_missing(), x) ==> 1 <= x <= self.spec_highest()
        &&& forall|x: int| #![auto]
            contains_num(self.spec_lost(), x) ==> 1 <= x <= self.spec_highest()
        &&& forall|x: int|
            #![trigger contains_num(self.spec_unknown(), x)]
            #![trigger contains_num(self.spec_missing(), x)]
            !(contains_num(self.spec_unknown(), x) && contains_num(self.spec_missing(), x))
        &&& forall|x: int|
            #![trigger contains_num(self.spec_unknown(), x)]
            #![trigger contains_num(self.spec_lost(), x)]
            !(contains_num(self.spec_unknown(), x) && contains_num(self.spec_lost(), x))
        &&& forall|x: int|
            #![trigger contains_num(self.spec_missing(), x)]
            #![trigger contains_num(self.spec_lost(), x)]
            !(contains_num(self.spec_missing(), x) && contains_num(self.spec_lost(), x))
    }

    /// Whether a number still stands in the way of in-order access.
    pub open spec fn blocked(self, x: int) -> bool {
        contains_num(self.spec_unknown(), x) || contains_num(self.spec_missing(), x)
    }

    /// The largest number `r` with `x <= r <= highest` such that everything
    /// in `(x, r]` is received or lost.
    pub open spec fn avail_from(self, x: int) -> int
        decreases self.spec_highest() - x,
    {
        if x >= self.spec_highest() {
            self.spec_highest()
        } else if self.blocked(x + 1) {
            x
        } else {
            self.avail_from(x + 1)
        }
    }

    /// The highest sequence number available for in-order access: everything
    /// up to it is received or lost.
    pub open spec fn spec_available_changes_max(self) -> int {
        self.avail_from(0)
    }

    /// What `avail_from` guarantees: nothing blocked up to the result, and
    /// the result is maximal.
    proof fn lemma_avail_from_props(self, x: int)
        requires
            0 <= x <= self.spec_highest(),
        ensures
            x <= self.avail_from(x) <= self.spec_highest(),
            forall|y: int| x < y <= self.avail_from(x) ==> !self.blocked(y),
            self.avail_from(x) == self.spec_highest() || self.blocked(self.avail_from(x) + 1),
        decreases self.spec_highest() - x,
    {
        if x >= self.spec_highest() {
        } else if self.blocked(x + 1) {
        } else {
            self.lemma_avail_from_props(x + 1);
        }
    }

    /// Any number with the `avail_from` properties is the one `avail_from`
    /// computes.
    proof fn lemma_avail_unique(self, x: int, r: int)
        requires
            0 <= x <= r <= self.spec_highest(),
            forall|y: int| x < y <= r ==> !self.blocked(y),
            r == self.spec_highest() || self.blocked(r + 1),
        ensures
            self.avail_from(x) == r,
        decreases r - x,
    {
        if x >= self.spec_highest() {
        } else if self.blocked(x + 1) {
            if r > x {
                assert(!self.blocked(x + 1));
            }
        } else {
            if x == r {
                assert(self.blocked(x + 1));
                assert(false);
            }
            self.lemma_avail_unique(x + 1, r);
        }
    }

    /// Two proxies with the same tracked sets and highest number agree on
    /// what is available.
    proof fn lemma_avail_congruent(p1: WriterProxy, p2: WriterProxy, x: int)
        requires
            p1.spec_unknown() == p2.spec_unknown(),
            p1.spec_missing() == p2.spec_missing(),
            p1.spec_highest() == p2.spec_highest(),
        ensures
            p1.avail_from(x) == p2.avail_from(x),
        decreases p1.spec_highest() - x,
    {
        if x >= p1.spec_highest() {
        } else if p1.blocked(x + 1) {
        } else {
            WriterProxy::lemma_avail_congruent(p1, p2, x + 1);
        }
    }

    /// The operations only ever unblock numbers at or under the old maximum,
    /// so the maximum available number never moves backwards.
    proof fn lemma_available_max_monotone(pre: WriterProxy, post: WriterProxy)
        requires
            pre.wf(),
            post.wf(),
            pre.spec_highest() <= post.spec_highest(),
            forall|x: int| 0 < x <= pre.spec_available_changes_max() ==> !post.blocked(x),
        ensures
            pre.spec_available_changes_max() <= post.spec_available_changes_max(),
    {
        pre.lemma_avail_from_props(0);
        post.lemma_avail_from_props(0);
        let r = pre.spec_available_changes_max();
        let s = post.spec_available_changes_max();
        if s < r {
            assert(post.blocked(s + 1));
            assert(!post.blocked(s + 1));
        }
    }

    /// Law: the `unknown`, `missing` and `lost` sets are pairwise disjoint.
    pub proof fn lemma_tracked_sets_disjoint(self, x: int)
        requires
            self.wf(),
        ensures
            !(contains_num(self.spec_unknown(), x) && contains_num(self.spec_missing(), x)),
            !(contains_num(self.spec_unknown(), x) && contains_num(self.spec_lost(), x)),
            !(contains_num(self.spec_missing(), x) && contains_num(self.spec_lost(), x)),
    {
    }

    /// Law: every tracked number lies within `[1, highest_processed]`.
    pub proof fn lemma_tracked_sets_bounded(self, x: int)
        requires
            self.wf(),
            contains_num(self.spec_unknown(), x) || contains_num(self.spec_missing(), x)
                || contains_num(self.spec_lost(), x),
        ensures
            1 <= x <= self.spec_highest(),
    {
    }

    /// A fresh proxy: nothing processed, all sets empty.
    pub fn new(
        remote_writer_guid: Guid,
        unicast_locator_list: Vec<Locator>,
        multicast_locator_list: Vec<Locator>,
    ) -> (r: Self)
        ensures
            r.wf(),
            r.spec_guid() == remote_writer_guid,
            r.spec_unicast() == unicast_locator_list@,
            r.spec_multicast() == multicast_locator_list@,
            r.spec_highest() == 0,
            r.spec_unknown().len() == 0,
            r.spec_missing().len() == 0,
            r.spec_lost().len() == 0,
            !r.spec_must_send_ack(),
            r.spec_acknack_count() == (Count(0)),
            r.spec_heartbeat_count() == (Count(0)),
            r.spec_available_changes_max() == 0,
    {
        WriterProxy {
            remote_writer_guid,
            unicast_locator_list,
            multicast_locator_list,
            highest_processed_sequence_number: 0,
            unknown_changes: Vec::new(),
            lost_changes: Vec::new(),
            missing_changes: Vec::new(),
            must_send_ack: false,
            time_heartbeat_received: Time::new(0, 0),
            ackanck_count: Count(0),
            highest_received_heartbeat_count: Count(0),
        }
    }

    /// The remote writer's unicast addresses.
    pub fn unicast_locator_list(&self) -> (r: &Vec<Locator>)
        ensures
            r@ == self.spec_unicast(),
    {
        &self.unicast_locator_list
    }

    /// The remote writer's multicast addresses.
    pub fn multicast_locator_list(&self) -> (r: &Vec<Locator>)
        ensures
            r@ == self.spec_multicast(),
    {
        &self.multicast_locator_list
    }

    /// The maximum sequence number available for in-order access by the
    /// reader: all numbers up to it are received or lost, and it is the
    /// largest such number not above the highest processed one.
    pub fn available_changes_max(&self) -> (r: SequenceNumber)
        requires
            self.wf(),
        ensures
            r == self.spec_available_changes_max(),
    {
        let lowest_unknown = num_set_min(&self.unknown_changes);
        let lowest_missing = num_set_min(&self.missing_changes);
        let mut r = self.highest_processed_sequence_number;
        if let Some(m) = lowest_unknown {
            if m - 1 < r {
                r = m - 1;
            }
        }
        if let Some(m) = lowest_missing {
            if m - 1 < r {
                r = m - 1;
            }
        }
        proof {
            assert forall|y: int| 0 < y <= r implies !self.blocked(y) by {
                if contains_num(self.spec_unknown(), y) {
                    assert(lowest_unknown matches Some(m) && m <= y);
                }
                if contains_num(self.spec_missing(), y) {
                    assert(lowest_missing matches Some(m) && m <= y);
                }
            }
            if r < self.highest_processed_sequence_number {
                assert(self.blocked(r + 1));
            }
            self.lemma_avail_unique(0, r as int);
        }
        r
    }

    /// Marks the change as no longer relevant; it is accounted for exactly
    /// like a received one.
    pub fn irrelevant_change_set(&mut self, a_seq_num: SequenceNumber)
        requires
            old(self).wf(),
        ensures
            final(self).wf(),
            final(self).same_admin(*old(self)),
            spec_received_transition(*old(self), *final(self), a_seq_num as int),
            old(self).spec_available_changes_max() <= final(self).spec_available_changes_max(),
    {
        self.received_change_set(a_seq_num);
    }

    /// Moves every unknown or missing number under `first_available_seq_num`
    /// into the lost set: the writer no longer holds them. Where the first
    /// available number lies beyond the highest processed one, the numbers in
    /// between are lost as well and the highest processed number advances.
    pub fn lost_changes_update(&mut self, first_available_seq_num: SequenceNumber)
        requires
            old(self).wf(),
        ensures
            final(self).wf(),
            final(self).same_admin(*old(self)),
            final(self).spec_highest() == if first_available_seq_num > old(self).spec_highest() {
                first_available_seq_num - 1
            } else {
                old(self).spec_highest()
            },
            forall|y: int|
                #![trigger contains_num(final(self).spec_unknown(), y)]
                #![trigger contains_num(old(self).spec_unknown(), y)]
                contains_num(final(self).spec_unknown(), y) <==> (contains_num(
                    old(self).spec_unknown(),
                    y,
                ) && y >= first_available_seq_num),
            forall|y: int|
                #![trigger contains_num(final(self).spec_missing(), y)]
                #![trigger contains_num(old(self).spec_missing(), y)]
                contains_num(final(self).spec_missing(), y) <==> (contains_num(
                    old(self).spec_missing(),
                    y,
                ) && y >= first_available_seq_num),
            forall|y: int|
                #![trigger contains_num(final(self).spec_lost(), y)]
                #![trigger contains_num(old(self).spec_lost(), y)]
                contains_num(final(self).spec_lost(), y) <==> (contains_num(
                    old(self).spec_lost(),
                    y,
                ) || ((contains_num(old(self).spec_unknown(), y) || contains_num(
                    old(self).spec_missing(),
                    y,
                )) && y < first_available_seq_num) || (old(self).spec_highest() < y
                    < first_available_seq_num)),
            old(self).spec_available_changes_max() <= final(self).spec_available_changes_max(),
    {
        let ghost pre = *self;
        let taken_unknown = num_set_take_low(
            &mut self.unknown_changes,
            first_available_seq_num,
            false,
        );
        proof {
            assert forall|y: int|
                !(contains_num(self.lost_changes@, y) && contains_num(
                    taken_unknown@,
                    y,
                )) by {
                if contains_num(taken_unknown@, y) {
                    assert(contains_num(pre.spec_unknown(), y));
                }
            }
        }
        num_set_append(&mut self.lost_changes, &taken_unknown);
        let ghost lost_one = self.lost_changes@;
        let taken_missing = num_set_take_low(
            &mut self.missing_changes,
            first_available_seq_num,
            false,
        );
        proof {
            assert forall|y: int|
                !(contains_num(lost_one, y) && contains_num(taken_missing@, y)) by {
                if contains_num(taken_missing@, y) {
                    assert(contains_num(pre.spec_missing(), y));
                    assert(!contains_num(pre.spec_lost(), y));
                    assert(!contains_num(pre.spec_unknown(), y));
                    assert(!contains_num(taken_unknown@, y));
                }
            }
        }
        num_set_append(&mut self.lost_changes, &taken_missing);
        proof {
            assert forall|y: int|
                #![trigger contains_num(self.spec_lost(), y)]
                #![trigger contains_num(pre.spec_lost(), y)]
                contains_num(self.spec_lost(), y) <==> (contains_num(pre.spec_lost(), y) || ((
                contains_num(pre.spec_unknown(), y) || contains_num(pre.spec_missing(), y)) && y
                    < first_available_seq_num)) by {
                assert(contains_num(self.spec_lost(), y) <==> (contains_num(lost_one, y)
                    || contains_num(taken_missing@, y)));
                assert(contains_num(lost_one, y) <==> (contains_num(pre.spec_lost(), y)
                    || contains_num(taken_unknown@, y)));
                assert(contains_num(taken_unknown@, y) <==> (contains_num(pre.spec_unknown(), y)
                    && y < first_available_seq_num));
                assert(contains_num(taken_missing@, y) <==> (contains_num(pre.spec_missing(), y)
                    && y < first_available_seq_num));
            }
        }
        if first_available_seq_num > self.highest_processed_sequence_number {
            let ghost mid = *self;
            let mut seq_num: SequenceNumber = self.highest_processed_sequence_number + 1;
            while seq_num < first_available_seq_num
                invariant
                    pre.wf(),
                    pre.spec_highest() < seq_num <= first_available_seq_num,
                    self.highest_processed_sequence_number
                        == pre.highest_processed_sequence_number,
                    self.remote_writer_guid == mid.remote_writer_guid,
                    self.unicast_locator_list == mid.unicast_locator_list,
                    self.multicast_locator_list == mid.multicast_locator_list,
                    self.must_send_ack == mid.must_send_ack,
                    self.time_heartbeat_received == mid.time_heartbeat_received,
                    self.ackanck_count == mid.ackanck_count,
                    self.highest_received_heartbeat_count
                        == mid.highest_received_heartbeat_count,
                    self.unknown_changes == mid.unknown_changes,
                    self.missing_changes == mid.missing_changes,
                    self.lost_changes@.no_duplicates(),
                    forall|y: int|
                        #![trigger contains_num(self.spec_lost(), y)]
                        #![trigger contains_num(mid.spec_lost(), y)]
                        contains_num(self.spec_lost(), y) <==> (contains_num(mid.spec_lost(), y)
                            || (pre.spec_highest() < y < seq_num)),
                    forall|y: int| #![auto]
                        contains_num(mid.spec_lost(), y) ==> 1 <= y <= pre.spec_highest(),
                decreases first_available_seq_num - seq_num,
            {
                proof {
                    assert(!contains_num(self.spec_lost(), seq_num as int));
                    lemma_push_no_dup(self.lost_changes@, seq_num);
                    assert forall|y: int| #![auto]
                        contains_num(self.lost_changes@.push(seq_num), y) <==> (contains_num(
                            mid.spec_lost(),
                            y,
                        ) || (pre.spec_highest() < y < seq_num + 1)) by {
                        lemma_contains_push(self.lost_changes@, seq_num, y);
                    }
                }
                self.lost_changes.push(seq_num);
                seq_num = seq_num + 1;
            }
            self.highest_processed_sequence_number = first_available_seq_num - 1;
        }
        proof {
            pre.lemma_avail_from_props(0);
            assert forall|x: int| 0 < x <= pre.spec_available_changes_max() implies !self.blocked(
                x,
            ) by {
                if self.blocked(x) {
                    assert(pre.blocked(x));
                }
            }
            WriterProxy::lemma_available_max_monotone(pre, *self);
        }
    }

    /// The numbers known to be available at the writer but not yet received.
    pub fn missing_changes(&self) -> (r: &Vec<SequenceNumber>)
        ensures
            r@ == self.spec_missing(),
    {
        &self.missing_changes
    }

    /// The numbers not yet accounted for.
    pub fn unknown_changes(&self) -> (r: &Vec<SequenceNumber>)
        ensures
            r@ == self.spec_unknown(),
    {
        &self.unknown_changes
    }

    /// The numbers no longer available at the writer.
    pub fn lost_changes(&self) -> (r: &Vec<SequenceNumber>)
        ensures
            r@ == self.spec_lost(),
    {
        &self.lost_changes
    }

    /// Moves every unknown number at or under `last_available_seq_num` into
    /// the missing set: the writer holds them, the reader does not. Where the
    /// last available number lies beyond the highest processed one, the
    /// numbers in between are missing as well and the highest processed
    /// number advances.
    pub fn missing_changes_update(&mut self, last_available_seq_num: SequenceNumber)
        requires
            old(self).wf(),
        ensures
            final(self).wf(),
            final(self).same_admin(*old(self)),
            final(self).spec_highest() == if last_available_seq_num > old(self).spec_highest() {
                last_available_seq_num as int
            } else {
                old(self).spec_highest()
            },
            forall|y: int|
                #![trigger contains_num(final(self).spec_unknown(), y)]
                #![trigger contains_num(old(self).spec_unknown(), y)]
                contains_num(final(self).spec_unknown(), y) <==> (contains_num(
                    old(self).spec_unknown(),
                    y,
                ) && y > last_available_seq_num),
            forall|y: int|
                #![trigger contains_num(final(self).spec_missing(), y)]
                #![trigger contains_num(old(self).spec_missing(), y)]
                contains_num(final(self).spec_missing(), y) <==> (contains_num(
                    old(self).spec_missing(),
                    y,
                ) || (contains_num(old(self).spec_unknown(), y) && y <= last_available_seq_num)
                    || (old(self).spec_highest() < y <= last_available_seq_num)),
            final(self).spec_lost() == old(self).spec_lost(),
            old(self).spec_available_changes_max() <= final(self).spec_available_changes_max(),
    {
        let ghost pre = *self;
        let taken = num_set_take_low(&mut self.unknown_changes, last_available_seq_num, true);
        proof {
            assert forall|y: int|
                !(contains_num(self.missing_changes@, y) && contains_num(taken@, y)) by {
                if contains_num(taken@, y) {
                    assert(contains_num(pre.spec_unknown(), y));
                }
            }
        }
        num_set_append(&mut self.missing_changes, &taken);
        proof {
            assert forall|y: int|
                #![trigger contains_num(self.spec_missing(), y)]
                #![trigger contains_num(pre.spec_missing(), y)]
                contains_num(self.spec_missing(), y) <==> (contains_num(pre.spec_missing(), y)
                    || (contains_num(pre.spec_unknown(), y) && y <= last_available_seq_num)) by {
                assert(contains_num(self.spec_missing(), y) <==> (contains_num(
                    pre.spec_missing(),
                    y,
                ) || contains_num(taken@, y)));
                assert(contains_num(taken@, y) <==> (contains_num(pre.spec_unknown(), y) && (y
                    < last_available_seq_num || y == last_available_seq_num)));
            }
        }
        if last_available_seq_num > self.highest_processed_sequence_number {
            let ghost mid = *self;
            let mut seq_num: SequenceNumber = self.highest_processed_sequence_number + 1;
            while seq_num < last_available_seq_num
                invariant
                    pre.wf(),
                    pre.spec_highest() < seq_num <= last_available_seq_num,
                    self.highest_processed_sequence_number
                        == pre.highest_processed_sequence_number,
                    self.remote_writer_guid == mid.remote_writer_guid,
                    self.unicast_locator_list == mid.unicast_locator_list,
                    self.multicast_locator_list == mid.multicast_locator_list,
                    self.must_send_ack == mid.must_send_ack,
                    self.time_heartbeat_received == mid.time_heartbeat_received,
                    self.ackanck_count == mid.ackanck_count,
                    self.highest_received_heartbeat_count
                        == mid.highest_received_heartbeat_count,
                    self.unknown_changes == mid.unknown_changes,
                    self.lost_changes == mid.lost_changes,
                    self.missing_changes@.no_duplicates(),
                    forall|y: int|
                        #![trigger contains_num(self.spec_missing(), y)]
                        #![trigger contains_num(mid.spec_missing(), y)]
                        contains_num(self.spec_missing(), y) <==> (contains_num(
                            mid.spec_missing(),
                            y,
                        ) || (pre.spec_highest() < y < seq_num)),
                    forall|y: int| #![auto]
                        contains_num(mid.spec_missing(), y) ==> 1 <= y <= pre.spec_highest(),
                    forall|y: int| #![auto]
                        contains_num(self.spec_missing(), y) ==> 1 <= y < seq_num,
                decreases last_available_seq_num - seq_num,
            {
                proof {
                    assert(!contains_num(self.spec_missing(), seq_num as int));
                    lemma_push_no_dup(self.missing_changes@, seq_num);
                    assert forall|y: int| #![auto]
                        contains_num(self.missing_changes@.push(seq_num), y) <==> (contains_num(
                            mid.spec_missing(),
                            y,
                        ) || (pre.spec_highest() < y < seq_num + 1)) by {
                        lemma_contains_push(self.missing_changes@, seq_num, y);
                    }
                    assert forall|y: int| #![auto]
                        contains_num(self.missing_changes@.push(seq_num), y) implies 1 <= y
                        < seq_num + 1 by {
                        lemma_contains_push(self.missing_changes@, seq_num, y);
                        if contains_num(self.missing_changes@, y) {
                            assert(contains_num(self.spec_missing(), y));
                        }
                    }
                }
                self.missing_changes.push(seq_num);
                seq_num = seq_num + 1;
            }
            proof {
                assert(!contains_num(self.spec_missing(), last_available_seq_num as int));
                lemma_push_no_dup(self.missing_changes@, last_available_seq_num);
                assert forall|y: int|
                    #![trigger contains_num(self.missing_changes@.push(last_available_seq_num), y)]
                    #![trigger contains_num(self.spec_missing(), y)]
                    contains_num(self.missing_changes@.push(last_available_seq_num), y) <==> (
                    contains_num(self.spec_missing(), y) || y == last_available_seq_num) by {
                    lemma_contains_push(self.missing_changes@, last_available_seq_num, y);
                }
            }
            self.missing_changes.push(last_available_seq_num);
            self.highest_processed_sequence_number = last_available_seq_num;
        }
        proof {
            pre.lemma_avail_from_props(0);
            assert forall|x: int| 0 < x <= pre.spec_available_changes_max() implies !self.blocked(
                x,
            ) by {
                if self.blocked(x) {
                    assert(pre.blocked(x));
                }
            }
            WriterProxy::lemma_available_max_monotone(pre, *self);
        }
    }

    /// Marks the change as received. A number beyond the highest processed
    /// one leaves the numbers in between unknown and advances the highest;
    /// one at or under it merely stops being unknown or missing.
    pub fn received_change_set(&mut self, a_seq_num: SequenceNumber)
        requires
            old(self).wf(),
        ensures
            final(self).wf(),
            final(self).same_admin(*old(self)),
            spec_received_transition(*old(self), *final(self), a_seq_num as int),
            old(self).spec_available_changes_max() <= final(self).spec_available_changes_max(),
    {
        let ghost pre = *self;
        if a_seq_num > self.highest_processed_sequence_number {
            let ghost mid = *self;
            let mut seq_num: SequenceNumber = self.highest_processed_sequence_number + 1;
            while seq_num < a_seq_num
                invariant
                    pre.wf(),
                    pre.spec_highest() < seq_num <= a_seq_num,
                    self.highest_processed_sequence_number
                        == pre.highest_processed_sequence_number,
                    self.remote_writer_guid == mid.remote_writer_guid,
                    self.unicast_locator_list == mid.unicast_locator_list,
                    self.multicast_locator_list == mid.multicast_locator_list,
                    self.must_send_ack == mid.must_send_ack,
                    self.time_heartbeat_received == mid.time_heartbeat_received,
                    self.ackanck_count == mid.ackanck_count,
                    self.highest_received_heartbeat_count
                        == mid.highest_received_heartbeat_count,
                    self.missing_changes == mid.missing_changes,
                    self.lost_changes == mid.lost_changes,
                    self.unknown_changes@.no_duplicates(),
                    forall|y: int|
                        #![trigger contains_num(self.spec_unknown(), y)]
                        #![trigger contains_num(pre.spec_unknown(), y)]
                        contains_num(self.spec_unknown(), y) <==> (contains_num(
                            pre.spec_unknown(),
                            y,
                        ) || (pre.spec_highest() < y < seq_num)),
                    forall|y: int| #![auto]
                        contains_num(pre.spec_unknown(), y) ==> 1 <= y <= pre.spec_highest(),
                decreases a_seq_num - seq_num,
            {
                proof {
                    assert(!contains_num(self.spec_unknown(), seq_num as int));
                    lemma_push_no_dup(self.unknown_changes@, seq_num);
                    assert forall|y: int| #![auto]
                        contains_num(self.unknown_changes@.push(seq_num), y) <==> (contains_num(
                            pre.spec_unknown(),
                            y,
                        ) || (pre.spec_highest() < y < seq_num + 1)) by {
                        lemma_contains_push(self.unknown_changes@, seq_num, y);
                    }
                }
                self.unknown_changes.push(seq_num);
                seq_num = seq_num + 1;
            }
            self.highest_processed_sequence_number = a_seq_num;
        } else {
            num_set_remove(&mut self.unknown_changes, a_seq_num);
            num_set_remove(&mut self.missing_changes, a_seq_num);
        }
        proof {
            pre.lemma_avail_from_props(0);
            assert forall|x: int| 0 < x <= pre.spec_available_changes_max() implies !self.blocked(
                x,
            ) by {
                if self.blocked(x) {
                    assert(pre.blocked(x));
                }
            }
            WriterProxy::lemma_available_max_monotone(pre, *self);
        }
    }

    /// The matched remote writer.
    pub fn remote_writer_guid(&self) -> (r: Guid)
        ensures
            r == self.spec_guid(),
    {
        self.remote_writer_guid
    }

    /// Whether an acknowledgment is owed.
    pub fn must_send_ack(&self) -> (r: bool)
        ensures
            r == self.spec_must_send_ack(),
    {
        self.must_send_ack
    }

    /// Records whether an acknowledgment is owed.
    pub fn set_must_send_ack(&mut self, value: bool)
        ensures
            final(self).spec_must_send_ack() == value,
            final(self).spec_unknown() == old(self).spec_unknown(),
            final(self).spec_missing() == old(self).spec_missing(),
            final(self).spec_lost() == old(self).spec_lost(),
            final(self).spec_highest() == old(self).spec_highest(),
            final(self).spec_guid() == old(self).spec_guid(),
            final(self).spec_acknack_count() == old(self).spec_acknack_count(),
            final(self).spec_heartbeat_count() == old(self).spec_heartbeat_count(),
            final(self).wf() == old(self).wf(),
            final(self).spec_available_changes_max() == old(self).spec_available_changes_max(),
    {
        self.must_send_ack = value;
        proof {
            WriterProxy::lemma_avail_congruent(*old(self), *self, 0);
        }
    }

    /// Records the arrival time of the latest heartbeat.
    pub fn time_heartbeat_received_reset(&mut self, now: Time)
        ensures
            final(self).spec_heartbeat_instant() == now,
            final(self).spec_unknown() == old(self).spec_unknown(),
            final(self).spec_missing() == old(self).spec_missing(),
            final(self).spec_lost() == old(self).spec_lost(),
            final(self).spec_highest() == old(self).spec_highest(),
            final(self).spec_guid() == old(self).spec_guid(),
            final(self).spec_must_send_ack() == old(self).spec_must_send_ack(),
            final(self).spec_acknack_count() == old(self).spec_acknack_count(),
            final(self).spec_heartbeat_count() == old(self).spec_heartbeat_count(),
            final(self).wf() == old(self).wf(),
            final(self).spec_available_changes_max() == old(self).spec_available_changes_max(),
    {
        self.time_heartbeat_received = now;
        proof {
            WriterProxy::lemma_avail_congruent(*old(self), *self, 0);
        }
    }

    /// How long ago the latest heartbeat arrived, measured against `now`.
    pub fn duration_since_heartbeat_received(&self, now: Time) -> (r: Duration)
        requires
            now.wf(),
            self.spec_heartbeat_instant().wf(),
            i32::MIN <= now.sec - self.spec_heartbeat_instant().sec - 1,
            now.sec - self.spec_heartbeat_instant().sec <= i32::MAX,
        ensures
            r.wf(),
            duration_nanos(r) == time_nanos(now) - time_nanos(self.spec_heartbeat_instant()),
    {
        now.sub_time(self.time_heartbeat_received)
    }

    /// The count carried by the next acknowledgment.
    pub fn ackanck_count(&self) -> (r: Count)
        ensures
            r == self.spec_acknack_count(),
    {
        self.ackanck_count
    }

    /// Advances the acknowledgment count, wrapping at the numeric bound.
    pub fn increment_acknack_count(&mut self)
        ensures
            final(self).spec_acknack_count().0 == old(self).spec_acknack_count().0.wrapping_add(
                1,
            ),
            final(self).spec_unknown() == old(self).spec_unknown(),
            final(self).spec_missing() == old(self).spec_missing(),
            final(self).spec_lost() == old(self).spec_lost(),
            final(self).spec_highest() == old(self).spec_highest(),
            final(self).spec_guid() == old(self).spec_guid(),
            final(self).spec_must_send_ack() == old(self).spec_must_send_ack(),
            final(self).spec_heartbeat_count() == old(self).spec_heartbeat_count(),
            final(self).wf() == old(self).wf(),
            final(self).spec_available_changes_max() == old(self).spec_available_changes_max(),
    {
        self.ackanck_count = Count(self.ackanck_count.0.wrapping_add(1));
        proof {
            WriterProxy::lemma_avail_congruent(*old(self), *self, 0);
        }
    }

    /// The highest heartbeat count seen from this writer.
    pub fn highest_received_heartbeat_count(&self) -> (r: Count)
        ensures
            r == self.spec_heartbeat_count(),
    {
        self.highest_received_heartbeat_count
    }

    /// Records the highest heartbeat count seen from this writer.
    pub fn set_highest_received_heartbeat_count(&mut self, value: Count)
        ensures
            final(self).spec_heartbeat_count() == value,
            final(self).spec_unknown() == old(self).spec_unknown(),
            final(self).spec_missing() == old(self).spec_missing(),
            final(self).spec_lost() == old(self).spec_lost(),
            final(self).spec_highest() == old(self).spec_highest(),
            final(self).spec_guid() == old(self).spec_guid(),
            final(self).spec_must_send_ack() == old(self).spec_must_send_ack(),
            final(self).spec_acknack_count() == old(self).spec_acknack_count(),
            final(self).wf() == old(self).wf(),
            final(self).spec_available_changes_max() == old(self).spec_available_changes_max(),
    {
        self.highest_received_heartbeat_count = value;
        proof {
            WriterProxy::lemma_avail_congruent(*old(self), *self, 0);
        }
    }
}

/// How `received_change_set(n)` relates the proxy before and after: beyond
/// the highest processed number the gap becomes unknown and the highest
/// advances; otherwise the number leaves the unknown and missing sets.
pub open spec fn spec_received_transition(pre: WriterProxy, post: WriterProxy, n: int) -> bool {
    if n > pre.spec_highest() {
        &&& post.spec_highest() == n
        &&& forall|y: int|
            #![trigger contains_num(post.spec_unknown(), y)]
            #![trigger contains_num(pre.spec_unknown(), y)]
            contains_num(post.spec_unknown(), y) <==> (contains_num(pre.spec_unknown(), y) || (
            pre.spec_highest() < y < n))
        &&& post.spec_missing() == pre.spec_missing()
        &&& post.spec_lost() == pre.spec_lost()
    } else {
        &&& post.spec_highest() == pre.spec_highest()
        &&& forall|y: int|
            #![trigger contains_num(post.spec_unknown(), y)]
            #![trigger contains_num(pre.spec_unknown(), y)]
            contains_num(post.spec_unknown(), y) <==> (contains_num(pre.spec_unknown(), y) && y
                != n)
        &&& forall|y: int|
            #![trigger contains_num(post.spec_missing(), y)]
            #![trigger contains_num(pre.spec_missing(), y)]
            contains_num(post.spec_missing(), y) <==> (contains_num(pre.spec_missing(), y) && y
                != n)
        &&& post.spec_lost() == pre.spec_lost()
    }
}

/// A reader with full per-writer state: it owns the reader cache and tracks
/// each matched remote writer through a `WriterProxy`.
pub struct StatefulReader {
    guid: Guid,
    topic_kind: TopicKind,
    reliability_level: ReliabilityKind,
    unicast_locator_list: Vec<Locator>,
    multicast_locator_list: Vec<Locator>,
    expects_inline_qos: bool,
    heartbeat_response_delay: Duration,
    reader_cache: HistoryCache,
    matched_writers: Vec<WriterProxy>,
}

impl StatefulReader {
    /// The reader's own identifier.
    pub closed spec fn spec_guid(self) -> Guid {
        self.guid
    }

    /// The matched writer proxies.
    pub closed spec fn spec_matched_writers(self) -> Seq<WriterProxy> {
        self.matched_writers@
    }

    /// The reader's history cache.
    pub closed spec fn spec_cache(self) -> HistoryCache {
        self.reader_cache
    }

    /// The reader's delivery guarantee.
    pub closed spec fn spec_reliability_level(self) -> ReliabilityKind {
        self.reliability_level
    }

    /// Whether a proxy for the writer is held.
    pub open spec fn has_matched_writer(self, guid: Guid) -> bool {
        exists|i: int|
            0 <= i < self.spec_matched_writers().len() && self.spec_matched_writers()[
                i
            ].spec_guid() == guid
    }

    /// The reader invariant: the cache and each proxy are well formed, and
    /// each writer is matched at most once.
    pub open spec fn wf(self) -> bool {
        &&& self.spec_cache().wf()
        &&& forall|i: int|
            0 <= i < self.spec_matched_writers().len()
                ==> (#[trigger] self.spec_matched_writers()[i]).wf()
        &&& forall|i: int, j: int|
            0 <= i < self.spec_matched_writers().len() && 0 <= j
                < self.spec_matched_writers().len() && i != j
                ==> self.spec_matched_writers()[i].spec_guid()
                != self.spec_matched_writers()[j].spec_guid()
    }

    /// A fresh reader with an empty cache and no matched writers.
    pub fn new(
        guid: Guid,
        topic_kind: TopicKind,
        reliability_level: ReliabilityKind,
        unicast_locator_list: Vec<Locator>,
        multicast_locator_list: Vec<Locator>,
        expects_inline_qos: bool,
        heartbeat_response_delay: Duration,
    ) -> (r: Self)
        ensures
            r.wf(),
            r.spec_guid() == guid,
            r.spec_cache().spec_changes().len() == 0,
            r.spec_matched_writers().len() == 0,
            r.spec_reliability_level() == reliability_level,
    {
        StatefulReader {
            guid,
            topic_kind,
            reliability_level,
            unicast_locator_list,
            multicast_locator_list,
            expects_inline_qos,
            heartbeat_response_delay,
            reader_cache: HistoryCache::new(),
            matched_writers: Vec::new(),
        }
    }

    /// Matches a writer: an existing proxy for the same writer is replaced.
    pub fn matched_writer_add(&mut self, a_writer_proxy: WriterProxy)
        requires
            old(self).wf(),
            a_writer_proxy.wf(),
        ensures
            final(self).wf(),
            final(self).spec_guid() == old(self).spec_guid(),
            final(self).spec_cache() == old(self).spec_cache(),
            final(self).spec_reliability_level() == old(self).spec_reliability_level(),
            final(self).has_matched_writer(a_writer_proxy.spec_guid()),
            forall|g: Guid| #![auto]
                final(self).has_matched_writer(g) <==> (old(self).has_matched_writer(g) || g
                    == a_writer_proxy.spec_guid()),
            final(self).spec_matched_writers().contains(a_writer_proxy),
            forall|p: WriterProxy| #![auto]
                old(self).spec_matched_writers().contains(p) && p.spec_guid()
                    != a_writer_proxy.spec_guid() ==> final(self).spec_matched_writers().contains(
                    p,
                ),
    {
        let guid = a_writer_proxy.remote_writer_guid();
        self.matched_writer_remove_by_guid(&guid);
        let ghost mid = *self;
        let ghost n = self.matched_writers@.len() as int;
        self.matched_writers.push(a_writer_proxy);
        proof {
            assert(self.spec_matched_writers()[n] == a_writer_proxy);
            assert(self.spec_matched_writers().contains(a_writer_proxy));
            assert forall|a: int|
                0 <= a < self.spec_matched_writers().len() implies (
            #[trigger] self.spec_matched_writers()[a]).wf() by {
                if a < n {
                    assert(self.spec_matched_writers()[a] == mid.spec_matched_writers()[a]);
                    assert(mid.spec_matched_writers()[a].wf());
                }
            }
            assert forall|a: int, b: int|
                0 <= a < self.spec_matched_writers().len() && 0 <= b
                    < self.spec_matched_writers().len() && a != b implies self
                .spec_matched_writers()[a].spec_guid() != self.spec_matched_writers()[
                b
            ].spec_guid() by {
                if a < n {
                    assert(self.spec_matched_writers()[a] == mid.spec_matched_writers()[a]);
                }
                if b < n {
                    assert(self.spec_matched_writers()[b] == mid.spec_matched_writers()[b]);
                }
                if a < n && b == n {
                    if self.spec_matched_writers()[a].spec_guid() == a_writer_proxy.spec_guid() {
                        assert(mid.has_matched_writer(a_writer_proxy.spec_guid()));
                    }
                }
                if b < n && a == n {
                    if self.spec_matched_writers()[b].spec_guid() == a_writer_proxy.spec_guid() {
                        assert(mid.has_matched_writer(a_writer_proxy.spec_guid()));
                    }
                }
            }
            assert forall|g: Guid| #![auto]
                self.has_matched_writer(g) implies (mid.has_matched_writer(g) || g
                == a_writer_proxy.spec_guid()) by {
                let i = choose|i: int|
                    0 <= i < self.spec_matched_writers().len() && self.spec_matched_writers()[
                        i
                    ].spec_guid() == g;
                if i < n {
                    assert(mid.spec_matched_writers()[i].spec_guid() == g);
                }
            }
            assert forall|g: Guid| #![auto]
                (mid.has_matched_writer(g) || g == a_writer_proxy.spec_guid()) implies self
                .has_matched_writer(g) by {
                if mid.has_matched_writer(g) {
                    let i = choose|i: int|
                        0 <= i < mid.spec_matched_writers().len() && mid.spec_matched_writers()[
                            i
                        ].spec_guid() == g;
                    assert(self.spec_matched_writers()[i].spec_guid() == g);
                } else {
                    assert(self.spec_matched_writers()[n].spec_guid() == g);
                }
            }
            assert forall|p: WriterProxy| #![auto]
                mid.spec_matched_writers().contains(p) implies self.spec_matched_writers()
                .contains(p) by {
                if mid.spec_matched_writers().contains(p) {
                    let i = choose|i: int|
                        0 <= i < mid.spec_matched_writers().len() && mid.spec_matched_writers()[
                            i
                        ] == p;
                    assert(self.spec_matched_writers()[i] == p);
                }
            }
        }
    }

    /// Unmatches the writer with the given identifier, if it is matched.
    pub fn matched_writer_remove_by_guid(&mut self, a_writer_guid: &Guid)
        requires
            old(self).wf(),
        ensures
            final(self).wf(),
            final(self).spec_guid() == old(self).spec_guid(),
            final(self).spec_cache() == old(self).spec_cache(),
            final(self).spec_reliability_level() == old(self).spec_reliability_level(),
            forall|g: Guid| #![auto]
                final(self).has_matched_writer(g) <==> (old(self).has_matched_writer(g) && g
                    != *a_writer_guid),
            forall|i: int|
                0 <= i < final(self).spec_matched_writers().len() ==> old(
                    self,
                ).spec_matched_writers().contains(final(self).spec_matched_writers()[i]),
            forall|p: WriterProxy| #![auto]
                old(self).spec_matched_writers().contains(p) && p.spec_guid() != *a_writer_guid
                    ==> final(self).spec_matched_writers().contains(p),
    {
        let ghost orig = self.matched_writers@;
        proof {
            assert(orig == old(self).spec_matched_writers());
        }
        let n = self.matched_writers.len();
        for i in 0..n
            invariant
                n == self.matched_writers@.len(),
                self.matched_writers@ == orig,
                orig == old(self).spec_matched_writers(),
                self.guid == old(self).guid,
                self.reader_cache == old(self).reader_cache,
                self.reliability_level == old(self).reliability_level,
                old(self).spec_cache().wf(),
                forall|a: int, b: int|
                    0 <= a < orig.len() && 0 <= b < orig.len() && a != b
                        ==> orig[a].spec_guid() != orig[b].spec_guid(),
                forall|a: int| 0 <= a < orig.len() ==> (#[trigger] orig[a]).wf(),
                forall|j: int| 0 <= j < i ==> orig[j].spec_guid() != *a_writer_guid,
        {
            let found = self.matched_writers[i].remote_writer_guid() == *a_writer_guid;
            if found {
                self.matched_writers.remove(i);
                proof {
                    assert forall|g: Guid| #![auto]
                        self.has_matched_writer(g) implies ((exists|a: int|
                            0 <= a < orig.len() && orig[a].spec_guid() == g) && g
                            != *a_writer_guid) by {
                        let a = choose|a: int|
                            0 <= a < self.spec_matched_writers().len()
                                && self.spec_matched_writers()[a].spec_guid() == g;
                        if a < i {
                            assert(orig[a].spec_guid() == g);
                        } else {
                            assert(orig[a + 1].spec_guid() == g);
                        }
                    }
                    assert forall|g: Guid| #![auto]
                        ((exists|a: int|
                            0 <= a < orig.len() && orig[a].spec_guid() == g) && g
                            != *a_writer_guid) implies self.has_matched_writer(g) by {
                        let a = choose|a: int|
                            0 <= a < orig.len() && orig[a].spec_guid() == g;
                        if a < i {
                            assert(self.spec_matched_writers()[a].spec_guid() == g);
                        } else {
                            assert(a != i);
                            assert(self.spec_matched_writers()[a - 1].spec_guid() == g);
                        }
                        assert(self.has_matched_writer(g));
                    }
                    assert forall|a: int|
                        0 <= a < self.spec_matched_writers().len() implies orig.contains(
                        self.spec_matched_writers()[a],
                    ) by {
                        if a < i {
                            assert(self.spec_matched_writers()[a] == orig[a]);
                        } else {
                            assert(self.spec_matched_writers()[a] == orig[a + 1]);
                        }
                    }
                    assert forall|p: WriterProxy| #![auto]
                        orig.contains(p) && p.spec_guid() != *a_writer_guid implies self
                        .spec_matched_writers().contains(p) by {
                        if orig.contains(p) && p.spec_guid() != *a_writer_guid {
                            let a = choose|a: int| 0 <= a < orig.len() && orig[a] == p;
                            assert(a != i);
                            if a < i {
                                assert(self.spec_matched_writers()[a] == p);
                            } else {
                                assert(self.spec_matched_writers()[a - 1] == p);
                            }
                        }
                    }
                    assert forall|a: int, b: int|
                        0 <= a < self.spec_matched_writers().len() && 0 <= b
                            < self.spec_matched_writers().len() && a != b implies self
                        .spec_matched_writers()[a].spec_guid() != self.spec_matched_writers()[
                        b
                    ].spec_guid() by {
                        if a < i {
                            assert(self.spec_matched_writers()[a] == orig[a]);
                        } else {
                            assert(self.spec_matched_writers()[a] == orig[a + 1]);
                        }
                        if b < i {
                            assert(self.spec_matched_writers()[b] == orig[b]);
                        } else {
                            assert(self.spec_matched_writers()[b] == orig[b + 1]);
                        }
                    }
                    assert forall|a: int|
                        0 <= a < self.spec_matched_writers().len() implies (
                        #[trigger] self.spec_matched_writers()[a]).wf() by {
                        if a < i {
                            assert(self.spec_matched_writers()[a] == orig[a]);
                            assert(orig[a].wf());
                        } else {
                            assert(self.spec_matched_writers()[a] == orig[a + 1]);
                            assert(orig[a + 1].wf());
                        }
                    }
                }
                return ;
            }
        }
        proof {
            assert(!self.has_matched_writer(*a_writer_guid));
        }
    }

    /// Unmatches the given writer's proxy, if its writer is matched.
    pub fn matched_writer_remove(&mut self, a_writer_proxy: &WriterProxy)
        requires
            old(self).wf(),
        ensures
            final(self).wf(),
            final(self).spec_guid() == old(self).spec_guid(),
            final(self).spec_cache() == old(self).spec_cache(),
            final(self).spec_reliability_level() == old(self).spec_reliability_level(),
            forall|g: Guid| #![auto]
                final(self).has_matched_writer(g) <==> (old(self).has_matched_writer(g) && g
                    != a_writer_proxy.spec_guid()),
            forall|i: int|
                0 <= i < final(self).spec_matched_writers().len() ==> old(
                    self,
                ).spec_matched_writers().contains(final(self).spec_matched_writers()[i]),
            forall|p: WriterProxy| #![auto]
                old(self).spec_matched_writers().contains(p) && p.spec_guid()
                    != a_writer_proxy.spec_guid() ==> final(self).spec_matched_writers().contains(
                    p,
                ),
    {
        let guid = a_writer_proxy.remote_writer_guid();
        self.matched_writer_remove_by_guid(&guid);
    }

    /// The proxy of the given writer, if it is matched.
    pub fn matched_writer_lookup(&self, a_writer_guid: &Guid) -> (r: Option<&WriterProxy>)
        requires
            self.wf(),
        ensures
            match r {
                Some(p) => self.spec_matched_writers().contains(*p) && p.spec_guid()
                    == *a_writer_guid,
                None => !self.has_matched_writer(*a_writer_guid),
            },
    {
        for i in 0..self.matched_writers.len()
            invariant
                forall|j: int|
                    0 <= j < i ==> self.matched_writers@[j].spec_guid() != *a_writer_guid,
        {
            if self.matched_writers[i].remote_writer_guid() == *a_writer_guid {
                proof {
                    assert(self.spec_matched_writers().contains(
                        self.spec_matched_writers()[i as int],
                    ));
                }
                return Some(&self.matched_writers[i]);
            }
        }
        None
    }

    /// This reader's GUID.
    pub fn guid(&self) -> (r: Guid)
        ensures
            r == self.spec_guid(),
    {
        self.guid
    }

    /// The reader's history cache.
    pub fn reader_cache(&self) -> (r: &HistoryCache)
        ensures
            *r == self.spec_cache(),
    {
        &self.reader_cache
    }
}

impl StatefulReader {
    /// The proxy held for the writer; meaningful where one is matched.
    pub open spec fn spec_proxy_with(self, guid: Guid) -> WriterProxy {
        self.spec_matched_writers()[choose|i: int|
            0 <= i < self.spec_matched_writers().len() && self.spec_matched_writers()[
                i
            ].spec_guid() == guid]
    }

    /// A matched proxy equal in identity to a held one is that held one.
    pub proof fn lemma_proxy_with_is(self, p: WriterProxy)
        requires
            self.wf(),
            self.spec_matched_writers().contains(p),
        ensures
            self.has_matched_writer(p.spec_guid()),
            self.spec_proxy_with(p.spec_guid()) == p,
    {
        let i = choose|i: int|
            0 <= i < self.spec_matched_writers().len() && self.spec_matched_writers()[i] == p;
        assert(self.spec_matched_writers()[i].spec_guid() == p.spec_guid());
        let j = choose|j: int|
            0 <= j < self.spec_matched_writers().len() && self.spec_matched_writers()[
                j
            ].spec_guid() == p.spec_guid();
        assert(self.spec_matched_writers()[j].spec_guid() == p.spec_guid());
        if i != j {
            assert(self.spec_matched_writers()[i].spec_guid() != self.spec_matched_writers()[
                j
            ].spec_guid());
        }
    }

    /// Takes the writer's proxy out, to operate on and put back.
    fn matched_writer_take(&mut self, a_writer_guid: &Guid) -> (r: Option<WriterProxy>)
        requires
            old(self).wf(),
        ensures
            final(self).wf(),
            final(self).spec_guid() == old(self).spec_guid(),
            final(self).spec_cache() == old(self).spec_cache(),
            final(self).spec_reliability_level() == old(self).spec_reliability_level(),
            forall|g: Guid| #![auto]
                final(self).has_matched_writer(g) <==> (old(self).has_matched_writer(g) && g
                    != *a_writer_guid),
            forall|p: WriterProxy| #![auto]
                old(self).spec_matched_writers().contains(p) && p.spec_guid() != *a_writer_guid
                    ==> final(self).spec_matched_writers().contains(p),
            match r {
                Some(p) => old(self).has_matched_writer(*a_writer_guid) && p.wf()
                    && p.spec_guid() == *a_writer_guid && p == old(self).spec_proxy_with(
                    *a_writer_guid,
                ),
                None => !old(self).has_matched_writer(*a_writer_guid),
            },
    {
        let ghost orig = self.matched_writers@;
        proof {
            assert(orig == old(self).spec_matched_writers());
        }
        let n = self.matched_writers.len();
        for i in 0..n
            invariant
                n == self.matched_writers@.len(),
                self.matched_writers@ == orig,
                orig == old(self).spec_matched_writers(),
                self.guid == old(self).guid,
                self.reader_cache == old(self).reader_cache,
                self.reliability_level == old(self).reliability_level,
                old(self).spec_cache().wf(),
                forall|a: int, b: int|
                    0 <= a < orig.len() && 0 <= b < orig.len() && a != b
                        ==> orig[a].spec_guid() != orig[b].spec_guid(),
                forall|a: int| 0 <= a < orig.len() ==> (#[trigger] orig[a]).wf(),
                forall|j: int| 0 <= j < i ==> orig[j].spec_guid() != *a_writer_guid,
        {
            let found = self.matched_writers[i].remote_writer_guid() == *a_writer_guid;
            if found {
                let taken = self.matched_writers.remove(i);
                proof {
                    assert(taken == orig[i as int]);
                    assert(old(self).spec_matched_writers().contains(orig[i as int]));
                    old(self).lemma_proxy_with_is(taken);
                    assert forall|g: Guid| #![auto]
                        self.has_matched_writer(g) implies ((exists|a: int|
                            0 <= a < orig.len() && orig[a].spec_guid() == g) && g
                            != *a_writer_guid) by {
                        let a = choose|a: int|
                            0 <= a < self.spec_matched_writers().len()
                                && self.spec_matched_writers()[a].spec_guid() == g;
                        if a < i {
                            assert(orig[a].spec_guid() == g);
                        } else {
                            assert(orig[a + 1].spec_guid() == g);
                        }
                    }
                    assert forall|g: Guid| #![auto]
                        ((exists|a: int|
                            0 <= a < orig.len() && orig[a].spec_guid() == g) && g
                            != *a_writer_guid) implies self.has_matched_writer(g) by {
                        let a = choose|a: int|
                            0 <= a < orig.len() && orig[a].spec_guid() == g;
                        if a < i {
                            assert(self.spec_matched_writers()[a].spec_guid() == g);
                        } else {
                            assert(a != i);
                            assert(self.spec_matched_writers()[a - 1].spec_guid() == g);
                        }
                        assert(self.has_matched_writer(g));
                    }
                    assert forall|a: int, b: int|
                        0 <= a < self.spec_matched_writers().len() && 0 <= b
                            < self.spec_matched_writers().len() && a != b implies self
                        .spec_matched_writers()[a].spec_guid() != self.spec_matched_writers()[
                        b
                    ].spec_guid() by {
                        if a < i {
                            assert(self.spec_matched_writers()[a] == orig[a]);
                        } else {
                            assert(self.spec_matched_writers()[a] == orig[a + 1]);
                        }
                        if b < i {
                            assert(self.spec_matched_writers()[b] == orig[b]);
                        } else {
                            assert(self.spec_matched_writers()[b] == orig[b + 1]);
                        }
                    }
                    assert forall|a: int|
                        0 <= a < self.spec_matched_writers().len() implies (
                        #[trigger] self.spec_matched_writers()[a]).wf() by {
                        if a < i {
                            assert(self.spec_matched_writers()[a] == orig[a]);
                            assert(orig[a].wf());
                        } else {
                            assert(self.spec_matched_writers()[a] == orig[a + 1]);
                            assert(orig[a + 1].wf());
                        }
                    }
                    assert forall|p: WriterProxy| #![auto]
                        orig.contains(p) && p.spec_guid() != *a_writer_guid implies self
                        .spec_matched_writers().contains(p) by {
                        if orig.contains(p) && p.spec_guid() != *a_writer_guid {
                            let a = choose|a: int| 0 <= a < orig.len() && orig[a] == p;
                            assert(a != i);
                            if a < i {
                                assert(self.spec_matched_writers()[a] == p);
                            } else {
                                assert(self.spec_matched_writers()[a - 1] == p);
                            }
                        }
                    }
                }
                return Some(taken);
            }
        }
        proof {
            assert(!self.has_matched_writer(*a_writer_guid));
        }
        None
    }
}

impl StatefulReader {
    /// Whether the proxy has settled the number: it is within the tracked
    /// range and neither unknown nor missing — received or lost.
    pub open spec fn settled(p: WriterProxy, y: int) -> bool {
        !p.blocked(y) && y <= p.spec_highest()
    }

    /// One run of the reader towards the matched writer: a DATA submessage
    /// from it is accounted received and stored in the reader cache, a GAP
    /// settles every number it names, a HEARTBEAT with a newer count marks
    /// the range before it lost and the range up to its last number tracked,
    /// and on the reliable path an owed acknowledgment comes back carrying
    /// the missing set and the next count. Proxies of other writers are
    /// untouched, nothing leaves the cache, and the maximum available number
    /// never recedes.
    #[verifier::rlimit(100)]
    #[verifier::spinoff_prover]
    pub fn run(
        &mut self,
        a_writer_guid: &Guid,
        received_message: Option<&RtpsEndpointMessage>,
    ) -> (r: Option<RtpsEndpointMessage>)
        requires
            old(self).wf(),
            old(self).has_matched_writer(*a_writer_guid),
        ensures
            final(self).wf(),
            final(self).spec_guid() == old(self).spec_guid(),
            final(self).spec_reliability_level() == old(self).spec_reliability_level(),
            forall|g: Guid| #![auto]
                final(self).has_matched_writer(g) == old(self).has_matched_writer(g),
            forall|p: WriterProxy| #![auto]
                old(self).spec_matched_writers().contains(p) && p.spec_guid() != *a_writer_guid
                    ==> final(self).spec_matched_writers().contains(p),
            forall|s: int| #![auto]
                old(self).spec_cache().has_seq(s) ==> final(self).spec_cache().has_seq(s),
            old(self).spec_proxy_with(*a_writer_guid).spec_available_changes_max()
                <= final(self).spec_proxy_with(*a_writer_guid).spec_available_changes_max(),
            received_message matches Some(m) ==> (final(self).spec_reliability_level()
                == ReliabilityKind::Reliable ==> forall|i: int|
                #![trigger m.submessages@[i]]
                0 <= i < m.submessages@.len() ==> (m.submessages@[i] matches
                    RtpsEndpointSubmessage::Data(d) ==> (d.writer_id == a_writer_guid.entity_id
                    ==> final(self).spec_cache().has_seq(d.writer_sn as int) && Self::settled(
                    final(self).spec_proxy_with(*a_writer_guid),
                    d.writer_sn as int,
                )))),
            received_message matches Some(m) ==> (final(self).spec_reliability_level()
                == ReliabilityKind::Reliable ==> forall|i: int, y: int|
                #![trigger spec_gap_names(m.submessages@[i], a_writer_guid.entity_id, y)]
                0 <= i < m.submessages@.len() && spec_gap_names(
                    m.submessages@[i],
                    a_writer_guid.entity_id,
                    y,
                ) ==> Self::settled(final(self).spec_proxy_with(*a_writer_guid), y)),
            received_message matches Some(m) ==> ((final(self).spec_reliability_level()
                == ReliabilityKind::Reliable && m.submessages@.len() == 1) ==> (
            m.submessages@[0] matches RtpsEndpointSubmessage::Heartbeat(h) ==> (h.writer_id
                == a_writer_guid.entity_id ==> spec_heartbeat_outcome(
                old(self).spec_proxy_with(*a_writer_guid),
                final(self).spec_proxy_with(*a_writer_guid),
                h,
                r is Some,
            )))),
            received_message matches Some(m) ==> ((final(self).spec_reliability_level()
                == ReliabilityKind::BestEffort && m.submessages@.len() == 1) ==> (
            m.submessages@[0] matches RtpsEndpointSubmessage::Data(d) ==> (d.writer_id
                == a_writer_guid.entity_id ==> if d.writer_sn > old(self).spec_proxy_with(
                *a_writer_guid,
            ).spec_highest() {
                final(self).spec_cache().has_seq(d.writer_sn as int)
            } else {
                forall|s: int| #![auto]
                    final(self).spec_cache().has_seq(s) == old(self).spec_cache().has_seq(s)
            }))),
            match r {
                Some(m) => final(self).spec_reliability_level() == ReliabilityKind::Reliable
                    && m.guid_prefix == final(self).spec_guid().prefix && m.submessages@.len()
                    == 1 && (m.submessages@[0] matches RtpsEndpointSubmessage::AckNack(a)
                    && spec_acknack_reply(
                    a,
                    final(self).spec_proxy_with(*a_writer_guid),
                    final(self).spec_guid().entity_id,
                    a_writer_guid.entity_id,
                )) && final(self).spec_proxy_with(*a_writer_guid).spec_acknack_count().0 == old(
                    self,
                ).spec_proxy_with(*a_writer_guid).spec_acknack_count().0.wrapping_add(1)
                    && !final(self).spec_proxy_with(*a_writer_guid).spec_must_send_ack(),
                None => final(self).spec_proxy_with(*a_writer_guid).spec_acknack_count() == old(
                    self,
                ).spec_proxy_with(*a_writer_guid).spec_acknack_count(),
            },
    {
        let ghost pre = *self;
        let taken = self.matched_writer_take(a_writer_guid);
        let mut proxy = match taken {
            Some(p) => p,
            None => {
                proof {
                    assert(false);
                }
                return None;
            },
        };
        let ghost mid = *self;
        let ghost start_proxy = proxy;
        let ghost start_avail = proxy.spec_available_changes_max();
        let best_effort = match self.reliability_level {
            ReliabilityKind::BestEffort => true,
            ReliabilityKind::Reliable => false,
        };
        if let Some(message) = received_message {
            let n = message.submessages.len();
            for i in 0..n
                invariant
                    n == message.submessages@.len(),
                    proxy.wf(),
                    proxy.spec_guid() == *a_writer_guid,
                    start_avail <= proxy.spec_available_changes_max(),
                    start_proxy.wf(),
                    start_avail == start_proxy.spec_available_changes_max(),
                    self.guid == mid.guid,
                    self.reliability_level == mid.reliability_level,
                    self.matched_writers@ == mid.matched_writers@,
                    mid.wf(),
                    self.reader_cache.wf(),
                    forall|s: int| #![auto]
                        mid.spec_cache().has_seq(s) ==> self.spec_cache().has_seq(s),
                    best_effort == (mid.spec_reliability_level() == ReliabilityKind::BestEffort),
                    !best_effort ==> forall|k: int|
                        #![trigger message.submessages@[k]]
                        0 <= k < i ==> (message.submessages@[k] matches
                            RtpsEndpointSubmessage::Data(d) ==> (d.writer_id
                            == a_writer_guid.entity_id ==> self.spec_cache().has_seq(
                            d.writer_sn as int,
                        ) && Self::settled(proxy, d.writer_sn as int))),
                    !best_effort ==> forall|k: int, y: int|
                        #![trigger spec_gap_names(message.submessages@[k], a_writer_guid.entity_id, y)]
                        0 <= k < i && spec_gap_names(
                            message.submessages@[k],
                            a_writer_guid.entity_id,
                            y,
                        ) ==> Self::settled(proxy, y),
                    (!best_effort && n == 1 && i >= 1) ==> (message.submessages@[0] matches
                        RtpsEndpointSubmessage::Heartbeat(h) ==> (h.writer_id
                        == a_writer_guid.entity_id ==> spec_heartbeat_outcome(
                        start_proxy,
                        proxy,
                        h,
                        proxy.spec_must_send_ack(),
                    ))),
                    (best_effort && n == 1 && i >= 1) ==> (message.submessages@[0] matches
                        RtpsEndpointSubmessage::Data(d) ==> (d.writer_id
                        == a_writer_guid.entity_id ==> if d.writer_sn
                        > start_proxy.spec_highest() {
                        self.spec_cache().has_seq(d.writer_sn as int)
                    } else {
                        forall|s: int| #![auto]
                            self.spec_cache().has_seq(s) == mid.spec_cache().has_seq(s)
                    })),
                    best_effort ==> proxy.spec_must_send_ack()
                        == start_proxy.spec_must_send_ack(),
                    proxy.spec_acknack_count() == start_proxy.spec_acknack_count(),
                    i == 0 ==> self.reader_cache == mid.reader_cache,
                    i == 0 ==> proxy == start_proxy,
            {
                let ghost before_proxy = proxy;
                match &message.submessages[i] {
                    RtpsEndpointSubmessage::Data(data) => {
                        if data.writer_id == a_writer_guid.entity_id() {
                            let fresh = data.writer_sn > proxy.highest_processed_sequence_number;
                            if !best_effort || fresh {
                                proxy.received_change_set(data.writer_sn);
                                let inline_qos = if data.inline_qos_flag {
                                    Some(
                                        crate::stateless_writer::clone_parameter_list(
                                            &data.inline_qos,
                                        ),
                                    )
                                } else {
                                    None
                                };
                                let payload = if data.data_flag {
                                    let mut copy: Vec<u8> = Vec::new();
                                    crate::codec::push_bytes(
                                        &mut copy,
                                        &data.serialized_payload.value,
                                    );
                                    Some(copy)
                                } else {
                                    None
                                };
                                // The instance key travels in the inline QoS
                                // and is recovered from it by the cache's
                                // readers.
                                let change = crate::cache::CacheChange::new(
                                    crate::types::ChangeKind::Alive,
                                    *a_writer_guid,
                                    [0; 16],
                                    data.writer_sn,
                                    inline_qos,
                                    payload,
                                );
                                let ghost cache_before = self.reader_cache;
                                self.reader_cache.add_change(change);
                                proof {
                                    assert forall|s: int| #![auto]
                                        mid.spec_cache().has_seq(s) implies self.spec_cache()
                                        .has_seq(s) by {
                                        assert(cache_before.has_seq(s));
                                        assert(self.reader_cache.has_seq(s));
                                    }
                                    assert(self.spec_cache().has_seq(data.writer_sn as int));
                                    assert(Self::settled(proxy, data.writer_sn as int));
                                    assert forall|s: int| #![auto]
                                        cache_before.has_seq(s) implies self.spec_cache()
                                        .has_seq(s) by {
                                        assert(self.reader_cache.has_seq(s));
                                    }
                                    assert forall|y: int|
                                        Self::settled(before_proxy, y) implies Self::settled(
                                        proxy,
                                        y,
                                    ) by {
                                        lemma_settled_preserved(before_proxy, proxy, y);
                                    }
                                }
                            }
                        }
                    },
                    RtpsEndpointSubmessage::Gap(gap) => {
                        if gap.writer_id == a_writer_guid.entity_id() && !best_effort {
                            let ghost gap_entry = proxy;
                            proof {
                                assert(gap_entry == before_proxy);
                            }
                            let mut k = gap.gap_start;
                            while k < gap.gap_list.base
                                invariant
                                    proxy.wf(),
                                    proxy.spec_guid() == *a_writer_guid,
                                    start_avail <= proxy.spec_available_changes_max(),
                                    k <= gap.gap_list.base || k == gap.gap_start,
                                    forall|y: int|
                                        gap.gap_start <= y < k ==> Self::settled(proxy, y),
                                    forall|y: int|
                                        Self::settled(gap_entry, y) ==> Self::settled(proxy, y),
                                    proxy.spec_must_send_ack()
                                        == gap_entry.spec_must_send_ack(),
                                    proxy.spec_acknack_count()
                                        == gap_entry.spec_acknack_count(),
                                decreases gap.gap_list.base - k,
                            {
                                let ghost step_pre = proxy;
                                proxy.irrelevant_change_set(k);
                                proof {
                                    assert forall|y: int|
                                        Self::settled(step_pre, y) implies Self::settled(
                                        proxy,
                                        y,
                                    ) by {
                                        lemma_settled_preserved(step_pre, proxy, y);
                                    }
                                    assert(Self::settled(proxy, k as int));
                                }
                                k = k + 1;
                            }
                            let set_len = gap.gap_list.set.len();
                            for j in 0..set_len
                                invariant
                                    set_len == gap.gap_list.set@.len(),
                                    proxy.wf(),
                                    proxy.spec_guid() == *a_writer_guid,
                                    start_avail <= proxy.spec_available_changes_max(),
                                    forall|y: int|
                                        gap.gap_start <= y < gap.gap_list.base ==> Self::settled(
                                            proxy,
                                            y,
                                        ),
                                    forall|jj: int|
                                        0 <= jj < j ==> Self::settled(
                                            proxy,
                                            gap.gap_list.set@[jj] as int,
                                        ),
                                    forall|y: int|
                                        Self::settled(gap_entry, y) ==> Self::settled(proxy, y),
                                    proxy.spec_must_send_ack()
                                        == gap_entry.spec_must_send_ack(),
                                    proxy.spec_acknack_count()
                                        == gap_entry.spec_acknack_count(),
                            {
                                let ghost step_pre = proxy;
                                proxy.irrelevant_change_set(gap.gap_list.set[j]);
                                proof {
                                    assert forall|y: int|
                                        Self::settled(step_pre, y) implies Self::settled(
                                        proxy,
                                        y,
                                    ) by {
                                        lemma_settled_preserved(step_pre, proxy, y);
                                    }
                                    assert(Self::settled(
                                        proxy,
                                        gap.gap_list.set@[j as int] as int,
                                    ));
                                }
                            }
                            proof {
                                assert forall|y: int|
                                    contains_num(gap.gap_list.set@, y) implies Self::settled(
                                    proxy,
                                    y,
                                ) by {
                                    let jj = choose|jj: int|
                                        0 <= jj < gap.gap_list.set@.len() && gap.gap_list.set@[
                                            jj
                                        ] == y;
                                    assert(Self::settled(
                                        proxy,
                                        gap.gap_list.set@[jj] as int,
                                    ));
                                }
                                assert forall|y: int|
                                    Self::settled(before_proxy, y) implies Self::settled(
                                    proxy,
                                    y,
                                ) by {
                                    assert(Self::settled(gap_entry, y));
                                }
                            }
                        }
                    },
                    RtpsEndpointSubmessage::Heartbeat(heartbeat) => {
                        if heartbeat.writer_id == a_writer_guid.entity_id() && !best_effort {
                            let newer = heartbeat.count.0.wrapping_sub(
                                proxy.highest_received_heartbeat_count().0,
                            ) > 0;
                            if newer {
                                let ghost hb_pre = proxy;
                                proxy.lost_changes_update(heartbeat.first_sn);
                                let ghost hb_lost = proxy;
                                proxy.missing_changes_update(heartbeat.last_sn);
                                let ghost hb_missing = proxy;
                                proxy.set_must_send_ack(!heartbeat.final_flag);
                                proxy.set_highest_received_heartbeat_count(heartbeat.count);
                                proof {
                                    assert forall|y: int|
                                        y < heartbeat.first_sn implies !proxy.blocked(y) by {
                                        assert(!hb_lost.blocked(y));
                                        assert(!hb_missing.blocked(y));
                                    }
                                    assert(proxy.spec_highest() >= heartbeat.last_sn);
                                    assert forall|y: int|
                                        Self::settled(hb_pre, y) implies Self::settled(
                                        proxy,
                                        y,
                                    ) by {
                                        lemma_settled_preserved(hb_pre, hb_lost, y);
                                        lemma_settled_preserved(hb_lost, hb_missing, y);
                                        assert(Self::settled(hb_missing, y) == Self::settled(
                                            proxy,
                                            y,
                                        ));
                                    }
                                }
                            }
                        }
                    },
                    RtpsEndpointSubmessage::AckNack(_) => {
                        // Acknowledgments are writer-bound; a reader passes
                        // them over.
                    },
                }
                proof {
                    if !best_effort {
                        assert forall|k: int, y: int|
                            #![trigger spec_gap_names(message.submessages@[k], a_writer_guid.entity_id, y)]
                            0 <= k < i + 1 && spec_gap_names(
                                message.submessages@[k],
                                a_writer_guid.entity_id,
                                y,
                            ) implies Self::settled(proxy, y) by {
                            if k < i {
                                assert(Self::settled(before_proxy, y));
                                assert(Self::settled(proxy, y));
                            } else {
                                match message.submessages@[k] {
                                    RtpsEndpointSubmessage::Gap(g) => {
                                        assert(Self::settled(proxy, y));
                                    },
                                    _ => {},
                                }
                            }
                        }
                        assert forall|k: int|
                            #![trigger message.submessages@[k]]
                            0 <= k < i + 1 implies (message.submessages@[k] matches
                                RtpsEndpointSubmessage::Data(d) ==> (d.writer_id
                                == a_writer_guid.entity_id ==> self.spec_cache().has_seq(
                                d.writer_sn as int,
                            ) && Self::settled(proxy, d.writer_sn as int))) by {
                            if k < i {
                                match message.submessages@[k] {
                                    RtpsEndpointSubmessage::Data(d) => {
                                        if d.writer_id == a_writer_guid.entity_id {
                                            assert(Self::settled(
                                                before_proxy,
                                                d.writer_sn as int,
                                            ));
                                            assert(Self::settled(proxy, d.writer_sn as int));
                                        }
                                    },
                                    _ => {},
                                }
                            }
                        }
                    }
                }
            }
        }
        let ghost processed_proxy = proxy;
        let ghost ack_owed = proxy.spec_must_send_ack();
        let mut reply: Option<RtpsEndpointMessage> = None;
        if !best_effort && proxy.must_send_ack() {
            proxy.increment_acknack_count();
            let available = proxy.available_changes_max();
            let base = if available < i64::MAX {
                available + 1
            } else {
                available
            };
            let set = crate::seq_num_set::num_set_copy(proxy.missing_changes());
            let final_flag = set.len() == 0;
            let acknack = AckNackSubmessage {
                endianness_flag: true,
                final_flag,
                reader_id: self.guid.entity_id(),
                writer_id: a_writer_guid.entity_id(),
                reader_sn_state: crate::submessage_elements::SequenceNumberSet { base, set },
                count: proxy.ackanck_count(),
            };
            proxy.set_must_send_ack(false);
            let mut submessages: Vec<RtpsEndpointSubmessage> = Vec::new();
            submessages.push(RtpsEndpointSubmessage::AckNack(acknack));
            proof {
                assert(submessages@[0] is AckNack);
            }
            reply = Some(RtpsEndpointMessage::new(self.guid.prefix(), submessages));
        }
        proof {
            assert forall|a: int|
                0 <= a < self.spec_matched_writers().len() implies (
            #[trigger] self.spec_matched_writers()[a]).wf() by {
                assert(self.spec_matched_writers()[a] == mid.spec_matched_writers()[a]);
                assert(mid.spec_matched_writers()[a].wf());
            }
            assert forall|a: int, b: int|
                0 <= a < self.spec_matched_writers().len() && 0 <= b
                    < self.spec_matched_writers().len() && a != b implies self
                .spec_matched_writers()[a].spec_guid() != self.spec_matched_writers()[
                b
            ].spec_guid() by {
                assert(self.spec_matched_writers()[a] == mid.spec_matched_writers()[a]);
                assert(self.spec_matched_writers()[b] == mid.spec_matched_writers()[b]);
            }
            assert forall|g: Guid| #![auto]
                self.has_matched_writer(g) <==> mid.has_matched_writer(g) by {
                if self.has_matched_writer(g) {
                    let a = choose|a: int|
                        0 <= a < self.spec_matched_writers().len()
                            && self.spec_matched_writers()[a].spec_guid() == g;
                    assert(mid.spec_matched_writers()[a].spec_guid() == g);
                }
                if mid.has_matched_writer(g) {
                    let a = choose|a: int|
                        0 <= a < mid.spec_matched_writers().len()
                            && mid.spec_matched_writers()[a].spec_guid() == g;
                    assert(self.spec_matched_writers()[a].spec_guid() == g);
                }
            }
            assert forall|p: WriterProxy| #![auto]
                mid.spec_matched_writers().contains(p) implies self.spec_matched_writers()
                .contains(p) by {
                if mid.spec_matched_writers().contains(p) {
                    let a = choose|a: int|
                        0 <= a < mid.spec_matched_writers().len() && mid.spec_matched_writers()[
                            a
                        ] == p;
                    assert(self.spec_matched_writers()[a] == p);
                }
            }
        }
        let ghost end_proxy = proxy;
        self.matched_writer_add(proxy);
        proof {
            self.lemma_proxy_with_is(end_proxy);
            assert(self.spec_proxy_with(*a_writer_guid) == end_proxy);
            assert(pre.spec_proxy_with(*a_writer_guid) == start_proxy);
            assert forall|g: Guid| #![auto]
                self.has_matched_writer(g) == pre.has_matched_writer(g) by {
                if g == *a_writer_guid {
                    assert(self.has_matched_writer(g));
                }
            }
            assert forall|s: int| #![auto]
                pre.spec_cache().has_seq(s) implies self.spec_cache().has_seq(s) by {
                assert(mid.spec_cache().has_seq(s));
            }
            assert(end_proxy.spec_unknown() == processed_proxy.spec_unknown());
            assert(end_proxy.spec_missing() == processed_proxy.spec_missing());
            assert(end_proxy.spec_lost() == processed_proxy.spec_lost());
            assert(end_proxy.spec_highest() == processed_proxy.spec_highest());
            assert(end_proxy.spec_heartbeat_count() == processed_proxy.spec_heartbeat_count());
            assert forall|y: int|
                StatefulReader::settled(processed_proxy, y) implies StatefulReader::settled(
                end_proxy,
                y,
            ) by {
                lemma_settled_preserved(processed_proxy, end_proxy, y);
            }
            assert forall|y: int|
                !processed_proxy.blocked(y) implies !end_proxy.blocked(y) by {
                if end_proxy.blocked(y) {
                    assert(processed_proxy.blocked(y));
                }
            }
            assert((reply is Some) == (!best_effort && ack_owed));
        }
        reply
    }
}

/// Whether the submessage is a GAP from the given writer that names the
/// number, in its leading range or its listed set.
pub open spec fn spec_gap_names(
    s: RtpsEndpointSubmessage,
    writer_id: crate::types::EntityId,
    y: int,
) -> bool {
    match s {
        RtpsEndpointSubmessage::Gap(g) => g.writer_id == writer_id && (g.gap_start <= y
            < g.gap_list.base || contains_num(g.gap_list.set@, y)),
        _ => false,
    }
}

/// How a heartbeat with the given count settles the proxy: a newer count
/// records itself, marks everything before the first number lost or
/// received, brings the tracked range up to the last number, and owes an
/// acknowledgment exactly when the final flag is off; a stale count changes
/// nothing and the acknowledgment stays owed or not as before.
pub open spec fn spec_heartbeat_outcome(
    pre: WriterProxy,
    post: WriterProxy,
    h: crate::messages::HeartbeatSubmessage,
    ack_owed: bool,
) -> bool {
    if h.count.0.wrapping_sub(pre.spec_heartbeat_count().0) > 0 {
        &&& post.spec_heartbeat_count() == h.count
        &&& post.spec_highest() >= h.last_sn
        &&& forall|y: int| y < h.first_sn ==> !post.blocked(y)
        &&& ack_owed == !h.final_flag
    } else {
        &&& post.spec_heartbeat_count() == pre.spec_heartbeat_count()
        &&& post.spec_unknown() == pre.spec_unknown()
        &&& post.spec_missing() == pre.spec_missing()
        &&& post.spec_lost() == pre.spec_lost()
        &&& post.spec_highest() == pre.spec_highest()
        &&& ack_owed == pre.spec_must_send_ack()
    }
}

/// What an acknowledgment reply carries, read off the proxy it answers
/// for: the base one past the maximum available number, the missing set,
/// the next count, and the final flag exactly when nothing is missing.
pub open spec fn spec_acknack_reply(
    a: AckNackSubmessage,
    proxy: WriterProxy,
    reader_id: crate::types::EntityId,
    writer_id: crate::types::EntityId,
) -> bool {
    &&& a.endianness_flag
    &&& a.reader_id == reader_id
    &&& a.writer_id == writer_id
    &&& a.reader_sn_state.set@ == proxy.spec_missing()
    &&& (a.final_flag <==> proxy.spec_missing().len() == 0)
    &&& a.count == proxy.spec_acknack_count()
    &&& (proxy.spec_available_changes_max() < i64::MAX ==> a.reader_sn_state.base
        == proxy.spec_available_changes_max() + 1)
}

/// The operations of the reliable protocol never unsettle a settled number:
/// it stays out of the unknown and missing sets and inside the tracked
/// range.
proof fn lemma_settled_preserved(pre: WriterProxy, post: WriterProxy, y: int)
    requires
        pre.wf(),
        post.wf(),
        StatefulReader::settled(pre, y),
        pre.spec_highest() <= post.spec_highest(),
        forall|x: int|
            #![trigger contains_num(post.spec_unknown(), x)]
            contains_num(post.spec_unknown(), x) ==> contains_num(pre.spec_unknown(), x) || x
                > pre.spec_highest(),
        forall|x: int|
            #![trigger contains_num(post.spec_missing(), x)]
            contains_num(post.spec_missing(), x) ==> contains_num(pre.spec_missing(), x)
                || contains_num(pre.spec_unknown(), x) || x > pre.spec_highest(),
    ensures
        StatefulReader::settled(post, y),
{
}

} // verus!