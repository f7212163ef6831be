//! The reader-side history cache: stored samples carry the reception
//! metadata that the receiver attaches when a change arrives.

use vstd::prelude::*;

use crate::time::Time;
use crate::types::{ChangeKind, Guid, InstanceHandle, SequenceNumber};

verus! {

/// Whether a sample has been read by the application yet.
#[derive(Clone, Copy, PartialEq, Eq, Structural, Debug)]
pub enum SampleStateKind {
    Read,
    NotRead,
}

/// Whether the instance is new to this reader.
#[derive(Clone, Copy, PartialEq, Eq, Structural, Debug)]
pub enum ViewStateKind {
    New,
    NotNew,
}

/// The liveliness of the instance a sample belongs to.
#[derive(Clone, Copy, PartialEq, Eq, Structural, Debug)]
pub enum InstanceStateKind {
    Alive,
    NotAliveDisposed,
    NotAliveUnregistered,
}

/// The instance state a change kind implies.
pub open spec fn spec_instance_state_of(kind: ChangeKind) -> InstanceStateKind {
    match kind {
        ChangeKind::Alive => InstanceStateKind::Alive,
        ChangeKind::AliveFiltered => InstanceStateKind::Alive,
        ChangeKind::NotAliveDisposed => InstanceStateKind::NotAliveDisposed,
        ChangeKind::NotAliveUnregistered => InstanceStateKind::NotAliveUnregistered,
    }
}

/// One stored sample with its reception metadata.
#[derive(Clone, PartialEq, Debug)]
pub struct ReaderCacheChange {
    pub kind: ChangeKind,
    pub writer_guid: Guid,
    pub sequence_number: SequenceNumber,
    pub instance_handle: InstanceHandle,
    pub data: Vec<u8>,
    pub source_timestamp: Option<Time>,
    pub reception_timestamp: Option<Time>,
    pub sample_state_kind: SampleStateKind,
    pub view_state_kind: ViewStateKind,
    pub instance_state_kind: InstanceStateKind,
}

/// Whether the samples include one with the sequence number.
pub open spec fn holds_seq(s: Seq<ReaderCacheChange>, x: int) -> bool {
    exists|i: int| 0 <= i < s.len() && s[i].sequence_number == x
}

/// The reader's store of received samples; iteration order is unspecified,
/// the minimum and maximum are by sequence number.
pub struct ReaderHistoryCache {
    changes: Vec<ReaderCacheChange>,
    source_timestamp: Option<Time>,
}

impl ReaderHistoryCache {
    /// The stored samples.
    pub closed spec fn spec_changes(self) -> Seq<ReaderCacheChange> {
        self.changes@
    }

    /// The source timestamp the receiver last attached.
    pub closed spec fn spec_source_timestamp(self) -> Option<Time> {
        self.source_timestamp
    }

    /// Whether a sample with the sequence number is stored.
    pub open spec fn has_seq(self, seq: int) -> bool {
        exists|i: int|
            0 <= i < self.spec_changes().len() && self.spec_changes()[i].sequence_number == seq
    }

    /// An empty cache with no timestamp context.
    pub fn new() -> (r: Self)
        ensures
            r.spec_changes().len() == 0,
            r.spec_source_timestamp() is None,
    {
        ReaderHistoryCache { changes: Vec::new(), source_timestamp: None }
    }

    /// Records the source timestamp from the surrounding message context;
    /// samples added later carry it.
    pub fn set_source_timestamp(&mut self, info: Option<Time>)
        ensures
            final(self).spec_source_timestamp() == info,
            final(self).spec_changes() == old(self).spec_changes(),
    {
        self.source_timestamp = info;
    }

    /// Stores an arrived change: the sample keeps the change's fields, gets
    /// the current source timestamp and the given reception timestamp, is
    /// not yet read, is new, and its instance state follows the change kind.
    /// A change whose sequence number is already stored is left out.
    pub fn add_change(
        &mut self,
        kind: ChangeKind,
        writer_guid: Guid,
        sequence_number: SequenceNumber,
        instance_handle: InstanceHandle,
        data: Vec<u8>,
        reception_timestamp: Time,
    )
        ensures
            final(self).spec_source_timestamp() == old(self).spec_source_timestamp(),
            old(self).has_seq(sequence_number as int) ==> final(self).spec_changes() == old(
                self,
            ).spec_changes(),
            !old(self).has_seq(sequence_number as int) ==> final(self).spec_changes() == old(
                self,
            ).spec_changes().push(
                ReaderCacheChange {
                    kind,
                    writer_guid,
                    sequence_number,
                    instance_handle,
                    data,
                    source_timestamp: old(self).spec_source_timestamp(),
                    reception_timestamp: Some(reception_timestamp),
                    sample_state_kind: SampleStateKind::NotRead,
                    view_state_kind: ViewStateKind::New,
                    instance_state_kind: spec_instance_state_of(kind),
                },
            ),
    {
        let present = match self.get_change(sequence_number) {
            Some(c) => {
                proof {
                    let i = choose|i: int|
                        0 <= i < self.spec_changes().len() && self.spec_changes()[i] == *c;
                    assert(self.spec_changes()[i].sequence_number == sequence_number);
                }
                true
            },
            None => false,
        };
        if present {
            return ;
        }
        let instance_state_kind = match kind {
            ChangeKind::Alive => InstanceStateKind::Alive,
            ChangeKind::AliveFiltered => InstanceStateKind::Alive,
            ChangeKind::NotAliveDisposed => InstanceStateKind::NotAliveDisposed,
            ChangeKind::NotAliveUnregistered => InstanceStateKind::NotAliveUnregistered,
        };
        let local_change = ReaderCacheChange {
            kind,
            writer_guid,
            sequence_number,
            instance_handle,
            data,
            source_timestamp: self.source_timestamp,
            reception_timestamp: Some(reception_timestamp),
            sample_state_kind: SampleStateKind::NotRead,
            view_state_kind: ViewStateKind::New,
            instance_state_kind,
        };
        self.changes.push(local_change);
    }

    /// Drops every sample with the sequence number; every other stored
    /// sample is kept as it is.
    pub fn remove_change(&mut self, seq_num: SequenceNumber)
        ensures
            final(self).spec_source_timestamp() == old(self).spec_source_timestamp(),
            forall|s: int| #![auto]
                final(self).has_seq(s) <==> (old(self).has_seq(s) && s != seq_num),
            forall|c: ReaderCacheChange|
                #![trigger final(self).spec_changes().contains(c)]
                #![trigger old(self).spec_changes().contains(c)]
                final(self).spec_changes().contains(c) <==> (old(self).spec_changes().contains(c)
                    && c.sequence_number != seq_num),
    {
        let ghost orig = self.changes@;
        let mut kept: Vec<ReaderCacheChange> = Vec::new();
        loop
            invariant
                self.changes@ == orig.take(self.changes@.len() as int),
                self.changes@.len() <= orig.len(),
                self.source_timestamp == old(self).source_timestamp,
                forall|s: int|
                    #![trigger holds_seq(kept@, s)]
                    holds_seq(kept@, s) <==> ((exists|a: int|
                        self.changes@.len() <= a < orig.len() && orig[a].sequence_number == s)
                        && s != seq_num),
                forall|c: ReaderCacheChange|
                    #![trigger kept@.contains(c)]
                    kept@.contains(c) <==> ((exists|a: int|
                        self.changes@.len() <= a < orig.len() && orig[a] == c)
                        && c.sequence_number != seq_num),
            ensures
                self.changes@.len() == 0,
                self.source_timestamp == old(self).source_timestamp,
                forall|s: int|
                    #![trigger holds_seq(kept@, s)]
                    holds_seq(kept@, s) <==> (holds_seq(orig, s) && s != seq_num),
                forall|c: ReaderCacheChange|
                    #![trigger kept@.contains(c)]
                    kept@.contains(c) <==> (orig.contains(c) && c.sequence_number != seq_num),
            decreases self.changes@.len(),
        {
            let ghost before_len = self.changes@.len() as int;
            match self.changes.pop() {
                Some(change) => {
                    proof {
                        assert(orig.take(before_len).drop_last() =~= orig.take(
                            before_len - 1,
                        ));
                        assert(change == orig.take(before_len).last());
                        assert(change == orig[before_len - 1]);
                    }
                    if change.sequence_number != seq_num {
                        let ghost before = kept@;
                        kept.push(change);
                        proof {
                            assert forall|s: int|
                                #![trigger holds_seq(kept@, s)]
                                holds_seq(kept@, s) <==> ((exists|a: int|
                                    before_len - 1 <= a < orig.len() && orig[a].sequence_number
                                        == s) && s != seq_num) by {
                                if holds_seq(kept@, s) {
                                    let a = choose|a: int|
                                        0 <= a < kept@.len() && kept@[a].sequence_number == s;
                                    if a < before.len() {
                                        assert(before[a].sequence_number == s);
                                        assert(holds_seq(before, s));
                                    } else {
                                        assert(orig[before_len - 1].sequence_number == s);
                                    }
                                }
                                if (exists|a: int|
                                    before_len - 1 <= a < orig.len() && orig[a].sequence_number
                                        == s) && s != seq_num {
                                    let a = choose|a: int|
                                        before_len - 1 <= a < orig.len()
                                            && orig[a].sequence_number == s;
                                    if a >= before_len {
                                        assert(holds_seq(before, s));
                                        let b = choose|b: int|
                                            0 <= b < before.len() && before[b].sequence_number
                                                == s;
                                        assert(kept@[b].sequence_number == s);
                                    } else {
                                        assert(kept@[before.len() as int].sequence_number
                                            == s);
                                    }
                                    assert(holds_seq(kept@, s));
                                }
                            }
                            assert forall|c: ReaderCacheChange|
                                #![trigger kept@.contains(c)]
                                kept@.contains(c) <==> ((exists|a: int|
                                    before_len - 1 <= a < orig.len() && orig[a] == c)
                                    && c.sequence_number != seq_num) by {
                                if kept@.contains(c) {
                                    let a = choose|a: int|
                                        0 <= a < kept@.len() && kept@[a] == c;
                                    if a < before.len() {
                                        assert(before[a] == c);
                                        assert(before.contains(c));
                                    } else {
                                        assert(c == change);
                                        assert(orig[before_len - 1] == c);
                                    }
                                }
                                if (exists|a: int|
                                    before_len - 1 <= a < orig.len() && orig[a] == c)
                                    && c.sequence_number != seq_num {
                                    let a = choose|a: int|
                                        before_len - 1 <= a < orig.len() && orig[a] == c;
                                    if a >= before_len {
                                        assert(before.contains(c));
                                        let b = choose|b: int|
                                            0 <= b < before.len() && before[b] == c;
                                        assert(kept@[b] == c);
                                    } else {
                                        assert(kept@[before.len() as int] == c);
                                    }
                                    assert(kept@.contains(c));
                                }
                            }
                        }
                    } else {
                        proof {
                            assert forall|s: int|
                                #![trigger holds_seq(kept@, s)]
                                holds_seq(kept@, s) <==> ((exists|a: int|
                                    before_len - 1 <= a < orig.len() && orig[a].sequence_number
                                        == s) && s != seq_num) by {
                                if (exists|a: int|
                                    before_len - 1 <= a < orig.len() && orig[a].sequence_number
                                        == s) && s != seq_num {
                                    let a = choose|a: int|
                                        before_len - 1 <= a < orig.len()
                                            && orig[a].sequence_number == s;
                                    if a == before_len - 1 {
                                        assert(s == seq_num);
                                    } else {
                                        assert(exists|b: int|
                                            before_len <= b < orig.len()
                                                && orig[b].sequence_number == s);
                                    }
                                }
                                if holds_seq(kept@, s) {
                                    let a = choose|a: int|
                                        0 <= a < kept@.len() && kept@[a].sequence_number == s;
                                    assert(exists|b: int|
                                        before_len <= b < orig.len() && orig[b].sequence_number
                                            == s);
                                }
                            }
                            assert forall|c: ReaderCacheChange|
                                #![trigger kept@.contains(c)]
                                kept@.contains(c) <==> ((exists|a: int|
                                    before_len - 1 <= a < orig.len() && orig[a] == c)
                                    && c.sequence_number != seq_num) by {
                                if (exists|a: int|
                                    before_len - 1 <= a < orig.len() && orig[a] == c)
                                    && c.sequence_number != seq_num {
                                    let a = choose|a: int|
                                        before_len - 1 <= a < orig.len() && orig[a] == c;
                                    if a == before_len - 1 {
                                        assert(c == change);
                                        assert(false);
                                    } else {
                                        assert(exists|b: int|
                                            before_len <= b < orig.len() && orig[b] == c);
                                    }
                                }
                                if kept@.contains(c) {
                                    let b = choose|b: int|
                                        before_len <= b < orig.len() && orig[b] == c;
                                    assert(before_len - 1 <= b < orig.len() && orig[b] == c);
                                }
                            }
                        }
                    }
                },
                None => {
                    break ;
                },
            }
        }
        self.changes = kept;
        proof {
            assert forall|s: int| #![auto]
                self.has_seq(s) <==> (old(self).has_seq(s) && s != seq_num) by {
                assert(holds_seq(kept@, s) <==> (holds_seq(orig, s) && s != seq_num));
                if self.has_seq(s) {
                    let a = choose|a: int|
                        0 <= a < self.spec_changes().len()
                            && self.spec_changes()[a].sequence_number == s;
                    assert(kept@[a].sequence_number == s);
                    assert(holds_seq(kept@, s));
                }
                if holds_seq(kept@, s) {
                    let a = choose|a: int|
                        0 <= a < kept@.len() && kept@[a].sequence_number == s;
                    assert(self.spec_changes()[a].sequence_number == s);
                }
                if holds_seq(orig, s) {
                    let a = choose|a: int|
                        0 <= a < orig.len() && orig[a].sequence_number == s;
                    assert(old(self).spec_changes()[a].sequence_number == s);
                    assert(old(self).has_seq(s));
                }
                if old(self).has_seq(s) {
                    let a = choose|a: int|
                        0 <= a < old(self).spec_changes().len() && old(self).spec_changes()[
                            a
                        ].sequence_number == s;
                    assert(orig[a].sequence_number == s);
                    assert(holds_seq(orig, s));
                }
            }
            assert forall|c: ReaderCacheChange|
                #![trigger self.spec_changes().contains(c)]
                #![trigger old(self).spec_changes().contains(c)]
                self.spec_changes().contains(c) <==> (old(self).spec_changes().contains(c)
                    && c.sequence_number != seq_num) by {
                assert(kept@.contains(c) <==> (orig.contains(c) && c.sequence_number
                    != seq_num));
                assert(self.spec_changes() == kept@);
                assert(old(self).spec_changes() == orig);
            }
        }
    }

    /// The first stored sample with the sequence number, if any.
    pub fn get_change(&self, seq_num: SequenceNumber) -> (r: Option<&ReaderCacheChange>)
        ensures
            match r {
                Some(c) => self.spec_changes().contains(*c) && c.sequence_number == seq_num,
                None => !self.has_seq(seq_num as int),
            },
    {
        for i in 0..self.changes.len()
            invariant
                forall|j: int|
                    0 <= j < i ==> self.changes@[j].sequence_number != seq_num,
        {
            if self.changes[i].sequence_number == seq_num {
                proof {
                    assert(self.spec_changes().contains(self.spec_changes()[i as int]));
                }
                return Some(&self.changes[i]);
            }
        }
        None
    }

    /// The least stored sequence number, where any sample is stored at all.
    pub fn get_seq_num_min(&self) -> (r: Option<SequenceNumber>)
        ensures
            match r {
                Some(m) => self.has_seq(m as int) && forall|i: int|
                    0 <= i < self.spec_changes().len()
                        ==> m <= self.spec_changes()[i].sequence_number,
                None => self.spec_changes().len() == 0,
            },
    {
        if self.changes.len() == 0 {
            return None;
        }
        let mut m = self.changes[0].sequence_number;
        proof {
            assert(self.spec_changes()[0].sequence_number == m);
        }
        for i in 1..self.changes.len()
            invariant
                self.spec_changes().len() > 0,
                self.has_seq(m as int),
                forall|j: int|
                    0 <= j < i ==> m <= self.spec_changes()[j].sequence_number,
        {
            if self.changes[i].sequence_number < m {
                m = self.changes[i].sequence_number;
                proof {
                    assert(self.spec_changes()[i as int].sequence_number == m);
                }
            }
        }
        Some(m)
    }

    /// The greatest stored sequence number, where any sample is stored at
    /// all.
    pub fn get_seq_num_max(&self) -> (r: Option<SequenceNumber>)
        ensures
            match r {
                Some(m) => self.has_seq(m as int) && forall|i: int|
                    0 <= i < self.spec_changes().len()
                        ==> m >= self.spec_changes()[i].sequence_number,
                None => self.spec_changes().len() == 0,
            },
    {
        if self.changes.len() == 0 {
            return None;
        }
        let mut m = self.changes[0].sequence_number;
        proof {
            assert(self.spec_changes()[0].sequence_number == m);
        }
        for i in 1..self.changes.len()
            invariant
                self.spec_changes().len() > 0,
                self.has_seq(m as int),
                forall|j: int|
                    0 <= j < i ==> m >= self.spec_changes()[j].sequence_number,
        {
            if self.changes[i].sequence_number > m {
                m = self.changes[i].sequence_number;
                proof {
                    assert(self.spec_changes()[i as int].sequence_number == m);
                }
            }
        }
        Some(m)
    }
}

} // verus!
