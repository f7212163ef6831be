//! The history cache: an unordered store of cache changes with at most one
//! change per sequence number, and minimum/maximum queries.

use vstd::prelude::*;

use crate::submessage_elements::ParameterListSubmessageElement;
use crate::types::{ChangeKind, Guid, InstanceHandle, SequenceNumber};

verus! {

/// The unit of replication: one sample, or a disposal or unregistration
/// tombstone, as produced by one writer.
#[derive(Clone, PartialEq, Debug)]
pub struct CacheChange {
    kind: ChangeKind,
    writer_guid: Guid,
    instance_handle: InstanceHandle,
    sequence_number: SequenceNumber,
    inline_qos: Option<ParameterListSubmessageElement>,
    data_value: Option<Vec<u8>>,
}

impl CacheChange {
    /// The spec-level kind.
    pub closed spec fn spec_kind(self) -> ChangeKind {
        self.kind
    }

    /// The spec-level writer.
    pub closed spec fn spec_writer_guid(self) -> Guid {
        self.writer_guid
    }

    /// The spec-level instance key.
    pub closed spec fn spec_instance_handle(self) -> InstanceHandle {
        self.instance_handle
    }

    /// The spec-level sequence number.
    pub closed spec fn spec_sequence_number(self) -> int {
        self.sequence_number as int
    }

    /// The spec-level inline QoS parameters.
    pub closed spec fn spec_inline_qos(self) -> Option<ParameterListSubmessageElement> {
        self.inline_qos
    }

    /// The spec-level payload.
    pub closed spec fn spec_data_value(self) -> Option<Vec<u8>> {
        self.data_value
    }

    pub fn new(
        kind: ChangeKind,
        writer_guid: Guid,
        instance_handle: InstanceHandle,
        sequence_number: SequenceNumber,
        inline_qos: Option<ParameterListSubmessageElement>,
        data_value: Option<Vec<u8>>,
    ) -> (r: Self)
        ensures
            r.spec_kind() == kind,
            r.spec_writer_guid() == writer_guid,
            r.spec_instance_handle() == instance_handle,
            r.spec_sequence_number() == sequence_number,
            r.spec_inline_qos() == inline_qos,
            r.spec_data_value() == data_value,
    {
        CacheChange { kind, writer_guid, instance_handle, sequence_number, inline_qos, data_value }
    }

    pub fn change_kind(&self) -> (r: &ChangeKind)
        ensures
            *r == self.spec_kind(),
    {
        &self.kind
    }

    pub fn writer_guid(&self) -> (r: &Guid)
        ensures
            *r == self.spec_writer_guid(),
    {
        &self.writer_guid
    }

    pub fn instance_handle(&self) -> (r: &InstanceHandle)
        ensures
            *r == self.spec_instance_handle(),
    {
        &self.instance_handle
    }

    pub fn sequence_number(&self) -> (r: SequenceNumber)
        ensures
            r == self.spec_sequence_number(),
    {
        self.sequence_number
    }

    pub fn inline_qos(&self) -> (r: &Option<ParameterListSubmessageElement>)
        ensures
            *r == self.spec_inline_qos(),
    {
        &self.inline_qos
    }

    pub fn data_value(&self) -> (r: &Option<Vec<u8>>)
        ensures
            *r == self.spec_data_value(),
    {
        &self.data_value
    }
}

/// An unordered store of cache changes, at most one per sequence number.
pub struct HistoryCache {
    changes: Vec<CacheChange>,
}

impl HistoryCache {
    /// The stored changes.
    pub closed spec fn spec_changes(self) -> Seq<CacheChange> {
        self.changes@
    }

    /// Whether a change with the sequence number is stored.
    pub open spec fn has_seq(self, seq: int) -> bool {
        exists|i: int|
            0 <= i < self.spec_changes().len() && self.spec_changes()[i].spec_sequence_number()
                == seq
    }

    /// The cache invariant: no two changes share a sequence number.
    pub open spec fn wf(self) -> bool {
        forall|i: int, j: int|
            0 <= i < self.spec_changes().len() && 0 <= j < self.spec_changes().len() && i != j
                ==> self.spec_changes()[i].spec_sequence_number()
                != self.spec_changes()[j].spec_sequence_number()
    }

    /// An empty cache.
    pub fn new() -> (r: Self)
        ensures
            r.wf(),
            r.spec_changes().len() == 0,
    {
        HistoryCache { changes: Vec::new() }
    }

    /// How many changes are stored.
    pub fn len(&self) -> (r: usize)
        ensures
            r == self.spec_changes().len(),
    {
        self.changes.len()
    }

    /// Adds the change; a change whose sequence number is already present is
    /// left out.
    pub fn add_change(&mut self, change: CacheChange)
        requires
            old(self).wf(),
        ensures
            final(self).wf(),
            old(self).has_seq(change.spec_sequence_number()) ==> *final(self) == *old(self),
            !old(self).has_seq(change.spec_sequence_number()) ==> final(self).spec_changes()
                == old(self).spec_changes().push(change),
            forall|s: int| #![auto]
                final(self).has_seq(s) <==> (old(self).has_seq(s) || s
                    == change.spec_sequence_number()),
    {
        let ghost pre = *self;
        let present = self.contains_seq(change.sequence_number());
        if !present {
            self.changes.push(change);
            proof {
                let t = self.spec_changes();
                let n = pre.spec_changes().len() as int;
                assert(t == pre.spec_changes().push(change));
                assert(t[n] == change);
                assert(self.spec_changes() == t);
                assert forall|a: int, b: int|
                    0 <= a < t.len() && 0 <= b < t.len() && a != b implies t[a]
                    .spec_sequence_number() != t[b].spec_sequence_number() by {
                    if a < n {
                        assert(t[a] == pre.spec_changes()[a]);
                    }
                    if b < n {
                        assert(t[b] == pre.spec_changes()[b]);
                    }
                    if a < n && b == n {
                        if t[a].spec_sequence_number() == change.spec_sequence_number() {
                            assert(pre.has_seq(change.spec_sequence_number()));
                        }
                    }
                    if b < n && a == n {
                        if t[b].spec_sequence_number() == change.spec_sequence_number() {
                            assert(pre.has_seq(change.spec_sequence_number()));
                        }
                    }
                }
                assert forall|s: int| #![trigger self.has_seq(s)]
                    self.has_seq(s) implies (pre.has_seq(s) || s
                        == change.spec_sequence_number()) by {
                    let a = choose|a: int|
                        0 <= a < self.spec_changes().len() && self.spec_changes()[a]
                            .spec_sequence_number() == s;
                    if a < n {
                        assert(pre.spec_changes()[a].spec_sequence_number() == s);
                        assert(pre.has_seq(s));
                    } else {
                        assert(self.spec_changes()[a] == change);
                    }
                }
                assert forall|s: int| #![trigger self.has_seq(s)]
                    (pre.has_seq(s) || s == change.spec_sequence_number()) implies self.has_seq(
                    s,
                ) by {
                    if pre.has_seq(s) {
                        let a = choose|a: int|
                            0 <= a < pre.spec_changes().len() && pre.spec_changes()[a]
                                .spec_sequence_number() == s;
                        assert(self.spec_changes()[a].spec_sequence_number() == s);
                        assert(self.has_seq(s));
                    } else {
                        assert(self.spec_changes()[n].spec_sequence_number() == s);
                        assert(self.has_seq(s));
                    }
                }
            }
        }
    }

    /// Whether a change with the sequence number is stored.
    pub fn contains_seq(&self, seq_num: SequenceNumber) -> (r: bool)
        ensures
            r == self.has_seq(seq_num as int),
    {
        for i in 0..self.changes.len()
            invariant
                forall|j: int|
                    0 <= j < i ==> self.changes@[j].spec_sequence_number() != seq_num,
        {
            if self.changes[i].sequence_number() == seq_num {
                proof {
                    assert(self.spec_changes()[i as int].spec_sequence_number() == seq_num);
                }
                return true;
            }
        }
        false
    }

    /// Removes the change with the sequence number, if any.
    pub fn remove_change(&mut self, seq_num: SequenceNumber)
        requires
            old(self).wf(),
        ensures
            final(self).wf(),
            forall|s: int| #![auto]
                final(self).has_seq(s) <==> (old(self).has_seq(s) && s != seq_num),
            forall|i: int|
                0 <= i < final(self).spec_changes().len() ==> old(self).spec_changes().contains(
                    final(self).spec_changes()[i],
                ),
    {
        let ghost orig = self.changes@;
        proof {
            assert(orig == old(self).spec_changes());
            assert forall|a: int, b: int|
                0 <= a < orig.len() && 0 <= b < orig.len() && a != b implies orig[a]
                .spec_sequence_number() != orig[b].spec_sequence_number() by {
                assert(old(self).spec_changes()[a].spec_sequence_number() != old(
                    self,
                ).spec_changes()[b].spec_sequence_number());
            }
        }
        let n = self.changes.len();
        for i in 0..n
            invariant
                n == self.changes@.len(),
                self.changes@ == orig,
                orig == old(self).spec_changes(),
                forall|a: int, b: int|
                    0 <= a < orig.len() && 0 <= b < orig.len() && a != b
                        ==> orig[a].spec_sequence_number() != orig[b].spec_sequence_number(),
                forall|j: int|
                    0 <= j < i ==> orig[j].spec_sequence_number() != seq_num,
        {
            if self.changes[i].sequence_number() == seq_num {
                self.changes.remove(i);
                proof {
                    let now = self.spec_changes();
                    assert forall|s: int| #![trigger self.has_seq(s)]
                        self.has_seq(s) implies ((exists|a: int|
                            0 <= a < orig.len() && orig[a].spec_sequence_number() == s) && s
                            != seq_num) by {
                        let a = choose|a: int|
                            0 <= a < self.spec_changes().len() && self.spec_changes()[a]
                                .spec_sequence_number() == s;
                        if a < i {
                            assert(orig[a].spec_sequence_number() == s);
                        } else {
                            assert(orig[a + 1].spec_sequence_number() == s);
                        }
                    }
                    assert forall|s: int| #![trigger self.has_seq(s)]
                        ((exists|a: int|
                            0 <= a < orig.len() && orig[a].spec_sequence_number() == s) && s
                            != seq_num) implies self.has_seq(s) by {
                        let a = choose|a: int|
                            0 <= a < orig.len() && orig[a].spec_sequence_number() == s;
                        if a < i {
                            assert(self.spec_changes()[a].spec_sequence_number() == s);
                        } else {
                            assert(a != i);
                            assert(self.spec_changes()[a - 1].spec_sequence_number() == s);
                        }
                        assert(self.has_seq(s));
                    }
                    assert forall|a: int|
                        0 <= a < now.len() implies orig.contains(now[a]) by {
                        if a < i {
                            assert(now[a] == orig[a]);
                        } else {
                            assert(now[a] == orig[a + 1]);
                        }
                    }
                    assert forall|a: int, b: int|
                        0 <= a < now.len() && 0 <= b < now.len() && a != b implies now[a]
                        .spec_sequence_number() != now[b].spec_sequence_number() by {
                        if a < i {
                            assert(now[a] == orig[a]);
                        } else {
                            assert(now[a] == orig[a + 1]);
                        }
                        if b < i {
                            assert(now[b] == orig[b]);
                        } else {
                            assert(now[b] == orig[b + 1]);
                        }
                    }
                }
                return ;
            }
        }
        proof {
            assert(!self.has_seq(seq_num as int));
        }
    }

    /// The stored change with the sequence number, if any.
    pub fn get_change(&self, seq_num: SequenceNumber) -> (r: Option<&CacheChange>)
        requires
            self.wf(),
        ensures
            match r {
                Some(c) => self.spec_changes().contains(*c) && c.spec_sequence_number()
                    == seq_num,
                None => !self.has_seq(seq_num as int),
            },
    {
        for i in 0..self.changes.len()
            invariant
                forall|j: int|
                    0 <= j < i ==> self.changes@[j].spec_sequence_number() != seq_num,
        {
            if self.changes[i].sequence_number() == seq_num {
                assert(self.spec_changes().contains(self.spec_changes()[i as int]));
                return Some(&self.changes[i]);
            }
        }
        None
    }

    /// The least stored sequence number, where any change is stored at all.
    pub fn get_seq_num_min(&self) -> (r: Option<SequenceNumber>)
        ensures
            match r {
                Some(m) => self.has_seq(m as int) && forall|i: int|
                    0 <= i < self.spec_changes().len()
                        ==> m <= self.spec_changes()[i].spec_sequence_number(),
                None => self.spec_changes().len() == 0,
            },
    {
        if self.changes.len() == 0 {
            return None;
        }
        let mut m = self.changes[0].sequence_number();
        assert(self.spec_changes()[0].spec_sequence_number() == m);
        for i in 1..self.changes.len()
            invariant
                self.spec_changes().len() > 0,
                self.has_seq(m as int),
                forall|j: int|
                    0 <= j < i ==> m <= self.spec_changes()[j].spec_sequence_number(),
        {
            if self.changes[i].sequence_number() < m {
                m = self.changes[i].sequence_number();
                proof {
                    assert(self.spec_changes()[i as int].spec_sequence_number() == m);
                }
            }
        }
        Some(m)
    }

    /// The greatest stored sequence number, where any change is stored at
    /// all.
    pub fn get_seq_num_max(&self) -> (r: Option<SequenceNumber>)
        ensures
            match r {
                Some(m) => self.has_seq(m as int) && forall|i: int|
                    0 <= i < self.spec_changes().len()
                        ==> m >= self.spec_changes()[i].spec_sequence_number(),
                None => self.spec_changes().len() == 0,
            },
    {
        if self.changes.len() == 0 {
            return None;
        }
        let mut m = self.changes[0].sequence_number();
        assert(self.spec_changes()[0].spec_sequence_number() == m);
        for i in 1..self.changes.len()
            invariant
                self.spec_changes().len() > 0,
                self.has_seq(m as int),
                forall|j: int|
                    0 <= j < i ==> m >= self.spec_changes()[j].spec_sequence_number(),
        {
            if self.changes[i].sequence_number() > m {
                m = self.changes[i].sequence_number();
                proof {
                    assert(self.spec_changes()[i as int].spec_sequence_number() == m);
                }
            }
        }
        Some(m)
    }

    /// The change at an index, for walking the whole cache.
    pub fn get_at(&self, index: usize) -> (r: &CacheChange)
        requires
            index < self.spec_changes().len(),
        ensures
            *r == self.spec_changes()[index as int],
    {
        &self.changes[index]
    }
}

impl Default for HistoryCache {
    /// An empty cache.
    fn default() -> (r: Self)
        ensures
            r.wf(),
            r.spec_changes().len() == 0,
    {
        HistoryCache { changes: Vec::new() }
    }
}

} // verus!
