//! Communication statuses and the status condition: which statuses an
//! application has asked to watch, and which have been triggered.

use vstd::prelude::*;

use crate::error::DdsResult;

verus! {

/// The communication statuses an entity can report.
#[derive(Clone, Copy, PartialEq, Eq, Structural, Debug)]
pub enum StatusKind {
    InconsistentTopicStatus,
    OfferedDeadlineMissedStatus,
    RequestedDeadlineMissedStatus,
    OfferedIncompatibleQosStatus,
    RequestedIncompatibleQosStatus,
    SampleLostStatus,
    SampleRejectedStatus,
    DataOnReadersStatus,
    DataAvailableStatus,
    LivelinessLostStatus,
    LivelinessChangedStatus,
    PublicationMatchedStatus,
    SubscriptionMatchedStatus,
}

/// Whether the sequence holds the status.
pub open spec fn holds_status(s: Seq<StatusKind>, x: StatusKind) -> bool {
    exists|i: int| 0 <= i < s.len() && s[i] == x
}

/// A status condition: triggered exactly when some communication status that
/// is also enabled has arrived and not been read.
pub struct StatusConditionImpl {
    enabled_statuses: Vec<StatusKind>,
    communication_status: Vec<StatusKind>,
}

impl StatusConditionImpl {
    /// The statuses the application watches.
    pub closed spec fn spec_enabled(self) -> Seq<StatusKind> {
        self.enabled_statuses@
    }

    /// The statuses that have arrived and not been read.
    pub closed spec fn spec_communication(self) -> Seq<StatusKind> {
        self.communication_status@
    }

    /// Whether the condition is triggered.
    pub open spec fn spec_triggered(self) -> bool {
        exists|x: StatusKind|
            holds_status(self.spec_communication(), x) && holds_status(self.spec_enabled(), x)
    }

    /// The statuses the application watches.
    pub fn get_enabled_statuses(&self) -> (r: Vec<StatusKind>)
        ensures
            r@ == self.spec_enabled(),
    {
        let mut r: Vec<StatusKind> = Vec::new();
        proof {
            assert(r@ =~= self.spec_enabled().take(0));
        }
        for i in 0..self.enabled_statuses.len()
            invariant
                r@ == self.spec_enabled().take(i as int),
        {
            proof {
                assert(self.spec_enabled().take(i + 1) =~= self.spec_enabled().take(
                    i as int,
                ).push(self.spec_enabled()[i as int]));
            }
            let value = self.enabled_statuses[i];
            r.push(value);
        }
        proof {
            assert(self.spec_enabled().take(self.spec_enabled().len() as int)
                =~= self.spec_enabled());
        }
        r
    }

    /// Replaces the watched statuses with the given mask.
    pub fn set_enabled_statuses(&mut self, mask: &Vec<StatusKind>) -> (r: DdsResult<()>)
        ensures
            r is Ok,
            final(self).spec_enabled() == mask@,
            final(self).spec_communication() == old(self).spec_communication(),
    {
        let mut copied: Vec<StatusKind> = Vec::new();
        proof {
            assert(copied@ =~= mask@.take(0));
        }
        for i in 0..mask.len()
            invariant
                copied@ == mask@.take(i as int),
        {
            proof {
                assert(mask@.take(i + 1) =~= mask@.take(i as int).push(mask@[i as int]));
            }
            let value = mask[i];
            copied.push(value);
        }
        proof {
            assert(mask@.take(mask@.len() as int) =~= mask@);
        }
        self.enabled_statuses = copied;
        Ok(())
    }

    /// Whether some arrived status is watched.
    pub fn get_trigger_value(&self) -> (r: bool)
        ensures
            r == self.spec_triggered(),
    {
        for i in 0..self.communication_status.len()
            invariant
                forall|j: int|
                    0 <= j < i ==> !holds_status(
                        self.spec_enabled(),
                        #[trigger] self.spec_communication()[j],
                    ),
        {
            let status = self.communication_status[i];
            let watched = Self::statuses_contain(&self.enabled_statuses, status);
            if watched {
                proof {
                    assert(holds_status(self.spec_communication(), status));
                }
                return true;
            }
        }
        proof {
            if self.spec_triggered() {
                let x = choose|x: StatusKind|
                    holds_status(self.spec_communication(), x) && holds_status(
                        self.spec_enabled(),
                        x,
                    );
                let i = choose|i: int|
                    0 <= i < self.spec_communication().len() && self.spec_communication()[i]
                        == x;
                assert(!holds_status(self.spec_enabled(), self.spec_communication()[i]));
            }
        }
        false
    }

    /// Whether the list holds the status.
    fn statuses_contain(list: &Vec<StatusKind>, x: StatusKind) -> (r: bool)
        ensures
            r == holds_status(list@, x),
    {
        for i in 0..list.len()
            invariant
                forall|j: int| 0 <= j < i ==> list@[j] != x,
        {
            if list[i] == x {
                proof {
                    assert(holds_status(list@, x));
                }
                return true;
            }
        }
        false
    }

    /// Records an arrived status; one that is watched triggers the condition
    /// and is consumed at once.
    pub fn add_communication_state(&mut self, state: StatusKind)
        ensures
            final(self).spec_enabled() == old(self).spec_enabled(),
            holds_status(old(self).spec_enabled(), state) ==> forall|x: StatusKind|
                #![auto]
                holds_status(final(self).spec_communication(), x) == (holds_status(
                    old(self).spec_communication(),
                    x,
                ) && x != state),
            !holds_status(old(self).spec_enabled(), state) ==> final(self).spec_communication()
                == old(self).spec_communication().push(state),
    {
        let ghost pre = *self;
        let watched = Self::statuses_contain(&self.enabled_statuses, state);
        self.communication_status.push(state);
        if watched {
            let mut kept: Vec<StatusKind> = Vec::new();
            let n = self.communication_status.len();
            let ghost whole = self.communication_status@;
            for i in 0..n
                invariant
                    n == whole.len(),
                    self.communication_status@ == whole,
                    whole == pre.spec_communication().push(state),
                    forall|x: StatusKind|
                        #![auto]
                        holds_status(kept@, x) == ((exists|j: int|
                            0 <= j < i && whole[j] == x) && x != state),
            {
                let value = self.communication_status[i];
                if value != state {
                    let ghost before = kept@;
                    kept.push(value);
                    proof {
                        assert forall|x: StatusKind| #![auto]
                            holds_status(kept@, x) == ((exists|j: int|
                                0 <= j < i + 1 && whole[j] == x) && x != state) by {
                            if holds_status(kept@, x) {
                                let a = choose|a: int|
                                    0 <= a < kept@.len() && kept@[a] == x;
                                if a < before.len() {
                                    assert(holds_status(before, x));
                                } else {
                                    assert(x == whole[i as int]);
                                }
                            }
                            if (exists|j: int| 0 <= j < i + 1 && whole[j] == x) && x != state {
                                let j = choose|j: int| 0 <= j < i + 1 && whole[j] == x;
                                if j < i {
                                    assert(holds_status(before, x));
                                    let a = choose|a: int|
                                        0 <= a < before.len() && before[a] == x;
                                    assert(kept@[a] == x);
                                } else {
                                    assert(kept@[before.len() as int] == x);
                                }
                                assert(holds_status(kept@, x));
                            }
                        }
                    }
                } else {
                    proof {
                        assert forall|x: StatusKind| #![auto]
                            holds_status(kept@, x) == ((exists|j: int|
                                0 <= j < i + 1 && whole[j] == x) && x != state) by {
                            if (exists|j: int| 0 <= j < i + 1 && whole[j] == x) && x != state {
                                let j = choose|j: int| 0 <= j < i + 1 && whole[j] == x;
                                assert(j < i);
                            }
                        }
                    }
                }
            }
            self.communication_status = kept;
            proof {
                assert forall|x: StatusKind| #![auto]
                    holds_status(self.spec_communication(), x) == (holds_status(
                        pre.spec_communication(),
                        x,
                    ) && x != state) by {
                    if holds_status(pre.spec_communication(), x) && x != state {
                        let j = choose|j: int|
                            0 <= j < pre.spec_communication().len()
                                && pre.spec_communication()[j] == x;
                        assert(whole[j] == x);
                    }
                    if (exists|j: int| 0 <= j < whole.len() && whole[j] == x) && x != state {
                        let j = choose|j: int| 0 <= j < whole.len() && whole[j] == x;
                        if j < pre.spec_communication().len() {
                            assert(pre.spec_communication()[j] == x);
                        }
                    }
                }
            }
        }
    }
}

impl Default for StatusConditionImpl {
    /// A fresh condition: every status watched, none arrived.
    fn default() -> (r: Self)
        ensures
            r.spec_communication().len() == 0,
            r.spec_enabled().len() == 13,
            holds_status(r.spec_enabled(), StatusKind::InconsistentTopicStatus),
            holds_status(r.spec_enabled(), StatusKind::OfferedDeadlineMissedStatus),
            holds_status(r.spec_enabled(), StatusKind::RequestedDeadlineMissedStatus),
            holds_status(r.spec_enabled(), StatusKind::OfferedIncompatibleQosStatus),
            holds_status(r.spec_enabled(), StatusKind::RequestedIncompatibleQosStatus),
            holds_status(r.spec_enabled(), StatusKind::SampleLostStatus),
            holds_status(r.spec_enabled(), StatusKind::SampleRejectedStatus),
            holds_status(r.spec_enabled(), StatusKind::DataOnReadersStatus),
            holds_status(r.spec_enabled(), StatusKind::DataAvailableStatus),
            holds_status(r.spec_enabled(), StatusKind::LivelinessLostStatus),
            holds_status(r.spec_enabled(), StatusKind::LivelinessChangedStatus),
            holds_status(r.spec_enabled(), StatusKind::PublicationMatchedStatus),
            holds_status(r.spec_enabled(), StatusKind::SubscriptionMatchedStatus),
    {
        let mut enabled: Vec<StatusKind> = Vec::new();
        enabled.push(StatusKind::InconsistentTopicStatus);
        enabled.push(StatusKind::OfferedDeadlineMissedStatus);
        enabled.push(StatusKind::RequestedDeadlineMissedStatus);
        enabled.push(StatusKind::OfferedIncompatibleQosStatus);
        enabled.push(StatusKind::RequestedIncompatibleQosStatus);
        enabled.push(StatusKind::SampleLostStatus);
        enabled.push(StatusKind::SampleRejectedStatus);
        enabled.push(StatusKind::DataOnReadersStatus);
        enabled.push(StatusKind::DataAvailableStatus);
        enabled.push(StatusKind::LivelinessLostStatus);
        enabled.push(StatusKind::LivelinessChangedStatus);
        enabled.push(StatusKind::PublicationMatchedStatus);
        enabled.push(StatusKind::SubscriptionMatchedStatus);
        proof {
            assert(enabled@[0] == StatusKind::InconsistentTopicStatus);
            assert(enabled@[1] == StatusKind::OfferedDeadlineMissedStatus);
            assert(enabled@[2] == StatusKind::RequestedDeadlineMissedStatus);
            assert(enabled@[3] == StatusKind::OfferedIncompatibleQosStatus);
            assert(enabled@[4] == StatusKind::RequestedIncompatibleQosStatus);
            assert(enabled@[5] == StatusKind::SampleLostStatus);
            assert(enabled@[6] == StatusKind::SampleRejectedStatus);
            assert(enabled@[7] == StatusKind::DataOnReadersStatus);
            assert(enabled@[8] == StatusKind::DataAvailableStatus);
            assert(enabled@[9] == StatusKind::LivelinessLostStatus);
            assert(enabled@[10] == StatusKind::LivelinessChangedStatus);
            assert(enabled@[11] == StatusKind::PublicationMatchedStatus);
            assert(enabled@[12] == StatusKind::SubscriptionMatchedStatus);
        }
        StatusConditionImpl { enabled_statuses: enabled, communication_status: Vec::new() }
    }
}

} // verus!
