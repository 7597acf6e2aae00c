//! The handlers a processor hosts and the state of their registration with
//! the validator.

use vstd::prelude::*;

verus! {

/// What a handler declares: its family, the versions of it that it runs and
/// the address prefixes that it owns.
#[derive(Debug)]
pub struct HandlerDescriptor {
    pub family_name: String,
    pub versions: Vec<String>,
    pub namespaces: Vec<String>,
}

/// Where a handler's registration stands.
#[derive(Clone, Copy, Debug, PartialEq, Eq, Structural)]
pub enum RegistrationStatus {
    Pending,
    Acknowledged,
    Failed,
}

/// A hosted handler and its registration status.
#[derive(Debug)]
pub struct RegistrationRecord {
    pub descriptor: HandlerDescriptor,
    pub status: RegistrationStatus,
}

/// The views of a sequence of strings.
pub open spec fn strings_view(s: Seq<String>) -> Seq<Seq<char>> {
    s.map_values(|x: String| x@)
}

/// A descriptor as mathematical values.
pub ghost struct DescriptorModel {
    pub family_name: Seq<char>,
    pub versions: Seq<Seq<char>>,
    pub namespaces: Seq<Seq<char>>,
}

impl View for HandlerDescriptor {
    type V = DescriptorModel;

    open spec fn view(&self) -> DescriptorModel {
        DescriptorModel {
            family_name: self.family_name@,
            versions: strings_view(self.versions@),
            namespaces: strings_view(self.namespaces@),
        }
    }
}

/// A record as mathematical values.
pub ghost struct RecordModel {
    pub descriptor: DescriptorModel,
    pub status: RegistrationStatus,
}

impl View for RegistrationRecord {
    type V = RecordModel;

    open spec fn view(&self) -> RecordModel {
        RecordModel { descriptor: self.descriptor@, status: self.status }
    }
}

/// The set of hosted handlers, in the order they were added.
#[derive(Debug)]
pub struct Registry {
    pub records: Vec<RegistrationRecord>,
}

/// A record serves a request for `family` at `version`: it was acknowledged
/// and declares that family and version.
pub open spec fn serves(r: RecordModel, family: Seq<char>, version: Seq<char>) -> bool {
    &&& r.status == RegistrationStatus::Acknowledged
    &&& r.descriptor.family_name == family
    &&& r.descriptor.versions.contains(version)
}

/// The handler a request for `family` at `version` goes to: the first record
/// that serves it.
pub open spec fn handler_for(records: Seq<RecordModel>, family: Seq<char>, version: Seq<char>) -> Option<nat> {
    if exists|i: int| 0 <= i < records.len() && serves(records[i], family, version) {
        let i = choose|i: int|
            0 <= i < records.len() && serves(records[i], family, version) && forall|j: int|
                0 <= j < i ==> !serves(records[j], family, version);
        Some(i as nat)
    } else {
        None
    }
}

/// The status a record takes after a reconnect: an acknowledged handler must
/// register again; a failed one stays excluded.
pub open spec fn status_after_reset(s: RegistrationStatus) -> RegistrationStatus {
    match s {
        RegistrationStatus::Failed => RegistrationStatus::Failed,
        _ => RegistrationStatus::Pending,
    }
}

/// The status a record takes on the validator's answer to its registration.
pub open spec fn status_after_answer(s: RegistrationStatus, accepted: bool) -> RegistrationStatus {
    if s != RegistrationStatus::Pending {
        s
    } else if accepted {
        RegistrationStatus::Acknowledged
    } else {
        RegistrationStatus::Failed
    }
}

fn contains_string(v: &Vec<String>, s: &String) -> (r: bool)
    ensures
        r == strings_view(v@).contains(s@),
{
    let mut i: usize = 0;
    while i < v.len()
        invariant
            i <= v@.len(),
            forall|j: int| 0 <= j < i ==> v@[j]@ != s@,
        decreases v.len() - i,
    {
        if v[i] == *s {
            assert(strings_view(v@)[i as int] == s@);
            return true;
        }
        i = i + 1;
    }
    assert(!strings_view(v@).contains(s@)) by {
        if strings_view(v@).contains(s@) {
            let k = choose|k: int| 0 <= k < strings_view(v@).len() && strings_view(v@)[k] == s@;
            assert(v@[k]@ == s@);
        }
    }
    false
}

impl Registry {
    pub open spec fn model(&self) -> Seq<RecordModel> {
        self.records@.map_values(|r: RegistrationRecord| r@)
    }

    /// A registry with no handler.
    pub fn new() -> (r: Registry)
        ensures
            r.model() == Seq::<RecordModel>::empty(),
    {
        let r = Registry { records: Vec::new() };
        assert(r.model() =~= Seq::<RecordModel>::empty());
        r
    }

    /// Hosts one more handler; its registration is pending.
    pub fn add_handler(&mut self, descriptor: HandlerDescriptor)
        ensures
            final(self).model() == old(self).model().push(
                RecordModel { descriptor: descriptor@, status: RegistrationStatus::Pending },
            ),
    {
        self.records.push(RegistrationRecord { descriptor, status: RegistrationStatus::Pending });
        assert(self.model() =~= old(self).model().push(
            RecordModel { descriptor: descriptor@, status: RegistrationStatus::Pending },
        ));
    }

    /// Records the validator's answer to the registration of handler `index`:
    /// a pending registration becomes acknowledged when accepted, failed when
    /// rejected or timed out; any other status stays.
    pub fn on_registration_answer(&mut self, index: usize, accepted: bool)
        requires
            index < old(self).model().len(),
        ensures
            final(self).model() == old(self).model().update(
                index as int,
                RecordModel {
                    descriptor: old(self).model()[index as int].descriptor,
                    status: status_after_answer(old(self).model()[index as int].status, accepted),
                },
            ),
    {
        let cur = self.records[index].status;
        let next = if cur != RegistrationStatus::Pending {
            cur
        } else if accepted {
            RegistrationStatus::Acknowledged
        } else {
            RegistrationStatus::Failed
        };
        self.records[index].status = next;
        assert(self.model() =~= old(self).model().update(
            index as int,
            RecordModel {
                descriptor: old(self).model()[index as int].descriptor,
                status: status_after_answer(old(self).model()[index as int].status, accepted),
            },
        ));
    }

    /// After a reconnect every handler that is not failed must register again.
    pub fn reset_for_reconnect(&mut self)
        ensures
            final(self).model().len() == old(self).model().len(),
            forall|i: int|
                0 <= i < old(self).model().len() ==> #[trigger] final(self).model()[i] == (
                RecordModel {
                    descriptor: old(self).model()[i].descriptor,
                    status: status_after_reset(old(self).model()[i].status),
                }),
    {
        let n = self.records.len();
        let mut i: usize = 0;
        while i < n
            invariant
                n == self.records@.len() == old(self).records@.len(),
                i <= n,
                forall|j: int|
                    0 <= j < i ==> #[trigger] self.model()[j] == (RecordModel {
                        descriptor: old(self).model()[j].descriptor,
                        status: status_after_reset(old(self).model()[j].status),
                    }),
                forall|j: int| i <= j < n ==> #[trigger] self.model()[j] == old(self).model()[j],
            decreases n - i,
        {
            let ghost prev = self.model();
            assert(prev[i as int] == old(self).model()[i as int]);
            if self.records[i].status != RegistrationStatus::Failed {
                self.records[i].status = RegistrationStatus::Pending;
            }
            assert(self.model() =~= prev.update(
                i as int,
                RecordModel {
                    descriptor: old(self).model()[i as int].descriptor,
                    status: status_after_reset(old(self).model()[i as int].status),
                },
            ));
            i = i + 1;
        }
    }

    /// The indices of the handlers whose registration is pending, in order.
    pub fn pending(&self) -> (r: Vec<usize>)
        ensures
            forall|k: int| 0 <= k < r@.len() ==> #[trigger] r@[k] < self.model().len(),
            forall|i: int|
                0 <= i < self.model().len() ==> (self.model()[i].status
                    == RegistrationStatus::Pending <==> r@.contains(i as usize)),
            forall|a: int, b: int| 0 <= a < b < r@.len() ==> r@[a] < r@[b],
    {
        let mut r: Vec<usize> = Vec::new();
        let mut i: usize = 0;
        while i < self.records.len()
            invariant
                i <= self.records@.len(),
                forall|k: int| 0 <= k < r@.len() ==> #[trigger] r@[k] < i,
                forall|j: int|
                    0 <= j < i ==> (self.model()[j].status == RegistrationStatus::Pending
                        <==> r@.contains(j as usize)),
                forall|a: int, b: int| 0 <= a < b < r@.len() ==> r@[a] < r@[b],
            decreases self.records.len() - i,
        {
            let ghost before = r@;
            if self.records[i].status == RegistrationStatus::Pending {
                r.push(i);
                assert(r@[r@.len() - 1] == i);
            }
            assert forall|j: int| 0 <= j < i implies (#[trigger] r@.contains(j as usize)
                <==> before.contains(j as usize)) by {
                if r@.contains(j as usize) {
                    let k = choose|k: int| 0 <= k < r@.len() && r@[k] == j as usize;
                    assert(k < before.len());
                    assert(before[k] == j as usize);
                }
                if before.contains(j as usize) {
                    let k = choose|k: int| 0 <= k < before.len() && before[k] == j as usize;
                    assert(r@[k] == j as usize);
                }
            }
            assert(!before.contains(i)) by {
                if before.contains(i) {
                    let k = choose|k: int| 0 <= k < before.len() && before[k] == i;
                    assert(before[k] < i);
                }
            }
            i = i + 1;
        }
        r
    }

    /// No registration is pending: dispatch may run.
    pub fn is_settled(&self) -> (r: bool)
        ensures
            r == forall|i: int|
                0 <= i < self.model().len() ==> #[trigger] self.model()[i].status
                    != RegistrationStatus::Pending,
    {
        let mut i: usize = 0;
        while i < self.records.len()
            invariant
                i <= self.records@.len(),
                forall|j: int|
                    0 <= j < i ==> #[trigger] self.model()[j].status != RegistrationStatus::Pending,
            decreases self.records.len() - i,
        {
            if self.records[i].status == RegistrationStatus::Pending {
                assert(self.model()[i as int].status == RegistrationStatus::Pending);
                return false;
            }
            i = i + 1;
        }
        true
    }

    /// The first acknowledged handler that declares `family` at `version`.
    pub fn find_handler(&self, family: &String, version: &String) -> (r: Option<usize>)
        ensures
            match r {
                Some(i) => handler_for(self.model(), family@, version@) == Some(i as nat),
                None => handler_for(self.model(), family@, version@) is None,
            },
    {
        let mut i: usize = 0;
        while i < self.records.len()
            invariant
                i <= self.records@.len(),
                forall|j: int|
                    0 <= j < i ==> !serves(#[trigger] self.model()[j], family@, version@),
            decreases self.records.len() - i,
        {
            let rec = &self.records[i];
            if rec.status == RegistrationStatus::Acknowledged && rec.descriptor.family_name
                == *family && contains_string(&rec.descriptor.versions, version) {
                assert(serves(self.model()[i as int], family@, version@));
                proof {
                    let k = choose|k: int|
                        0 <= k < self.model().len() && serves(self.model()[k], family@, version@)
                            && forall|j: int|
                            0 <= j < k ==> !serves(self.model()[j], family@, version@);
                    if k < i {
                        assert(!serves(self.model()[k], family@, version@));
                    }
                    if k > i {
                        assert(!serves(self.model()[i as int], family@, version@));
                    }
                }
                return Some(i);
            }
            i = i + 1;
        }
        None
    }
}

} // verus!
