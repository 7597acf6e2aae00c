//! The dispatch loop's decisions, as a state machine per request:
//! received, then dispatched (or queued until a slot frees), then completed or
//! cancelled. The caller performs what a step asks for (invoking a handler,
//! sending a response) and hands back what came of it.

use vstd::prelude::*;
use crate::registry::{handler_for, serves, status_after_answer, status_after_reset, HandlerDescriptor, RecordModel, Registry, RegistrationStatus};

verus! {

/// The verdict sent back for a request.
#[derive(Clone, Copy, Debug, PartialEq, Eq, Structural)]
pub enum ResponseStatus {
    Okay,
    InvalidTransaction,
    InternalError,
}

/// The answer to one process request.
#[derive(Debug)]
pub struct ResponseEnvelope {
    pub correlation_id: Vec<u8>,
    pub status: ResponseStatus,
    pub message: Option<String>,
}

/// How a handler's apply operation ended.
#[derive(Debug)]
pub enum ApplyOutcome {
    /// The transaction was applied.
    Completed,
    /// The transaction breaks a rule of its family; the reason is kept.
    RuleViolation(String),
    /// State access failed or the handler broke down.
    Failure(String),
}

/// Everything a handler sees of one request.
#[derive(Debug)]
pub struct ProcessContext {
    pub correlation_id: Vec<u8>,
    pub family_name: String,
    pub version: String,
    pub payload: Vec<u8>,
    pub signer_public_key: String,
    pub nonce: String,
    pub inputs: Vec<String>,
    pub outputs: Vec<String>,
    pub dependencies: Vec<String>,
}

/// A request handed to the handler at index `handler` of the registry.
#[derive(Debug)]
pub struct Invocation {
    pub handler: usize,
    pub context: ProcessContext,
}

/// What became of a received request.
#[derive(Debug)]
pub enum Admission {
    /// The link is down, registration is not settled, or the id is already in
    /// flight: nothing is sent.
    Dropped,
    /// No acknowledged handler serves the family and version: send this.
    Rejected(ResponseEnvelope),
    /// Invoke the handler now.
    Dispatch(Invocation),
    /// Every slot is taken: the request waits its turn.
    Queued,
}

/// What a handler's result leads to.
#[derive(Debug)]
pub struct Completion {
    /// The response to send, if the request was still in flight.
    pub response: Option<ResponseEnvelope>,
    /// The queued request that took the freed slot, to invoke now.
    pub next: Option<Invocation>,
}

pub open spec fn status_of(o: ApplyOutcome) -> ResponseStatus {
    match o {
        ApplyOutcome::Completed => ResponseStatus::Okay,
        ApplyOutcome::RuleViolation(_) => ResponseStatus::InvalidTransaction,
        ApplyOutcome::Failure(_) => ResponseStatus::InternalError,
    }
}

pub open spec fn message_of(o: ApplyOutcome) -> Option<String> {
    match o {
        ApplyOutcome::Completed => None,
        ApplyOutcome::RuleViolation(reason) => Some(reason),
        ApplyOutcome::Failure(detail) => Some(detail),
    }
}

/// Turns a handler's outcome into the response for `correlation_id`: a rule
/// violation gives `InvalidTransaction` with its reason verbatim, a failure
/// `InternalError`, a completion `Ok`.
pub fn response_for(correlation_id: Vec<u8>, outcome: ApplyOutcome) -> (r: ResponseEnvelope)
    ensures
        r.correlation_id == correlation_id,
        r.status == status_of(outcome),
        r.message == message_of(outcome),
{
    match outcome {
        ApplyOutcome::Completed => ResponseEnvelope {
            correlation_id,
            status: ResponseStatus::Okay,
            message: None,
        },
        ApplyOutcome::RuleViolation(reason) => ResponseEnvelope {
            correlation_id,
            status: ResponseStatus::InvalidTransaction,
            message: Some(reason),
        },
        ApplyOutcome::Failure(detail) => ResponseEnvelope {
            correlation_id,
            status: ResponseStatus::InternalError,
            message: Some(detail),
        },
    }
}

/// Whether two byte strings are equal.
pub fn same_bytes(a: &Vec<u8>, b: &Vec<u8>) -> (r: bool)
    ensures
        r == (a@ == b@),
{
    if a.len() != b.len() {
        return false;
    }
    let mut i: usize = 0;
    while i < a.len()
        invariant
            a@.len() == b@.len(),
            i <= a@.len(),
            forall|j: int| 0 <= j < i ==> a@[j] == b@[j],
        decreases a.len() - i,
    {
        if a[i] != b[i] {
            return false;
        }
        i = i + 1;
    }
    assert(a@ =~= b@);
    true
}

pub(crate) fn copy_bytes(a: &Vec<u8>) -> (r: Vec<u8>)
    ensures
        r@ == a@,
{
    let mut r: Vec<u8> = Vec::new();
    let mut i: usize = 0;
    while i < a.len()
        invariant
            i <= a@.len(),
            r@ == a@.subrange(0, i as int),
        decreases a.len() - i,
    {
        r.push(a[i]);
        i = i + 1;
        assert(r@ =~= a@.subrange(0, i as int));
    }
    assert(a@.subrange(0, i as int) =~= a@);
    r
}

proof fn lemma_push_distinct<A>(s: Seq<A>, x: A)
    requires
        s.no_duplicates(),
        !s.contains(x),
    ensures
        s.push(x).no_duplicates(),
{
    assert forall|i: int, j: int|
        0 <= i < s.len() + 1 && 0 <= j < s.len() + 1 && i != j implies #[trigger] s.push(x)[i]
        != #[trigger] s.push(x)[j] by {
        if i == s.len() {
            assert(s[j] != x);
        } else if j == s.len() {
            assert(s[i] != x);
        }
    }
}

proof fn lemma_remove_distinct<A>(s: Seq<A>, k: int)
    requires
        s.no_duplicates(),
        0 <= k < s.len(),
    ensures
        s.remove(k).no_duplicates(),
        forall|x: A| #[trigger] s.remove(k).contains(x) ==> s.contains(x) && x != s[k],
{
    let r = s.remove(k);
    assert forall|i: int, j: int|
        0 <= i < r.len() && 0 <= j < r.len() && i != j implies #[trigger] r[i] != #[trigger] r[j] by {
        let si = if i < k { i } else { i + 1 };
        let sj = if j < k { j } else { j + 1 };
        assert(r[i] == s[si] && r[j] == s[sj]);
    }
    assert forall|x: A| #[trigger] r.contains(x) implies s.contains(x) && x != s[k] by {
        let i = choose|i: int| 0 <= i < r.len() && r[i] == x;
        let si = if i < k { i } else { i + 1 };
        assert(s[si] == x);
    }
}

proof fn lemma_disjoint_by_contains<A>(a: Seq<A>, b: Seq<A>)
    requires
        forall|x: A| #[trigger] a.contains(x) ==> !b.contains(x),
    ensures
        a.disjoint(b),
{
    assert forall|i: int, j: int| 0 <= i < a.len() && 0 <= j < b.len() implies a[i] != b[j] by {
        assert(a.contains(a[i]));
        assert(b.contains(b[j]));
    }
}

proof fn lemma_drop_first_distinct<A>(s: Seq<A>)
    requires
        s.no_duplicates(),
        s.len() > 0,
    ensures
        s.drop_first().no_duplicates(),
        forall|x: A| #[trigger] s.drop_first().contains(x) ==> s.contains(x) && x != s[0],
{
    assert(s.drop_first() == s.remove(0));
    lemma_remove_distinct(s, 0);
}

/// After a reconnect resets the registrations, no handler serves any family
/// or version until the validator acknowledges one again: re-registration
/// precedes every dispatch.
pub proof fn lemma_no_dispatch_before_reregistration(
    before: Seq<RecordModel>,
    after: Seq<RecordModel>,
    family: Seq<char>,
    version: Seq<char>,
)
    requires
        after.len() == before.len(),
        forall|i: int|
            0 <= i < before.len() ==> #[trigger] after[i] == (RecordModel {
                descriptor: before[i].descriptor,
                status: status_after_reset(before[i].status),
            }),
    ensures
        handler_for(after, family, version) is None,
{
    assert forall|i: int| 0 <= i < after.len() implies !serves(#[trigger] after[i], family, version) by {
        assert(after[i].status != RegistrationStatus::Acknowledged);
    }
}

/// In a well-formed dispatcher a request in flight sits at exactly one place
/// and is not also queued: the one completion that removes it answers it,
/// and no later completion can.
pub proof fn lemma_in_flight_once(d: Dispatcher, id: Seq<u8>)
    requires
        d.wf(),
        d.dispatched_ids().contains(id),
    ensures
        !d.queued_ids().contains(id),
        exists|k: int|
            0 <= k < d.dispatched_ids().len() && d.dispatched_ids()[k] == id && forall|j: int|
                0 <= j < d.dispatched_ids().len() && #[trigger] d.dispatched_ids()[j] == id ==> j
                    == k,
{
    let ids = d.dispatched_ids();
    let k = choose|k: int| 0 <= k < ids.len() && ids[k] == id;
    assert forall|j: int| 0 <= j < ids.len() && #[trigger] ids[j] == id implies j == k by {
        if j != k {
            assert(ids[j] != ids[k]);
        }
    }
    assert(!d.queued_ids().contains(id)) by {
        if d.queued_ids().contains(id) {
            let q = choose|q: int| 0 <= q < d.queued_ids().len() && d.queued_ids()[q] == id;
            assert(ids[k] != d.queued_ids()[q]);
        }
    }
}

/// The dispatch state of one processor: its handlers, the link, the requests
/// in flight and those waiting for a slot.
#[derive(Debug)]
pub struct Dispatcher {
    pub registry: Registry,
    /// The most requests that may be in flight at once.
    pub limit: usize,
    pub link_up: bool,
    /// False once shutdown has begun: no new request is admitted.
    pub accepting: bool,
    /// Correlation ids of the requests in flight.
    pub dispatched: Vec<Vec<u8>>,
    /// Requests that wait for a slot, oldest first.
    pub queue: Vec<Invocation>,
}

impl Dispatcher {
    pub open spec fn dispatched_ids(&self) -> Seq<Seq<u8>> {
        self.dispatched@.map_values(|v: Vec<u8>| v@)
    }

    pub open spec fn queued_ids(&self) -> Seq<Seq<u8>> {
        self.queue@.map_values(|q: Invocation| q.context.correlation_id@)
    }

    /// The request with this id is in flight or queued.
    pub open spec fn tracks(&self, id: Seq<u8>) -> bool {
        self.dispatched_ids().contains(id) || self.queued_ids().contains(id)
    }

    /// Requests are admitted only while the link is up, no registration is
    /// pending, and shutdown has not begun.
    pub open spec fn ready(&self) -> bool {
        &&& self.link_up
        &&& self.accepting
        &&& forall|i: int|
            0 <= i < self.registry.model().len() ==> #[trigger] self.registry.model()[i].status
                != RegistrationStatus::Pending
    }

    /// No more than `limit` requests in flight, a request waits only while
    /// every slot is taken, and no id is tracked twice.
    pub open spec fn wf(&self) -> bool {
        &&& self.dispatched@.len() <= self.limit
        &&& self.queue@.len() > 0 ==> self.dispatched@.len() == self.limit
        &&& self.dispatched_ids().no_duplicates()
        &&& self.queued_ids().no_duplicates()
        &&& self.dispatched_ids().disjoint(self.queued_ids())
    }

    /// A dispatcher with no handler, the link down, and at most `limit`
    /// requests in flight.
    pub fn new(limit: usize) -> (r: Dispatcher)
        ensures
            r.wf(),
            r.limit == limit,
            !r.link_up,
            r.accepting,
            r.registry.model() == Seq::<RecordModel>::empty(),
            r.dispatched@.len() == 0,
            r.queue@.len() == 0,
    {
        let r = Dispatcher {
            registry: Registry::new(),
            limit,
            link_up: false,
            accepting: true,
            dispatched: Vec::new(),
            queue: Vec::new(),
        };
        assert(r.dispatched_ids() =~= Seq::<Seq<u8>>::empty());
        assert(r.queued_ids() =~= Seq::<Seq<u8>>::empty());
        r
    }

    /// Hosts one more handler, to be registered when the link comes up.
    pub fn add_handler(&mut self, descriptor: HandlerDescriptor)
        requires
            old(self).wf(),
        ensures
            final(self).wf(),
            final(self).registry.model() == old(self).registry.model().push(
                RecordModel { descriptor: descriptor@, status: RegistrationStatus::Pending },
            ),
            final(self).limit == old(self).limit,
            final(self).accepting == old(self).accepting,
            final(self).link_up == old(self).link_up,
            final(self).dispatched == old(self).dispatched,
            final(self).queue == old(self).queue,
    {
        self.registry.add_handler(descriptor);
    }

    /// The link is established; registration may start.
    pub fn link_established(&mut self)
        requires
            old(self).wf(),
        ensures
            final(self).wf(),
            final(self).link_up,
            final(self).registry == old(self).registry,
            final(self).limit == old(self).limit,
            final(self).accepting == old(self).accepting,
            final(self).dispatched == old(self).dispatched,
            final(self).queue == old(self).queue,
    {
        self.link_up = true;
    }

    /// Records the validator's answer to the registration of handler `index`.
    pub fn on_registration_answer(&mut self, index: usize, accepted: bool)
        requires
            old(self).wf(),
            index < old(self).registry.model().len(),
        ensures
            final(self).wf(),
            final(self).registry.model() == old(self).registry.model().update(
                index as int,
                RecordModel {
                    descriptor: old(self).registry.model()[index as int].descriptor,
                    status: status_after_answer(
                        old(self).registry.model()[index as int].status,
                        accepted,
                    ),
                },
            ),
            final(self).limit == old(self).limit,
            final(self).accepting == old(self).accepting,
            final(self).link_up == old(self).link_up,
            final(self).dispatched == old(self).dispatched,
            final(self).queue == old(self).queue,
    {
        self.registry.on_registration_answer(index, accepted);
    }

    /// Whether requests are admitted now.
    pub fn is_ready(&self) -> (r: bool)
        ensures
            r == self.ready(),
    {
        self.link_up && self.accepting && self.registry.is_settled()
    }

    /// Whether a request with this id is in flight or queued.
    pub fn is_tracked(&self, id: &Vec<u8>) -> (r: bool)
        ensures
            r == self.tracks(id@),
    {
        let mut i: usize = 0;
        while i < self.dispatched.len()
            invariant
                i <= self.dispatched@.len(),
                forall|j: int| 0 <= j < i ==> self.dispatched@[j]@ != id@,
            decreases self.dispatched.len() - i,
        {
            if same_bytes(&self.dispatched[i], id) {
                assert(self.dispatched_ids()[i as int] == id@);
                return true;
            }
            i = i + 1;
        }
        let mut k: usize = 0;
        while k < self.queue.len()
            invariant
                k <= self.queue@.len(),
                forall|j: int| 0 <= j < k ==> self.queue@[j].context.correlation_id@ != id@,
            decreases self.queue.len() - k,
        {
            if same_bytes(&self.queue[k].context.correlation_id, id) {
                assert(self.queued_ids()[k as int] == id@);
                return true;
            }
            k = k + 1;
        }
        assert(!self.dispatched_ids().contains(id@)) by {
            if self.dispatched_ids().contains(id@) {
                let j = choose|j: int|
                    0 <= j < self.dispatched_ids().len() && self.dispatched_ids()[j] == id@;
                assert(self.dispatched@[j]@ == id@);
            }
        }
        assert(!self.queued_ids().contains(id@)) by {
            if self.queued_ids().contains(id@) {
                let j = choose|j: int| 0 <= j < self.queued_ids().len() && self.queued_ids()[j] == id@;
                assert(self.queue@[j].context.correlation_id@ == id@);
            }
        }
        false
    }
    /// Takes in a received request. It is dropped when the dispatcher is not
    /// ready or its id is already tracked; rejected with `InternalError`, and
    /// no handler invoked, when no acknowledged handler serves its family and
    /// version; else dispatched to the first such handler when a slot is free,
    /// and queued behind the others when none is.
    pub fn receive(&mut self, context: ProcessContext) -> (r: Admission)
        requires
            old(self).wf(),
        ensures
            final(self).wf(),
            final(self).registry == old(self).registry,
            final(self).limit == old(self).limit,
            final(self).accepting == old(self).accepting,
            final(self).link_up == old(self).link_up,
            !old(self).ready() || old(self).tracks(context.correlation_id@) ==> {
                &&& r is Dropped
                &&& final(self).dispatched == old(self).dispatched
                &&& final(self).queue == old(self).queue
            },
            old(self).ready() && !old(self).tracks(context.correlation_id@) ==> match handler_for(
                old(self).registry.model(),
                context.family_name@,
                context.version@,
            ) {
                None => {
                    &&& r matches Admission::Rejected(resp) && resp.correlation_id@
                        == context.correlation_id@ && resp.status == ResponseStatus::InternalError
                        && resp.message is None
                    &&& final(self).dispatched == old(self).dispatched
                    &&& final(self).queue == old(self).queue
                },
                Some(h) => if old(self).dispatched@.len() < old(self).limit {
                    &&& r matches Admission::Dispatch(inv) && inv.handler == h && inv.context
                        == context
                    &&& final(self).dispatched_ids() == old(self).dispatched_ids().push(
                        context.correlation_id@,
                    )
                    &&& final(self).queue == old(self).queue
                } else {
                    &&& r is Queued
                    &&& final(self).dispatched == old(self).dispatched
                    &&& final(self).queue@ == old(self).queue@.push(
                        Invocation { handler: h as usize, context },
                    )
                },
            },
    {
        if !self.is_ready() || self.is_tracked(&context.correlation_id) {
            return Admission::Dropped;
        }
        let ghost id = context.correlation_id@;
        match self.registry.find_handler(&context.family_name, &context.version) {
            None => Admission::Rejected(
                ResponseEnvelope {
                    correlation_id: context.correlation_id,
                    status: ResponseStatus::InternalError,
                    message: None,
                },
            ),
            Some(h) => {
                if self.dispatched.len() < self.limit {
                    let ghost before = self.dispatched_ids();
                    let cid = copy_bytes(&context.correlation_id);
                    self.dispatched.push(cid);
                    proof {
                        assert(self.dispatched_ids() =~= before.push(id));
                        lemma_push_distinct(before, id);
                        lemma_disjoint_by_contains(self.dispatched_ids(), self.queued_ids());
                    }
                    Admission::Dispatch(Invocation { handler: h, context })
                } else {
                    let ghost before = self.queued_ids();
                    self.queue.push(Invocation { handler: h, context });
                    proof {
                        assert(self.queued_ids() =~= before.push(id));
                        lemma_push_distinct(before, id);
                        lemma_disjoint_by_contains(self.dispatched_ids(), self.queued_ids());
                    }
                    Admission::Queued
                }
            },
        }
    }
    /// Takes in a handler's outcome for `id`. A request still in flight gets
    /// its one response and frees its slot, which goes to the oldest queued
    /// request; for any other id (cancelled, unknown) nothing happens.
    pub fn complete(&mut self, id: &Vec<u8>, outcome: ApplyOutcome) -> (r: Completion)
        requires
            old(self).wf(),
        ensures
            final(self).wf(),
            final(self).registry == old(self).registry,
            final(self).limit == old(self).limit,
            final(self).accepting == old(self).accepting,
            final(self).link_up == old(self).link_up,
            !old(self).dispatched_ids().contains(id@) ==> {
                &&& r.response is None
                &&& r.next is None
                &&& final(self).dispatched == old(self).dispatched
                &&& final(self).queue == old(self).queue
            },
            old(self).dispatched_ids().contains(id@) ==> {
                &&& r.response matches Some(resp) && resp.correlation_id@ == id@ && resp.status
                    == status_of(outcome) && resp.message == message_of(outcome)
                &&& !final(self).tracks(id@)
                &&& exists|k: int|
                    0 <= k < old(self).dispatched_ids().len() && old(self).dispatched_ids()[k]
                        == id@ && final(self).dispatched_ids() == if old(self).queue@.len() == 0 {
                        old(self).dispatched_ids().remove(k)
                    } else {
                        old(self).dispatched_ids().remove(k).push(old(self).queued_ids()[0])
                    }
                &&& old(self).queue@.len() == 0 ==> r.next is None && final(self).queue@.len()
                    == 0
                &&& old(self).queue@.len() > 0 ==> r.next == Some(old(self).queue@[0])
                    && final(self).queue@ == old(self).queue@.drop_first()
            },
    {
        let mut k: usize = 0;
        while k < self.dispatched.len()
            invariant
                k <= self.dispatched@.len(),
                forall|j: int| 0 <= j < k ==> self.dispatched@[j]@ != id@,
            ensures
                k <= self.dispatched@.len(),
                forall|j: int| 0 <= j < k ==> self.dispatched@[j]@ != id@,
                k < self.dispatched@.len() ==> self.dispatched@[k as int]@ == id@,
            decreases self.dispatched.len() - k,
        {
            if same_bytes(&self.dispatched[k], id) {
                break;
            }
            k = k + 1;
        }
        if k == self.dispatched.len() {
            assert(!self.dispatched_ids().contains(id@)) by {
                if self.dispatched_ids().contains(id@) {
                    let j = choose|j: int|
                        0 <= j < self.dispatched_ids().len() && self.dispatched_ids()[j] == id@;
                    assert(self.dispatched@[j]@ == id@);
                }
            }
            return Completion { response: None, next: None };
        }
        let ghost d0 = self.dispatched_ids();
        let ghost q0 = self.queued_ids();
        assert(d0[k as int] == id@);
        assert(d0.contains(id@));
        let rid = self.dispatched.remove(k);
        let response = response_for(rid, outcome);
        proof {
            assert(self.dispatched_ids() =~= d0.remove(k as int));
            lemma_remove_distinct(d0, k as int);
            assert(!q0.contains(id@)) by {
                if q0.contains(id@) {
                    let j = choose|j: int| 0 <= j < q0.len() && q0[j] == id@;
                    assert(d0[k as int] != q0[j]);
                }
            }
        }
        if self.queue.len() == 0 {
            proof {
                lemma_disjoint_by_contains(self.dispatched_ids(), self.queued_ids());
            }
            return Completion { response: Some(response), next: None };
        }
        let inv = self.queue.remove(0);
        let nid = copy_bytes(&inv.context.correlation_id);
        let ghost d1 = self.dispatched_ids();
        self.dispatched.push(nid);
        proof {
            assert(self.queued_ids() =~= q0.drop_first());
            assert(self.dispatched_ids() =~= d1.push(q0[0]));
            lemma_drop_first_distinct(q0);
            assert(q0.contains(q0[0]));
            assert(!d0.contains(q0[0])) by {
                if d0.contains(q0[0]) {
                    let j = choose|j: int| 0 <= j < d0.len() && d0[j] == q0[0];
                    assert(d0[j] != q0[0]);
                }
            }
            lemma_push_distinct(d1, q0[0]);
            assert forall|x: Seq<u8>| #[trigger] self.dispatched_ids().contains(x) implies !self.queued_ids().contains(x) by {
                if self.queued_ids().contains(x) {
                    assert(q0.contains(x));
                    if x == q0[0] {
                    } else {
                        assert(d1.contains(x)) by {
                            let j = choose|j: int| 0 <= j < self.dispatched_ids().len() && self.dispatched_ids()[j] == x;
                            assert(j < d1.len());
                            assert(d1[j] == x);
                        }
                        assert(d0.contains(x));
                        let a = choose|a: int| 0 <= a < d0.len() && d0[a] == x;
                        let b = choose|b: int| 0 <= b < q0.len() && q0[b] == x;
                        assert(d0[a] != q0[b]);
                    }
                }
            }
            lemma_disjoint_by_contains(self.dispatched_ids(), self.queued_ids());
            assert(!self.dispatched_ids().contains(id@)) by {
                if self.dispatched_ids().contains(id@) {
                    let j = choose|j: int| 0 <= j < self.dispatched_ids().len() && self.dispatched_ids()[j] == id@;
                    if j < d1.len() {
                        assert(d1[j] == id@);
                        assert(d1.contains(id@));
                    } else {
                        assert(q0[0] == id@);
                    }
                }
            }
        }
        Completion { response: Some(response), next: Some(inv) }
    }

    /// Cancels every request in flight or queued; none of them gets a
    /// response. Returns the cancelled ids, those in flight first.
    pub fn cancel_all(&mut self) -> (r: Vec<Vec<u8>>)
        requires
            old(self).wf(),
        ensures
            final(self).wf(),
            final(self).registry == old(self).registry,
            final(self).limit == old(self).limit,
            final(self).accepting == old(self).accepting,
            final(self).link_up == old(self).link_up,
            final(self).dispatched@.len() == 0,
            final(self).queue@.len() == 0,
            r@.map_values(|v: Vec<u8>| v@) == old(self).dispatched_ids() + old(self).queued_ids(),
    {
        let ghost d0 = self.dispatched_ids();
        let ghost q0 = self.queued_ids();
        let mut cancelled: Vec<Vec<u8>> = Vec::new();
        cancelled.append(&mut self.dispatched);
        assert(cancelled@.map_values(|v: Vec<u8>| v@) =~= d0);
        let mut i: usize = 0;
        while i < self.queue.len()
            invariant
                i <= self.queue@.len(),
                self.queue@ == old(self).queue@,
                q0 == self.queued_ids(),
                cancelled@.map_values(|v: Vec<u8>| v@) == d0 + q0.subrange(0, i as int),
            decreases self.queue.len() - i,
        {
            let c = copy_bytes(&self.queue[i].context.correlation_id);
            let ghost before = cancelled@;
            cancelled.push(c);
            assert(cancelled@ == before.push(c));
            assert(c@ == q0[i as int]);
            assert(cancelled@.map_values(|v: Vec<u8>| v@) =~= before.map_values(|v: Vec<u8>| v@).push(c@));
            assert(q0.subrange(0, i + 1) =~= q0.subrange(0, i as int).push(q0[i as int]));
            i = i + 1;
        }
        assert(q0.subrange(0, i as int) =~= q0);
        self.queue.clear();
        assert(self.dispatched_ids() =~= Seq::<Seq<u8>>::empty());
        assert(self.queued_ids() =~= Seq::<Seq<u8>>::empty());
        cancelled
    }

    /// The link is lost: every request in flight or queued is cancelled and
    /// gets no response, and each handler that is not failed must register
    /// again before anything is dispatched. Returns the cancelled ids, those
    /// in flight first.
    pub fn link_lost(&mut self) -> (r: Vec<Vec<u8>>)
        requires
            old(self).wf(),
        ensures
            final(self).wf(),
            !final(self).link_up,
            final(self).limit == old(self).limit,
            final(self).accepting == old(self).accepting,
            final(self).dispatched@.len() == 0,
            final(self).queue@.len() == 0,
            r@.map_values(|v: Vec<u8>| v@) == old(self).dispatched_ids() + old(self).queued_ids(),
            final(self).registry.model().len() == old(self).registry.model().len(),
            forall|i: int|
                0 <= i < old(self).registry.model().len() ==> #[trigger] final(self).registry.model()[i] == (RecordModel {
                    descriptor: old(self).registry.model()[i].descriptor,
                    status: status_after_reset(old(self).registry.model()[i].status),
                }),
    {
        let cancelled = self.cancel_all();
        self.link_up = false;
        self.registry.reset_for_reconnect();
        cancelled
    }

    /// Shutdown begins: no request is admitted any more, while those in
    /// flight or queued go on to completion.
    pub fn begin_shutdown(&mut self)
        requires
            old(self).wf(),
        ensures
            final(self).wf(),
            !final(self).accepting,
            final(self).registry == old(self).registry,
            final(self).limit == old(self).limit,
            final(self).link_up == old(self).link_up,
            final(self).dispatched == old(self).dispatched,
            final(self).queue == old(self).queue,
    {
        self.accepting = false;
    }

    /// No request is in flight or queued.
    pub fn is_idle(&self) -> (r: bool)
        ensures
            r == (self.dispatched@.len() == 0 && self.queue@.len() == 0),
    {
        self.dispatched.len() == 0 && self.queue.len() == 0
    }
}

} // verus!
