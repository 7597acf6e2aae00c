use identity_tp::access::{StateError, StateOp};
use identity_tp::messages::state_request;
use identity_tp::dispatch::{
    response_for, same_bytes, Admission, ApplyOutcome, Dispatcher, Invocation, ProcessContext,
    ResponseStatus,
};
use identity_tp::registry::{HandlerDescriptor, RegistrationStatus, Registry};

fn identity_descriptor() -> HandlerDescriptor {
    HandlerDescriptor {
        family_name: "identity".to_string(),
        versions: vec!["1.0".to_string()],
        namespaces: vec!["00001a".to_string()],
    }
}

fn request(id: &str, family: &str, version: &str) -> ProcessContext {
    ProcessContext {
        correlation_id: id.as_bytes().to_vec(),
        family_name: family.to_string(),
        version: version.to_string(),
        payload: b"payload".to_vec(),
        signer_public_key: "02abc".to_string(),
        nonce: "n".to_string(),
        inputs: vec!["00001a".to_string()],
        outputs: vec!["00001a".to_string()],
        dependencies: vec![],
    }
}

fn ready_dispatcher(limit: usize) -> Dispatcher {
    let mut d = Dispatcher::new(limit);
    d.add_handler(identity_descriptor());
    d.link_established();
    d.on_registration_answer(0, true);
    assert!(d.is_ready());
    d
}

fn dispatched(a: Admission) -> Invocation {
    match a {
        Admission::Dispatch(inv) => inv,
        other => panic!("expected a dispatch, got {:?}", other),
    }
}

#[test]
fn registry_finds_acknowledged_handler() {
    let mut r = Registry::new();
    r.add_handler(identity_descriptor());
    r.add_handler(HandlerDescriptor {
        family_name: "intkey".to_string(),
        versions: vec!["1.0".to_string(), "2.0".to_string()],
        namespaces: vec!["1cf126".to_string()],
    });
    let id = "identity".to_string();
    let v1 = "1.0".to_string();
    assert_eq!(r.find_handler(&id, &v1), None);
    assert_eq!(r.pending(), vec![0, 1]);
    r.on_registration_answer(0, true);
    r.on_registration_answer(1, true);
    assert_eq!(r.find_handler(&id, &v1), Some(0));
    assert_eq!(r.find_handler(&"intkey".to_string(), &"2.0".to_string()), Some(1));
    assert_eq!(r.find_handler(&id, &"2.0".to_string()), None);
    assert!(r.is_settled());
}

#[test]
fn registry_rejection_fails_only_that_handler() {
    let mut r = Registry::new();
    r.add_handler(identity_descriptor());
    r.add_handler(HandlerDescriptor {
        family_name: "intkey".to_string(),
        versions: vec!["1.0".to_string()],
        namespaces: vec!["1cf126".to_string()],
    });
    r.on_registration_answer(0, false);
    r.on_registration_answer(1, true);
    assert_eq!(r.records[0].status, RegistrationStatus::Failed);
    r.on_registration_answer(0, true);
    assert_eq!(r.records[0].status, RegistrationStatus::Failed);
    assert_eq!(r.find_handler(&"identity".to_string(), &"1.0".to_string()), None);
    assert_eq!(r.find_handler(&"intkey".to_string(), &"1.0".to_string()), Some(1));
    r.reset_for_reconnect();
    assert_eq!(r.records[0].status, RegistrationStatus::Failed);
    assert_eq!(r.records[1].status, RegistrationStatus::Pending);
    assert_eq!(r.pending(), vec![1]);
}

#[test]
fn one_response_per_id_in_any_order() {
    let mut d = ready_dispatcher(4);
    for id in ["a", "b", "c"] {
        dispatched(d.receive(request(id, "identity", "1.0")));
    }
    let mut answered: Vec<Vec<u8>> = Vec::new();
    for id in ["c", "a", "b"] {
        let c = d.complete(&id.as_bytes().to_vec(), ApplyOutcome::Completed);
        let resp = c.response.expect("a response");
        assert_eq!(resp.correlation_id, id.as_bytes().to_vec());
        assert_eq!(resp.status, ResponseStatus::Okay);
        answered.push(resp.correlation_id);
        let again = d.complete(&id.as_bytes().to_vec(), ApplyOutcome::Completed);
        assert!(again.response.is_none());
    }
    assert_eq!(answered.len(), 3);
    assert!(d.dispatched.is_empty());
}

#[test]
fn unregistered_family_is_internal_error_without_handler() {
    let mut d = ready_dispatcher(2);
    match d.receive(request("x1", "intkey", "1.0")) {
        Admission::Rejected(resp) => {
            assert_eq!(resp.correlation_id, b"x1".to_vec());
            assert_eq!(resp.status, ResponseStatus::InternalError);
        }
        other => panic!("expected a rejection, got {:?}", other),
    }
    match d.receive(request("x2", "identity", "9.9")) {
        Admission::Rejected(resp) => assert_eq!(resp.status, ResponseStatus::InternalError),
        other => panic!("expected a rejection, got {:?}", other),
    }
    assert!(d.dispatched.is_empty());
    assert!(d.queue.is_empty());
}

#[test]
fn rule_violation_is_invalid_transaction_with_reason() {
    let mut d = ready_dispatcher(2);
    dispatched(d.receive(request("r1", "identity", "1.0")));
    let c = d.complete(
        &b"r1".to_vec(),
        ApplyOutcome::RuleViolation("Signer is not authorized: 02abc".to_string()),
    );
    let resp = c.response.unwrap();
    assert_eq!(resp.status, ResponseStatus::InvalidTransaction);
    assert_eq!(resp.message, Some("Signer is not authorized: 02abc".to_string()));
}

#[test]
fn failure_is_internal_error() {
    let r = response_for(b"f".to_vec(), ApplyOutcome::Failure("state unreachable".to_string()));
    assert_eq!(r.status, ResponseStatus::InternalError);
    assert_eq!(r.message, Some("state unreachable".to_string()));
    let ok = response_for(b"g".to_vec(), ApplyOutcome::Completed);
    assert_eq!(ok.status, ResponseStatus::Okay);
    assert_eq!(ok.message, None);
    assert_eq!(ok.correlation_id, b"g".to_vec());
}

#[test]
fn concurrency_limit_is_respected() {
    let mut d = ready_dispatcher(2);
    let ids = ["q1", "q2", "q3", "q4", "q5"];
    for (i, id) in ids.iter().enumerate() {
        let a = d.receive(request(id, "identity", "1.0"));
        if i < 2 {
            dispatched(a);
        } else {
            assert!(matches!(a, Admission::Queued));
        }
        assert!(d.dispatched.len() <= 2);
    }
    assert_eq!(d.queue.len(), 3);
    let c = d.complete(&b"q2".to_vec(), ApplyOutcome::Completed);
    assert!(c.response.is_some());
    let next = c.next.expect("the oldest queued request");
    assert_eq!(next.context.correlation_id, b"q3".to_vec());
    assert_eq!(next.handler, 0);
    assert_eq!(d.dispatched.len(), 2);
    let c = d.complete(&b"q1".to_vec(), ApplyOutcome::Completed);
    assert_eq!(c.next.unwrap().context.correlation_id, b"q4".to_vec());
    let c = d.complete(&b"q3".to_vec(), ApplyOutcome::Completed);
    assert_eq!(c.next.unwrap().context.correlation_id, b"q5".to_vec());
    assert!(d.queue.is_empty());
    let c = d.complete(&b"q4".to_vec(), ApplyOutcome::Completed);
    assert!(c.next.is_none());
    assert_eq!(d.dispatched.len(), 1);
}

#[test]
fn link_loss_cancels_and_reregistration_comes_first() {
    let mut d = ready_dispatcher(2);
    for id in ["k1", "k2", "k3"] {
        d.receive(request(id, "identity", "1.0"));
    }
    let cancelled = d.link_lost();
    assert_eq!(cancelled, vec![b"k1".to_vec(), b"k2".to_vec(), b"k3".to_vec()]);
    assert!(d.dispatched.is_empty() && d.queue.is_empty());
    for id in ["k1", "k2", "k3"] {
        let c = d.complete(&id.as_bytes().to_vec(), ApplyOutcome::Completed);
        assert!(c.response.is_none() && c.next.is_none());
    }
    assert!(matches!(d.receive(request("n0", "identity", "1.0")), Admission::Dropped));
    d.link_established();
    assert_eq!(d.registry.pending(), vec![0]);
    assert!(matches!(d.receive(request("n1", "identity", "1.0")), Admission::Dropped));
    d.on_registration_answer(0, true);
    let inv = dispatched(d.receive(request("n2", "identity", "1.0")));
    assert_eq!(inv.context.correlation_id, b"n2".to_vec());
}

#[test]
fn duplicate_id_in_flight_is_dropped() {
    let mut d = ready_dispatcher(1);
    dispatched(d.receive(request("d1", "identity", "1.0")));
    assert!(matches!(d.receive(request("d1", "identity", "1.0")), Admission::Dropped));
    assert!(matches!(d.receive(request("d2", "identity", "1.0")), Admission::Queued));
    assert!(matches!(d.receive(request("d2", "identity", "1.0")), Admission::Dropped));
    assert!(d.is_tracked(&b"d2".to_vec()));
    assert!(!d.is_tracked(&b"d3".to_vec()));
}

#[test]
fn zero_limit_queues_everything() {
    let mut d = ready_dispatcher(0);
    assert!(matches!(d.receive(request("z", "identity", "1.0")), Admission::Queued));
    assert!(d.dispatched.is_empty());
}

#[test]
fn byte_comparison() {
    assert!(same_bytes(&vec![1, 2], &vec![1, 2]));
    assert!(!same_bytes(&vec![1, 2], &vec![1, 3]));
    assert!(!same_bytes(&vec![1], &vec![1, 2]));
}

#[test]
fn identity_request_sets_role_data() {
    let mut d = Dispatcher::new(4);
    d.add_handler(identity_descriptor());
    d.link_established();
    d.on_registration_answer(0, true);
    let inv = dispatched(d.receive(request("e2e", "identity", "1.0")));
    assert_eq!(inv.handler, 0);
    let mut sets: Vec<Vec<u8>> = Vec::new();
    let address = "00001a01".to_string();
    let outcome = match state_request(&inv.context, StateOp::Write, &address, &b"role-data".to_vec()) {
        Ok(content) => {
            sets.push(content);
            ApplyOutcome::Completed
        }
        Err(_) => ApplyOutcome::Failure("state access refused".to_string()),
    };
    let c = d.complete(&inv.context.correlation_id, outcome);
    let resp = c.response.unwrap();
    assert_eq!(resp.status, ResponseStatus::Okay);
    assert_eq!(resp.correlation_id, b"e2e".to_vec());
    assert!(d.complete(&b"e2e".to_vec(), ApplyOutcome::Completed).response.is_none());
    let mut expected = vec![0, 0, 0, 8];
    expected.extend_from_slice(b"00001a01");
    expected.extend_from_slice(&[0, 0, 0, 9]);
    expected.extend_from_slice(b"role-data");
    assert_eq!(sets, vec![expected]);
    assert_eq!(
        state_request(&inv.context, StateOp::Write, &"00001b01".to_string(), &vec![1]),
        Err(StateError::AddressNotPermitted)
    );
}

#[test]
fn shutdown_drains_then_cancels() {
    let mut d = ready_dispatcher(1);
    dispatched(d.receive(request("s1", "identity", "1.0")));
    assert!(matches!(d.receive(request("s2", "identity", "1.0")), Admission::Queued));
    assert!(matches!(d.receive(request("s3", "identity", "1.0")), Admission::Queued));
    d.begin_shutdown();
    assert!(!d.is_ready());
    assert!(matches!(d.receive(request("s4", "identity", "1.0")), Admission::Dropped));
    let c = d.complete(&b"s1".to_vec(), ApplyOutcome::Completed);
    assert!(c.response.is_some());
    assert_eq!(c.next.unwrap().context.correlation_id, b"s2".to_vec());
    assert!(!d.is_idle());
    let rest = d.cancel_all();
    assert_eq!(rest, vec![b"s2".to_vec(), b"s3".to_vec()]);
    assert!(d.is_idle());
    assert!(d.complete(&b"s2".to_vec(), ApplyOutcome::Completed).response.is_none());
}
