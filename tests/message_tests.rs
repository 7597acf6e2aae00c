use identity_tp::diagnostics::{completed_event, DiagnosticEvent};
use identity_tp::dispatch::{ResponseEnvelope, ResponseStatus};
use identity_tp::fields::{join_fields, split_fields};
use identity_tp::messages::{
    list_of, parse_process_request, registration_accepted, registration_request,
    parse_state_value, response_content, state_request, text_bytes, text_of,
};
use identity_tp::access::{StateError, StateOp};
use identity_tp::registry::HandlerDescriptor;

fn field(b: &[u8]) -> Vec<u8> {
    let mut v = (b.len() as u32).to_be_bytes().to_vec();
    v.extend_from_slice(b);
    v
}

fn list(items: &[&str]) -> Vec<u8> {
    items.iter().flat_map(|s| field(s.as_bytes())).collect()
}

fn request_content(family: &str, inputs: &[&str]) -> Vec<u8> {
    let mut c = Vec::new();
    c.extend(field(family.as_bytes()));
    c.extend(field(b"1.0"));
    c.extend(field(b"02abc"));
    c.extend(field(b"nonce-7"));
    c.extend(field(&list(inputs)));
    c.extend(field(&list(&["00001a"])));
    c.extend(field(&list(&[])));
    c.extend(field(b"\x01\x02role"));
    c
}

#[test]
fn join_fields_prefixes_lengths() {
    let fs = vec![b"ab".to_vec(), vec![], vec![7]];
    assert_eq!(join_fields(&fs), vec![0, 0, 0, 2, b'a', b'b', 0, 0, 0, 0, 0, 0, 0, 1, 7]);
}

#[test]
fn split_of_join_gives_fields() {
    let fs = vec![b"family".to_vec(), vec![0; 300], vec![]];
    assert_eq!(split_fields(&join_fields(&fs)), Some(fs));
}

#[test]
fn split_edge_cases() {
    assert_eq!(split_fields(&vec![]), Some(vec![]));
    assert_eq!(split_fields(&vec![0, 0, 1]), None);
    assert_eq!(split_fields(&vec![0, 0, 0, 3, 1, 2]), None);
    assert_eq!(split_fields(&vec![0, 0, 0, 1, 9, 0]), None);
}

#[test]
fn utf8_text() {
    assert_eq!(text_bytes(&"é1".to_string()), vec![0xC3, 0xA9, b'1']);
    assert_eq!(text_of(&vec![0xC3, 0xA9]), Some("é".to_string()));
    assert_eq!(text_of(&vec![0xFF]), None);
    assert_eq!(list_of(&list(&["a", "bc"])), Some(vec!["a".to_string(), "bc".to_string()]));
    assert_eq!(list_of(&field(&[0xC3])), None);
}

#[test]
fn registration_request_layout() {
    let d = HandlerDescriptor {
        family_name: "identity".to_string(),
        versions: vec!["0.9".to_string(), "1.0".to_string()],
        namespaces: vec!["00001a".to_string(), "00001b".to_string()],
    };
    let mut expected = Vec::new();
    expected.extend(field(b"identity"));
    expected.extend(field(b"1.0"));
    expected.extend(field(b"00001a"));
    expected.extend(field(b"00001b"));
    assert_eq!(registration_request(&d, 1), expected);
}

#[test]
fn registration_answer() {
    assert!(registration_accepted(&vec![1]));
    assert!(!registration_accepted(&vec![0]));
    assert!(!registration_accepted(&vec![1, 1]));
    assert!(!registration_accepted(&vec![]));
}

#[test]
fn response_layout() {
    let r = ResponseEnvelope {
        correlation_id: b"c".to_vec(),
        status: ResponseStatus::InvalidTransaction,
        message: Some("bad".to_string()),
    };
    assert_eq!(response_content(&r), vec![0, 0, 0, 1, 2, 0, 0, 0, 3, b'b', b'a', b'd']);
    let ok = ResponseEnvelope { correlation_id: b"c".to_vec(), status: ResponseStatus::Okay, message: None };
    assert_eq!(response_content(&ok), vec![0, 0, 0, 1, 1, 0, 0, 0, 0]);
}

#[test]
fn process_request_is_read() {
    let ctx = parse_process_request(b"id9".to_vec(), &request_content("identity", &["00001a", "00001b"])).unwrap();
    assert_eq!(ctx.correlation_id, b"id9".to_vec());
    assert_eq!(ctx.family_name, "identity");
    assert_eq!(ctx.version, "1.0");
    assert_eq!(ctx.signer_public_key, "02abc");
    assert_eq!(ctx.nonce, "nonce-7");
    assert_eq!(ctx.inputs, vec!["00001a".to_string(), "00001b".to_string()]);
    assert_eq!(ctx.outputs, vec!["00001a".to_string()]);
    assert!(ctx.dependencies.is_empty());
    assert_eq!(ctx.payload, b"\x01\x02role".to_vec());
}

#[test]
fn malformed_process_request_is_refused() {
    let mut short = request_content("identity", &[]);
    short.truncate(short.len() - 1);
    assert!(parse_process_request(b"x".to_vec(), &short).is_none());
    let mut seven = Vec::new();
    for _ in 0..7 {
        seven.extend(field(b"a"));
    }
    assert!(parse_process_request(b"x".to_vec(), &seven).is_none());
    let mut bad_text = Vec::new();
    bad_text.extend(field(&[0xFF]));
    bad_text.extend(request_content("identity", &[]).split_off(12));
    assert!(parse_process_request(b"x".to_vec(), &bad_text).is_none());
}

#[test]
fn completion_event_carries_status() {
    let r = ResponseEnvelope { correlation_id: b"c7".to_vec(), status: ResponseStatus::Okay, message: None };
    match completed_event(&r, 42) {
        DiagnosticEvent::RequestCompleted { correlation_id, status, elapsed_ms } => {
            assert_eq!(correlation_id, b"c7".to_vec());
            assert_eq!(status, ResponseStatus::Okay);
            assert_eq!(elapsed_ms, 42);
        }
        other => panic!("unexpected {:?}", other),
    }
}

#[test]
fn state_read_and_delete_requests() {
    let ctx = parse_process_request(b"p".to_vec(), &request_content("identity", &["00001a"])).unwrap();
    let read = state_request(&ctx, StateOp::Read, &"00001a02".to_string(), &vec![9, 9]).unwrap();
    assert_eq!(read, field(b"00001a02"));
    let del = state_request(&ctx, StateOp::Delete, &"00001a03".to_string(), &vec![]).unwrap();
    assert_eq!(del, field(b"00001a03"));
    assert_eq!(
        state_request(&ctx, StateOp::Read, &"00001b".to_string(), &vec![]),
        Err(StateError::AddressNotPermitted)
    );
}

#[test]
fn state_value_answers() {
    assert_eq!(parse_state_value(&vec![]), Some(None));
    assert_eq!(parse_state_value(&field(b"role-data")), Some(Some(b"role-data".to_vec())));
    let mut two = field(b"a");
    two.extend(field(b"b"));
    assert_eq!(parse_state_value(&two), None);
    assert_eq!(parse_state_value(&vec![0, 0, 0, 5, 1]), None);
}
