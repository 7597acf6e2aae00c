//! Contents of the messages the processor exchanges, laid out as fields:
//! registration requests and answers, process requests and responses, and
//! the state requests a handler makes while it applies a transaction. Text
//! travels as UTF-8; a list of strings travels as the fields of one field.

use vstd::prelude::*;
use vstd::utf8::{decode_utf8, encode_utf8, valid_utf8};
use crate::dispatch::{copy_bytes, ProcessContext, ResponseEnvelope, ResponseStatus};
use crate::fields::{fields_view, join_fields, join_spec, joinable, split_fields, fields_spec};
use crate::registry::{strings_view, HandlerDescriptor};
use crate::access::{allowed, check_access, StateError, StateOp};

verus! {

/// Relies on `String::from_utf8`: it accepts exactly the valid UTF-8 byte
/// strings, and the string it returns holds the characters they encode.
#[verifier::external_body]
fn text_from_bytes(b: Vec<u8>) -> (r: Option<String>)
    ensures
        r is Some <==> valid_utf8(b@),
        r matches Some(s) ==> s@ == decode_utf8(b@),
{
    String::from_utf8(b).ok()
}

/// The UTF-8 bytes of a string.
pub fn text_bytes(s: &String) -> (r: Vec<u8>)
    ensures
        r@ == encode_utf8(s@),
{
    let bs = s.as_str().as_bytes();
    let mut r: Vec<u8> = Vec::new();
    let mut i: usize = 0;
    while i < bs.len()
        invariant
            i <= bs@.len(),
            bs@ == encode_utf8(s@),
            r@ == bs@.subrange(0, i as int),
        decreases bs.len() - i,
    {
        r.push(bs[i]);
        i = i + 1;
        assert(r@ =~= bs@.subrange(0, i as int));
    }
    assert(bs@.subrange(0, i as int) =~= bs@);
    r
}

pub open spec fn utf8_all(s: Seq<Seq<char>>) -> Seq<Seq<u8>> {
    s.map_values(|x: Seq<char>| encode_utf8(x))
}

/// Text fits a length prefix.
pub open spec fn fits(s: Seq<char>) -> bool {
    encode_utf8(s).len() <= u32::MAX
}

/// The content of the request that registers `family` at `version` with the
/// namespaces it owns: the family, the version, then each namespace.
pub open spec fn registration_spec(family: Seq<char>, version: Seq<char>, namespaces: Seq<Seq<char>>) -> Seq<u8> {
    join_spec(seq![encode_utf8(family), encode_utf8(version)] + utf8_all(namespaces))
}

/// Builds the registration request for version number `v` of a handler.
pub fn registration_request(d: &HandlerDescriptor, v: usize) -> (r: Vec<u8>)
    requires
        v < d@.versions.len(),
        fits(d@.family_name),
        fits(d@.versions[v as int]),
        forall|i: int| 0 <= i < d@.namespaces.len() ==> fits(#[trigger] d@.namespaces[i]),
    ensures
        r@ == registration_spec(d@.family_name, d@.versions[v as int], d@.namespaces),
{
    let mut fs: Vec<Vec<u8>> = Vec::new();
    fs.push(text_bytes(&d.family_name));
    assert(strings_view(d.versions@)[v as int] == d.versions@[v as int]@);
    fs.push(text_bytes(&d.versions[v]));
    let ghost head = fields_view(fs@);
    let mut i: usize = 0;
    while i < d.namespaces.len()
        invariant
            i <= d.namespaces@.len(),
            head.len() == 2,
            fields_view(fs@) == head + utf8_all(d@.namespaces).subrange(0, i as int),
            d@.namespaces == strings_view(d.namespaces@),
        decreases d.namespaces.len() - i,
    {
        let ghost before = fs@;
        fs.push(text_bytes(&d.namespaces[i]));
        assert(d@.namespaces[i as int] == d.namespaces@[i as int]@);
        assert(fields_view(fs@) =~= fields_view(before).push(utf8_all(d@.namespaces)[i as int]));
        assert(utf8_all(d@.namespaces).subrange(0, i + 1) =~= utf8_all(d@.namespaces).subrange(
            0,
            i as int,
        ).push(utf8_all(d@.namespaces)[i as int]));
        i = i + 1;
    }
    assert(utf8_all(d@.namespaces).subrange(0, i as int) =~= utf8_all(d@.namespaces));
    assert(head =~= seq![encode_utf8(d@.family_name), encode_utf8(d@.versions[v as int])]);
    assert(joinable(fields_view(fs@))) by {
        assert forall|k: int| 0 <= k < fields_view(fs@).len() implies (#[trigger] fields_view(
            fs@,
        )[k]).len() <= u32::MAX by {
            if k >= 2 {
                assert(fields_view(fs@)[k] == encode_utf8(d@.namespaces[k - 2]));
            }
        }
    }
    join_fields(&fs)
}

/// The validator accepted a registration when its answer is the single byte 1.
pub fn registration_accepted(content: &Vec<u8>) -> (r: bool)
    ensures
        r == (content@ == seq![1u8]),
{
    let ok = content.len() == 1 && content[0] == 1u8;
    assert(ok ==> content@ =~= seq![1u8]);
    ok
}

pub open spec fn status_code(s: ResponseStatus) -> u8 {
    match s {
        ResponseStatus::Okay => 1,
        ResponseStatus::InvalidTransaction => 2,
        ResponseStatus::InternalError => 3,
    }
}

pub open spec fn message_bytes(m: Option<String>) -> Seq<u8> {
    match m {
        Some(s) => encode_utf8(s@),
        None => Seq::empty(),
    }
}

/// The content of a process response: its status code, then its message
/// (empty when there is none).
pub open spec fn response_spec(status: ResponseStatus, message: Option<String>) -> Seq<u8> {
    join_spec(seq![seq![status_code(status)], message_bytes(message)])
}

/// Lays out the content of a response.
pub fn response_content(resp: &ResponseEnvelope) -> (r: Vec<u8>)
    requires
        message_bytes(resp.message).len() <= u32::MAX,
    ensures
        r@ == response_spec(resp.status, resp.message),
{
    let code: u8 = match resp.status {
        ResponseStatus::Okay => 1,
        ResponseStatus::InvalidTransaction => 2,
        ResponseStatus::InternalError => 3,
    };
    let mut fs: Vec<Vec<u8>> = Vec::new();
    let mut c: Vec<u8> = Vec::new();
    c.push(code);
    assert(c@ =~= seq![status_code(resp.status)]);
    fs.push(c);
    let m = match &resp.message {
        Some(s) => text_bytes(s),
        None => Vec::new(),
    };
    fs.push(m);
    assert(fields_view(fs@) =~= seq![seq![status_code(resp.status)], message_bytes(resp.message)]);
    join_fields(&fs)
}

pub open spec fn text_spec(b: Seq<u8>) -> Option<Seq<char>> {
    if valid_utf8(b) {
        Some(decode_utf8(b))
    } else {
        None
    }
}

/// A list of strings carried as the fields of one field.
pub open spec fn list_spec(b: Seq<u8>) -> Option<Seq<Seq<char>>> {
    match fields_spec(b) {
        None => None,
        Some(fs) => if forall|i: int| 0 <= i < fs.len() ==> valid_utf8(#[trigger] fs[i]) {
            Some(fs.map_values(|f: Seq<u8>| decode_utf8(f)))
        } else {
            None
        },
    }
}

/// What a process request carries, apart from its correlation id.
pub ghost struct RequestModel {
    pub family_name: Seq<char>,
    pub version: Seq<char>,
    pub signer_public_key: Seq<char>,
    pub nonce: Seq<char>,
    pub inputs: Seq<Seq<char>>,
    pub outputs: Seq<Seq<char>>,
    pub dependencies: Seq<Seq<char>>,
    pub payload: Seq<u8>,
}

pub open spec fn request_model(c: ProcessContext) -> RequestModel {
    RequestModel {
        family_name: c.family_name@,
        version: c.version@,
        signer_public_key: c.signer_public_key@,
        nonce: c.nonce@,
        inputs: strings_view(c.inputs@),
        outputs: strings_view(c.outputs@),
        dependencies: strings_view(c.dependencies@),
        payload: c.payload@,
    }
}

/// The content of a process request: eight fields, namely the family, the
/// version, the signer's public key, the nonce, the input, output and
/// dependency lists, and the transaction payload.
pub open spec fn request_spec(content: Seq<u8>) -> Option<RequestModel> {
    match fields_spec(content) {
        None => None,
        Some(fs) => if fs.len() != 8 {
            None
        } else {
            match (
                text_spec(fs[0]),
                text_spec(fs[1]),
                text_spec(fs[2]),
                text_spec(fs[3]),
                list_spec(fs[4]),
                list_spec(fs[5]),
                list_spec(fs[6]),
            ) {
                (Some(f), Some(v), Some(k), Some(n), Some(i), Some(o), Some(d)) => Some(
                    RequestModel {
                        family_name: f,
                        version: v,
                        signer_public_key: k,
                        nonce: n,
                        inputs: i,
                        outputs: o,
                        dependencies: d,
                        payload: fs[7],
                    },
                ),
                _ => None,
            }
        },
    }
}

/// Reads a UTF-8 field.
pub fn text_of(b: &Vec<u8>) -> (r: Option<String>)
    ensures
        match (r, text_spec(b@)) {
            (Some(s), Some(t)) => s@ == t,
            (None, None) => true,
            _ => false,
        },
{
    text_from_bytes(copy_bytes(b))
}

/// Reads a field that holds a list of UTF-8 strings.
pub fn list_of(b: &Vec<u8>) -> (r: Option<Vec<String>>)
    ensures
        match (r, list_spec(b@)) {
            (Some(v), Some(l)) => strings_view(v@) == l,
            (None, None) => true,
            _ => false,
        },
{
    let fs = match split_fields(b) {
        None => {
            return None;
        },
        Some(fs) => fs,
    };
    let ghost all = fields_view(fs@);
    let mut out: Vec<String> = Vec::new();
    let mut i: usize = 0;
    while i < fs.len()
        invariant
            i <= fs@.len(),
            all == fields_view(fs@),
            fields_spec(b@) == Some(all),
            forall|j: int| 0 <= j < i ==> valid_utf8(#[trigger] all[j]),
            strings_view(out@) == all.subrange(0, i as int).map_values(
                |f: Seq<u8>| decode_utf8(f),
            ),
        decreases fs.len() - i,
    {
        assert(all[i as int] == fs@[i as int]@);
        match text_of(&fs[i]) {
            None => {
                return None;
            },
            Some(s) => {
                let ghost before = out@;
                let ghost sv = s@;
                assert(valid_utf8(all[i as int]));
                assert(sv == decode_utf8(all[i as int]));
                out.push(s);
                assert(strings_view(out@) =~= strings_view(before).push(sv));
                assert(strings_view(out@) =~= all.subrange(0, i + 1).map_values(
                    |f: Seq<u8>| decode_utf8(f),
                ));
            },
        }
        i = i + 1;
    }
    assert(all.subrange(0, i as int) =~= all);
    Some(out)
}

/// Reads the content of a process request into the context of the request
/// `correlation_id`; `None` when it is not laid out as a process request.
pub fn parse_process_request(correlation_id: Vec<u8>, content: &Vec<u8>) -> (r: Option<ProcessContext>)
    ensures
        match (r, request_spec(content@)) {
            (Some(c), Some(m)) => request_model(c) == m && c.correlation_id == correlation_id,
            (None, None) => true,
            _ => false,
        },
{
    let fs = match split_fields(content) {
        None => {
            return None;
        },
        Some(fs) => fs,
    };
    if fs.len() != 8 {
        return None;
    }
    let ghost all = fields_view(fs@);
    assert(forall|j: int| 0 <= j < 8 ==> all[j] == fs@[j]@);
    let family_name = match text_of(&fs[0]) { None => { return None; }, Some(x) => x };
    let version = match text_of(&fs[1]) { None => { return None; }, Some(x) => x };
    let signer_public_key = match text_of(&fs[2]) { None => { return None; }, Some(x) => x };
    let nonce = match text_of(&fs[3]) { None => { return None; }, Some(x) => x };
    let inputs = match list_of(&fs[4]) { None => { return None; }, Some(x) => x };
    let outputs = match list_of(&fs[5]) { None => { return None; }, Some(x) => x };
    let dependencies = match list_of(&fs[6]) { None => { return None; }, Some(x) => x };
    let payload = copy_bytes(&fs[7]);
    Some(
        ProcessContext {
            correlation_id,
            family_name,
            version,
            payload,
            signer_public_key,
            nonce,
            inputs,
            outputs,
            dependencies,
        },
    )
}

/// The content of a state request: the address, then for a write the value.
pub open spec fn state_request_spec(op: StateOp, address: Seq<char>, value: Seq<u8>) -> Seq<u8> {
    match op {
        StateOp::Write => join_spec(seq![encode_utf8(address), value]),
        _ => join_spec(seq![encode_utf8(address)]),
    }
}

/// Builds the state request that the request in `ctx` makes on `address`
/// (writing `value` for a write; it is ignored otherwise), provided its
/// declared inputs or outputs allow it.
pub fn state_request(ctx: &ProcessContext, op: StateOp, address: &String, value: &Vec<u8>) -> (r: Result<Vec<u8>, StateError>)
    requires
        fits(address@),
        value@.len() <= u32::MAX,
    ensures
        r is Ok <==> allowed(*ctx, op, address@),
        r matches Ok(c) ==> c@ == state_request_spec(op, address@, value@),
        r matches Err(e) ==> e == StateError::AddressNotPermitted,
{
    match check_access(ctx, op, address) {
        Err(e) => Err(e),
        Ok(()) => {
            let mut fs: Vec<Vec<u8>> = Vec::new();
            fs.push(text_bytes(address));
            match op {
                StateOp::Write => {
                    fs.push(copy_bytes(value));
                    assert(fields_view(fs@) =~= seq![encode_utf8(address@), value@]);
                },
                _ => {
                    assert(fields_view(fs@) =~= seq![encode_utf8(address@)]);
                },
            }
            Ok(join_fields(&fs))
        },
    }
}

/// What a state read returns: no field when the address holds nothing, one
/// field with the value when it holds one.
pub open spec fn state_value_spec(content: Seq<u8>) -> Option<Option<Seq<u8>>> {
    match fields_spec(content) {
        Some(fs) => if fs.len() == 0 {
            Some(None)
        } else if fs.len() == 1 {
            Some(Some(fs[0]))
        } else {
            None
        },
        None => None,
    }
}

/// Reads the answer to a state read; `None` when it is malformed.
pub fn parse_state_value(content: &Vec<u8>) -> (r: Option<Option<Vec<u8>>>)
    ensures
        match (r, state_value_spec(content@)) {
            (Some(Some(v)), Some(Some(w))) => v@ == w,
            (Some(None), Some(None)) => true,
            (None, None) => true,
            _ => false,
        },
{
    match split_fields(content) {
        None => None,
        Some(mut fs) => {
            if fs.len() == 0 {
                Some(None)
            } else if fs.len() == 1 {
                let v = fs.pop();
                match v {
                    Some(v) => Some(Some(v)),
                    None => None,
                }
            } else {
                None
            }
        },
    }
}

} // verus!
