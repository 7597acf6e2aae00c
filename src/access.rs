//! Which state addresses a request may touch: reads fall under its declared
//! inputs, writes and deletes under its declared outputs. Each declared entry
//! is an address prefix.

use vstd::prelude::*;
use vstd::string::StrSliceExecFns;
use crate::dispatch::ProcessContext;
use crate::registry::strings_view;

verus! {

/// The operations a handler performs on state.
#[derive(Clone, Copy, Debug, PartialEq, Eq, Structural)]
pub enum StateOp {
    Read,
    Write,
    Delete,
}

/// Why a state operation was refused.
#[derive(Clone, Copy, Debug, PartialEq, Eq, Structural)]
pub enum StateError {
    /// The address lies outside the request's declared inputs (for a read) or
    /// outputs (for a write or delete).
    AddressNotPermitted,
}

pub open spec fn has_prefix(address: Seq<char>, prefix: Seq<char>) -> bool {
    prefix.len() <= address.len() && address.subrange(0, prefix.len() as int) == prefix
}

/// Some entry of `declared` is a prefix of `address`.
pub open spec fn covered(declared: Seq<Seq<char>>, address: Seq<char>) -> bool {
    exists|i: int| 0 <= i < declared.len() && has_prefix(address, #[trigger] declared[i])
}

/// An operation on `address` is allowed in context `ctx`.
pub open spec fn allowed(ctx: ProcessContext, op: StateOp, address: Seq<char>) -> bool {
    match op {
        StateOp::Read => covered(strings_view(ctx.inputs@), address),
        _ => covered(strings_view(ctx.outputs@), address),
    }
}

/// Whether `prefix` starts `address`.
pub fn starts_with(address: &String, prefix: &String) -> (r: bool)
    ensures
        r == has_prefix(address@, prefix@),
{
    let a = address.as_str();
    let p = prefix.as_str();
    let al = a.unicode_len();
    let pl = p.unicode_len();
    if pl > al {
        return false;
    }
    let mut i: usize = 0;
    while i < pl
        invariant
            pl == p@.len(),
            al == a@.len(),
            a@ == address@,
            p@ == prefix@,
            pl <= al,
            i <= pl,
            forall|j: int| 0 <= j < i ==> a@[j] == p@[j],
        decreases pl - i,
    {
        if a.get_char(i) != p.get_char(i) {
            assert(address@.subrange(0, pl as int)[i as int] != prefix@[i as int]);
            return false;
        }
        i = i + 1;
    }
    assert(address@.subrange(0, pl as int) =~= prefix@);
    true
}

/// Whether some declared prefix covers `address`.
pub fn is_covered(declared: &Vec<String>, address: &String) -> (r: bool)
    ensures
        r == covered(strings_view(declared@), address@),
{
    let mut i: usize = 0;
    while i < declared.len()
        invariant
            i <= declared@.len(),
            forall|j: int| 0 <= j < i ==> !has_prefix(address@, #[trigger] declared@[j]@),
        decreases declared.len() - i,
    {
        if starts_with(address, &declared[i]) {
            assert(has_prefix(address@, strings_view(declared@)[i as int]));
            return true;
        }
        i = i + 1;
    }
    assert(!covered(strings_view(declared@), address@)) by {
        if covered(strings_view(declared@), address@) {
            let j = choose|j: int|
                0 <= j < strings_view(declared@).len() && has_prefix(
                    address@,
                    #[trigger] strings_view(declared@)[j],
                );
            assert(strings_view(declared@)[j] == declared@[j]@);
        }
    }
    false
}

/// Admits a state operation of the request in `ctx` exactly when the
/// address is covered by its declared inputs (a read) or outputs (a write or
/// a delete).
pub fn check_access(ctx: &ProcessContext, op: StateOp, address: &String) -> (r: Result<(), StateError>)
    ensures
        r is Ok <==> allowed(*ctx, op, address@),
        r is Err ==> r == Err::<(), StateError>(StateError::AddressNotPermitted),
{
    let ok = match op {
        StateOp::Read => is_covered(&ctx.inputs, address),
        _ => is_covered(&ctx.outputs, address),
    };
    if ok {
        Ok(())
    } else {
        Err(StateError::AddressNotPermitted)
    }
}

} // verus!
