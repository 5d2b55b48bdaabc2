//! What the gateway decides between its calls to the canister and to the
//! tools that build firmware: how it reads the canister's answers, and
//! whether a built firmware must be signed for the machine it runs on.

use vstd::prelude::*;
use vstd::string::StringExecFns;
use crate::error::Error;
use crate::principal::Principal;

verus! {

/// What the canister's answer to the question for a firmware request
/// means: a user to build for, nobody to build for, or an answer that the
/// gateway cannot use.
pub fn next_request(answer: Result<Principal, Error>) -> (r: Result<Option<Principal>, String>)
    ensures
        match answer {
            Ok(user) => r == Ok::<Option<Principal>, String>(Some(user)),
            Err(Error::NotFound) => r == Ok::<Option<Principal>, String>(None),
            Err(e) => r is Err && r->Err_0@ == "failed to decode response"@,
        },
{
    match answer {
        Ok(user) => Ok(Some(user)),
        Err(Error::NotFound) => Ok(None),
        Err(_) => Err(String::from_str("failed to decode response")),
    }
}

/// What the canister's answer to an upload means for the gateway.
pub fn upload_outcome(answer: Result<(), Error>) -> (r: Result<(), String>)
    ensures
        answer is Ok ==> r == Ok::<(), String>(()),
        answer is Err ==> r is Err && r->Err_0@ == "failed to upload firmware"@,
{
    match answer {
        Ok(()) => Ok(()),
        Err(_) => Err(String::from_str("failed to upload firmware")),
    }
}

/// Whether a firmware built on the named system must be signed before it
/// can run: only on macOS.
pub fn must_sign(os: &str) -> (r: bool)
    ensures
        r == (os@ == "macos"@),
{
    let here = String::from_str(os);
    let mac = String::from_str("macos");
    here == mac
}

} // verus!
