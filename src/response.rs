//! Reply bodies handed back to callers of the ledger.

use vstd::prelude::*;

verus! {

/// A status word and a message.
#[derive(Clone, Debug)]
pub struct GenericResponse {
    pub status: String,
    pub message: String,
}

/// The id given to a newly created account.
#[derive(Clone, Debug)]
pub struct CreateClientResponse {
    pub id: String,
}

} // verus!
