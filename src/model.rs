//! The records the ledger keeps and exchanges with its callers.

use crate::amount::Amount;
use vstd::prelude::*;

verus! {

/// A client's profile: carried for display, fixed after creation.
#[derive(Clone, Debug)]
pub struct ClientInfo {
    pub name: String,
    pub birth_date: String,
    pub document_number: String,
    pub country: String,
}

/// One account of the ledger.
#[derive(Clone, Debug)]
pub struct Client {
    pub id: String,
    pub balance: Amount,
    pub info: ClientInfo,
}

/// A credit or debit of `amount` on the account `client_id`.
#[derive(Clone, Debug)]
pub struct CreditOrDebitRequest {
    pub client_id: String,
    pub amount: Amount,
}

/// The balance of an account after a credit or debit.
#[derive(Clone, Debug)]
pub struct CreditOrDebitResponse {
    pub client_id: String,
    pub new_balance: Amount,
}

} // verus!
