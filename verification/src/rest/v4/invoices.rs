//! Invoices (`GET /v4/invoices/{uuid}`).

use vstd::prelude::*;

verus! {

/// An invoice and its status.
#[derive(Debug)]
pub struct GetByIdRes {
    pub uuid: String,
    pub status: String,
}

/// Whether the invoice is read again before answering: when it was unpaid
/// and syncing it with the node changed it.
pub fn read_again(unpaid: bool, synced: bool) -> (r: bool)
    ensures
        r == (unpaid && synced),
{
    unpaid && synced
}

/// The answer for an invoice.
pub fn get_by_id_res(uuid: String, status: String) -> (r: GetByIdRes)
    ensures
        r.uuid == uuid,
        r.status == status,
{
    GetByIdRes { uuid, status }
}

} // verus!
