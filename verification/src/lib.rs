//! Verified request logic of the BTC Map API: input validation, filtering,
//! ordering, pagination and the small text formats the endpoints speak.

use vstd::prelude::*;

pub mod dates;
pub mod ids;
pub mod images;
pub mod model;
pub mod order;
pub mod passwords;
pub mod rest;
pub mod rpc;
pub mod text;
pub mod tips;

verus! {

} // verus!
