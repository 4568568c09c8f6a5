use vstd::prelude::*;

pub mod config;
pub mod ledger;
pub mod request;
pub mod respond;
pub mod router;
pub mod text;

verus! {

} // verus!
