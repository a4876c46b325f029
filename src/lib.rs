//! An escrow-backed job marketplace: clients post paid jobs whose amount is
//! held in escrow, freelancers apply, the client approves one application per
//! job, the freelancer submits work, and on the client's sign-off the escrow
//! pays the freelancer.

pub mod accounts;
pub mod derivation;
pub mod instructions;
pub mod laws;
pub mod ledger;
