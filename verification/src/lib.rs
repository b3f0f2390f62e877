//! Data product contract metadata for a gateway policy.
//!
//! From the id of a schema asset the policy derives the asset's governed identity from the CDGC
//! catalog, and stamps it onto responses as `x-dp-*` headers. This library decides what is asked of
//! the catalog, of the metadata cache and of the refresh lock, and what is made of their answers.
//! Sending, storing and the filters of the gateway lie outside.

use vstd::prelude::*;

pub mod auth;
pub mod cache;
pub mod calls;
pub mod cdgc;
pub mod claims;
pub mod clock;
pub mod config;
pub mod fields;
pub mod json;
pub mod number;
pub mod ordered;
pub mod policy;
pub mod search;
pub mod single_flight;
pub mod summary;
pub mod survey;
pub mod text;

verus! {

} // verus!
