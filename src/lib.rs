use vstd::prelude::*;

pub mod auth;
pub mod credentials;
pub mod delete;
pub mod error;
pub mod query;
pub mod recordings;
pub mod rendition;
pub mod tags;
pub mod token;

verus! {

} // verus!
