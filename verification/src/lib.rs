//! Verified protocol logic for Ajazz stream dock macro pads.
use vstd::prelude::*;

pub mod bytes;
pub mod cache;
pub mod cli;
pub mod devices;
pub mod error;
pub mod input;
pub mod kind;
pub mod n1;
pub mod probe;
pub mod reports;
pub mod request;
pub mod session;

pub use kind::Kind;

verus! {

} // verus!
