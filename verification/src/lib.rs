//! Watches an appointment portal for a set of offices and alerts a list of
//! recipients by SMS when one of them has a slot.
//!
//! The library decides; it performs no request itself. A caller runs
//! [`client::Client::run`] with what happened last and carries out the action
//! that it returns.

pub mod structs;
pub mod text;
pub mod endpoint;
pub mod utils;
pub mod response;
pub mod sms;
pub mod client;
