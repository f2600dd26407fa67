//! Verified core of the RemoteAPP client: connection profiles and endpoint parsing, input
//! queueing and mapping, session policies, the encrypted vault envelope, profile
//! synchronization and the decision logic of the session and device flows.

pub mod text;
pub mod model;
pub mod input;
pub mod session;
pub mod bytes;
pub mod crypto;
pub mod digest;
pub mod sync;
pub mod keys;
pub mod keyboard;
pub mod backend;
pub mod control;
pub mod catalog;
pub mod form;
