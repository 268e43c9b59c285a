//! Session forwarding for a managed device.
//!
//! A request opens a forwarded connection, such as a remote terminal, between the device
//! and a remote host. The forwarder keeps one task for each requested session, a session
//! goes from `Connecting` to `Connected` and back as its connection is lost and reopened,
//! and each change is published for observers until the session is over.
//!
//! Nothing here waits or talks to the outside: the start-up ([`bootstrap`]) and the session
//! ([`session`]) say what is to be done next and take the outcome, and the forwarder
//! ([`forwarder`]) takes the function that spawns a task.

pub mod bootstrap;
pub mod error;
pub mod forwarder;
pub mod request;
pub mod session;
pub mod status;
pub mod store;

pub use crate::bootstrap::{Bootstrap, Init, StoredProp};
pub use crate::error::{ForwarderError, Outcome, RequestParseError};
pub use crate::forwarder::{Dispatch, Forwarder, Task};
pub use crate::request::{SessionKey, SessionRequest};
pub use crate::session::{Phase, Session, SessionStep};
pub use crate::status::{
    Publication, PropertyValue, SessionState, SessionStatus, FORWARDER_SESSION_STATE_INTERFACE,
};
