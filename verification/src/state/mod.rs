//! The client's view of the session: what it sent and must resend, what it
//! received, and the world it knows of.
pub mod map;
pub mod surface;
pub mod obj;
pub mod queue;
pub mod session;
pub mod client;
pub mod dispatch;
pub mod laws;
