//! A pump-until-signaled primitive: block the calling thread until a value
//! arrives on a channel, while continuing to drain and dispatch the thread's
//! message queue so that the very callback that will produce the value can run.
//!
//! The message queue and the channel are modeled as an injectable capability
//! (the [`pump::MessagePump`] trait), so the wait loop can be verified and
//! exercised against a deterministic scripted queue.

pub mod error;
pub mod pump;
pub mod scripted;
pub mod version;

pub use error::Error;
pub use pump::wait_with_pump;
