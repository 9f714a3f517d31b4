//! The protocol spoken on the control connection.

pub mod error;
pub mod frame;
pub mod transport;

pub use error::{reconnectable_err, Error, IoErrorKind};
pub use frame::{Auth, Datagram, Frame, LimitedString, RedirectorFrame, SessionId};
pub use transport::Transport;
