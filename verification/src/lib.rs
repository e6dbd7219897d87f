//! A verified wire-protocol contract for a client-server chat application:
//! the request envelope, the method and result catalogs, server events, the
//! error taxonomy, a byte-level codec proved to round-trip, and a pure
//! dispatcher giving each method its documented outcome.
pub mod protocol;
pub mod server;
pub mod codec;

pub use protocol::{
    Request, Event, Method, MethodResult, PrivateMessage, ChatMessage, User, RequestResult,
    RequestError, AuthError,
};
