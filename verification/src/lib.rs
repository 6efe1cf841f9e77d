//! A minimal HTTP/1.1 server library: a byte-level request parser, a
//! response encoder, and a connection that dispatches one parsed request
//! through an ordered chain of handlers, together with a small two-player
//! game mounted on top of it as the example application.

pub mod bytes;
pub mod dispatch;
pub mod game;
pub mod laws;
pub mod message;
pub mod parse;
pub mod tokens;

pub use dispatch::Connection;
pub use dispatch::Handler;
pub use dispatch::MAX_REQ_SIZE;
pub use game::Board;
pub use game::GameHandler;
pub use game::Move;
pub use game::Values;
pub use message::Request;
pub use message::Response;
pub use parse::ParseError;
pub use parse::parse_as_response;
