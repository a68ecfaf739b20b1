//! A minimal HTTP/1.x message library.
//!
//! The crate parses a raw in-memory text buffer into a typed request or
//! response and serializes such values back into canonical CRLF wire
//! text. Methods, protocol versions and status codes are closed
//! vocabularies; headers are opaque name/value pairs with last-write-wins
//! semantics on duplicate names; the body is an opaque string. Transport
//! concerns (sockets, buffering, timeouts) are left to the caller.

pub mod error;
pub mod headers;
pub mod method;
pub mod request;
pub mod response;
pub mod status;
pub mod text;
pub mod version;
pub mod wire;

pub use error::ParseError;
pub use headers::Headers;
pub use method::Method;
pub use request::Request;
pub use response::Response;
pub use status::StatusCode;
pub use version::Version;
