//! The core of a small HTTP echo server, free of I/O: percent-decoding of
//! query text, the routing of a request to its response, the framing headers
//! every response carries, and the bytes a response takes on the wire.

pub mod ascii;
pub mod decimal;
pub mod encoder;
pub mod handler;
pub mod headers;
pub mod percent;
pub mod request;
pub mod response;
pub mod router;
