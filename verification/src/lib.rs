//! Client-side protocol handler for a streaming text-to-speech session.
//!
//! The library covers the verified core of the protocol: parsing of textual
//! header blocks, classification of inbound text and binary frames, the
//! two-message handshake, correlation-identifier generation, and the receive
//! loop's decisions that assemble the audio payload.  Opening the transport
//! connection and driving the event loop are left to the surrounding
//! application code.

pub mod audio;
pub mod frames;
pub mod headers;
pub mod messages;
pub mod session;
pub mod ssml;

pub use headers::parse_headers;
pub use messages::random_request_id;
pub use session::Session;
pub use ssml::build_ssml;
