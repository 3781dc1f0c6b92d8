//! A client for the symbol queries of a Language Server Protocol backend.
//!
//! `codec` frames JSON-RPC messages behind a `Content-Length` header and reads them
//! back; `requests` builds the messages the client sends; `correlate` waits for the
//! reply to a request among the frames a server sends; `results` turns a symbol reply
//! into filtered rows; `session` sequences a whole run as a state machine whose
//! input and output are left to the caller.

pub mod codec;
pub mod codec_proofs;
pub mod correlate;
pub mod json;
pub mod requests;
pub mod results;
pub mod session;
pub mod text;
