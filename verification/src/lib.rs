//! A minimal in-memory key-value store with an HTTP-style request handler.
//!
//! The store maps non-empty byte-string keys to byte-string values; the
//! handler translates `GET /data/{key}` and `PUT /data/{key}` requests into
//! store operations and maps the outcome to a status code and body.

mod encoding;
mod handler;
mod laws;
mod store;

pub use encoding::check_utf8;
pub use encoding::is_utf8;
pub use encoding::pct_decode;
pub use encoding::percent_decode;
pub use handler::HandlerError;
pub use laws::apply_writes;
pub use laws::lemma_get_after_set;
pub use laws::lemma_last_writer_wins;
pub use laws::lemma_overwrite;
pub use laws::lemma_repeat_set;
pub use laws::lemma_set_idempotent;
pub use laws::lemma_set_preserves_others;
pub use laws::lemma_writes_leave_other_keys;
pub use handler::Method;
pub use handler::Response;
pub use handler::error_response;
pub use handler::handle_get;
pub use handler::handle_put;
pub use handler::handle_request;
pub use handler::message_of;
pub use handler::parse_key;
pub use handler::spec_parse_key;
pub use handler::status_of;
pub use store::DataManager;
pub use store::copy_bytes;
