//! A token-based admission gate ("waiting room").
//!
//! The library decides, per client request, whether the client is new,
//! already known, or cannot be resolved, using an opaque session token
//! carried in a cookie and an issuance timestamp kept in a key-value
//! store.  The pieces are:
//!
//! * [`timestamp`] — a calendar timestamp and its fixed-width text
//!   encoding, the format in which issuance times are persisted;
//! * [`token`] — generation of unique, sortable, lowercase session
//!   tokens;
//! * [`session`] — extraction of the session token from raw `Cookie`
//!   header lines;
//! * [`store`] — the store semantics: an in-memory key-value store and
//!   the interpretation of raw store values as issuance records;
//! * [`gate`] — the admission decision itself.

pub mod gate;
pub mod session;
pub mod store;
pub mod text;
pub mod timestamp;
pub mod token;
