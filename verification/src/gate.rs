//! The admission decision.
//!
//! Per request the session state is recomputed from the cookie
//! token (or its absence) and the store:
//!
//! * no cookie token — a fresh token is generated, its issuance record
//!   is written, and the response is told to set the cookie;
//! * a token that resolves to a stored timestamp — the session is known
//!   since that timestamp, and nothing is written;
//! * a token whose stored value does not decode — a data-integrity
//!   failure, surfaced, never swallowed;
//! * a token with no record — an expected, recoverable condition: the
//!   client is treated as newly arrived and a fresh token is issued
//!   (rather than failing the request).

use vstd::prelude::*;

use crate::store::{MemStore, StoreError};
use crate::timestamp::{decode, decode_ts, encode, encode_ts, Timestamp};
use crate::token::{generate, is_token};

verus! {

/// Why a request failed: the store backend was unreachable or held a
/// value that is not a valid issuance record.
#[derive(Clone, Copy, PartialEq, Eq, Structural, Debug)]
pub enum GateError {
    Backend,
}

/// What was decided for one request.
pub enum Decision {
    /// A new session: the response must set the `waiting-token` cookie
    /// to this freshly issued token.
    NewSession { token: String },
    /// A known session, issued at the stored timestamp; no cookie is
    /// set and nothing is written.
    KnownSession { issued_at: Timestamp },
    /// The request fails; no cookie is set.
    Failed { error: GateError },
}

/// What a lookup against the real backend came back with.
pub enum LookupOutcome {
    /// The key was present, with these raw bytes.
    Found(Vec<u8>),
    /// The key was absent — a normal outcome, not an error.
    Absent,
    /// The backend could not be reached.
    Unavailable,
}

/// What follows from a lookup outcome.
pub enum LookupVerdict {
    /// The token resolves to this issuance timestamp.
    Known(Timestamp),
    /// The token has no record: issue a fresh session.
    Reissue,
    /// Backend failure or a value that is no issuance record.
    Failure(GateError),
}

/// A decision that issued a fresh session: it carries a well-formed new
/// token, and the store after the call holds exactly the store before
/// plus that token's issuance record for time `now`.
pub open spec fn issued_fresh(
    d: Decision,
    before: Map<Seq<char>, Seq<u8>>,
    after: Map<Seq<char>, Seq<u8>>,
    now: Timestamp,
) -> bool {
    match d {
        Decision::NewSession { token } => is_token(token@) && after == before.insert(
            token@,
            encode_ts(now),
        ),
        _ => false,
    }
}

/// A freshly issued session can be read back: after a decision that
/// wrote token's record at time `now`, a lookup of that token finds a
/// value that decodes to exactly `now`.
pub proof fn lemma_new_session_readable(
    before: Map<Seq<char>, Seq<u8>>,
    after: Map<Seq<char>, Seq<u8>>,
    token: Seq<char>,
    now: Timestamp,
)
    requires
        now.valid(),
        after == before.insert(token, encode_ts(now)),
    ensures
        after.contains_key(token),
        decode_ts(after[token]) == Some(now),
{
    crate::timestamp::lemma_round_trip(now);
}

/// Issues a new session: a fresh token together with the record bytes
/// to store under it.
pub fn issue(now: Timestamp) -> (r: (String, Vec<u8>))
    requires
        now.valid(),
    ensures
        is_token(r.0@),
        r.1@ == encode_ts(now),
{
    let token = generate();
    let value = encode(now);
    (token, value)
}

/// Interprets the outcome of a store lookup: a found value must decode
/// as a timestamp, an absent key routes the client back into the
/// new-session path, and an unreachable backend fails the request.
pub fn conclude_lookup(outcome: LookupOutcome) -> (v: LookupVerdict)
    ensures
        match outcome {
            LookupOutcome::Found(bytes) => match decode_ts(bytes@) {
                Some(t) => v == LookupVerdict::Known(t),
                None => v == LookupVerdict::Failure(GateError::Backend),
            },
            LookupOutcome::Absent => v == LookupVerdict::Reissue,
            LookupOutcome::Unavailable => v == LookupVerdict::Failure(GateError::Backend),
        },
{
    match outcome {
        LookupOutcome::Found(bytes) => match decode(bytes.as_slice()) {
            Some(t) => LookupVerdict::Known(t),
            None => LookupVerdict::Failure(GateError::Backend),
        },
        LookupOutcome::Absent => LookupVerdict::Reissue,
        LookupOutcome::Unavailable => LookupVerdict::Failure(GateError::Backend),
    }
}

/// Decides one request against an in-memory store.
///
/// Exactly one of three things happens: a fresh token is issued and its
/// record written (no cookie token, or a token without a record); the
/// stored timestamp is returned and the store left untouched; or the
/// request fails on a malformed stored value, the store left untouched.
pub fn decide(store: &mut MemStore, cookie_token: Option<String>, now: Timestamp) -> (d: Decision)
    requires
        old(store).wf(),
        now.valid(),
    ensures
        final(store).wf(),
        match cookie_token {
            None => issued_fresh(d, old(store)@, final(store)@, now),
            Some(t) => {
                if old(store)@.contains_key(t@) {
                    match decode_ts(old(store)@[t@]) {
                        Some(issued) => d == (Decision::KnownSession { issued_at: issued })
                            && final(store)@ == old(store)@,
                        None => d == (Decision::Failed { error: GateError::Backend })
                            && final(store)@ == old(store)@,
                    }
                } else {
                    issued_fresh(d, old(store)@, final(store)@, now)
                }
            },
        },
{
    match cookie_token {
        None => new_session(store, now),
        Some(t) => match store.get(&t) {
            Ok(Some(issued)) => Decision::KnownSession { issued_at: issued },
            Ok(None) => new_session(store, now),
            Err(StoreError::Backend) => Decision::Failed { error: GateError::Backend },
        },
    }
}

/// Issues a fresh token, writes its record, and tells the response to
/// set the cookie.
fn new_session(store: &mut MemStore, now: Timestamp) -> (d: Decision)
    requires
        old(store).wf(),
        now.valid(),
    ensures
        final(store).wf(),
        issued_fresh(d, old(store)@, final(store)@, now),
{
    let (token, value) = issue(now);
    let token_copy = token.clone();
    store.put_raw(token, value);
    Decision::NewSession { token: token_copy }
}

} // verus!
