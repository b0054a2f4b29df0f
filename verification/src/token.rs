//! Session tokens.
//!
//! A token is 26 characters of the lowercased Crockford base32 alphabet
//! (`0`–`9` and `a`–`z` without `i`, `l`, `o`, `u`).  Tokens of this
//! shape sort by creation time when compared as plain text, and contain
//! no separator, control or quoting character, so they are safe both as
//! cookie values and as store keys.

use vstd::prelude::*;

use crate::text::{all_ascii, ascii_bytes_to_string, chars_of};

verus! {

/// A digit of the uppercase Crockford base32 alphabet:
/// `0123456789ABCDEFGHJKMNPQRSTVWXYZ`.
pub open spec fn is_crockford_upper(c: char) -> bool {
    let n = c as u32;
    (48 <= n && n <= 57) || (65 <= n && n <= 90 && n != 73 && n != 76 && n != 79 && n != 85)
}

/// A digit of the lowercase Crockford base32 alphabet:
/// `0123456789abcdefghjkmnpqrstvwxyz`.
pub open spec fn is_crockford_lower(c: char) -> bool {
    let n = c as u32;
    (48 <= n && n <= 57) || (97 <= n && n <= 122 && n != 105 && n != 108 && n != 111 && n != 117)
}

/// A well-formed session token: 26 lowercase Crockford base32 digits.
pub open spec fn is_token(s: Seq<char>) -> bool {
    s.len() == 26 && (forall|i: int| 0 <= i < s.len() ==> is_crockford_lower(s[i]))
}

/// Relies on `ulid::Ulid::generate` and `ulid::Ulid::to_string`: a fresh
/// ULID rendered as 26 digits of the uppercase Crockford base32 alphabet.
#[verifier::external_body]
fn fresh_ulid_text() -> (r: String)
    ensures
        r@.len() == 26,
        forall|i: int| 0 <= i < r@.len() ==> is_crockford_upper(r@[i]),
{
    ulid::Ulid::generate().to_string()
}

/// Generates a fresh session token: a new ULID, lowercased so that the
/// token can serve directly as a store key.
pub fn generate() -> (r: String)
    ensures
        is_token(r@),
{
    let u = fresh_ulid_text();
    let s = u.as_str();
    let mut bytes: Vec<u8> = Vec::new();
    let mut i: usize = 0;
    while i < 26
        invariant
            s@.len() == 26,
            forall|j: int| 0 <= j < s@.len() ==> is_crockford_upper(s@[j]),
            i <= 26,
            bytes@.len() == i,
            forall|j: int| 0 <= j < i ==> bytes@[j] < 128 && is_crockford_lower(bytes@[j] as char),
        decreases 26 - i,
    {
        let c = s.get_char(i);
        let n = c as u32;
        let b: u8 = if 65 <= n && n <= 90 {
            (n as u8) + 32
        } else {
            n as u8
        };
        bytes.push(b);
        i += 1;
    }
    let r = ascii_bytes_to_string(bytes);
    proof {
        assert(is_token(r@)) by {
            assert(r@ == chars_of(bytes@));
            assert(forall|j: int| 0 <= j < r@.len() ==> is_crockford_lower(#[trigger] r@[j]));
        }
    }
    r
}

/// Every character of a token is a plain letter or digit, so a token
/// needs no quoting or escaping inside a cookie value.
pub proof fn lemma_token_cookie_safe(s: Seq<char>)
    requires
        is_token(s),
    ensures
        forall|i: int| 0 <= i < s.len() ==> (48 <= #[trigger] (s[i] as u32) && s[i] as u32 <= 122),
        forall|i: int| 0 <= i < s.len() ==> s[i] != ';' && s[i] != '=' && s[i] != ' ' && s[i]
            != '"' && s[i] != '%' && s[i] != ',',
{
}

} // verus!
