//! The MCP handshake token and the socket discovery file: how a token is
//! made and read back, and what the discovery files say. The files
//! themselves are the caller's.

use vstd::prelude::*;

use crate::correlation::hex_digit;
use crate::text::{
    chars_of, contains_chars, contains_seq, decimal, decimal_chars, decode_lossy, parse_u32,
    string_of, u32_from_text, utf8_lossy,
};
use crate::vault::{opt_str, trim_chars, trim_ws};

verus! {

#[verifier::external_type_specification]
#[verifier::external_body]
pub struct ExRandomError(getrandom::Error);

/// Number of random bytes in a token.
pub const TOKEN_BYTES: usize = 32;

/// Calls `getrandom::getrandom` on an `n`-byte buffer: the bytes the
/// operating system's generator wrote, or its error. Which bytes come back
/// is chance; only their count is stated.
#[verifier::external_body]
fn random_bytes(n: usize) -> (r: Result<Vec<u8>, getrandom::Error>)
    ensures
        r matches Ok(b) ==> b@.len() == n,
{
    let mut buf = vec![0u8; n];
    match getrandom::getrandom(&mut buf) {
        Ok(()) => Ok(buf),
        Err(e) => Err(e),
    }
}

/// Two lower-case hex digits per byte (`format!("{b:02x}")` for each).
pub open spec fn token_hex(bytes: Seq<u8>) -> Seq<char>
    decreases bytes.len(),
{
    if bytes.len() == 0 {
        Seq::empty()
    } else {
        token_hex(bytes.drop_last()) + seq![
            hex_digit((bytes.last() / 16) as int),
            hex_digit((bytes.last() % 16) as int),
        ]
    }
}

/// Whether `c` is a lower-case hex digit.
pub open spec fn is_lower_hex(c: char) -> bool {
    ('0' <= c && c <= '9') || ('a' <= c && c <= 'f')
}

/// A token of `n` bytes is `2 n` lower-case hex digits.
pub proof fn lemma_token_shape(bytes: Seq<u8>)
    ensures
        token_hex(bytes).len() == 2 * bytes.len(),
        forall|i: int| 0 <= i < token_hex(bytes).len() ==> is_lower_hex(#[trigger] token_hex(bytes)[i]),
    decreases bytes.len(),
{
    if bytes.len() > 0 {
        lemma_token_shape(bytes.drop_last());
        let t = token_hex(bytes);
        let p = token_hex(bytes.drop_last());
        assert forall|i: int| 0 <= i < t.len() implies is_lower_hex(#[trigger] t[i]) by {
            if i < p.len() {
                assert(t[i] == p[i]);
            }
        }
    }
}

fn hex_char(d: u8) -> (c: char)
    requires
        d < 16,
    ensures
        c == hex_digit(d as int),
{
    if d < 10 {
        (d + 48) as char
    } else {
        (d - 10 + 97) as char
    }
}

/// [`token_hex`] of `bytes`.
pub fn hex_token(bytes: &[u8]) -> (t: String)
    ensures
        t@ == token_hex(bytes@),
{
    let mut v: Vec<char> = Vec::new();
    let mut i: usize = 0;
    assert(bytes@.subrange(0, 0) =~= Seq::<u8>::empty());
    while i < bytes.len()
        invariant
            i <= bytes.len(),
            v@ == token_hex(bytes@.subrange(0, i as int)),
        decreases bytes.len() - i,
    {
        let b = bytes[i];
        v.push(hex_char(b / 16));
        v.push(hex_char(b % 16));
        proof {
            let s = bytes@.subrange(0, i + 1);
            assert(s.drop_last() =~= bytes@.subrange(0, i as int));
            assert(s.last() == b);
        }
        i += 1;
    }
    assert(bytes@.subrange(0, bytes.len() as int) =~= bytes@);
    string_of(v.as_slice())
}

/// A fresh token: 32 bytes from the operating system's generator, as 64
/// lower-case hex digits; the generator's error when it fails.
pub fn generate_mcp_token() -> (r: Result<String, getrandom::Error>)
    ensures
        r matches Ok(t) ==> exists|b: Seq<u8>| b.len() == TOKEN_BYTES && t@ == token_hex(b),
{
    match random_bytes(TOKEN_BYTES) {
        Ok(b) => Ok(hex_token(b.as_slice())),
        Err(e) => Err(e),
    }
}

/// The token to use given the one stored (if any): the stored one, or a
/// fresh one that must then be stored (`true` in the result).
pub fn ensure_mcp_token(existing: Option<String>) -> (r: Result<(String, bool), getrandom::Error>)
    ensures
        existing matches Some(t) ==> r == Ok::<(String, bool), getrandom::Error>((t, false)),
        existing is None ==> (r matches Ok((t, fresh)) ==> fresh && exists|b: Seq<u8>|
            b.len() == TOKEN_BYTES && t@ == token_hex(b)),
{
    match existing {
        Some(t) => Ok((t, false)),
        None => match generate_mcp_token() {
            Ok(t) => Ok((t, true)),
            Err(e) => Err(e),
        },
    }
}

/// The token held by the token file's text: the text trimmed.
pub fn token_from_file(contents: &str) -> (t: String)
    ensures
        t@ == trim_ws(contents@),
{
    let c = chars_of(contents);
    let t = trim_chars(c.as_slice());
    string_of(t.as_slice())
}

/// The socket name recorded in the discovery file's text: the text trimmed,
/// unless nothing is left.
pub fn discovered_socket(contents: &str) -> (r: Option<String>)
    ensures
        opt_str(r) == if trim_ws(contents@).len() == 0 {
            None
        } else {
            Some(trim_ws(contents@))
        },
{
    let c = chars_of(contents);
    let t = trim_chars(c.as_slice());
    if t.len() == 0 {
        None
    } else {
        Some(string_of(t.as_slice()))
    }
}

/// The host process id recorded in the `.pid` sidecar's text.
pub fn recorded_pid(pid_text: &str) -> (r: Option<u32>)
    ensures
        r == u32_from_text(trim_ws(pid_text@)),
{
    let c = chars_of(pid_text);
    let t = trim_chars(c.as_slice());
    parse_u32(t.as_slice())
}

/// Whether a process listing (as bytes) mentions the process id: its
/// decimal text occurs in the lossily decoded listing.
pub fn listing_mentions_pid(listing: &[u8], pid: u32) -> (r: bool)
    ensures
        r == contains_seq(utf8_lossy(listing@), decimal(pid as nat)),
{
    let text = decode_lossy(listing);
    let d = decimal_chars(pid as u64);
    contains_chars(text.as_slice(), d.as_slice())
}

} // verus!
