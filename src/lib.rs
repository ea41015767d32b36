//! Parsing of program execution logs into classified lines and call trees.
use vstd::prelude::*;

pub mod codec;
pub mod error;
pub mod parsed_log;
pub mod raw_log;
pub mod structured_log;
pub mod text;

pub use error::LogParseError;
pub use parsed_log::ParsedLog;
pub use raw_log::RawLog;
pub use structured_log::parsed::ParsedStructuredLog;
pub use structured_log::raw::RawStructuredLog;

verus! {

/// Shortest text form of a program identifier.
pub const MIN_PUBKEY_CHARS: usize = 32;

/// Longest text form of a program identifier.
pub const MAX_PUBKEY_CHARS: usize = 44;

/// A character of the base58 alphabet: digits 1-9, upper case letters but
/// `I` and `O`, lower case letters but `l`.
pub open spec fn is_base58_char(c: char) -> bool {
    ('1' <= c && c <= '9') || ('A' <= c && c <= 'H') || ('J' <= c && c <= 'N') || ('P' <= c
        && c <= 'Z') || ('a' <= c && c <= 'k') || ('m' <= c && c <= 'z')
}

/// Text that looks like a program identifier: 32 to 44 base58 characters.
pub open spec fn is_pubkey_shape(s: Seq<char>) -> bool {
    &&& MIN_PUBKEY_CHARS <= s.len() <= MAX_PUBKEY_CHARS
    &&& forall|i: int| 0 <= i < s.len() ==> is_base58_char(#[trigger] s[i])
}

/// Checks the shape of a program identifier's text form, without decoding it.
pub fn quick_pubkey_check(pubkey: &str) -> (r: bool)
    ensures
        r == is_pubkey_shape(pubkey@),
{
    let len = pubkey.unicode_len();
    if len < MIN_PUBKEY_CHARS || len > MAX_PUBKEY_CHARS {
        return false;
    }
    let mut i: usize = 0;
    while i < len
        invariant
            len == pubkey@.len(),
            i <= len,
            forall|k: int| 0 <= k < i ==> is_base58_char(#[trigger] pubkey@[k]),
        decreases len - i,
    {
        let c = pubkey.get_char(i);
        let ok = ('1' <= c && c <= '9') || ('A' <= c && c <= 'H') || ('J' <= c && c <= 'N') || (
        'P' <= c && c <= 'Z') || ('a' <= c && c <= 'k') || ('m' <= c && c <= 'z');
        if !ok {
            return false;
        }
        i = i + 1;
    }
    true
}

} // verus!
