//! The decoders of identifiers and payloads that the typed lines rely on.
use vstd::prelude::*;

verus! {

#[verifier::external_type_specification]
#[verifier::external_body]
pub struct ExParsePubkeyError(solana_pubkey::ParsePubkeyError);

#[verifier::external_type_specification]
#[verifier::external_body]
pub struct ExDecodeError(base64::DecodeError);

/// The 32 bytes that a program identifier's base58 text stands for, if it
/// stands for any.
pub uninterp spec fn pubkey_from_text(s: Seq<char>) -> Option<Seq<u8>>;

/// The bytes that a standard, padded base64 text stands for, if it is one.
pub uninterp spec fn base64_from_text(s: Seq<char>) -> Option<Seq<u8>>;

/// Relies on `<solana_pubkey::Pubkey as FromStr>::from_str`: the identifier's
/// bytes, or an error, as a function of the text alone.
#[verifier::external_body]
pub(crate) fn decode_pubkey(s: &str) -> (r: Result<[u8; 32], solana_pubkey::ParsePubkeyError>)
    ensures
        match r {
            Ok(k) => pubkey_from_text(s@) == Some(k@),
            Err(_) => pubkey_from_text(s@) is None,
        },
{
    match <solana_pubkey::Pubkey as std::str::FromStr>::from_str(s) {
        Ok(k) => Ok(k.to_bytes()),
        Err(e) => Err(e),
    }
}

/// Relies on `base64::Engine::decode` with `base64::prelude::BASE64_STANDARD`:
/// the decoded bytes, or an error, as a function of the text alone.
#[verifier::external_body]
pub(crate) fn decode_base64(s: &str) -> (r: Result<Vec<u8>, base64::DecodeError>)
    ensures
        match r {
            Ok(v) => base64_from_text(s@) == Some(v@),
            Err(_) => base64_from_text(s@) is None,
        },
{
    base64::Engine::decode(&base64::prelude::BASE64_STANDARD, s)
}

} // verus!
