//! The node's configuration as it is handed over at start: a text in
//! base64 that holds the node situation.

use vstd::prelude::*;
use vstd::string::*;
use vstd::utf8::{decode_utf8, valid_utf8};

verus! {

/// The error of `base64::decode_config`. Nothing of it is read.
#[verifier::external_type_specification]
#[verifier::external_body]
pub struct ExDecodeError(base64::DecodeError);

/// The error of `String::from_utf8`. Nothing of it is read.
#[verifier::external_type_specification]
#[verifier::external_body]
pub struct ExFromUtf8Error(std::string::FromUtf8Error);

/// The bytes that a text in base64 stands for: the standard alphabet,
/// with or without padding at the end, where bits that are left over
/// in the last symbol are ignored. `None` for a text that is not
/// base64 of that form.
pub uninterp spec fn base64_decoded(encoded: Seq<char>) -> Option<Seq<u8>>;

/// Why a configuration could not be read.
#[derive(Debug, Clone, Copy, PartialEq, Eq, Structural)]
pub enum ConfigError {
    /// The text is longer than the decoder takes.
    TooLong,
    /// The text is not base64.
    Base64,
    /// The decoded bytes are not UTF-8.
    Utf8,
    /// The text is not a node situation.
    Malformed,
}

/// Decodes with `base64::decode_config`, under the configuration
/// `STANDARD.decode_allow_trailing_bits(true)`. The result is a
/// function of the text alone, which [`base64_decoded`] names: the
/// bytes where the call succeeds, none where it fails. The decoder
/// adds three to the text's length in bytes, and later seven, and
/// panics where a sum exceeds `usize`: `requires` leaves those
/// lengths out. The buffer it sizes, six bytes for every eight of the
/// text, is then within `usize` as well.
#[verifier::external_body]
fn decode_base64(encoded: &str) -> (r: Result<Vec<u8>, base64::DecodeError>)
    requires
        encoded.len() + 7 <= usize::MAX,
    ensures
        match r {
            Ok(bytes) => base64_decoded(encoded@) == Some(bytes@),
            Err(_) => base64_decoded(encoded@) is None,
        },
{
    base64::decode_config(encoded, base64::STANDARD.decode_allow_trailing_bits(true))
}

/// Turns bytes into text with `String::from_utf8`, which succeeds
/// exactly on valid UTF-8 and then gives the text that the bytes
/// encode.
#[verifier::external_body]
fn text_of_utf8(bytes: Vec<u8>) -> (r: Result<String, std::string::FromUtf8Error>)
    ensures
        match r {
            Ok(text) => valid_utf8(bytes@) && text@ == decode_utf8(bytes@),
            Err(_) => !valid_utf8(bytes@),
        },
{
    String::from_utf8(bytes)
}

/// What a configuration in base64 reads as.
pub open spec fn config_read(encoded: Seq<char>) -> Result<Seq<char>, ConfigError> {
    match base64_decoded(encoded) {
        None => Err(ConfigError::Base64),
        Some(bytes) => if valid_utf8(bytes) {
            Ok(decode_utf8(bytes))
        } else {
            Err(ConfigError::Utf8)
        },
    }
}

/// The text that decoded bytes hold.
pub fn text_of_config(bytes: Vec<u8>) -> (r: Result<String, ConfigError>)
    ensures
        match r {
            Ok(text) => valid_utf8(bytes@) && text@ == decode_utf8(bytes@),
            Err(e) => !valid_utf8(bytes@) && e == ConfigError::Utf8,
        },
{
    match text_of_utf8(bytes) {
        Ok(text) => Ok(text),
        Err(_) => Err(ConfigError::Utf8),
    }
}

/// Reads the configuration that a text in base64 holds.
///
/// A text that is not base64 fails as such; one whose bytes are not
/// UTF-8 fails as such; any other gives the text that its bytes
/// encode. A text too long for the decoder is refused before it is
/// decoded.
pub fn decode_config(encoded: &str) -> (r: Result<String, ConfigError>)
    ensures
        encoded.len() + 7 > usize::MAX ==> r == Err::<String, ConfigError>(ConfigError::TooLong),
        encoded.len() + 7 <= usize::MAX ==> match r {
            Ok(text) => config_read(encoded@) == Ok::<Seq<char>, ConfigError>(text@),
            Err(e) => config_read(encoded@) == Err::<Seq<char>, ConfigError>(e),
        },
{
    if encoded.len() > usize::MAX - 7 {
        return Err(ConfigError::TooLong);
    }
    match decode_base64(encoded) {
        Ok(bytes) => text_of_config(bytes),
        Err(_) => Err(ConfigError::Base64),
    }
}

} // verus!
