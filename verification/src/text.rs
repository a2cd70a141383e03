//! Reading values from bytes that hold text.

use vstd::prelude::*;
use vstd::string::StringSliceAdditionalSpecFns;
use vstd::utf8::{decode_utf8, valid_utf8};

verus! {

broadcast use vstd::utf8::encode_utf8_decode_utf8;

/// Reads `bytes` as UTF-8.
///
/// Trusted: this is std's `core::str::from_utf8`, which gives the text that
/// the bytes are exactly when they are well-formed UTF-8, and an error
/// otherwise.
#[verifier::external_body]
fn utf8_text(bytes: &[u8]) -> (r: Option<&str>)
    ensures
        r is Some <==> valid_utf8(bytes@),
        r matches Some(s) ==> s.spec_bytes() == bytes@,
{
    core::str::from_utf8(bytes).ok()
}

/// The text that `bytes` hold, if they are well-formed UTF-8.
pub fn text_of(bytes: &[u8]) -> (r: Option<&str>)
    ensures
        r is Some <==> valid_utf8(bytes@),
        r matches Some(s) ==> s@ == decode_utf8(bytes@),
{
    utf8_text(bytes)
}

/// Types with a value that can be read from bytes.
///
/// A type says how it is read from text; reading it from bytes is then
/// reading the text that the bytes hold.
pub trait FromBytes: Sized {
    /// What is wrong with a text that does not hold a value.
    type Err;

    /// Reads a value from `s`.
    fn from_text(s: &str) -> (r: Result<Self, Self::Err>);

    /// Reads a value from the text that `b` holds. Whether there is a
    /// value, and which, is for [`FromBytes::from_text`] to say of that text.
    ///
    /// `b` has to be well-formed UTF-8: `Err` has no value for bytes that
    /// are not text.
    fn from_bytes(b: &[u8]) -> (r: Result<Self, Self::Err>)
        requires
            valid_utf8(b@),
        ensures
            exists|s: &str| s@ == decode_utf8(b@) && call_ensures(Self::from_text, (s,), r),
    {
        match text_of(b) {
            Some(s) => Self::from_text(s),
            None => {
                proof {
                    assert(false);
                }
                Self::from_text("")
            },
        }
    }
}

/// A string is the text itself.
impl FromBytes for String {
    type Err = core::convert::Infallible;

    fn from_text(s: &str) -> (r: Result<String, core::convert::Infallible>)
        ensures
            r matches Ok(t) && t@ == s@,
    {
        Ok(s.to_owned())
    }
}

} // verus!
