//! Values the editor window exchanges with the core: the URL that opens a
//! capture in the editor, and the PNG payloads the editor sends back as
//! Base64 text.

use vstd::prelude::*;
use vstd::string::*;
use vstd::utf8::encode_utf8;
use base64::Engine;

verus! {

/// Bytes left as they are by URL encoding: ASCII letters, digits and
/// `-`, `.`, `_`, `~`.
pub open spec fn url_safe(b: u8) -> bool {
    ||| 48 <= b <= 57
    ||| 65 <= b <= 90
    ||| 97 <= b <= 122
    ||| b == 45
    ||| b == 46
    ||| b == 95
    ||| b == 126
}

/// Upper-case hexadecimal digit of `n` (0 to 15).
pub open spec fn hex_digit(n: u8) -> char {
    if n < 10 {
        (48 + n) as char
    } else {
        (55 + n) as char
    }
}

/// One byte, URL-encoded.
pub open spec fn escape_byte(b: u8) -> Seq<char> {
    if url_safe(b) {
        seq![b as char]
    } else {
        seq!['%', hex_digit(b / 16), hex_digit(b % 16)]
    }
}

/// Bytes, URL-encoded one after the other.
pub open spec fn percent_encoded(bytes: Seq<u8>) -> Seq<char>
    decreases bytes.len(),
{
    if bytes.len() == 0 {
        Seq::empty()
    } else {
        percent_encoded(bytes.drop_last()) + escape_byte(bytes.last())
    }
}

/// Calls `urlencoding::encode`.
/// Trusted: as the crate documents and its code does, every byte of the
/// UTF-8 encoding of `text` except ASCII alphanumerics and `-`, `_`, `.`,
/// `~` becomes `%` and two upper-case hex digits; the others are kept.
#[verifier::external_body]
fn url_encode(text: &str) -> (encoded: String)
    ensures
        encoded@ == percent_encoded(encode_utf8(text@)),
{
    urlencoding::encode(text).into_owned()
}

/// Page of the editor window that opens the capture at `path`.
pub fn editor_url(path: &str) -> (url: String)
    ensures
        url@ == "editor.html?path="@ + percent_encoded(encode_utf8(path@)),
{
    let encoded = url_encode(path);
    String::from_str("editor.html?path=").concat(encoded.as_str())
}

/// What the standard Base64 engine of the `base64` crate (standard
/// alphabet, canonical padding required) makes of the UTF-8 text `text`:
/// the decoded bytes, or the text of its decode error.
pub uninterp spec fn base64_standard_decode(text: Seq<char>) -> Result<Seq<u8>, Seq<char>>;

/// Calls `base64::engine::general_purpose::STANDARD.decode`.
/// Trusted: the outcome is what the crate computes (named
/// `base64_standard_decode`), the error rendered by its `Display` impl.
#[verifier::external_body]
fn base64_decode(text: &str) -> (r: Result<Vec<u8>, String>)
    ensures
        match r {
            Ok(bytes) => base64_standard_decode(text@) == Ok::<Seq<u8>, Seq<char>>(bytes@),
            Err(msg) => base64_standard_decode(text@) == Err::<Seq<u8>, Seq<char>>(msg@),
        },
{
    match base64::engine::general_purpose::STANDARD.decode(text) {
        Ok(bytes) => Ok(bytes),
        Err(e) => Err(e.to_string()),
    }
}

/// The PNG bytes of an image the editor sent as Base64 text, or the decode
/// error message.
pub fn decode_png_base64(text: &str) -> (r: Result<Vec<u8>, String>)
    ensures
        match r {
            Ok(bytes) => base64_standard_decode(text@) == Ok::<Seq<u8>, Seq<char>>(bytes@),
            Err(msg) => base64_standard_decode(text@) == Err::<Seq<u8>, Seq<char>>(msg@),
        },
{
    base64_decode(text)
}

} // verus!
