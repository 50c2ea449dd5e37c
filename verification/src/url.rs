//! The form in which a path stands inside a request URL, and the URL at
//! which an upload session is asked for.

use vstd::prelude::*;
use vstd::string::*;
use vstd::utf8::encode_utf8;

verus! {

/// Bytes that stand for themselves inside the path of a URL: ASCII letters
/// and digits, the separator `/`, and `- _ . ! ~ * ' ( )`.
pub open spec fn is_unreserved(b: u8) -> bool {
    ||| 0x41 <= b <= 0x5a
    ||| 0x61 <= b <= 0x7a
    ||| 0x30 <= b <= 0x39
    ||| b == 0x2f
    ||| b == 0x2d
    ||| b == 0x5f
    ||| b == 0x2e
    ||| b == 0x21
    ||| b == 0x7e
    ||| b == 0x2a
    ||| b == 0x27
    ||| b == 0x28
    ||| b == 0x29
}

/// The upper-case hexadecimal digit for a value below sixteen.
pub open spec fn hex_digit(d: u8) -> char
    recommends
        d < 16,
{
    if d < 10 {
        (0x30 + d) as u8 as char
    } else {
        (0x41 + d - 10) as u8 as char
    }
}

/// How one byte of a path is written in a URL: an unreserved byte as
/// itself, any other as `%` and its two hexadecimal digits.
pub open spec fn encode_byte(b: u8) -> Seq<char> {
    if is_unreserved(b) {
        seq![b as char]
    } else {
        seq!['%', hex_digit(b / 16), hex_digit(b % 16)]
    }
}

/// The percent-encoding of a byte string: the encodings of its bytes, in
/// order.
pub open spec fn percent_encode(bytes: Seq<u8>) -> Seq<char>
    decreases bytes.len(),
{
    if bytes.len() == 0 {
        Seq::empty()
    } else {
        percent_encode(bytes.drop_last()) + encode_byte(bytes.last())
    }
}

fn unreserved(b: u8) -> (r: bool)
    ensures
        r == is_unreserved(b),
{
    (0x41 <= b && b <= 0x5a) || (0x61 <= b && b <= 0x7a) || (0x30 <= b && b <= 0x39) || b == 0x2f
        || b == 0x2d || b == 0x5f || b == 0x2e || b == 0x21 || b == 0x7e || b == 0x2a || b == 0x27
        || b == 0x28 || b == 0x29
}

fn hex_char(d: u8) -> (c: char)
    requires
        d < 16,
    ensures
        c == hex_digit(d),
{
    if d < 10 {
        (0x30 + d) as char
    } else {
        (0x41 + d - 10) as char
    }
}

/// Percent-encodes a path for use inside a URL. Works on the UTF-8 bytes
/// of the path, so a character outside ASCII becomes one escape per byte.
pub fn percent_encode_path(path: &str) -> (encoded: String)
    ensures
        encoded@ == percent_encode(encode_utf8(path@)),
{
    let bytes = path.as_bytes();
    let mut encoded = String::new();
    let mut i: usize = 0;
    while i < bytes.len()
        invariant
            i <= bytes@.len(),
            encoded@ == percent_encode(bytes@.take(i as int)),
        decreases bytes@.len() - i,
    {
        let b: u8 = bytes[i];
        proof {
            assert(bytes@.take(i + 1).drop_last() =~= bytes@.take(i as int));
            assert(bytes@.take(i + 1).last() == b);
        }
        if unreserved(b) {
            encoded.push(b as char);
        } else {
            encoded.push('%');
            encoded.push(hex_char(b / 16));
            encoded.push(hex_char(b % 16));
        }
        assert(encoded@ =~= percent_encode(bytes@.take(i as int)) + encode_byte(b));
        i = i + 1;
    }
    assert(bytes@.take(i as int) =~= bytes@);
    encoded
}

/// Root of the drive that the engine writes to.
pub const BASE_URL: &'static str = "https://graph.microsoft.com/v1.0/me";

/// The URL at which an upload session for `path` is asked for.
pub open spec fn session_url(path: Seq<char>) -> Seq<char> {
    BASE_URL@ + "/drive/root:"@ + percent_encode(encode_utf8(path)) + ":/createUploadSession"@
}

/// Builds the URL at which an upload session for `path` is asked for.
pub fn create_session_url(path: &str) -> (url: String)
    ensures
        url@ == session_url(path@),
{
    let mut url = String::from_str(BASE_URL);
    url.append("/drive/root:");
    let encoded = percent_encode_path(path);
    url.append(encoded.as_str());
    url.append(":/createUploadSession");
    url
}

} // verus!
