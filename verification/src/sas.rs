//! Shared Access Signature tokens: `SharedAccessSignature sr=…&sig=…&se=…&skn=…`.

use vstd::prelude::*;
use vstd::utf8::encode_utf8;
use crate::num::{decimal, push_decimal};
use crate::text::{ascii_lower, to_lowercase};
use base64::Engine;
use hmac::Mac;

verus! {

/// Whether a byte is left as it is by URL encoding: ASCII letters, digits, `-_.~`.
pub open spec fn is_unreserved(b: u8) -> bool {
    (0x30 <= b && b <= 0x39) || (0x41 <= b && b <= 0x5a) || (0x61 <= b && b <= 0x7a) || b == 0x2d
        || b == 0x2e || b == 0x5f || b == 0x7e
}

/// An upper-case hexadecimal digit.
pub open spec fn hex_upper(d: int) -> char {
    if d < 10 {
        (48 + d) as char
    } else {
        (55 + d) as char
    }
}

/// The URL encoding of one byte.
pub open spec fn percent_byte(b: u8) -> Seq<char> {
    if is_unreserved(b) {
        seq![b as char]
    } else {
        seq!['%', hex_upper(b as int / 16), hex_upper(b as int % 16)]
    }
}

/// Percent-encoding of a byte string: every byte but ASCII letters, digits and `-_.~`
/// written as `%XX`.
pub open spec fn percent_encoded(b: Seq<u8>) -> Seq<char>
    decreases b.len(),
{
    if b.len() == 0 {
        Seq::empty()
    } else {
        percent_encoded(b.drop_last()) + percent_byte(b.last())
    }
}

/// `urlencoding::encode`: percent-encodes the UTF-8 bytes of `s`, keeping ASCII
/// letters, digits and `-_.~`.
#[verifier::external_body]
pub(crate) fn url_encode(s: &str) -> (r: String)
    ensures
        r@ == percent_encoded(encode_utf8(s@)),
{
    urlencoding::encode(s).into_owned()
}

/// The character for a 6-bit value in the standard base64 alphabet.
pub open spec fn b64_char(i: int) -> char {
    if i < 26 {
        (65 + i) as char
    } else if i < 52 {
        (71 + i) as char
    } else if i < 62 {
        (i - 4) as char
    } else if i == 62 {
        '+'
    } else {
        '/'
    }
}

/// Standard base64 (RFC 4648 alphabet, `=` padding) of a byte string.
pub open spec fn base64_standard(b: Seq<u8>) -> Seq<char>
    decreases b.len(),
{
    if b.len() == 0 {
        Seq::empty()
    } else if b.len() == 1 {
        seq![b64_char(b[0] as int / 4), b64_char((b[0] as int % 4) * 16), '=', '=']
    } else if b.len() == 2 {
        seq![
            b64_char(b[0] as int / 4),
            b64_char((b[0] as int % 4) * 16 + b[1] as int / 16),
            b64_char((b[1] as int % 16) * 4),
            '=',
        ]
    } else {
        seq![
            b64_char(b[0] as int / 4),
            b64_char((b[0] as int % 4) * 16 + b[1] as int / 16),
            b64_char((b[1] as int % 16) * 4 + b[2] as int / 64),
            b64_char(b[2] as int % 64),
        ] + base64_standard(b.skip(3))
    }
}

/// `base64::engine::general_purpose::STANDARD.encode`: standard alphabet with padding.
#[verifier::external_body]
pub(crate) fn base64_encode(b: &[u8]) -> (r: String)
    ensures
        r@ == base64_standard(b@),
{
    base64::engine::general_purpose::STANDARD.encode(b)
}

/// HMAC-SHA256 of `msg` under `key`.
pub uninterp spec fn hmac_sha256_spec(key: Seq<u8>, msg: Seq<u8>) -> Seq<u8>;

/// `hmac::Hmac::<sha2::Sha256>`: keyed with `key` (any length is accepted), fed `msg`,
/// finalized. Claims the result is the named value, 32 bytes long.
#[verifier::external_body]
pub(crate) fn hmac_sha256(key: &[u8], msg: &[u8]) -> (r: Vec<u8>)
    ensures
        r@ == hmac_sha256_spec(key@, msg@),
        r@.len() == 32,
{
    let mut mac = <hmac::Hmac<sha2::Sha256> as Mac>::new_from_slice(key).unwrap();
    mac.update(msg);
    mac.finalize().into_bytes().to_vec()
}

/// How long a token stays valid, in seconds.
pub open spec fn token_lifetime() -> int {
    3600
}

/// The expiry written into a token signed at `now` (seconds since the UNIX epoch).
pub open spec fn expiry_at(now: u64) -> u64 {
    if now + token_lifetime() <= u64::MAX {
        (now + token_lifetime()) as u64
    } else {
        u64::MAX
    }
}

/// The string that gets signed: the encoded resource, a newline, the expiry.
pub open spec fn string_to_sign(sr: Seq<char>, expiry: u64) -> Seq<char> {
    sr + seq!['\n'] + decimal(expiry as nat)
}

/// The token for `uri`, expiring at `expiry`, signed with `key` under the name `key_name`.
pub open spec fn sas_token_spec(key: Seq<char>, key_name: Seq<char>, uri: Seq<char>, expiry: u64) -> Seq<char> {
    sas_token_lower(key, key_name, crate::text::lowercase(uri), expiry)
}

/// The token for a URI whose lower-cased form is `lower`.
pub open spec fn sas_token_lower(key: Seq<char>, key_name: Seq<char>, lower: Seq<char>, expiry: u64) -> Seq<char> {
    let sr = percent_encoded(encode_utf8(lower));
    let sig = base64_standard(hmac_sha256_spec(encode_utf8(key), encode_utf8(string_to_sign(sr, expiry))));
    "SharedAccessSignature sr="@ + sr + "&sig="@ + percent_encoded(encode_utf8(sig)) + "&se="@
        + decimal(expiry as nat) + "&skn="@ + key_name
}

/// The SAS token for `uri` under `key`/`key_name`, expiring `token_lifetime` seconds
/// after `now`.
pub fn sas_token_at(key: &str, key_name: &str, uri: &str, now: u64) -> (r: String)
    ensures
        r@ == sas_token_spec(key@, key_name@, uri@, expiry_at(now)),
        vstd::utf8::is_ascii_chars(uri@) ==> r@ == sas_token_lower(
            key@,
            key_name@,
            ascii_lower(uri@),
            expiry_at(now),
        ),
{
    let expiry: u64 = if now <= u64::MAX - 3600 {
        now + 3600
    } else {
        u64::MAX
    };
    let lower = to_lowercase(uri);
    let sr = url_encode(lower.as_str());
    let mut to_sign = sr.clone();
    to_sign.append("\n");
    push_decimal(&mut to_sign, expiry);
    let mac = hmac_sha256(key.as_bytes(), to_sign.as_str().as_bytes());
    let sig = base64_encode(mac.as_slice());
    let mut token = String::from_str("SharedAccessSignature sr=");
    token.append(sr.as_str());
    token.append("&sig=");
    let sig_enc = url_encode(sig.as_str());
    token.append(sig_enc.as_str());
    token.append("&se=");
    push_decimal(&mut token, expiry);
    token.append("&skn=");
    token.append(key_name);
    proof {
        reveal_strlit("\n");
        assert(to_sign@ =~= string_to_sign(sr@, expiry));
    }
    token
}


/// Lower-casing an ASCII URI again changes nothing, so for ASCII URIs a URI and its
/// lower-cased form are signed alike.
pub proof fn lemma_ascii_lower_idempotent(u: Seq<char>)
    requires
        vstd::utf8::is_ascii_chars(u),
    ensures
        vstd::utf8::is_ascii_chars(ascii_lower(u)),
        ascii_lower(ascii_lower(u)) == ascii_lower(u),
{
    let l = ascii_lower(u);
    assert forall|i: int| 0 <= i < l.len() implies '\0' <= #[trigger] l[i] <= '\u{7f}' by {
        assert('\0' <= u[i] <= '\u{7f}');
    }
    assert(ascii_lower(l) =~= l);
}

} // verus!
