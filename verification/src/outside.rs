//! The calls into other crates, each with what is believed of it.
//!
//! Nothing in this file is proved. A name without a definition stands for what the function of
//! another crate returns; the contracts elsewhere speak of it where they rest on that result.
use base64::Engine;
use chrono::Datelike;
use flate2::read::GzDecoder;
use flate2::write::GzEncoder;
use md5::Digest;
use rand::distr::SampleString;
use std::io::Read;
use std::io::Write;
use vstd::prelude::*;
use vstd::utf8::*;

use crate::media_reference_manager;
use crate::suggestion;
use crate::text;

verus! {

/// The SHA-256 digest of some bytes.
pub uninterp spec fn sha256_digest(data: Seq<u8>) -> Seq<u8>;

/// `sha2::Sha256`, fed once: the digest of the bytes, which is 32 bytes long.
#[verifier::external_body]
pub(crate) fn sha256(data: &[u8]) -> (r: Vec<u8>)
    ensures
        r@ == sha256_digest(data@),
        r@.len() == 32,
{
    sha2::Sha256::digest(data).to_vec()
}

/// A digit of the hexadecimal notation with small letters.
pub open spec fn is_lower_hex(c: char) -> bool {
    ('0' <= c && c <= '9') || ('a' <= c && c <= 'f')
}

/// The MD5 digest of some bytes in hexadecimal notation.
pub uninterp spec fn md5_hex_digest(data: Seq<u8>) -> Seq<char>;

/// `md5::Md5`, fed once, and its digest formatted with `{:x}`: 32 hexadecimal digits in small
/// letters.
#[verifier::external_body]
pub(crate) fn md5_hex(data: &[u8]) -> (r: String)
    ensures
        r@ == md5_hex_digest(data@),
        r@.len() == 32,
        forall|i: int| 0 <= i < 32 ==> is_lower_hex(#[trigger] r@[i]),
{
    format!("{:x}", md5::Md5::digest(data))
}

/// What `argon2::verify_encoded` says of an encoded hash and a password on a machine whose addresses
/// have `width` bits, where memory allows the hash to be computed: whether they fit, or the text of
/// its error. The largest memory cost that it accepts depends on the width.
pub uninterp spec fn argon2_verdict(
    encoded: Seq<char>,
    password: Seq<u8>,
    width: nat,
) -> Result<bool, Seq<char>>;

/// `argon2::verify_encoded`: its verdict.
#[verifier::external_body]
pub(crate) fn argon2_verify(encoded: &str, password: &[u8]) -> (r: Result<bool, String>)
    ensures
        match r {
            Ok(fits) => argon2_verdict(encoded@, password@, usize::BITS as nat) == Ok::<
                bool,
                Seq<char>,
            >(fits),
            Err(e) => argon2_verdict(encoded@, password@, usize::BITS as nat) == Err::<
                bool,
                Seq<char>,
            >(e@),
        },
{
    argon2::verify_encoded(encoded, password).map_err(|e| e.to_string())
}

/// A letter from A to Z in either case, or a decimal digit.
pub open spec fn is_token_char(c: char) -> bool {
    ('A' <= c && c <= 'Z') || ('a' <= c && c <= 'z') || ('0' <= c && c <= '9')
}

/// `rand`'s `Alphanumeric::sample_string` with the thread's generator: as many characters as
/// asked for, each a letter or a digit. Which ones they are is left to chance. No string is longer
/// than the largest `isize`.
#[verifier::external_body]
pub(crate) fn random_alphanumeric(length: usize) -> (r: String)
    requires
        length <= isize::MAX,
    ensures
        r@.len() == length,
        forall|i: int| 0 <= i < length ==> is_token_char(#[trigger] r@[i]),
{
    rand::distr::Alphanumeric.sample_string(&mut rand::rng(), length)
}

/// What `ammonia::clean` makes of an HTML fragment.
pub uninterp spec fn sanitized_html(fragment: Seq<char>) -> Seq<char>;

/// `ammonia::clean`: the sanitized fragment.
#[verifier::external_body]
pub(crate) fn sanitize_html(fragment: &str) -> (r: String)
    ensures
        r@ == sanitized_html(fragment@),
{
    ammonia::clean(fragment)
}

/// What the capture group `group` holds in each match that `Regex::captures_iter` finds in
/// `text`, in the order of the matches; nothing where the pattern does not compile.
pub uninterp spec fn regex_groups(pattern: Seq<char>, text: Seq<char>, group: nat) -> Option<
    Seq<Option<Seq<char>>>,
>;

/// `regex::Regex::captures_iter`, one group of each match. What a group captures is a contiguous
/// piece of the text. Whether a very large pattern compiles may depend on the machine, so this is
/// for the patterns of this library only.
#[verifier::external_body]
pub(crate) fn regex_captures(pattern: &str, text: &str, group: usize) -> (r: Option<
    Vec<Option<String>>,
>)
    requires
        media_reference_manager::is_reference_pattern(pattern@),
    ensures
        match r {
            Some(found) => regex_groups(pattern@, text@, group as nat) == Some(
                found@.map_values(|m: Option<String>| option_text(m)),
            ) && (forall|i: int|
                0 <= i < found@.len() ==> (#[trigger] found@[i] matches Some(m) ==> text::is_part_of(
                    m@,
                    text@,
                ))),
            None => regex_groups(pattern@, text@, group as nat) is None,
        },
{
    let re = regex::Regex::new(pattern).ok()?;
    Some(
        re.captures_iter(text).map(|c| c.get(group).map(|m| m.as_str().to_string())).collect(),
    )
}

/// The text that an optional string holds.
pub open spec fn option_text(s: Option<String>) -> Option<Seq<char>> {
    match s {
        Some(t) => Some(t@),
        None => None,
    }
}

/// What the named group holds in the first match that `Regex::captures` finds in `text`: the
/// outer option says whether there is a match, the inner one whether the group took part in it.
/// The text of the error where the pattern does not compile.
pub uninterp spec fn regex_first_group(
    pattern: Seq<char>,
    text: Seq<char>,
    group: Seq<char>,
) -> Result<Option<Option<Seq<char>>>, Seq<char>>;

/// `regex::Regex::captures`, one named group of the first match. What the group captures is a
/// contiguous piece of the text. Like `regex_captures` this is for a pattern of this library only.
#[verifier::external_body]
pub(crate) fn regex_first_capture(pattern: &str, text: &str, group: &str) -> (r: Result<
    Option<Option<String>>,
    String,
>)
    requires
        pattern@ == suggestion::OPTIONAL_TAG_PATTERN@,
    ensures
        match r {
            Ok(None) => regex_first_group(pattern@, text@, group@) == Ok::<
                Option<Option<Seq<char>>>,
                Seq<char>,
            >(None),
            Ok(Some(m)) => regex_first_group(pattern@, text@, group@) == Ok::<
                Option<Option<Seq<char>>>,
                Seq<char>,
            >(Some(option_text(m))) && (m matches Some(t) ==> text::is_part_of(t@, text@)),
            Err(e) => regex_first_group(pattern@, text@, group@) == Err::<
                Option<Option<Seq<char>>>,
                Seq<char>,
            >(e@),
        },
{
    let re = regex::Regex::new(pattern).map_err(|e| e.to_string())?;
    Ok(re.captures(text).map(|c| c.name(group).map(|m| m.as_str().to_string())))
}

/// `text` with the first match of the pattern replaced, as `Regex::replace` does it; the text of
/// the error where the pattern does not compile.
pub uninterp spec fn regex_replaced(
    pattern: Seq<char>,
    text: Seq<char>,
    replacement: Seq<char>,
) -> Result<Seq<char>, Seq<char>>;

/// `regex::Regex::replace`. With nothing in place of the match, what is left is the text without
/// one contiguous piece, which is empty where nothing matched. Like `regex_captures` this is for a
/// pattern of this library only.
#[verifier::external_body]
pub(crate) fn regex_replace(pattern: &str, text: &str, replacement: &str) -> (r: Result<
    String,
    String,
>)
    requires
        pattern@ == suggestion::SUFFIX_PATTERN@,
    ensures
        match r {
            Ok(t) => regex_replaced(pattern@, text@, replacement@) == Ok::<Seq<char>, Seq<char>>(
                t@,
            ),
            Err(e) => regex_replaced(pattern@, text@, replacement@) == Err::<Seq<char>, Seq<char>>(
                e@,
            ),
        },
        r matches Ok(t) ==> (replacement@.len() == 0 ==> exists|i: int, j: int|
            #![trigger text@.take(i), text@.skip(j)]
            0 <= i <= j <= text@.len() && t@ == text@.take(i) + text@.skip(j)),
{
    let re = regex::Regex::new(pattern).map_err(|e| e.to_string())?;
    Ok(re.replace(text, replacement).into_owned())
}

/// The Base64 text of some bytes, with the standard alphabet and padding.
pub uninterp spec fn base64_text(data: Seq<u8>) -> Seq<char>;

/// The bytes that a Base64 text stands for, with the standard alphabet and padding; nothing where
/// it is not such a text.
pub uninterp spec fn base64_bytes(text: Seq<char>) -> Option<Seq<u8>>;

/// `base64`'s standard engine, `encode`: the text, which decodes to the bytes again.
#[verifier::external_body]
pub(crate) fn base64_encode(data: &[u8]) -> (r: String)
    ensures
        r@ == base64_text(data@),
        base64_bytes(r@) == Some(data@),
{
    base64::engine::general_purpose::STANDARD.encode(data)
}

/// `base64`'s standard engine, `decode`.
#[verifier::external_body]
pub(crate) fn base64_decode(text: &str) -> (r: Option<Vec<u8>>)
    ensures
        match r {
            Some(data) => base64_bytes(text@) == Some(data@),
            None => base64_bytes(text@) is None,
        },
{
    base64::engine::general_purpose::STANDARD.decode(text).ok()
}

/// Some bytes as a gzip stream of the default compression level.
pub uninterp spec fn gzip_stream(data: Seq<u8>) -> Seq<u8>;

/// The text that a gzip stream unpacks to; nothing where it is no such stream, or where what it
/// unpacks to is not UTF-8.
pub uninterp spec fn gunzipped_text(stream: Seq<u8>) -> Option<Seq<char>>;

/// `flate2::write::GzEncoder` at the default level: the stream, which unpacks to the bytes again.
#[verifier::external_body]
pub(crate) fn gzip(data: &[u8]) -> (r: Vec<u8>)
    ensures
        r@ == gzip_stream(data@),
        valid_utf8(data@) ==> gunzipped_text(r@) == Some(decode_utf8(data@)),
        !valid_utf8(data@) ==> gunzipped_text(r@) is None,
{
    let mut encoder = GzEncoder::new(Vec::new(), flate2::Compression::default());
    encoder.write_all(data).unwrap();
    encoder.finish().unwrap()
}

/// `flate2::read::GzDecoder`, read to its end as a string.
#[verifier::external_body]
pub(crate) fn gunzip_text(stream: &[u8]) -> (r: Option<String>)
    ensures
        match r {
            Some(t) => gunzipped_text(stream@) == Some(t@),
            None => gunzipped_text(stream@) is None,
        },
{
    let mut decoder = GzDecoder::new(stream);
    let mut text = String::new();
    decoder.read_to_string(&mut text).ok()?;
    Some(text)
}

/// The value of a hexadecimal digit in either case.
pub open spec fn hex_value(c: u8) -> Option<int> {
    if 48 <= c <= 57 {
        Some(c - 48)
    } else if 65 <= c <= 70 {
        Some(c - 55)
    } else if 97 <= c <= 102 {
        Some(c - 87)
    } else {
        None
    }
}

/// An even number of hexadecimal digits.
pub open spec fn is_hex(s: Seq<u8>) -> bool {
    s.len() % 2 == 0 && forall|i: int| 0 <= i < s.len() ==> hex_value(#[trigger] s[i]) is Some
}

/// The bytes that an even number of hexadecimal digits stands for.
pub open spec fn hex_bytes(s: Seq<u8>) -> Seq<u8> {
    Seq::new(
        s.len() / 2,
        |i: int| (16 * hex_value(s[2 * i])->0 + hex_value(s[2 * i + 1])->0) as u8,
    )
}

/// `hex::decode`: a byte for each two digits; nothing where the length is odd or a character is
/// not a hexadecimal digit.
#[verifier::external_body]
pub(crate) fn hex_decode(text: &str) -> (r: Option<Vec<u8>>)
    ensures
        match r {
            Some(data) => is_hex(encode_utf8(text@)) && data@ == hex_bytes(encode_utf8(text@)),
            None => !is_hex(encode_utf8(text@)),
        },
{
    hex::decode(text).ok()
}

/// The number of the UUID that a text writes in one of the forms that `Uuid::parse_str` knows;
/// the text of its error otherwise.
pub uninterp spec fn uuid_number(text: Seq<char>) -> Result<u128, Seq<char>>;

/// `uuid::Uuid::parse_str`, with the result as a number.
#[verifier::external_body]
pub(crate) fn uuid_parse(text: &str) -> (r: Result<u128, String>)
    ensures
        match r {
            Ok(n) => uuid_number(text@) == Ok::<u128, Seq<char>>(n),
            Err(e) => uuid_number(text@) == Err::<u128, Seq<char>>(e@),
        },
{
    uuid::Uuid::parse_str(text).map(|u| u.as_u128()).map_err(|e| e.to_string())
}

/// `uuid::Uuid::new_v4` and its `to_string`: 36 characters, which `Uuid::parse_str` reads as a
/// UUID again. Which one it is is left to chance.
#[verifier::external_body]
pub(crate) fn random_uuid() -> (r: String)
    ensures
        r@.len() == 36,
        uuid_number(r@) is Ok,
{
    uuid::Uuid::new_v4().to_string()
}

/// What `svg_hush`'s filter has written of an SVG file when it stops, with the embedded images of
/// the standard kinds let through. Where it meets an error it has written what came before.
pub uninterp spec fn svg_filtered(data: Seq<u8>) -> Seq<u8>;

/// `svg_hush::Filter::filter` with `data_url_filter::allow_standard_images`: what it has written,
/// whether or not it reports an error.
#[verifier::external_body]
pub(crate) fn svg_filter(data: &[u8]) -> (r: Vec<u8>)
    ensures
        r@ == svg_filtered(data@),
{
    let mut out = Vec::new();
    let mut input = data;
    let mut filter = svg_hush::Filter::new();
    filter.set_data_url_filter(svg_hush::data_url_filter::allow_standard_images);
    filter.filter(&mut input, &mut out).unwrap_or_default();
    out
}

/// A list of texts as a JSON array.
pub uninterp spec fn json_array(list: Seq<Seq<char>>) -> Seq<char>;

/// `serde_json::to_string` of a list of strings, which does not fail.
#[verifier::external_body]
pub(crate) fn json_of_strings(list: &Vec<String>) -> (r: String)
    ensures
        r@ == json_array(text::texts(list@)),
{
    serde_json::to_string(list).unwrap()
}

/// The year and the month, counted from one, in which a moment in UTC lies; nothing where the
/// calendar does not reach it.
pub uninterp spec fn calendar_month(secs: int) -> Option<(int, int)>;

/// `chrono`'s `DateTime::from_timestamp`, `year` and `month`.
#[verifier::external_body]
pub(crate) fn year_and_month(secs: i64) -> (r: Option<(i32, u32)>)
    ensures
        match r {
            Some((year, month)) => calendar_month(secs as int) == Some((year as int, month as int))
                && 1 <= month <= 12,
            None => calendar_month(secs as int) is None,
        },
{
    chrono::DateTime::from_timestamp(secs, 0).map(|t| (t.year(), t.month()))
}

/// A moment in UTC as RFC 3339 writes it; nothing where the calendar does not reach it.
pub uninterp spec fn rfc3339_text(secs: int, nanos: nat) -> Option<Seq<char>>;

/// `chrono`'s `DateTime::from_timestamp` and `to_rfc3339`.
#[verifier::external_body]
pub(crate) fn rfc3339(secs: i64, nanos: u32) -> (r: Option<String>)
    ensures
        match r {
            Some(t) => rfc3339_text(secs as int, nanos as nat) == Some(t@),
            None => rfc3339_text(secs as int, nanos as nat) is None,
        },
{
    chrono::DateTime::from_timestamp(secs, nanos).map(|t| t.to_rfc3339())
}

/// A text in small letters, as Unicode has them.
pub uninterp spec fn lowercase(s: Seq<char>) -> Seq<char>;

/// `str::to_lowercase` of std.
#[verifier::external_body]
pub(crate) fn to_lowercase(s: &str) -> (r: String)
    ensures
        r@ == lowercase(s@),
{
    s.to_lowercase()
}

/// A letter or a number, as Unicode has them.
pub uninterp spec fn alphanumeric(c: char) -> bool;

/// `char::is_alphanumeric` of std.
#[verifier::external_body]
pub(crate) fn is_alphanumeric(c: char) -> (r: bool)
    ensures
        r == alphanumeric(c),
{
    c.is_alphanumeric()
}

/// White space, as Unicode has it.
pub uninterp spec fn whitespace(c: char) -> bool;

/// `char::is_whitespace` of std.
#[verifier::external_body]
pub(crate) fn is_whitespace(c: char) -> (r: bool)
    ensures
        r == whitespace(c),
{
    c.is_whitespace()
}

/// `String::from_utf8` of std: the text that the bytes encode; nothing where they are not UTF-8.
#[verifier::external_body]
pub(crate) fn text_from_utf8(data: Vec<u8>) -> (r: Option<String>)
    ensures
        match r {
            Some(t) => valid_utf8(data@) && t@ == decode_utf8(data@),
            None => !valid_utf8(data@),
        },
{
    String::from_utf8(data).ok()
}

} // verus!
