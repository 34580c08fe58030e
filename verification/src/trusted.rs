//! What this library takes on trust from the crates it calls.
//!
//! Nothing here is proved. Each item names the outside function it stands
//! for and says what is claimed of it.

use vstd::prelude::*;
use std::fmt::Write;

verus! {

/// `std::io::Error`, the error of reading and writing.
#[verifier::external_type_specification]
#[verifier::external_body]
pub struct ExIoError(std::io::Error);

/// `std::str::Utf8Error`, the error of reading bytes that are no UTF-8 text.
#[verifier::external_type_specification]
#[verifier::external_body]
pub struct ExUtf8Error(std::str::Utf8Error);

/// `strum::ParseError`, the error `strum` gives when no variant matches.
#[verifier::external_type_specification]
#[verifier::external_body]
pub struct ExParseError(strum::ParseError);

/// `strum::ParseError::VariantNotFound`. Nothing is claimed of the value.
#[verifier::external_body]
pub(crate) fn variant_not_found() -> strum::ParseError {
    strum::ParseError::VariantNotFound
}

/// The text that `str::to_uppercase` gives for a text: each character
/// replaced by its upper case form, as Unicode defines it.
pub uninterp spec fn uppercase(s: Seq<char>) -> Seq<char>;

/// `str::to_uppercase`. The result is the upper case form of the argument.
#[verifier::external_body]
pub(crate) fn to_uppercase(s: &str) -> (r: String)
    ensures
        r@ == uppercase(s@),
{
    s.to_uppercase()
}

/// `fnv::FnvHasher`, the hasher of the maps below. It starts from a fixed
/// state, so a map that uses it hashes a key the same way in every run.
#[verifier::external_type_specification]
#[verifier::external_body]
pub struct ExFnvHasher(fnv::FnvHasher);

/// `std::hash::BuildHasherDefault`, which makes the hashers of such a map.
#[verifier::external_type_specification]
#[verifier::external_body]
#[verifier::reject_recursive_types(H)]
pub struct ExBuildHasherDefault<H>(std::hash::BuildHasherDefault<H>);

/// `FnvHashMap::default`. The new map is empty.
#[verifier::external_body]
pub(crate) fn fnv_map_new<V>() -> (r: fnv::FnvHashMap<i64, V>)
    ensures
        r@.dom() == Set::<i64>::empty(),
{
    fnv::FnvHashMap::default()
}

/// `HashMap::insert` on an `FnvHashMap`. Afterwards the map holds `value`
/// under `key`, and under every other key what it held before.
#[verifier::external_body]
pub(crate) fn fnv_map_insert<V>(entries: &mut fnv::FnvHashMap<i64, V>, key: i64, value: V)
    ensures
        final(entries)@ == old(entries)@.insert(key, value),
{
    entries.insert(key, value);
}

/// `HashMap::get` on an `FnvHashMap`. The result is what the map holds
/// under `key`, and `None` where it holds nothing under it.
#[verifier::external_body]
pub(crate) fn fnv_map_get<V>(entries: &fnv::FnvHashMap<i64, V>, key: i64) -> (r: Option<&V>)
    ensures
        match r {
            Some(value) => entries@.contains_key(key) && *value == entries@[key],
            None => !entries@.contains_key(key),
        },
{
    entries.get(&key)
}

/// The text that `chrono` writes for a time, given in seconds since the
/// start of 1970, when it formats the time by `pattern`. `None` where
/// `chrono` has no date for the number of seconds, and where its formatter
/// reports an error, as it does for a pattern that it cannot read.
pub uninterp spec fn formatted_time(seconds: i64, pattern: Seq<char>) -> Option<Seq<char>>;

/// `chrono::DateTime::from_timestamp`, then `format` with `pattern`, written
/// into a text. The result is the text that the formatter writes; `None`
/// where `from_timestamp` gives `None`, and where the formatter reports an
/// error.
#[verifier::external_body]
pub(crate) fn format_time(seconds: i64, pattern: &str) -> (r: Option<String>)
    ensures
        r matches Some(text) ==> formatted_time(seconds, pattern@) == Some(text@),
        r is None ==> formatted_time(seconds, pattern@) is None,
{
    let time = chrono::DateTime::from_timestamp(seconds, 0)?;
    let mut text = String::new();
    match write!(text, "{}", time.format(pattern)) {
        Ok(_) => Some(text),
        Err(_) => None,
    }
}

/// The bytes that a gzip decoder of `flate2` reads out of `packed`, or
/// `None` where it reports an error.
pub uninterp spec fn gunzipped(packed: Seq<u8>) -> Option<Seq<u8>>;

/// The bytes that the gzip encoder of `flate2` writes for `data` at its
/// default level, or `None` where it reports an error. The encoder writes a
/// header that is the same at every time and on every machine.
pub uninterp spec fn gzipped(data: Seq<u8>) -> Option<Seq<u8>>;

/// `flate2::write::GzEncoder` at the default level, fed `data` and
/// finished. The result is what the encoder writes, and an error exactly
/// where it reports one. The decoder reads `data` out of what the encoder
/// wrote.
#[verifier::external_body]
pub(crate) fn gzip(data: &[u8]) -> (r: Result<Vec<u8>, std::io::Error>)
    ensures
        r matches Ok(packed) ==> gzipped(data@) == Some(packed@) && gunzipped(packed@) == Some(
            data@,
        ),
        r is Err ==> gzipped(data@) is None,
{
    let mut encoder = flate2::write::GzEncoder::new(Vec::new(), flate2::Compression::default());
    std::io::Write::write_all(&mut encoder, data)?;
    encoder.finish()
}

/// `flate2::read::GzDecoder` over `packed`, read to its end. The result is
/// what the decoder reads, and an error exactly where it reports one.
#[verifier::external_body]
pub(crate) fn gunzip(packed: &[u8]) -> (r: Result<Vec<u8>, std::io::Error>)
    ensures
        r matches Ok(data) ==> gunzipped(packed@) == Some(data@),
        r is Err ==> gunzipped(packed@) is None,
{
    let mut decoder = flate2::read::GzDecoder::new(packed);
    let mut data = Vec::new();
    std::io::Read::read_to_end(&mut decoder, &mut data)?;
    Ok(data)
}

/// `std::str::from_utf8`. It succeeds exactly on valid UTF-8, and the text
/// it gives is the one that the bytes decode to.
#[verifier::external_body]
pub(crate) fn text_from_utf8(bytes: &[u8]) -> (r: Result<&str, std::str::Utf8Error>)
    ensures
        r matches Ok(text) ==> vstd::utf8::valid_utf8(bytes@) && text@ == vstd::utf8::decode_utf8(
            bytes@,
        ),
        r is Err ==> !vstd::utf8::valid_utf8(bytes@),
{
    std::str::from_utf8(bytes)
}

} // verus!
