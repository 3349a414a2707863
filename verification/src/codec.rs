//! Decoders that this library does not hold itself: gzip from `flate2`,
//! ISO 8859-1 from `encoding`, and the standard library's check of UTF-8.
//! What is stated of them here is taken on trust.

use encoding::all::ISO_8859_1;
use encoding::{DecoderTrap, Encoding};
use flate2::read::GzDecoder;
use std::borrow::Cow;
use std::io::Read;
use std::str::Utf8Error;
use vstd::prelude::*;
use vstd::utf8::{decode_utf8, valid_utf8};

verus! {

/// The error of a reader of the standard library.
#[verifier::external_type_specification]
#[verifier::external_body]
pub struct ExIoError(std::io::Error);

/// The error of the standard library's check of UTF-8.
#[verifier::external_type_specification]
#[verifier::external_body]
pub struct ExUtf8Error(Utf8Error);

/// The bytes that `flate2` reads out of the gzip member at the start of
/// `data`, or `None` where it reports an error before that member ends.
pub uninterp spec fn gunzip(data: Seq<u8>) -> Option<Seq<u8>>;

/// Each byte as the character with that code, which is how ISO 8859-1 reads
/// it.
pub open spec fn latin1(bytes: Seq<u8>) -> Seq<char> {
    bytes.map_values(|b: u8| b as char)
}

/// `flate2::read::GzDecoder` over `data`, read to its end with `read_to_end`.
/// The decoder reads one gzip member and then reports the end; what it
/// returns depends on `data` alone, and `gunzip` is the name of it.
#[verifier::external_body]
pub(crate) fn gzip_decode(data: &[u8]) -> (r: Result<Vec<u8>, std::io::Error>)
    ensures
        match r {
            Ok(bytes) => gunzip(data@) == Some(bytes@),
            Err(_) => gunzip(data@) is None,
        },
{
    let mut bytes = Vec::new();
    match GzDecoder::new(data).read_to_end(&mut bytes) {
        Ok(_) => Ok(bytes),
        Err(e) => Err(e),
    }
}

/// `decode` of `encoding::all::ISO_8859_1`, with `DecoderTrap::Strict`. The
/// encoding maps every byte to the character with the same code, so the call
/// never fails.
#[verifier::external_body]
pub(crate) fn latin1_decode(data: &[u8]) -> (r: Result<String, Cow<'static, str>>)
    ensures
        r is Ok,
        r->Ok_0@ == latin1(data@),
{
    ISO_8859_1.decode(data, DecoderTrap::Strict)
}

/// `str::from_utf8` succeeds on the byte sequences that are UTF-8, and on
/// those it returns the text that they encode.
pub assume_specification[ std::str::from_utf8 ](v: &[u8]) -> (r: Result<&str, Utf8Error>)
    ensures
        match r {
            Ok(text) => valid_utf8(v@) && text@ == decode_utf8(v@),
            Err(_) => !valid_utf8(v@),
        },
;

} // verus!
