//! A response of HTTP/1.0 or HTTP/1.1, read from the bytes that a server
//! sent: status, header fields, and the body as text.

use crate::chars::{ascii_lowercase, line_bounds, lines, lowercase_string, second_token,
    second_token_bounds, trim, trim_bounds};
use crate::codec::{gunzip, gzip_decode, latin1, latin1_decode};
use crate::headers::{value_of, with_field, HeaderList, HeaderMap};
use crate::number::{parse_number, parse_unsigned};
use crate::text::{bytes_occur_at, chars_eq, chars_of, chars_start_with, find, find_bytes,
    find_chars, split_once, starts_with, string_of};
use vstd::prelude::*;
use vstd::slice::slice_subrange;
use vstd::utf8::{decode_utf8, valid_utf8};

verus! {

#[derive(Clone, Copy, Debug, PartialEq, Eq, Structural)]
pub enum HttpStatus {
    /// 200
    OK,
    /// 301
    MovedPermanently,
    /// 302
    Found,
    /// 307
    TemporaryRedirect,
    /// 308
    PermanentRedirect,
    /// 404
    NotFound,
    /// Any other code, and a status line without a code.
    Unsupported,
}

impl HttpStatus {
    /// The status asks to look elsewhere.
    pub open spec fn redirects(self) -> bool {
        self == HttpStatus::MovedPermanently || self == HttpStatus::Found || self
            == HttpStatus::TemporaryRedirect || self == HttpStatus::PermanentRedirect
    }
}

/// Why the bytes of a response could not be read.
#[derive(Clone, Copy, Debug, PartialEq, Eq, Structural)]
pub enum DecodeError {
    /// The body is said to be chunked and is not made of chunks.
    MalformedChunk,
    /// The body is said to be encoded and is no gzip.
    UnsupportedContentEncoding,
    /// The header block is no UTF-8.
    UnsupportedCharset,
}

/// The two bytes that end a line in HTTP.
pub open spec fn crlf() -> Seq<u8> {
    seq![13u8, 10u8]
}

/// The four bytes that end the header block.
pub open spec fn separator() -> Seq<u8> {
    seq![13u8, 10u8, 13u8, 10u8]
}

/// The header block of a response: what stands before the first empty line,
/// or all of it where there is none.
pub open spec fn head_of(bytes: Seq<u8>) -> Seq<u8> {
    match split_once(bytes, separator()) {
        Some((head, _)) => head,
        None => bytes,
    }
}

/// The body of a response as it was sent: what stands behind the first empty
/// line.
pub open spec fn raw_body_of(bytes: Seq<u8>) -> Seq<u8> {
    match split_once(bytes, separator()) {
        Some((_, body)) => body,
        None => Seq::empty(),
    }
}

/// The status that a code stands for.
pub open spec fn status_of_code(code: Seq<char>) -> HttpStatus {
    if code == "200"@ {
        HttpStatus::OK
    } else if code == "301"@ {
        HttpStatus::MovedPermanently
    } else if code == "302"@ {
        HttpStatus::Found
    } else if code == "307"@ {
        HttpStatus::TemporaryRedirect
    } else if code == "308"@ {
        HttpStatus::PermanentRedirect
    } else if code == "404"@ {
        HttpStatus::NotFound
    } else {
        HttpStatus::Unsupported
    }
}

/// The status that a status line gives: its code is its second token.
pub open spec fn status_of_line(line: Seq<char>) -> HttpStatus {
    status_of_code(second_token(line))
}

/// The header field that a line holds: the name, in lower case, is what
/// stands before the first colon, and the value is the rest without the
/// white space around it.
pub open spec fn field_of_line(line: Seq<char>) -> Option<(Seq<char>, Seq<char>)> {
    match split_once(line, ":"@) {
        Some((name, value)) => Some((ascii_lowercase(name), trim(value))),
        None => None,
    }
}

/// The header fields that lines hold; a line without a colon holds none, and
/// of two fields with one name the later one stays.
pub open spec fn fields_of_lines(lines: Seq<Seq<char>>) -> HeaderList
    decreases lines.len(),
{
    if lines.len() == 0 {
        Seq::empty()
    } else {
        let before = fields_of_lines(lines.drop_last());
        match field_of_line(lines.last()) {
            Some((name, value)) => with_field(before, name, value),
            None => before,
        }
    }
}

/// The status and the header fields that the text of a header block gives.
pub open spec fn parse_head(text: Seq<char>) -> (HttpStatus, HeaderList) {
    let all = lines(text);
    if all.len() == 0 {
        (HttpStatus::Unsupported, Seq::empty())
    } else {
        (status_of_line(all[0]), fields_of_lines(all.skip(1)))
    }
}

/// The status and the header fields that a header block gives, which has to
/// be UTF-8.
pub open spec fn parse_head_bytes(head: Seq<u8>) -> Result<(HttpStatus, HeaderList), DecodeError> {
    if valid_utf8(head) {
        Ok(parse_head(decode_utf8(head)))
    } else {
        Err(DecodeError::UnsupportedCharset)
    }
}

/// The bytes that a chunked body carries. A chunk is its size in hexadecimal
/// digits, a line end, that many bytes, and a line end; a chunk of size zero
/// ends the body, whatever follows its size line.
pub open spec fn dechunk(body: Seq<u8>) -> Option<Seq<u8>>
    decreases body.len(),
{
    match find(body, crlf()) {
        None => None,
        Some(i) => match parse_unsigned(latin1(body.take(i as int)), 16, 0xffff_ffff_ffff_ffff) {
            None => None,
            Some(size) => {
                let data: int = i as int + 2;
                let next: int = data + size + 2;
                if size == 0 {
                    Some(Seq::empty())
                } else if next <= body.len() && body.subrange(data + size, next) == crlf() {
                    match dechunk(body.skip(next)) {
                        Some(rest) => Some(body.subrange(data, data + size) + rest),
                        None => None,
                    }
                } else {
                    None
                }
            },
        },
    }
}

/// Bytes as text: as UTF-8 where they are UTF-8, else as ISO 8859-1.
pub open spec fn text_of(bytes: Seq<u8>) -> Seq<char> {
    if valid_utf8(bytes) {
        decode_utf8(bytes)
    } else {
        latin1(bytes)
    }
}

/// The body without its transfer encoding: dechunked where the header fields
/// name a transfer encoding.
pub open spec fn transferred(raw: Seq<u8>, headers: HeaderList) -> Option<Seq<u8>> {
    if value_of(headers, "transfer-encoding"@) is Some {
        dechunk(raw)
    } else {
        Some(raw)
    }
}

/// The body without its content encoding: decompressed where the header
/// fields name a content encoding.
pub open spec fn content_of(bytes: Seq<u8>, headers: HeaderList) -> Option<Seq<u8>> {
    if value_of(headers, "content-encoding"@) is Some {
        gunzip(bytes)
    } else {
        Some(bytes)
    }
}

/// The body as text, for a body as it was sent and the header fields that
/// came with it.
pub open spec fn decode_body(raw: Seq<u8>, headers: HeaderList) -> Result<Seq<char>, DecodeError> {
    match transferred(raw, headers) {
        None => Err(DecodeError::MalformedChunk),
        Some(bytes) => match content_of(bytes, headers) {
            None => Err(DecodeError::UnsupportedContentEncoding),
            Some(content) => Ok(text_of(content)),
        },
    }
}

/// The number of seconds for which the header fields allow a response to be
/// kept: what follows `max-age=` as the value of `Cache-Control`, and zero
/// where that is no number or no such value is there.
pub open spec fn max_age_of(headers: HeaderList) -> u32 {
    match value_of(headers, "cache-control"@) {
        Some(value) => if starts_with(value, "max-age="@) {
            match parse_unsigned(value.skip("max-age="@.len() as int), 10, 0xffff_ffff) {
                Some(seconds) => seconds as u32,
                None => 0,
            }
        } else {
            0
        },
        None => 0,
    }
}

/// What a `Response` stands for.
pub struct ResponseView {
    pub status: HttpStatus,
    pub headers: HeaderList,
    pub body: Seq<char>,
}

/// The response that bytes stand for, or the reason why they stand for none.
pub open spec fn parse_response(bytes: Seq<u8>) -> Result<ResponseView, DecodeError> {
    match parse_head_bytes(head_of(bytes)) {
        Err(e) => Err(e),
        Ok((status, headers)) => match decode_body(raw_body_of(bytes), headers) {
            Err(e) => Err(e),
            Ok(body) => Ok(ResponseView { status, headers, body }),
        },
    }
}

#[derive(Debug)]
pub struct Response {
    pub status: HttpStatus,
    headers: HeaderMap,
    pub body: String,
}

impl View for Response {
    type V = ResponseView;

    closed spec fn view(&self) -> ResponseView {
        ResponseView { status: self.status, headers: self.headers@, body: self.body@ }
    }
}

impl Response {
    pub fn new(bytes: &[u8]) -> (r: Result<Self, DecodeError>)
        ensures
            match r {
                Ok(response) => parse_response(bytes@) == Ok::<ResponseView, DecodeError>(
                    response@,
                ),
                Err(e) => parse_response(bytes@) == Err::<ResponseView, DecodeError>(e),
            },
    {
        let end: [u8; 4] = [13, 10, 13, 10];
        assert(end@ =~= separator());
        let (head, raw) = match Self::find_subsequence(bytes, end.as_slice()) {
            Some(at) => (
                slice_subrange(bytes, 0, at),
                slice_subrange(bytes, at + end.len(), bytes.len()),
            ),
            None => (bytes, slice_subrange(bytes, bytes.len(), bytes.len())),
        };
        assert(head@ =~= head_of(bytes@));
        assert(raw@ =~= raw_body_of(bytes@));
        let (status, headers) = match HeaderParser::parse(head) {
            Ok(parsed) => parsed,
            Err(e) => return Err(e),
        };
        let body = match BodyParser::parse(raw, &headers) {
            Ok(body) => body,
            Err(e) => return Err(e),
        };
        Ok(Self { status, headers, body })
    }

    /// The status of the response.
    pub fn status(&self) -> (status: HttpStatus)
        ensures
            status == self@.status,
    {
        self.status
    }

    /// The body of the response, as text.
    pub fn body(&self) -> (body: &String)
        ensures
            body@ == self@.body,
    {
        &self.body
    }

    /// The response given up for its body.
    pub fn into_body(self) -> (body: String)
        ensures
            body@ == self@.body,
    {
        self.body
    }

    /// The value of the header field called `k`, whatever the case of the
    /// letters in `k`.
    pub fn header(&self, k: &str) -> (r: Option<&String>)
        ensures
            match r {
                Some(value) => value_of(self@.headers, ascii_lowercase(k@)) == Some(value@),
                None => value_of(self@.headers, ascii_lowercase(k@)) is None,
            },
    {
        let name = chars_of(k);
        assert(name@.subrange(0, name@.len() as int) =~= name@);
        let lower = lowercase_string(name.as_slice(), 0, name.len());
        self.headers.get(lower.as_str())
    }

    pub fn is_redirect(&self) -> (b: bool)
        ensures
            b == self@.status.redirects(),
    {
        match self.status {
            HttpStatus::MovedPermanently => true,
            HttpStatus::Found => true,
            HttpStatus::TemporaryRedirect => true,
            HttpStatus::PermanentRedirect => true,
            _ => false,
        }
    }

    /// The number of seconds for which the response may be kept.
    pub fn cache_max_age(&self) -> (seconds: u32)
        ensures
            seconds == max_age_of(self@.headers),
    {
        let value = match self.headers.get("cache-control") {
            Some(value) => chars_of(value.as_str()),
            None => return 0,
        };
        let prefix = chars_of("max-age=");
        if !chars_start_with(value.as_slice(), prefix.as_slice()) {
            return 0;
        }
        assert(value@.subrange(prefix@.len() as int, value@.len() as int) =~= value@.skip(
            prefix@.len() as int,
        ));
        match parse_number(value.as_slice(), prefix.len(), value.len(), 10, 0xffff_ffff) {
            Some(seconds) => seconds as u32,
            None => 0,
        }
    }

    /// Where `needle` first occurs in `haystack`.
    pub fn find_subsequence(haystack: &[u8], needle: &[u8]) -> (r: Option<usize>)
        ensures
            match r {
                Some(at) => find(haystack@, needle@) == Some(at as nat) && at + needle@.len()
                    <= haystack@.len() <= usize::MAX,
                None => find(haystack@, needle@) is None,
            },
    {
        find_bytes(haystack, needle, 0)
    }
}

pub struct HeaderParser {}

impl HeaderParser {
    pub fn parse(headers: &[u8]) -> (r: Result<(HttpStatus, HeaderMap), DecodeError>)
        ensures
            match r {
                Ok((status, fields)) => parse_head_bytes(headers@) == Ok::<
                    (HttpStatus, HeaderList),
                    DecodeError,
                >((status, fields@)),
                Err(e) => parse_head_bytes(headers@) == Err::<(HttpStatus, HeaderList), DecodeError>(
                    e,
                ),
            },
    {
        let text = match std::str::from_utf8(headers) {
            Ok(text) => chars_of(text),
            Err(_) => return Err(DecodeError::UnsupportedCharset),
        };
        let bounds = line_bounds(text.as_slice());
        let mut fields = HeaderMap::new();
        if bounds.len() == 0 {
            return Ok((HttpStatus::Unsupported, fields));
        }
        let ghost all = lines(text@);
        let status = Self::status_within(text.as_slice(), bounds[0].0, bounds[0].1);
        let mut k: usize = 1;
        assert(all.skip(1).take(0) =~= Seq::<Seq<char>>::empty());
        while k < bounds.len()
            invariant
                1 <= k <= bounds@.len() == all.len(),
                all == lines(text@),
                forall|j: int|
                    0 <= j < bounds@.len() ==> {
                        &&& (#[trigger] bounds@[j]).0 <= bounds@[j].1 <= text@.len()
                        &&& text@.subrange(bounds@[j].0 as int, bounds@[j].1 as int) == all[j]
                    },
                fields@ == fields_of_lines(all.skip(1).take(k - 1)),
            decreases bounds.len() - k,
        {
            let (from, to) = bounds[k];
            assert(all.skip(1).take(k as int).drop_last() =~= all.skip(1).take(k - 1));
            assert(all.skip(1).take(k as int).last() == all[k as int]);
            match Self::field_within(text.as_slice(), from, to) {
                Some((name, value)) => {
                    fields.insert(name, value);
                },
                None => {},
            }
            k += 1;
        }
        assert(all.skip(1).take(k - 1) =~= all.skip(1));
        Ok((status, fields))
    }

    pub fn parse_status(s: &str) -> (status: HttpStatus)
        ensures
            status == status_of_line(s@),
    {
        let line = chars_of(s);
        assert(line@.subrange(0, line@.len() as int) =~= line@);
        Self::status_within(line.as_slice(), 0, line.len())
    }

    pub fn split_into_key_value(s: &str) -> (r: Option<(String, String)>)
        ensures
            match r {
                Some((name, value)) => field_of_line(s@) == Some((name@, value@)),
                None => field_of_line(s@) is None,
            },
    {
        let line = chars_of(s);
        assert(line@.subrange(0, line@.len() as int) =~= line@);
        Self::field_within(line.as_slice(), 0, line.len())
    }

    /// The status that the status line `text[from..to]` gives.
    fn status_within(text: &[char], from: usize, to: usize) -> (status: HttpStatus)
        requires
            from <= to <= text@.len(),
        ensures
            status == status_of_line(text@.subrange(from as int, to as int)),
    {
        let (a, b) = second_token_bounds(text, from, to);
        let code = slice_subrange(text, a, b);
        if chars_eq(code, chars_of("200").as_slice()) {
            HttpStatus::OK
        } else if chars_eq(code, chars_of("301").as_slice()) {
            HttpStatus::MovedPermanently
        } else if chars_eq(code, chars_of("302").as_slice()) {
            HttpStatus::Found
        } else if chars_eq(code, chars_of("307").as_slice()) {
            HttpStatus::TemporaryRedirect
        } else if chars_eq(code, chars_of("308").as_slice()) {
            HttpStatus::PermanentRedirect
        } else if chars_eq(code, chars_of("404").as_slice()) {
            HttpStatus::NotFound
        } else {
            HttpStatus::Unsupported
        }
    }

    /// The header field that the line `text[from..to]` holds.
    fn field_within(text: &[char], from: usize, to: usize) -> (r: Option<(String, String)>)
        requires
            from <= to <= text@.len(),
        ensures
            match r {
                Some((name, value)) => field_of_line(text@.subrange(from as int, to as int))
                    == Some((name@, value@)),
                None => field_of_line(text@.subrange(from as int, to as int)) is None,
            },
    {
        let line = slice_subrange(text, from, to);
        let colon = chars_of(":");
        match find_chars(line, colon.as_slice(), 0) {
            None => None,
            Some(at) => {
                assert(line@.subrange(0, at as int) =~= line@.take(at as int));
                assert(line@.subrange(at + colon@.len(), line@.len() as int) =~= line@.skip(
                    at + colon@.len(),
                ));
                let name = lowercase_string(line, 0, at);
                let (a, b) = trim_bounds(line, at + colon.len(), line.len());
                Some((name, string_of(line, a, b)))
            },
        }
    }
}

pub struct BodyParser {}

impl BodyParser {
    pub fn parse(body: &[u8], headers: &HeaderMap) -> (r: Result<String, DecodeError>)
        ensures
            match r {
                Ok(text) => decode_body(body@, headers@) == Ok::<Seq<char>, DecodeError>(text@),
                Err(e) => decode_body(body@, headers@) == Err::<Seq<char>, DecodeError>(e),
            },
    {
        let dechunked: Vec<u8>;
        let bytes: &[u8] = if headers.contains_key("transfer-encoding") {
            match Self::dechunk(body) {
                Some(bytes) => {
                    dechunked = bytes;
                    dechunked.as_slice()
                },
                None => return Err(DecodeError::MalformedChunk),
            }
        } else {
            body
        };
        if headers.contains_key("content-encoding") {
            Self::unzip_and_decode(bytes)
        } else {
            Ok(Self::decode_text(bytes))
        }
    }

    pub fn dechunk(body: &[u8]) -> (r: Option<Vec<u8>>)
        ensures
            match r {
                Some(bytes) => dechunk(body@) == Some(bytes@),
                None => dechunk(body@) is None,
            },
    {
        let line_end: [u8; 2] = [13, 10];
        assert(line_end@ =~= crlf());
        let len = body.len();
        let mut out: Vec<u8> = Vec::new();
        let mut pos: usize = 0;
        assert(body@.skip(0) =~= body@);
        loop
            invariant
                pos <= len == body@.len(),
                line_end@ == crlf(),
                dechunk(body@) == match dechunk(body@.skip(pos as int)) {
                    Some(rest) => Some(out@ + rest),
                    None => None,
                },
            decreases len - pos,
        {
            let rest = slice_subrange(body, pos, len);
            assert(rest@ =~= body@.skip(pos as int));
            let at = match find_bytes(rest, line_end.as_slice(), 0) {
                Some(at) => at,
                None => return None,
            };
            let digits = Self::size_line(rest, at);
            assert(digits@.subrange(0, at as int) =~= digits@);
            let size = match parse_number(digits.as_slice(), 0, at, 16, 0xffff_ffff_ffff_ffff) {
                Some(size) => size,
                None => return None,
            };
            if size == 0 {
                assert(out@ + Seq::<u8>::empty() =~= out@);
                return Some(out);
            }
            let data: usize = at + 2;
            let left: usize = rest.len() - data;
            if size > left as u64 || left - (size as usize) < 2 {
                return None;
            }
            let chunk_end: usize = data + size as usize;
            if !bytes_occur_at(rest, line_end.as_slice(), chunk_end) {
                return None;
            }
            let ghost before = out@;
            let mut k: usize = data;
            while k < chunk_end
                invariant
                    data <= k <= chunk_end <= rest@.len(),
                    out@ == before + rest@.subrange(data as int, k as int),
                decreases chunk_end - k,
            {
                out.push(rest[k]);
                assert(rest@.subrange(data as int, k + 1) =~= rest@.subrange(
                    data as int,
                    k as int,
                ).push(rest@[k as int]));
                k += 1;
            }
            assert(rest@.skip(chunk_end + 2) =~= body@.skip(pos + chunk_end + 2));
            proof {
                let tail = dechunk(rest@.skip(chunk_end + 2));
                if tail is Some {
                    assert(before + (rest@.subrange(data as int, chunk_end as int) + tail.unwrap())
                        =~= out@ + tail.unwrap());
                }
            }
            pos = pos + chunk_end + 2;
        }
    }

    /// The first `at` bytes of `rest`, each as the character with its code.
    fn size_line(rest: &[u8], at: usize) -> (digits: Vec<char>)
        requires
            at <= rest@.len(),
        ensures
            digits@ == latin1(rest@.take(at as int)),
    {
        let mut digits: Vec<char> = Vec::new();
        let mut k: usize = 0;
        while k < at
            invariant
                k <= at <= rest@.len(),
                digits@ == latin1(rest@.take(k as int)),
            decreases at - k,
        {
            digits.push(rest[k] as char);
            assert(latin1(rest@.take(k + 1)) =~= latin1(rest@.take(k as int)).push(
                rest@[k as int] as char,
            ));
            k += 1;
        }
        digits
    }

    /// Decompresses gzip and reads the result as text.
    pub fn unzip_and_decode(body: &[u8]) -> (r: Result<String, DecodeError>)
        ensures
            match gunzip(body@) {
                Some(content) => r is Ok && r->Ok_0@ == text_of(content),
                None => r == Err::<String, DecodeError>(DecodeError::UnsupportedContentEncoding),
            },
    {
        match gzip_decode(body) {
            Ok(content) => Ok(Self::decode_text(content.as_slice())),
            Err(_) => Err(DecodeError::UnsupportedContentEncoding),
        }
    }

    /// Reads bytes as text: as UTF-8 where they are UTF-8, else as
    /// ISO 8859-1.
    pub fn decode_text(bytes: &[u8]) -> (text: String)
        ensures
            text@ == text_of(bytes@),
    {
        match std::str::from_utf8(bytes) {
            Ok(text) => text.to_owned(),
            Err(_) => latin1_decode(bytes).unwrap(),
        }
    }
}

} // verus!
