//! What a user may enter in place of a URL: a web address, a request for the
//! source of one, or inline data.

use crate::text::{chars_end_with, chars_of, chars_start_with, ends_with, find_chars, split_once,
    starts_with, string_of};
use crate::url::{parse_url, Url, UrlError, UrlView};
use vstd::prelude::*;
use vstd::slice::slice_subrange;

verus! {

#[derive(Debug)]
pub enum UrlType {
    Http(Url),
    ViewSource(Url),
    Data { mediatype: Option<String>, base64: bool, data: String },
}

/// What a `UrlType` stands for.
pub enum UrlTypeView {
    Http(UrlView),
    ViewSource(UrlView),
    Data { mediatype: Option<Seq<char>>, base64: bool, data: Seq<char> },
}

impl View for UrlType {
    type V = UrlTypeView;

    open spec fn view(&self) -> UrlTypeView {
        match self {
            UrlType::Http(url) => UrlTypeView::Http(url@),
            UrlType::ViewSource(url) => UrlTypeView::ViewSource(url@),
            UrlType::Data { mediatype, base64, data } => UrlTypeView::Data {
                mediatype: match mediatype {
                    Some(m) => Some(m@),
                    None => None,
                },
                base64: *base64,
                data: data@,
            },
        }
    }
}

/// The media type that the head of a data URL names: the head without a
/// final `;base64`.
pub open spec fn mediatype_of(head: Seq<char>) -> Seq<char> {
    if ends_with(head, ";base64"@) {
        head.take(head.len() - ";base64"@.len())
    } else {
        head
    }
}

/// The inline data that `s` stands for, `s` being what follows `data:`.
pub open spec fn parse_data(s: Seq<char>) -> Result<UrlTypeView, UrlError> {
    match split_once(s, ","@) {
        None => Err(UrlError::InvalidDataUrlFormat),
        Some((head, data)) => Ok(
            UrlTypeView::Data {
                mediatype: if mediatype_of(head).len() == 0 {
                    None
                } else {
                    Some(mediatype_of(head))
                },
                base64: ends_with(head, ";base64"@),
                data,
            },
        ),
    }
}

/// What the text `s` asks for, or the reason why it asks for nothing.
pub open spec fn parse_url_type(s: Seq<char>) -> Result<UrlTypeView, UrlError> {
    if starts_with(s, "http://"@) || starts_with(s, "https://"@) {
        match parse_url(s) {
            Ok(url) => Ok(UrlTypeView::Http(url)),
            Err(e) => Err(e),
        }
    } else if starts_with(s, "view-source:"@) {
        match parse_url(s.skip("view-source:"@.len() as int)) {
            Ok(url) => Ok(UrlTypeView::ViewSource(url)),
            Err(e) => Err(e),
        }
    } else if starts_with(s, "data:"@) {
        parse_data(s.skip("data:"@.len() as int))
    } else {
        Err(UrlError::UnknownScheme)
    }
}

impl UrlType {
    /// The URL to fetch: none for inline data.
    pub fn url(&self) -> (r: Option<&Url>)
        ensures
            match self {
                UrlType::Http(url) => r == Some(url),
                UrlType::ViewSource(url) => r == Some(url),
                UrlType::Data { .. } => r is None,
            },
    {
        match self {
            UrlType::Http(url) => Some(url),
            UrlType::ViewSource(url) => Some(url),
            UrlType::Data { .. } => None,
        }
    }

    /// Each URL in it has a path that starts with `/`.
    pub open spec fn wf(&self) -> bool {
        match self {
            UrlType::Http(url) => url.wf(),
            UrlType::ViewSource(url) => url.wf(),
            UrlType::Data { .. } => true,
        }
    }
}

pub struct UrlParser {}

impl UrlParser {
    pub fn parse(url: &str) -> (r: Result<UrlType, UrlError>)
        ensures
            match r {
                Ok(t) => parse_url_type(url@) == Ok::<UrlTypeView, UrlError>(t@) && t.wf(),
                Err(e) => parse_url_type(url@) == Err::<UrlTypeView, UrlError>(e),
            },
    {
        let chars = chars_of(url);
        let view_source = chars_of("view-source:");
        let data = chars_of("data:");
        if chars_start_with(chars.as_slice(), chars_of("http://").as_slice()) || chars_start_with(
            chars.as_slice(),
            chars_of("https://").as_slice(),
        ) {
            match Url::new(url) {
                Ok(url) => Ok(UrlType::Http(url)),
                Err(e) => Err(e),
            }
        } else if chars_start_with(chars.as_slice(), view_source.as_slice()) {
            let stripped = string_of(chars.as_slice(), view_source.len(), chars.len());
            assert(stripped@ =~= url@.skip("view-source:"@.len() as int));
            match Url::new(stripped.as_str()) {
                Ok(url) => Ok(UrlType::ViewSource(url)),
                Err(e) => Err(e),
            }
        } else if chars_start_with(chars.as_slice(), data.as_slice()) {
            let stripped = string_of(chars.as_slice(), data.len(), chars.len());
            assert(stripped@ =~= url@.skip("data:"@.len() as int));
            Self::parse_data_url(stripped.as_str())
        } else {
            Err(UrlError::UnknownScheme)
        }
    }

    /// Reads `[<mediatype>][;base64],<data>`, the part of a data URL behind
    /// `data:`.
    pub fn parse_data_url(s: &str) -> (r: Result<UrlType, UrlError>)
        ensures
            match r {
                Ok(t) => parse_data(s@) == Ok::<UrlTypeView, UrlError>(t@) && t.wf(),
                Err(e) => parse_data(s@) == Err::<UrlTypeView, UrlError>(e),
            },
    {
        let chars = chars_of(s);
        let comma = chars_of(",");
        let i = match find_chars(chars.as_slice(), comma.as_slice(), 0) {
            Some(i) => i,
            None => return Err(UrlError::InvalidDataUrlFormat),
        };
        let head = slice_subrange(chars.as_slice(), 0, i);
        assert(head@ =~= s@.take(i as int));
        let suffix = chars_of(";base64");
        let base64 = chars_end_with(head, suffix.as_slice());
        let end: usize = if base64 {
            head.len() - suffix.len()
        } else {
            head.len()
        };
        let mediatype = if end == 0 {
            None
        } else {
            Some(string_of(head, 0, end))
        };
        assert(head@.subrange(0, end as int) =~= mediatype_of(head@));
        let data = string_of(chars.as_slice(), i + comma.len(), chars.len());
        assert(data@ =~= s@.skip(i + comma@.len()));
        Ok(UrlType::Data { mediatype, base64, data })
    }
}

} // verus!
