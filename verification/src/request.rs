//! A GET request of HTTP/1.1.

use crate::headers::{names, with_field, HeaderList, HeaderMap};
use crate::url::{Url, UrlView};
use vstd::prelude::*;
use vstd::string::StringExecFns;

verus! {

pub struct Request {
    pub url: Url,
    headers: HeaderMap,
}

/// What a `Request` stands for.
pub struct RequestView {
    pub url: UrlView,
    pub headers: HeaderList,
}

impl View for Request {
    type V = RequestView;

    closed spec fn view(&self) -> RequestView {
        RequestView { url: self.url@, headers: self.headers@ }
    }
}

/// One header field as it is sent.
pub open spec fn header_line(name: Seq<char>, value: Seq<char>) -> Seq<char> {
    name + ": "@ + value + "\r\n"@
}

/// Header fields as they are sent, one after the other.
pub open spec fn header_lines(list: HeaderList) -> Seq<char>
    decreases list.len(),
{
    if list.len() == 0 {
        Seq::empty()
    } else {
        header_lines(list.drop_last()) + header_line(list.last().0, list.last().1)
    }
}

/// The request as it is sent: the request line, `Host`, `Connection: close`,
/// the fields that were set, and an empty line.
pub open spec fn render(request: RequestView) -> Seq<char> {
    "GET "@ + request.url.path + " HTTP/1.1\r\nHost: "@ + request.url.host
        + "\r\nConnection: close\r\n"@ + header_lines(request.headers) + "\r\n"@
}

impl Request {
    pub fn new(url: Url) -> (request: Self)
        ensures
            request@ == (RequestView { url: url@, headers: HeaderList::empty() }),
    {
        Self { url, headers: HeaderMap::new() }
    }

    pub fn build(&self) -> (out: String)
        ensures
            out@ == render(self@),
            names(self@.headers).no_duplicates(),
    {
        let mut out = "GET ".to_owned();
        out.append(self.url.path.as_str());
        out.append(" HTTP/1.1\r\nHost: ");
        out.append(self.url.host.as_str());
        out.append("\r\nConnection: close\r\n");
        let ghost head = out@;
        let n = self.headers.len();
        let mut i: usize = 0;
        while i < n
            invariant
                i <= n == self.headers@.len(),
                out@ == head + header_lines(self.headers@.take(i as int)),
            decreases n - i,
        {
            assert(self.headers@.take(i + 1).drop_last() =~= self.headers@.take(i as int));
            out.append(self.headers.name_at(i));
            out.append(": ");
            out.append(self.headers.value_at(i).as_str());
            out.append("\r\n");
            i += 1;
        }
        assert(self.headers@.take(n as int) =~= self.headers@);
        out.append("\r\n");
        out
    }

    pub fn header(&mut self, name: &str, value: &str)
        ensures
            final(self)@ == (RequestView {
                url: old(self)@.url,
                headers: with_field(old(self)@.headers, name@, value@),
            }),
    {
        self.headers.insert(name.to_owned(), value.to_owned());
    }
}

} // verus!
