//! URLs of the form `scheme://host[:port][/path]`.

use crate::number::{decimal, decimal_string, lemma_decimal, lemma_parse_decimal, parse_number,
    parse_unsigned};
use crate::text::{chars_eq, chars_of, find_chars, lemma_find_from, lemma_find_from_is,
    lemma_occurs_at_one, occurs_at, split_once, string_of};
use vstd::prelude::*;
use vstd::slice::slice_subrange;
use vstd::string::StringExecFns;

verus! {

#[derive(Clone, Copy, Debug, Hash, PartialEq, Eq, Structural)]
pub enum Scheme {
    Http,
    Https,
}

impl Scheme {
    /// The port of a URL of this scheme that names none.
    pub open spec fn port(self) -> u16 {
        match self {
            Scheme::Http => 80,
            Scheme::Https => 443,
        }
    }

    /// The scheme as it is written in a URL.
    pub open spec fn name(self) -> Seq<char> {
        match self {
            Scheme::Http => "http"@,
            Scheme::Https => "https"@,
        }
    }

    pub fn default_port(&self) -> (port: u16)
        ensures
            port == self.port(),
    {
        match self {
            Scheme::Http => 80,
            Scheme::Https => 443,
        }
    }

    pub fn to_string(&self) -> (out: String)
        ensures
            out@ == self.name(),
    {
        match self {
            Scheme::Http => "http".to_owned(),
            Scheme::Https => "https".to_owned(),
        }
    }
}

#[derive(Clone, Copy, Debug, PartialEq, Eq, Structural)]
pub enum UrlError {
    InvalidDataUrlFormat,
    InvalidPort,
    NoHost,
    UnknownScheme,
}

impl UrlError {
    /// The sentence that tells a user of this error.
    pub open spec fn message(self) -> Seq<char> {
        match self {
            UrlError::InvalidDataUrlFormat => "Invalid data url: ',' missing"@,
            UrlError::InvalidPort => "Invalid port"@,
            UrlError::NoHost => "Missing host"@,
            UrlError::UnknownScheme => "Unknown scheme, must be http or https"@,
        }
    }

    pub fn to_string(&self) -> (out: String)
        ensures
            out@ == self.message(),
    {
        match self {
            UrlError::InvalidDataUrlFormat => "Invalid data url: ',' missing".to_owned(),
            UrlError::InvalidPort => "Invalid port".to_owned(),
            UrlError::NoHost => "Missing host".to_owned(),
            UrlError::UnknownScheme => "Unknown scheme, must be http or https".to_owned(),
        }
    }
}

#[derive(Debug, Hash, PartialEq, Eq)]
pub struct Url {
    pub scheme: Scheme,
    pub host: String,
    pub port: u16,
    pub path: String,
}

/// What a `Url` stands for.
pub struct UrlView {
    pub scheme: Scheme,
    pub host: Seq<char>,
    pub port: u16,
    pub path: Seq<char>,
}

impl View for Url {
    type V = UrlView;

    open spec fn view(&self) -> UrlView {
        UrlView { scheme: self.scheme, host: self.host@, port: self.port, path: self.path@ }
    }
}

impl Clone for Url {
    fn clone(&self) -> (copy: Self)
        ensures
            copy@ == self@,
    {
        Url {
            scheme: self.scheme,
            host: self.host.clone(),
            port: self.port,
            path: self.path.clone(),
        }
    }
}

/// The path of a URL whose text is `rest` behind its scheme: what follows the
/// authority, or `/` where nothing does.
pub open spec fn path_of(rest: Seq<char>) -> Seq<char> {
    match split_once(rest, "/"@) {
        Some((_, tail)) => "/"@ + tail,
        None => "/"@,
    }
}

/// The authority (`host[:port]`) of a URL whose text is `rest` behind its
/// scheme.
pub open spec fn authority_of(rest: Seq<char>) -> Seq<char> {
    match split_once(rest, "/"@) {
        Some((authority, _)) => authority,
        None => rest,
    }
}

/// The URL that the text `s` stands for, or the reason why it stands for
/// none.
pub open spec fn parse_url(s: Seq<char>) -> Result<UrlView, UrlError> {
    match split_once(s, "://"@) {
        None => Err(UrlError::UnknownScheme),
        Some((left, rest)) => {
            if rest.len() == 0 {
                Err(UrlError::NoHost)
            } else if left != "http"@ && left != "https"@ {
                Err(UrlError::UnknownScheme)
            } else {
                let scheme = if left == "http"@ {
                    Scheme::Http
                } else {
                    Scheme::Https
                };
                let authority = authority_of(rest);
                let path = path_of(rest);
                match split_once(authority, ":"@) {
                    None => Ok(UrlView { scheme, host: authority, port: scheme.port(), path }),
                    Some((host, port)) => match parse_unsigned(port, 10, 65535) {
                        Some(port) => Ok(UrlView { scheme, host, port: port as u16, path }),
                        None => Err(UrlError::InvalidPort),
                    },
                }
            }
        },
    }
}

/// The text of a URL, with its port written out.
pub open spec fn format_url(u: UrlView) -> Seq<char> {
    u.scheme.name() + "://"@ + u.host + ":"@ + decimal(u.port as nat) + u.path
}

/// The path starts with `/`, and the host holds neither `/` nor `:`.
pub open spec fn is_canonical(u: UrlView) -> bool {
    &&& u.path.len() > 0
    &&& u.path[0] == '/'
    &&& forall|i: int| 0 <= i < u.host.len() ==> u.host[i] != '/' && u.host[i] != ':'
}

impl Url {
    /// The path starts with `/`.
    pub open spec fn wf(&self) -> bool {
        self.path@.len() > 0 && self.path@[0] == '/'
    }

    pub fn new(url: &str) -> (r: Result<Self, UrlError>)
        ensures
            match r {
                Ok(u) => parse_url(url@) == Ok::<UrlView, UrlError>(u@) && u.wf(),
                Err(e) => parse_url(url@) == Err::<UrlView, UrlError>(e),
            },
    {
        let chars = chars_of(url);
        let separator = chars_of("://");
        let i = match find_chars(chars.as_slice(), separator.as_slice(), 0) {
            Some(i) => i,
            None => return Err(UrlError::UnknownScheme),
        };
        let len = chars.len();
        let left = slice_subrange(chars.as_slice(), 0, i);
        let rest = slice_subrange(chars.as_slice(), i + separator.len(), len);
        assert(left@ =~= url@.take(i as int));
        assert(rest@ =~= url@.skip(i + separator@.len()));
        assert(split_once(url@, "://"@) == Some((left@, rest@)));
        if rest.len() == 0 {
            return Err(UrlError::NoHost);
        }
        let scheme = if chars_eq(left, chars_of("http").as_slice()) {
            Scheme::Http
        } else if chars_eq(left, chars_of("https").as_slice()) {
            Scheme::Https
        } else {
            return Err(UrlError::UnknownScheme);
        };
        let slash = chars_of("/");
        let (authority, path) = match find_chars(rest, slash.as_slice(), 0) {
            Some(j) => {
                proof {
                    lemma_find_from(rest@, slash@, 0);
                    assert(rest@.subrange(j as int, rest@.len() as int) =~= rest@.subrange(
                        j as int,
                        j + slash@.len(),
                    ) + rest@.skip(j + slash@.len()));
                }
                (slice_subrange(rest, 0, j), string_of(rest, j, rest.len()))
            },
            None => (rest, "/".to_owned()),
        };
        assert(authority@ =~= authority_of(rest@));
        assert(path@ == path_of(rest@));
        proof {
            lemma_path_starts_with_slash(rest@);
        }
        let colon = chars_of(":");
        match find_chars(authority, colon.as_slice(), 0) {
            None => {
                assert(authority@.subrange(0, authority@.len() as int) =~= authority@);
                Ok(
                    Url {
                        scheme,
                        host: string_of(authority, 0, authority.len()),
                        port: scheme.default_port(),
                        path,
                    },
                )
            },
            Some(k) => {
                assert(authority@.subrange(k + colon@.len(), authority@.len() as int)
                    =~= authority@.skip(k + colon@.len()));
                assert(authority@.subrange(0, k as int) =~= authority@.take(k as int));
                match parse_number(authority, k + colon.len(), authority.len(), 10, 65535) {
                    Some(port) => Ok(
                        Url { scheme, host: string_of(authority, 0, k), port: port as u16, path },
                    ),
                    None => Err(UrlError::InvalidPort),
                }
            },
        }
    }

    /// The URL as text, with its port written out.
    pub fn to_string(&self) -> (out: String)
        ensures
            out@ == format_url(self@),
    {
        let mut out = self.scheme.to_string();
        out.append("://");
        out.append(self.host.as_str());
        out.append(":");
        out.append(decimal_string(self.port as u128).as_str());
        out.append(self.path.as_str());
        out
    }
}

/// The path of a URL starts with `/`.
pub proof fn lemma_path_starts_with_slash(rest: Seq<char>)
    ensures
        path_of(rest).len() > 0,
        path_of(rest)[0] == '/',
{
    reveal_strlit("/");
}

/// The part of `s` before the character at which `split_once` cuts it begins
/// `s` and does not hold that character; where it does not cut, `s` does not
/// hold it.
pub proof fn lemma_split_char_head(s: Seq<char>, c: char)
    ensures
        match split_once(s, seq![c]) {
            Some((head, _)) => head.len() < s.len() && head == s.take(head.len() as int)
                && forall|i: int| 0 <= i < head.len() ==> head[i] != c,
            None => forall|i: int| 0 <= i < s.len() ==> s[i] != c,
        },
{
    lemma_find_from(s, seq![c], 0);
    assert forall|i: int| 0 <= i < s.len() implies (occurs_at(s, seq![c], i) <==> s[i] == c) by {
        lemma_occurs_at_one(s, c, i);
    }
}

/// What `parse_url` accepts is canonical.
pub proof fn lemma_parsed_is_canonical(s: Seq<char>)
    requires
        parse_url(s) is Ok,
    ensures
        is_canonical(parse_url(s).unwrap()),
{
    reveal_strlit("/");
    reveal_strlit(":");
    assert("/"@ =~= seq!['/']);
    assert(":"@ =~= seq![':']);
    let rest = split_once(s, "://"@).unwrap().1;
    lemma_path_starts_with_slash(rest);
    lemma_split_char_head(rest, '/');
    let authority = authority_of(rest);
    lemma_split_char_head(authority, ':');
    let u = parse_url(s).unwrap();
    assert(u.host.len() <= authority.len() <= rest.len());
    assert forall|i: int| 0 <= i < u.host.len() implies u.host[i] != '/' && u.host[i] != ':' by {
        assert(u.host[i] == authority[i]);
        assert(authority[i] == rest[i]);
    }
}

/// The text of a canonical URL stands for that URL.
pub proof fn lemma_format_parses(u: UrlView)
    requires
        is_canonical(u),
    ensures
        parse_url(format_url(u)) == Ok::<UrlView, UrlError>(u),
{
    reveal_strlit("/");
    reveal_strlit(":");
    reveal_strlit("://");
    reveal_strlit("http");
    reveal_strlit("https");
    assert("/"@ =~= seq!['/']);
    assert(":"@ =~= seq![':']);
    let name = u.scheme.name();
    let digits = decimal(u.port as nat);
    lemma_decimal(u.port as nat);
    lemma_parse_decimal(u.port as nat, 65535);
    let text = format_url(u);
    let n = name.len() as int;
    let rest = u.host + ":"@ + digits + u.path;
    let authority = u.host + ":"@ + digits;

    // the scheme ends at the first "://"
    assert(text.subrange(n, n + 3) =~= "://"@);
    assert forall|j: int| 0 <= j < n implies !occurs_at(text, "://"@, j) by {
        assert(text[j] == name[j]);
        if occurs_at(text, "://"@, j) {
            assert(text.subrange(j, j + 3)[0] == ':');
        }
    }
    lemma_find_from_is(text, "://"@, 0, n as nat);
    assert(text.take(n) =~= name);
    assert(text.skip(n + 3) =~= rest);

    // the path begins at the first '/' behind it
    let m = authority.len() as int;
    assert forall|j: int| 0 <= j < m implies !occurs_at(rest, seq!['/'], j) by {
        lemma_occurs_at_one(rest, '/', j);
        if j < u.host.len() {
            assert(rest[j] == u.host[j]);
        } else if j == u.host.len() {
            assert(rest[j] == ':');
        } else {
            assert(rest[j] == digits[j - u.host.len() - 1]);
        }
    }
    assert(rest[m] == u.path[0]);
    lemma_occurs_at_one(rest, '/', m);
    lemma_find_from_is(rest, seq!['/'], 0, m as nat);
    assert(rest.take(m) =~= authority);
    assert("/"@ + rest.skip(m + 1) =~= u.path);
    assert(authority_of(rest) == authority);
    assert(path_of(rest) == u.path);

    // the port follows the first ':' of the authority
    let h = u.host.len() as int;
    assert forall|j: int| 0 <= j < h implies !occurs_at(authority, seq![':'], j) by {
        lemma_occurs_at_one(authority, ':', j);
        assert(authority[j] == u.host[j]);
    }
    assert(authority[h] == ':');
    lemma_occurs_at_one(authority, ':', h);
    lemma_find_from_is(authority, seq![':'], 0, h as nat);
    assert(authority.take(h) =~= u.host);
    assert(authority.skip(h + 1) =~= digits);
}

/// Parsing the text of a parsed URL gives the same URL again, and that text
/// names the port: it is the scheme, `://`, the host, `:`, the port in decimal
/// digits, and the path.
pub proof fn lemma_url_round_trip(s: Seq<char>)
    requires
        parse_url(s) is Ok,
    ensures
        parse_url(format_url(parse_url(s).unwrap())) == parse_url(s),
        ({
            let u = parse_url(s).unwrap();
            format_url(u) == u.scheme.name() + "://"@ + u.host + ":"@ + decimal(u.port as nat)
                + u.path
        }),
{
    lemma_parsed_is_canonical(s);
    lemma_format_parses(parse_url(s).unwrap());
}

} // verus!
