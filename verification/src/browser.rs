//! From what was fetched to what is shown: the body of a page, without its
//! tags, with `&lt;` and `&gt;` written out.

use crate::text::{chars_occur_at, chars_of, find, find_chars, find_from, starts_with, string_of};
use crate::url_parser::{UrlType, UrlTypeView};
use vstd::prelude::*;

verus! {

/// What stands between `<body>` and the `</body>` that follows it; up to the
/// end where none follows; all of `s` where there is no `<body>`.
pub open spec fn body_of(s: Seq<char>) -> Seq<char> {
    match find(s, "<body>"@) {
        None => s,
        Some(open) => {
            let start = open + "<body>"@.len();
            match find_from(s, "</body>"@, start) {
                Some(close) => s.subrange(start as int, close as int),
                None => s.skip(start as int),
            }
        },
    }
}

/// `s` without its tags: without `<`, `>` and what stands between a `<` and
/// the next `>`. `in_tag` says whether `s` starts within a tag.
pub open spec fn strip_tags(s: Seq<char>, in_tag: bool) -> Seq<char>
    decreases s.len(),
{
    if s.len() == 0 {
        s
    } else if s[0] == '<' {
        strip_tags(s.skip(1), true)
    } else if s[0] == '>' {
        strip_tags(s.skip(1), false)
    } else if in_tag {
        strip_tags(s.skip(1), true)
    } else {
        seq![s[0]] + strip_tags(s.skip(1), false)
    }
}

/// `s` with `with` in place of each `pat`, from left to right; what was
/// replaced is not looked at again. `pat` is not empty.
pub open spec fn replace(s: Seq<char>, pat: Seq<char>, with: Seq<char>) -> Seq<char>
    decreases s.len(),
{
    if s.len() == 0 || pat.len() == 0 {
        s
    } else if starts_with(s, pat) {
        with + replace(s.skip(pat.len() as int), pat, with)
    } else {
        seq![s[0]] + replace(s.skip(1), pat, with)
    }
}

/// `s` with `<` for each `&lt;`, and then `>` for each `&gt;`.
pub open spec fn unescape(s: Seq<char>) -> Seq<char> {
    replace(replace(s, "&lt;"@, "<"@), "&gt;"@, ">"@)
}

/// The text of a page: its body without tags, unescaped.
pub open spec fn lex(s: Seq<char>) -> Seq<char> {
    unescape(strip_tags(body_of(s), false))
}

/// What is shown for `url_type`, where `fetched` is what came from its URL:
/// the text of the page, the page as it came where its source is asked for,
/// and the text of the data where the data are inline.
pub open spec fn shown(url_type: UrlTypeView, fetched: Seq<char>) -> Seq<char> {
    match url_type {
        UrlTypeView::Http(_) => lex(fetched),
        UrlTypeView::ViewSource(_) => fetched,
        UrlTypeView::Data { data, .. } => lex(data),
    }
}

pub struct Browser {}

impl Browser {
    /// What is shown for `url_type`; `fetched` is what came from its URL,
    /// and is not looked at for inline data.
    pub fn load(url_type: &UrlType, fetched: &str) -> (output: String)
        ensures
            output@ == shown(url_type@, fetched@),
    {
        match url_type {
            UrlType::Http(_) => Self::lex(fetched),
            UrlType::ViewSource(_) => fetched.to_owned(),
            UrlType::Data { mediatype: _, base64: _, data } => Self::lex(data.as_str()),
        }
    }

    pub fn lex(s: &str) -> (text: String)
        ensures
            text@ == lex(s@),
    {
        let body = Self::get_body(s);
        let body = Self::remove_tags(body.as_str());
        Self::replace_entities(body.as_str())
    }

    pub fn get_body(s: &str) -> (body: String)
        ensures
            body@ == body_of(s@),
    {
        let chars = chars_of(s);
        let open = chars_of("<body>");
        let close = chars_of("</body>");
        assert(chars@.subrange(0, chars@.len() as int) =~= chars@);
        match find_chars(chars.as_slice(), open.as_slice(), 0) {
            None => string_of(chars.as_slice(), 0, chars.len()),
            Some(at) => {
                let start = at + open.len();
                match find_chars(chars.as_slice(), close.as_slice(), start) {
                    Some(end) => string_of(chars.as_slice(), start, end),
                    None => string_of(chars.as_slice(), start, chars.len()),
                }
            },
        }
    }

    pub fn remove_tags(s: &str) -> (text: String)
        ensures
            text@ == strip_tags(s@, false),
    {
        let chars = chars_of(s);
        let mut text = String::new();
        let mut in_angle = false;
        let mut i: usize = 0;
        assert(chars@.skip(0) =~= chars@);
        while i < chars.len()
            invariant
                i <= chars@.len(),
                strip_tags(chars@, false) == text@ + strip_tags(chars@.skip(i as int), in_angle),
            decreases chars.len() - i,
        {
            let c = chars[i];
            let ghost rest = chars@.skip(i as int);
            assert(rest.skip(1) =~= chars@.skip(i + 1));
            if c == '<' {
                in_angle = true;
            } else if c == '>' {
                in_angle = false;
            } else if !in_angle {
                assert(text@ + (seq![c] + strip_tags(rest.skip(1), false)) =~= text@.push(c)
                    + strip_tags(rest.skip(1), false));
                text.push(c);
            }
            i += 1;
        }
        assert(text@ + Seq::<char>::empty() =~= text@);
        text
    }

    pub fn replace_entities(s: &str) -> (text: String)
        ensures
            text@ == unescape(s@),
    {
        let chars = chars_of(s);
        let less = Self::replace_chars(
            chars.as_slice(),
            chars_of("&lt;").as_slice(),
            chars_of("<").as_slice(),
        );
        let greater = Self::replace_chars(
            less.as_slice(),
            chars_of("&gt;").as_slice(),
            chars_of(">").as_slice(),
        );
        assert(greater@.subrange(0, greater@.len() as int) =~= greater@);
        string_of(greater.as_slice(), 0, greater.len())
    }

    /// `s` with `with` in place of each `pat`, from left to right.
    pub fn replace_chars(s: &[char], pat: &[char], with: &[char]) -> (out: Vec<char>)
        ensures
            out@ == replace(s@, pat@, with@),
    {
        let mut out: Vec<char> = Vec::new();
        let mut i: usize = 0;
        assert(s@.skip(0) =~= s@);
        if pat.len() == 0 {
            while i < s.len()
                invariant
                    i <= s@.len(),
                    out@ == s@.take(i as int),
                decreases s.len() - i,
            {
                out.push(s[i]);
                assert(s@.take(i + 1) =~= s@.take(i as int).push(s@[i as int]));
                i += 1;
            }
            assert(s@.take(i as int) =~= s@);
            return out;
        }
        while i < s.len()
            invariant
                i <= s@.len(),
                pat@.len() > 0,
                replace(s@, pat@, with@) == out@ + replace(s@.skip(i as int), pat@, with@),
            decreases s.len() - i,
        {
            let ghost rest = s@.skip(i as int);
            let ghost before = out@;
            if chars_occur_at(s, pat, i) {
                assert(rest.subrange(0, pat@.len() as int) =~= s@.subrange(
                    i as int,
                    i + pat@.len(),
                ));
                assert(rest.skip(pat@.len() as int) =~= s@.skip(i + pat@.len()));
                let mut k: usize = 0;
                while k < with.len()
                    invariant
                        k <= with@.len(),
                        out@ == before + with@.take(k as int),
                    decreases with.len() - k,
                {
                    out.push(with[k]);
                    assert(with@.take(k + 1) =~= with@.take(k as int).push(with@[k as int]));
                    k += 1;
                }
                assert(with@.take(k as int) =~= with@);
                assert(before + (with@ + replace(rest.skip(pat@.len() as int), pat@, with@))
                    =~= out@ + replace(rest.skip(pat@.len() as int), pat@, with@));
                i += pat.len();
            } else {
                assert(!starts_with(rest, pat@)) by {
                    if starts_with(rest, pat@) {
                        assert(rest.subrange(0, pat@.len() as int) =~= s@.subrange(
                            i as int,
                            i + pat@.len(),
                        ));
                    }
                }
                assert(rest.skip(1) =~= s@.skip(i + 1));
                assert(before + (seq![rest[0]] + replace(rest.skip(1), pat@, with@))
                    =~= before.push(s@[i as int]) + replace(rest.skip(1), pat@, with@));
                out.push(s[i]);
                i += 1;
            }
        }
        assert(out@ + Seq::<char>::empty() =~= out@);
        out
    }
}

} // verus!
