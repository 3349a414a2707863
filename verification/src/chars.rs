//! Classes of characters, and what goes by them: trimming, tokens between
//! white space, lower case, and lines.

use crate::text::{find, find_chars, lemma_find_from};
use vstd::prelude::*;
use vstd::slice::slice_subrange;

verus! {

/// `c` is white space: a character with Unicode's property `White_Space`.
pub open spec fn is_whitespace(c: char) -> bool {
    let code = c as u32;
    ||| 0x09 <= code <= 0x0d
    ||| code == 0x20
    ||| code == 0x85
    ||| code == 0xa0
    ||| code == 0x1680
    ||| 0x2000 <= code <= 0x200a
    ||| code == 0x2028
    ||| code == 0x2029
    ||| code == 0x202f
    ||| code == 0x205f
    ||| code == 0x3000
}

/// `s` without the white space that leads it.
pub open spec fn trim_start(s: Seq<char>) -> Seq<char>
    decreases s.len(),
{
    if s.len() > 0 && is_whitespace(s[0]) {
        trim_start(s.skip(1))
    } else {
        s
    }
}

/// `s` without the white space that ends it.
pub open spec fn trim_end(s: Seq<char>) -> Seq<char>
    decreases s.len(),
{
    if s.len() > 0 && is_whitespace(s.last()) {
        trim_end(s.drop_last())
    } else {
        s
    }
}

/// `s` without the white space around it.
pub open spec fn trim(s: Seq<char>) -> Seq<char> {
    trim_end(trim_start(s))
}

/// The number of characters at the start of `s` that are no white space.
pub open spec fn token_len(s: Seq<char>) -> nat
    decreases s.len(),
{
    if s.len() > 0 && !is_whitespace(s[0]) {
        1 + token_len(s.skip(1))
    } else {
        0
    }
}

/// The first run of characters in `s` that are no white space; empty where
/// `s` holds white space only.
pub open spec fn first_token(s: Seq<char>) -> Seq<char> {
    trim_start(s).take(token_len(trim_start(s)) as int)
}

/// What follows the first token of `s`.
pub open spec fn after_first_token(s: Seq<char>) -> Seq<char> {
    trim_start(s).skip(token_len(trim_start(s)) as int)
}

/// The second run of characters in `s` that are no white space; empty where
/// there is none.
pub open spec fn second_token(s: Seq<char>) -> Seq<char> {
    first_token(after_first_token(s))
}

/// `c`, or its lower-case form where it is one of `A` to `Z`.
pub open spec fn to_ascii_lower(c: char) -> char {
    if 'A' <= c <= 'Z' {
        (c as u8 + 32) as char
    } else {
        c
    }
}

/// `s` with `A` to `Z` in lower case.
pub open spec fn ascii_lowercase(s: Seq<char>) -> Seq<char> {
    s.map_values(|c: char| to_ascii_lower(c))
}

/// `line` without the carriage return that may end it.
pub open spec fn strip_cr(line: Seq<char>) -> Seq<char> {
    if line.len() > 0 && line.last() == '\r' {
        line.drop_last()
    } else {
        line
    }
}

/// The lines of `s`. A line ends with a line feed, or with a carriage return
/// and a line feed; neither belongs to the line. What follows the last line
/// feed is a line too, unless it is empty.
pub open spec fn lines(s: Seq<char>) -> Seq<Seq<char>>
    decreases s.len(),
{
    if s.len() == 0 {
        Seq::empty()
    } else {
        match find(s, seq!['\n']) {
            Some(i) => {
                proof {
                    lemma_find_from(s, seq!['\n'], 0);
                }
                seq![strip_cr(s.take(i as int))] + lines(s.skip(i as int + 1))
            },
            None => seq![s],
        }
    }
}

/// Whether `c` is white space.
pub fn char_is_whitespace(c: char) -> (b: bool)
    ensures
        b == is_whitespace(c),
{
    let code: u32 = c as u32;
    (0x09 <= code && code <= 0x0d) || code == 0x20 || code == 0x85 || code == 0xa0 || code
        == 0x1680 || (0x2000 <= code && code <= 0x200a) || code == 0x2028 || code == 0x2029
        || code == 0x202f || code == 0x205f || code == 0x3000
}

/// `c`, or its lower-case form where it is one of `A` to `Z`.
pub fn char_to_ascii_lower(c: char) -> (lower: char)
    ensures
        lower == to_ascii_lower(c),
{
    if 'A' <= c && c <= 'Z' {
        ((c as u8) + 32) as char
    } else {
        c
    }
}

/// The index in `s[from..to]` behind the white space that leads it.
pub fn skip_whitespace(s: &[char], from: usize, to: usize) -> (at: usize)
    requires
        from <= to <= s@.len(),
    ensures
        from <= at <= to,
        s@.subrange(at as int, to as int) == trim_start(s@.subrange(from as int, to as int)),
{
    let mut at: usize = from;
    while at < to && char_is_whitespace(s[at])
        invariant
            from <= at <= to <= s@.len(),
            trim_start(s@.subrange(from as int, to as int)) == trim_start(
                s@.subrange(at as int, to as int),
            ),
        decreases to - at,
    {
        assert(s@.subrange(at as int, to as int).skip(1) =~= s@.subrange(at + 1, to as int));
        at += 1;
    }
    at
}

/// The index in `s[from..to]` behind the characters at its start that are no
/// white space.
pub fn skip_token(s: &[char], from: usize, to: usize) -> (at: usize)
    requires
        from <= to <= s@.len(),
    ensures
        from <= at <= to,
        at - from == token_len(s@.subrange(from as int, to as int)),
{
    let mut at: usize = from;
    while at < to && !char_is_whitespace(s[at])
        invariant
            from <= at <= to <= s@.len(),
            token_len(s@.subrange(from as int, to as int)) == (at - from) + token_len(
                s@.subrange(at as int, to as int),
            ),
        decreases to - at,
    {
        assert(s@.subrange(at as int, to as int).skip(1) =~= s@.subrange(at + 1, to as int));
        at += 1;
    }
    at
}

/// The bounds in `s` of `s[from..to]` without the white space around it.
pub fn trim_bounds(s: &[char], from: usize, to: usize) -> (bounds: (usize, usize))
    requires
        from <= to <= s@.len(),
    ensures
        from <= bounds.0 <= bounds.1 <= to,
        s@.subrange(bounds.0 as int, bounds.1 as int) == trim(s@.subrange(from as int, to as int)),
{
    let start = skip_whitespace(s, from, to);
    let mut end: usize = to;
    while end > start && char_is_whitespace(s[end - 1])
        invariant
            start <= end <= to <= s@.len(),
            trim_end(s@.subrange(start as int, to as int)) == trim_end(
                s@.subrange(start as int, end as int),
            ),
        decreases end,
    {
        assert(s@.subrange(start as int, end as int).drop_last() =~= s@.subrange(
            start as int,
            end - 1,
        ));
        end -= 1;
    }
    (start, end)
}

/// The bounds in `s` of the second token of `s[from..to]`.
pub fn second_token_bounds(s: &[char], from: usize, to: usize) -> (bounds: (usize, usize))
    requires
        from <= to <= s@.len(),
    ensures
        from <= bounds.0 <= bounds.1 <= to,
        s@.subrange(bounds.0 as int, bounds.1 as int) == second_token(
            s@.subrange(from as int, to as int),
        ),
{
    let a = skip_whitespace(s, from, to);
    let b = skip_token(s, a, to);
    let c = skip_whitespace(s, b, to);
    let d = skip_token(s, c, to);
    proof {
        let whole = s@.subrange(from as int, to as int);
        let first = s@.subrange(a as int, to as int);
        assert(first.skip(b - a) =~= s@.subrange(b as int, to as int));
        let second = s@.subrange(c as int, to as int);
        assert(second.take(d - c) =~= s@.subrange(c as int, d as int));
    }
    (c, d)
}

/// The string made of `s[from..to]` with `A` to `Z` in lower case.
pub fn lowercase_string(s: &[char], from: usize, to: usize) -> (out: String)
    requires
        from <= to <= s@.len(),
    ensures
        out@ == ascii_lowercase(s@.subrange(from as int, to as int)),
{
    let mut out = String::new();
    let mut i: usize = from;
    while i < to
        invariant
            from <= i <= to <= s@.len(),
            out@ == ascii_lowercase(s@.subrange(from as int, i as int)),
        decreases to - i,
    {
        assert(ascii_lowercase(s@.subrange(from as int, i + 1)) =~= ascii_lowercase(
            s@.subrange(from as int, i as int),
        ).push(to_ascii_lower(s@[i as int])));
        out.push(char_to_ascii_lower(s[i]));
        i += 1;
    }
    out
}

/// The bounds in `s` of each of its lines.
pub fn line_bounds(s: &[char]) -> (bounds: Vec<(usize, usize)>)
    ensures
        bounds@.len() == lines(s@).len(),
        forall|k: int|
            0 <= k < bounds@.len() ==> {
                &&& (#[trigger] bounds@[k]).0 <= bounds@[k].1 <= s@.len()
                &&& s@.subrange(bounds@[k].0 as int, bounds@[k].1 as int) == lines(s@)[k]
            },
{
    let mut bounds: Vec<(usize, usize)> = Vec::new();
    let line_feed: [char; 1] = ['\n'];
    assert(line_feed@ =~= seq!['\n']);
    let len = s.len();
    let mut start: usize = 0;
    assert(s@.skip(0) =~= s@);
    assert(Seq::new(
        bounds@.len(),
        |k: int| s@.subrange(bounds@[k].0 as int, bounds@[k].1 as int),
    ) + lines(s@) =~= lines(s@));
    while start < len
        invariant
            start <= len == s@.len(),
            line_feed@ == seq!['\n'],
            lines(s@) == Seq::new(
                bounds@.len(),
                |k: int| s@.subrange(bounds@[k].0 as int, bounds@[k].1 as int),
            ) + lines(s@.skip(start as int)),
            forall|k: int|
                0 <= k < bounds@.len() ==> (#[trigger] bounds@[k]).0 <= bounds@[k].1 <= s@.len(),
        decreases len - start,
    {
        let rest = slice_subrange(s, start, len);
        assert(rest@ =~= s@.skip(start as int));
        let ghost done = Seq::new(
            bounds@.len(),
            |k: int| s@.subrange(bounds@[k].0 as int, bounds@[k].1 as int),
        );
        match find_chars(rest, line_feed.as_slice(), 0) {
            Some(i) => {
                let end: usize = if i > 0 && rest[i - 1] == '\r' {
                    start + i - 1
                } else {
                    start + i
                };
                assert(s@.subrange(start as int, end as int) =~= strip_cr(rest@.take(i as int)));
                assert(rest@.skip(i + 1) =~= s@.skip(start + i + 1));
                bounds.push((start, end));
                assert(Seq::new(
                    bounds@.len(),
                    |k: int| s@.subrange(bounds@[k].0 as int, bounds@[k].1 as int),
                ) =~= done.push(strip_cr(rest@.take(i as int))));
                assert(lines(s@) =~= done.push(strip_cr(rest@.take(i as int))) + lines(
                    s@.skip(start + i + 1),
                ));
                start = start + i + 1;
            },
            None => {
                assert(s@.subrange(start as int, len as int) =~= rest@);
                bounds.push((start, len));
                assert(Seq::new(
                    bounds@.len(),
                    |k: int| s@.subrange(bounds@[k].0 as int, bounds@[k].1 as int),
                ) =~= done.push(rest@));
                assert(s@.skip(len as int) =~= Seq::<char>::empty());
                assert(lines(s@) =~= done.push(rest@) + lines(s@.skip(len as int)));
                start = len;
            },
        }
    }
    assert(s@.skip(start as int) =~= Seq::<char>::empty());
    assert(lines(s@) =~= Seq::new(
        bounds@.len(),
        |k: int| s@.subrange(bounds@[k].0 as int, bounds@[k].1 as int),
    ));
    bounds
}

} // verus!
