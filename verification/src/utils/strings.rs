//! Questions about strings that the channels ask, answered over the
//! characters the strings hold.

use vstd::prelude::*;
use vstd::std_specs::iter::IteratorSpec;
use vstd::utf8::encode_utf8;

verus! {

/// The number of bytes that `chars` takes in UTF-8.
pub open spec fn byte_len(chars: Seq<char>) -> nat {
    encode_utf8(chars).len()
}

/// A string has at least as many bytes as it has characters.
pub proof fn lemma_chars_within_bytes(chars: Seq<char>)
    ensures
        chars.len() <= byte_len(chars),
    decreases chars.len(),
{
    if chars.len() > 0 {
        lemma_chars_within_bytes(chars.drop_first());
    }
}

/// A string has at most four bytes for each of its characters.
pub proof fn lemma_bytes_within_four(chars: Seq<char>)
    ensures
        byte_len(chars) <= 4 * chars.len(),
    decreases chars.len(),
{
    if chars.len() > 0 {
        lemma_bytes_within_four(chars.drop_first());
    }
}

/// Whether `s` begins with `prefix`.
pub fn starts_with(s: &str, prefix: &str) -> (r: bool)
    ensures
        r == prefix@.is_prefix_of(s@),
{
    let mut rest = s.chars();
    for c in it: prefix.chars()
        invariant
            it.seq() == prefix@,
            it.index() <= s@.len(),
            rest.remaining() == s@.skip(it.index()),
            forall|j: int| 0 <= j < it.index() ==> s@[j] == prefix@[j],
    {
        let ghost at = it.index();
        match rest.next() {
            None => {
                assert(s@.skip(at).len() == 0);
                return false;
            },
            Some(d) => {
                assert(d == s@.skip(at)[0]);
                assert(s@.skip(at).drop_first() =~= s@.skip(at + 1));
                if d != c {
                    return false;
                }
            },
        }
    }
    assert(prefix@ =~= s@.subrange(0, prefix@.len() as int));
    true
}

/// Whether `a` and `b` hold the same characters.
pub fn same_text(a: &str, b: &str) -> (r: bool)
    ensures
        r == (a@ == b@),
{
    let mut rest = a.chars();
    for c in it: b.chars()
        invariant
            it.seq() == b@,
            it.index() <= a@.len(),
            rest.remaining() == a@.skip(it.index()),
            forall|j: int| 0 <= j < it.index() ==> a@[j] == b@[j],
    {
        let ghost at = it.index();
        match rest.next() {
            None => {
                assert(a@.skip(at).len() == 0);
                return false;
            },
            Some(d) => {
                assert(d == a@.skip(at)[0]);
                assert(a@.skip(at).drop_first() =~= a@.skip(at + 1));
                if d != c {
                    return false;
                }
            },
        }
    }
    let ghost n = b@.len() as int;
    match rest.next() {
        None => {
            assert(a@.skip(n).len() == 0);
            assert(a@ =~= b@);
            true
        },
        Some(_) => {
            assert(a@.skip(n).len() > 0);
            false
        },
    }
}

/// An ASCII capital letter as its small letter, any other character as it is.
pub open spec fn ascii_lower(c: char) -> char {
    if 'A' <= c && c <= 'Z' {
        ((c as u8 + 32) as u8) as char
    } else {
        c
    }
}

/// `s` with its ASCII capital letters made small.
pub open spec fn lowercase(s: Seq<char>) -> Seq<char> {
    s.map_values(|c: char| ascii_lower(c))
}

/// An ASCII capital letter as its small letter, any other character as it is.
pub fn to_ascii_lower(c: char) -> (r: char)
    ensures
        r == ascii_lower(c),
{
    if 'A' <= c && c <= 'Z' {
        ((c as u8) + 32) as char
    } else {
        c
    }
}

/// Whether `s` reads `key` once its ASCII capital letters are made small.
pub fn lowercase_is(s: &str, key: &str) -> (r: bool)
    ensures
        r == (lowercase(s@) == key@),
{
    let mut rest = s.chars();
    for c in it: key.chars()
        invariant
            it.seq() == key@,
            it.index() <= s@.len(),
            rest.remaining() == s@.skip(it.index()),
            forall|j: int| 0 <= j < it.index() ==> ascii_lower(s@[j]) == key@[j],
    {
        let ghost at = it.index();
        match rest.next() {
            None => {
                assert(s@.skip(at).len() == 0);
                assert(lowercase(s@).len() == s@.len());
                return false;
            },
            Some(d) => {
                assert(d == s@.skip(at)[0]);
                assert(s@.skip(at).drop_first() =~= s@.skip(at + 1));
                if to_ascii_lower(d) != c {
                    assert(lowercase(s@)[at] != key@[at]);
                    return false;
                }
            },
        }
    }
    let ghost n = key@.len() as int;
    match rest.next() {
        None => {
            assert(s@.skip(n).len() == 0);
            assert(lowercase(s@) =~= key@);
            true
        },
        Some(_) => {
            assert(s@.skip(n).len() > 0);
            assert(lowercase(s@).len() == s@.len());
            false
        },
    }
}

/// The number of characters of `s` that stand before its first `sep`; the
/// length of `s` where it holds none.
pub open spec fn until(s: Seq<char>, sep: char) -> nat
    decreases s.len(),
{
    if s.len() == 0 || s[0] == sep {
        0
    } else {
        1 + until(s.drop_first(), sep)
    }
}

/// `until` is the first place where `sep` stands.
pub proof fn lemma_until(s: Seq<char>, sep: char, n: nat)
    requires
        n <= s.len(),
        forall|j: int| 0 <= j < n ==> s[j] != sep,
        n < s.len() ==> s[n as int] == sep,
    ensures
        until(s, sep) == n,
    decreases n,
{
    if n > 0 {
        lemma_until(s.drop_first(), sep, (n - 1) as nat);
    }
}

/// The first place at or behind `from` where `sep` stands in `s`, counted in
/// characters; the length of `s` where there is none.
pub fn position(s: &str, sep: char, from: usize) -> (at: usize)
    requires
        from <= s@.len(),
    ensures
        at == from + until(s@.skip(from as int), sep),
        from <= at <= s@.len(),
{
    let len: usize = s.unicode_len();
    let mut at: usize = 0;
    for c in it: s.chars()
        invariant
            it.seq() == s@,
            at == it.index(),
            s@.len() == len,
            from <= len,
            forall|j: int| from <= j < at ==> s@[j] != sep,
    {
        if at >= from && c == sep {
            proof {
                lemma_until(s@.skip(from as int), sep, (at - from) as nat);
            }
            return at;
        }
        at += 1;
    }
    proof {
        lemma_until(s@.skip(from as int), sep, (len - from) as nat);
    }
    len
}

/// What stands behind the last `sep` of `s`; all of `s` where it holds none.
pub open spec fn after_last(s: Seq<char>, sep: char) -> Seq<char>
    decreases s.len(),
{
    if s.len() == 0 || s.last() == sep {
        Seq::empty()
    } else {
        after_last(s.drop_last(), sep).push(s.last())
    }
}

/// `after_last` starts right behind the last place where `sep` stands.
pub proof fn lemma_after_last(s: Seq<char>, sep: char, start: nat)
    requires
        start <= s.len(),
        forall|j: int| start <= j < s.len() ==> s[j] != sep,
        start > 0 ==> s[start - 1] == sep,
    ensures
        after_last(s, sep) == s.skip(start as int),
    decreases s.len(),
{
    if s.len() == 0 || s.last() == sep {
        assert(s.skip(start as int) =~= Seq::<char>::empty());
    } else {
        lemma_after_last(s.drop_last(), sep, start);
        assert(s.skip(start as int) =~= s.drop_last().skip(start as int).push(s.last()));
    }
}

/// What stands behind the last `sep` of `s`; all of `s` where it holds none.
pub fn last_segment(s: &str, sep: char) -> (segment: String)
    ensures
        segment@ == after_last(s@, sep),
{
    let len: usize = s.unicode_len();
    let mut start: usize = 0;
    let mut at: usize = 0;
    for c in it: s.chars()
        invariant
            it.seq() == s@,
            at == it.index(),
            s@.len() == len,
            start <= at,
            forall|j: int| start <= j < at ==> s@[j] != sep,
            start > 0 ==> s@[start - 1] == sep,
    {
        at += 1;
        if c == sep {
            start = at;
        }
    }
    proof {
        lemma_after_last(s@, sep, start as nat);
        assert(s@.skip(start as int) =~= s@.subrange(start as int, len as int));
    }
    s.substring_char(start, len).to_owned()
}

/// A line without the carriage return that may stand at its end.
pub open spec fn without_cr(line: Seq<char>) -> Seq<char> {
    if line.len() > 0 && line.last() == '\r' {
        line.drop_last()
    } else {
        line
    }
}

/// The lines of `text`. A line ends at a line feed, or at a carriage return
/// directly followed by one; neither belongs to the line. What stands behind
/// the last line feed is a line too, unless it is empty.
pub open spec fn lines_of(text: Seq<char>) -> Seq<Seq<char>>
    decreases text.len(),
{
    if text.len() == 0 {
        Seq::empty()
    } else if until(text, '\n') < text.len() {
        seq![without_cr(text.take(until(text, '\n') as int))] + lines_of(
            text.skip(until(text, '\n') as int + 1),
        )
    } else {
        seq![text]
    }
}

/// What the strings of a list hold.
pub open spec fn texts(strings: Seq<String>) -> Seq<Seq<char>> {
    strings.map_values(|s: String| s@)
}

/// The lines of `text`.
pub fn lines(text: &str) -> (lines: Vec<String>)
    ensures
        texts(lines@) == lines_of(text@),
{
    let len: usize = text.unicode_len();
    let mut lines: Vec<String> = Vec::new();
    let mut start: usize = 0;
    let mut at: usize = 0;
    let mut after_cr = false;
    proof {
        assert(text@.skip(0) =~= text@);
        assert(texts(lines@) + lines_of(text@) =~= lines_of(text@));
    }
    for c in it: text.chars()
        invariant
            it.seq() == text@,
            at == it.index(),
            text@.len() == len,
            start <= at,
            forall|j: int| start <= j < at ==> text@[j] != '\n',
            after_cr == (at > start && text@[at - 1] == '\r'),
            lines_of(text@) == texts(lines@) + lines_of(text@.skip(start as int)),
    {
        if c == '\n' {
            let end: usize = if after_cr {
                (at - 1) as usize
            } else {
                at
            };
            let line = text.substring_char(start, end).to_owned();
            proof {
                let rest = text@.skip(start as int);
                lemma_until(rest, '\n', (at - start) as nat);
                assert(rest.take(at - start) =~= text@.subrange(start as int, at as int));
                assert(line@ =~= without_cr(rest.take(at - start)));
                assert(rest.skip(at - start + 1) =~= text@.skip(at + 1));
                assert(texts(lines@.push(line)) =~= texts(lines@) + seq![line@]);
                assert(texts(lines@.push(line)) + lines_of(text@.skip(at + 1)) =~= texts(lines@)
                    + lines_of(rest));
            }
            lines.push(line);
            start = at + 1;
        }
        after_cr = c == '\r';
        at += 1;
    }
    if start < len {
        let line = text.substring_char(start, len).to_owned();
        proof {
            let rest = text@.skip(start as int);
            lemma_until(rest, '\n', (len - start) as nat);
            assert(rest =~= text@.subrange(start as int, len as int));
            assert(texts(lines@.push(line)) =~= texts(lines@) + seq![line@]);
        }
        lines.push(line);
    } else {
        assert(texts(lines@) + Seq::<Seq<char>>::empty() =~= texts(lines@));
    }
    lines
}

} // verus!
