//! The `+HTTPHEAD` message, which announces the length of the bytes that follow it.
use vstd::prelude::*;
use vstd::slice::slice_subrange;
use vstd::utf8::is_ascii_chars;

use crate::bytes;
use crate::bytes::{CR, LF, SPACE};

verus! {

/// What was looked for where the input holds something else.
#[derive(Clone, Copy, Debug, PartialEq, Eq, Structural)]
pub enum ErrorKind {
    /// A line break at the start of the message.
    CrLf,
    /// The words that open the message.
    Tag,
    /// The line break that ends the first line.
    TakeUntil,
    /// As many bytes as the first line announces.
    Eof,
}

/// Why no message was found at the start of the input.
#[derive(Clone, Copy, Debug)]
pub enum HttpHeadError<'a> {
    /// The input may be the start of a message: at least so many bytes are missing.
    Incomplete(usize),
    /// The input is no message: `code` was not found at the start of `input`.
    Mismatch { input: &'a [u8], code: ErrorKind },
}

/// How the start of an input compares with a word.
#[derive(Clone, Copy, Debug, PartialEq, Eq, Structural)]
pub enum TagMatch {
    /// The input starts with the word.
    Full,
    /// The whole input is a start of the word, which has so many more bytes.
    Short(usize),
    /// The input and the word differ.
    Differ,
}

/// The first line of a message, as far as an input has it.
pub ghost enum FirstLine {
    /// The line starts at one index and ends, with its line break, before the other.
    Line(int, int),
    /// The input ends within the words that open the line.
    Incomplete(int),
    /// The input at this index is not what the line has there.
    Mismatch(int, ErrorKind),
}

/// What an input starts with.
pub ghost enum HttpHead {
    /// A whole message of this many bytes, the first line break included.
    Found(int),
    /// Bytes that may be the start of a message, and how many are missing at least.
    Incomplete(int),
    /// No message: the input at this index is not what a message has there.
    Mismatch(int, ErrorKind),
}

/// The words that open the first line.
pub open spec fn opening() -> Seq<u8> {
    bytes::ascii("+HTTPHEAD"@)
}

/// How the start of `s` compares with `word`.
pub open spec fn tag_match(s: Seq<u8>, word: Seq<u8>) -> TagMatch {
    if word.is_prefix_of(s) {
        TagMatch::Full
    } else if s.is_prefix_of(word) {
        TagMatch::Short((word.len() - s.len()) as usize)
    } else {
        TagMatch::Differ
    }
}

/// The length of the line break at the start of `s`: a line feed, alone or
/// behind a carriage return.
pub open spec fn line_ending(s: Seq<u8>) -> Option<int> {
    if s.len() > 0 && s[0] == LF {
        Some(1)
    } else if bytes::crlf_at(s, 0) {
        Some(2)
    } else {
        None
    }
}

/// The first line in `s`: a line break, `+HTTPHEAD`, a colon, and all up to the
/// next carriage return and line feed.
pub open spec fn first_line(s: Seq<u8>) -> FirstLine {
    match line_ending(s) {
        None => FirstLine::Mismatch(0, ErrorKind::CrLf),
        Some(start) => match tag_match(s.skip(start), opening()) {
            TagMatch::Differ => FirstLine::Mismatch(start, ErrorKind::Tag),
            TagMatch::Short(n) => FirstLine::Incomplete(n as int),
            TagMatch::Full => match tag_match(s.skip(start + 9), bytes::ascii(":"@)) {
                TagMatch::Differ => FirstLine::Mismatch(start + 9, ErrorKind::Tag),
                TagMatch::Short(n) => FirstLine::Incomplete(n as int),
                TagMatch::Full => match bytes::first_crlf(s.skip(start + 10)) {
                    None => FirstLine::Mismatch(start + 10, ErrorKind::TakeUntil),
                    Some(i) => FirstLine::Line(start, start + 10 + i + 2),
                },
            },
        },
    }
}

/// The length that a first line announces: the number behind its first space.
pub open spec fn announced_len(line: Seq<u8>) -> Option<usize> {
    match bytes::first_where(line, |b: u8| b == SPACE) {
        Some(i) => bytes::signed_length_value(bytes::trim(line.skip(i))),
        None => None,
    }
}

/// If `s` has a whole first line, the line announces a length.
pub open spec fn is_readable(s: Seq<u8>) -> bool {
    first_line(s) matches FirstLine::Line(start, end) ==> announced_len(
        s.subrange(start, end),
    ) is Some
}

/// What `s` starts with, where its first line, if whole, announces a length.
pub open spec fn http_head(s: Seq<u8>) -> HttpHead {
    match first_line(s) {
        FirstLine::Mismatch(at, code) => HttpHead::Mismatch(at, code),
        FirstLine::Incomplete(n) => HttpHead::Incomplete(n),
        FirstLine::Line(start, end) => {
            let body = announced_len(s.subrange(start, end))->0;
            if body <= s.len() - end {
                HttpHead::Found(end + body)
            } else {
                HttpHead::Mismatch(end, ErrorKind::Eof)
            }
        },
    }
}

/// `tail` is the end of `s`.
pub open spec fn is_tail(tail: Seq<u8>, s: Seq<u8>) -> bool {
    tail.len() <= s.len() && tail == s.skip(s.len() - tail.len())
}

/// Compares the start of `x` with `word`.
fn compare(x: &[u8], word: &str) -> (r: TagMatch)
    requires
        is_ascii_chars(word@),
        word@.len() <= usize::MAX,
    ensures
        r == tag_match(x@, bytes::ascii(word@)),
{
    proof {
        bytes::lemma_ascii(word@);
    }
    let w = word.as_bytes();
    let mut i: usize = 0;
    while i < w.len() && i < x.len()
        invariant
            w@ == bytes::ascii(word@),
            i <= w@.len(),
            i <= x@.len(),
            forall|j: int| 0 <= j < i ==> #[trigger] x@[j] == w@[j],
        decreases w@.len() - i,
    {
        if x[i] != w[i] {
            assert(x@[i as int] != w@[i as int]);
            assert(w@.is_prefix_of(x@) ==> x@.subrange(0, w@.len() as int)[i as int] == w@[i as int]);
            assert(x@.is_prefix_of(w@) ==> w@.subrange(0, x@.len() as int)[i as int] == x@[i as int]);
            return TagMatch::Differ;
        }
        i = i + 1;
    }
    if i == w.len() {
        assert(x@.subrange(0, w@.len() as int) =~= w@);
        TagMatch::Full
    } else {
        assert(w@.subrange(0, x@.len() as int) =~= x@);
        TagMatch::Short(w.len() - x.len())
    }
}

/// Where the first line of a message starts and ends in an input, or why there is none.
fn find_first_line(x: &[u8]) -> (r: Result<(usize, usize), HttpHeadError<'_>>)
    ensures
        match r {
            Ok((start, end)) => first_line(x@) == FirstLine::Line(start as int, end as int)
                && start <= end <= x@.len(),
            Err(HttpHeadError::Incomplete(n)) => first_line(x@) == FirstLine::Incomplete(n as int),
            Err(HttpHeadError::Mismatch { input, code }) => first_line(x@)
                == FirstLine::Mismatch(x@.len() - input@.len(), code) && is_tail(input@, x@),
        },
{
    proof {
        reveal_strlit("+HTTPHEAD");
        reveal_strlit(":");
    }
    let start: usize = if x.len() > 0 && x[0] == LF {
        1
    } else if x.len() > 1 && x[0] == CR && x[1] == LF {
        2
    } else {
        assert(x@.skip(0) =~= x@);
        return Err(HttpHeadError::Mismatch { input: x, code: ErrorKind::CrLf });
    };
    let line = slice_subrange(x, start, x.len());
    assert(line@ =~= x@.skip(start as int));
    match compare(line, "+HTTPHEAD") {
        TagMatch::Full => {},
        TagMatch::Short(n) => return Err(HttpHeadError::Incomplete(n)),
        TagMatch::Differ => return Err(
            HttpHeadError::Mismatch { input: line, code: ErrorKind::Tag },
        ),
    }
    let after = slice_subrange(x, start + 9, x.len());
    assert(after@ =~= x@.skip(start + 9));
    match compare(after, ":") {
        TagMatch::Full => {},
        TagMatch::Short(n) => return Err(HttpHeadError::Incomplete(n)),
        TagMatch::Differ => return Err(
            HttpHeadError::Mismatch { input: after, code: ErrorKind::Tag },
        ),
    }
    let text = slice_subrange(x, start + 10, x.len());
    assert(text@ =~= x@.skip(start + 10));
    match bytes::find_crlf(text) {
        Some(i) => {
            proof {
                bytes::lemma_first_crlf(text@);
            }
            Ok((start, start + 10 + i + 2))
        },
        None => Err(HttpHeadError::Mismatch { input: text, code: ErrorKind::TakeUntil }),
    }
}

/// The length that a first line announces, if it announces one.
fn read_announced_len(line: &[u8]) -> (r: Option<usize>)
    ensures
        r == announced_len(line@),
{
    let space: usize = match bytes::find_byte(line, SPACE) {
        Some(i) => i,
        None => return None,
    };
    proof {
        bytes::lemma_first_where(line@, |b: u8| b == SPACE);
    }
    let tail = slice_subrange(line, space, line.len());
    assert(tail@ =~= line@.skip(space as int));
    match bytes::parse_signed_len(bytes::trim_ascii_whitespace(tail)) {
        Ok(n) => Some(n),
        Err(()) => None,
    }
}

/// Whether `parse_http_head` can read `input`: its first line, if whole, must
/// announce a length.
pub fn can_read_http_head(input: &[u8]) -> (r: bool)
    ensures
        r == is_readable(input@),
{
    match find_first_line(input) {
        Ok((start, end)) => read_announced_len(slice_subrange(input, start, end)).is_some(),
        Err(_) => true,
    }
}

/// Finds a `+HTTPHEAD` message at the start of `input`.
///
/// A message is a line break, the line `+HTTPHEAD: <length>`, and as many bytes
/// as the line announces. The result is the input behind the message, the
/// message without the whitespace around it, and the length of the message.
pub fn parse_http_head(input: &[u8]) -> (r: Result<
    (&[u8], (&[u8], usize)),
    HttpHeadError<'_>,
>)
    requires
        is_readable(input@),
    ensures
        match r {
            Ok((rest, (urc, len))) => {
                &&& http_head(input@) == HttpHead::Found(len as int)
                &&& len <= input@.len()
                &&& urc@ == bytes::trim(input@.take(len as int))
                &&& rest@ == input@.skip(len as int)
            },
            Err(HttpHeadError::Incomplete(n)) => http_head(input@) == HttpHead::Incomplete(
                n as int,
            ),
            Err(HttpHeadError::Mismatch { input: tail, code }) => {
                &&& http_head(input@) == HttpHead::Mismatch(input@.len() - tail@.len(), code)
                &&& is_tail(tail@, input@)
            },
        },
{
    let (start, end) = match find_first_line(input) {
        Ok(line) => line,
        Err(e) => return Err(e),
    };
    let body_len: usize = match read_announced_len(slice_subrange(input, start, end)) {
        Some(n) => n,
        // A readable line announces a length.
        None => 0,
    };
    if body_len > input.len() - end {
        let tail = slice_subrange(input, end, input.len());
        assert(tail@ =~= input@.skip(end as int));
        return Err(HttpHeadError::Mismatch { input: tail, code: ErrorKind::Eof });
    }
    let len: usize = end + body_len;
    let message = slice_subrange(input, 0, len);
    assert(message@ =~= input@.take(len as int));
    let rest = slice_subrange(input, len, input.len());
    assert(rest@ =~= input@.skip(len as int));
    Ok((rest, (bytes::trim_ascii_whitespace(message), len)))
}

/// `le` is a line break that a message can start with.
pub open spec fn is_line_break(le: Seq<u8>) -> bool {
    le == seq![CR, LF] || le == seq![LF]
}

/// A message with the given line break before it, digits and body.
pub open spec fn http_head_frame(le: Seq<u8>, digits: Seq<u8>, body: Seq<u8>) -> Seq<u8> {
    le + first_line_text(digits) + body
}

/// The first line of a message with the given digits, its line break included.
pub open spec fn first_line_text(digits: Seq<u8>) -> Seq<u8> {
    bytes::ascii("+HTTPHEAD: "@) + digits + seq![CR, LF]
}

/// A first line that is whole stays the same when more bytes follow.
proof fn lemma_first_line_stays(s: Seq<u8>, more: Seq<u8>)
    requires
        first_line(s) is Line,
    ensures
        first_line(s + more) == first_line(s),
        ({
            let (start, end) = (first_line(s)->Line_0, first_line(s)->Line_1);
            &&& 0 <= start <= end <= s.len()
            &&& (s + more).subrange(start, end) == s.subrange(start, end)
        }),
{
    let start = line_ending(s)->0;
    let t = s + more;
    assert(t.skip(start) =~= s.skip(start) + more);
    lemma_prefix_stays(opening(), s.skip(start), more);
    reveal_strlit("+HTTPHEAD");
    reveal_strlit(":");
    assert(t.skip(start + 9) =~= s.skip(start + 9) + more);
    lemma_prefix_stays(bytes::ascii(":"@), s.skip(start + 9), more);
    assert(t.skip(start + 10) =~= s.skip(start + 10) + more);
    bytes::lemma_first_crlf_extends(s.skip(start + 10), more);
    bytes::lemma_first_crlf(s.skip(start + 10));
    let end = start + 10 + bytes::first_crlf(s.skip(start + 10))->0 + 2;
    assert(t.subrange(start, end) =~= s.subrange(start, end));
}

/// A message that was found is still found, with the same length, when more
/// bytes arrive behind it.
pub proof fn law_found_message_stays(s: Seq<u8>, more: Seq<u8>)
    requires
        is_readable(s),
        http_head(s) is Found,
    ensures
        is_readable(s + more),
        http_head(s + more) == http_head(s),
{
    lemma_first_line_stays(s, more);
}

/// A part of a message is never taken for a whole one: as long as bytes of a
/// message are missing, no message is found.
pub proof fn law_no_message_before_its_end(s: Seq<u8>, n: int)
    requires
        is_readable(s),
        http_head(s) is Found,
        0 <= n < http_head(s)->Found_0,
    ensures
        http_head(s)->Found_0 <= s.len(),
        is_readable(s.take(n)),
        http_head(s.take(n)) !is Found,
{
    lemma_first_line_stays(s, Seq::empty());
    let part = s.take(n);
    assert(part + s.skip(n) =~= s);
    if first_line(part) is Line {
        lemma_first_line_stays(part, s.skip(n));
    }
}

/// The first line of a message is found behind its line break.
proof fn lemma_first_line_is_found(le: Seq<u8>, digits: Seq<u8>, rest: Seq<u8>)
    requires
        is_line_break(le),
        bytes::is_number(digits),
    ensures
        ({
            let s = le + first_line_text(digits) + rest;
            let end = (le.len() + first_line_text(digits).len()) as int;
            &&& first_line(s) == FirstLine::Line(le.len() as int, end)
            &&& s.subrange(le.len() as int, end) == first_line_text(digits)
        }),
{
    reveal_strlit("+HTTPHEAD");
    reveal_strlit(":");
    reveal_strlit("+HTTPHEAD: ");
    let line = first_line_text(digits);
    let s = le + line + rest;
    let n = digits.len() as int;
    let k = le.len() as int;
    assert(line_ending(s) == Some(k)) by {
        assert(s[0] == le[0]);
        if k == 2 {
            assert(s[1] == le[1]);
        }
    }
    let tail = line + rest;
    assert(s.skip(k) =~= tail);
    assert(tail.subrange(0, 9) =~= opening());
    assert(s.skip(k + 9) =~= tail.skip(9));
    assert(tail.skip(9).subrange(0, 1) =~= bytes::ascii(":"@));
    assert(s.skip(k + 10) =~= tail.skip(10));
    let text = seq![SPACE] + digits;
    assert(tail.skip(10) =~= text + seq![CR, LF] + rest);
    assert(bytes::first_crlf(text) is None) by {
        bytes::lemma_first_crlf(text);
        assert forall|j: int| !#[trigger] bytes::crlf_at(text, j) by {
            if 0 < j < n + 1 {
                assert(text[j] == digits[j - 1]);
                assert(bytes::is_digit(digits[j - 1]));
            }
        }
    }
    bytes::lemma_first_crlf_behind(text, rest);
    assert(s.subrange(k, k + 13 + n) =~= line);
}

/// A first line announces the number that its digits write.
proof fn lemma_first_line_announces(digits: Seq<u8>)
    requires
        bytes::is_number(digits),
    ensures
        announced_len(first_line_text(digits)) == bytes::length_value(digits),
{
    reveal_strlit("+HTTPHEAD: ");
    let line = first_line_text(digits);
    let p = |b: u8| b == SPACE;
    assert(p(line[10]));
    assert forall|j: int| 0 <= j < 10 implies !p(#[trigger] line[j]) by {
        assert(line[j] == "+HTTPHEAD: "@[j] as u8);
    }
    bytes::lemma_first_where_is(line, p, 10);
    assert(line.skip(10) =~= seq![SPACE] + digits + seq![CR, LF]);
    assert(bytes::is_digit(digits.first()));
    assert(bytes::is_digit(digits.last()));
    bytes::law_trim_keeps_core(seq![SPACE], digits, seq![CR, LF]);
}

/// A well-formed message is found with either line break before it and whatever
/// follows it, and what is handed on is its first line and its body, without the
/// whitespace at the end.
pub proof fn law_frame_is_found(le: Seq<u8>, digits: Seq<u8>, body: Seq<u8>, rest: Seq<u8>)
    requires
        is_line_break(le),
        bytes::length_value(digits) == Some(body.len() as usize),
        body.len() <= usize::MAX,
    ensures
        ({
            let frame = http_head_frame(le, digits, body);
            &&& is_readable(frame + rest)
            &&& http_head(frame + rest) == HttpHead::Found(frame.len() as int)
            &&& bytes::trim(frame) == bytes::trim_end(first_line_text(digits) + body)
        }),
{
    let frame = http_head_frame(le, digits, body);
    let line = first_line_text(digits);
    assert(frame + rest =~= le + line + (body + rest));
    lemma_first_line_is_found(le, digits, body + rest);
    lemma_first_line_announces(digits);
    let content = line + body;
    assert(frame =~= le + content);
    assert(content.first() == '+' as u8) by {
        reveal_strlit("+HTTPHEAD: ");
    }
    bytes::lemma_trim_start_blank(le, content);
}

/// A word at the start of `s` stays there when more bytes follow.
proof fn lemma_prefix_stays(word: Seq<u8>, s: Seq<u8>, more: Seq<u8>)
    requires
        word.is_prefix_of(s),
    ensures
        word.is_prefix_of(s + more),
{
    assert((s + more).subrange(0, word.len() as int) =~= s.subrange(0, word.len() as int));
}

/// The first line of any text is found behind its line break.
proof fn lemma_any_line_is_found(le: Seq<u8>, text: Seq<u8>, rest: Seq<u8>)
    requires
        is_line_break(le),
        bytes::first_crlf(text) is None,
    ensures
        ({
            let line = bytes::ascii("+HTTPHEAD:"@) + text + seq![CR, LF];
            let s = le + line + rest;
            let end = (le.len() + line.len()) as int;
            &&& first_line(s) == FirstLine::Line(le.len() as int, end)
            &&& s.subrange(le.len() as int, end) == line
            &&& line.len() == 12 + text.len()
        }),
{
    reveal_strlit("+HTTPHEAD:");
    let words = bytes::ascii("+HTTPHEAD:"@);
    let line = words + text + seq![CR, LF];
    let s = le + line + rest;
    let k = le.len() as int;
    lemma_words_are_passed(le, text + seq![CR, LF] + rest);
    assert(s =~= le + words + (text + seq![CR, LF] + rest));
    assert(s.skip(k + 10) =~= text + seq![CR, LF] + rest);
    bytes::lemma_first_crlf_behind(text, rest);
    assert(s.subrange(k, k + 12 + text.len()) =~= line);
}

/// Behind a line break and the words that open a message, the end of the line is looked
/// for.
proof fn lemma_words_are_passed(le: Seq<u8>, tail: Seq<u8>)
    requires
        is_line_break(le),
    ensures
        ({
            let s = le + bytes::ascii("+HTTPHEAD:"@) + tail;
            let k = le.len() as int;
            &&& s.skip(k + 10) == tail
            &&& first_line(s) == (match bytes::first_crlf(tail) {
                None => FirstLine::Mismatch(k + 10, ErrorKind::TakeUntil),
                Some(i) => FirstLine::Line(k, k + 10 + i + 2),
            })
        }),
{
    reveal_strlit("+HTTPHEAD");
    reveal_strlit(":");
    reveal_strlit("+HTTPHEAD:");
    let s = le + bytes::ascii("+HTTPHEAD:"@) + tail;
    let k = le.len() as int;
    lemma_line_ending(le, bytes::ascii("+HTTPHEAD:"@) + tail);
    assert(s =~= le + (bytes::ascii("+HTTPHEAD:"@) + tail));
    assert(s.skip(k).subrange(0, 9) =~= opening());
    assert(s.skip(k + 9).subrange(0, 1) =~= bytes::ascii(":"@));
    assert(s.skip(k + 10) =~= tail);
}

/// Either line break is seen at the start of a text.
proof fn lemma_line_ending(le: Seq<u8>, tail: Seq<u8>)
    requires
        is_line_break(le),
    ensures
        line_ending(le + tail) == Some(le.len() as int),
        (le + tail).skip(le.len() as int) == tail,
{
    let s = le + tail;
    assert(s[0] == le[0]);
    if le.len() == 2 {
        assert(s[1] == le[1]);
    }
    assert(s.skip(le.len() as int) =~= tail);
}

/// An input that starts with no line break is refused where it starts.
pub proof fn law_message_needs_line_break<'a>(
    input: &'a [u8],
    r: Result<(&'a [u8], (&'a [u8], usize)), HttpHeadError<'a>>,
    readable: bool,
)
    requires
        call_ensures(parse_http_head, (input,), r),
        call_ensures(can_read_http_head, (input,), readable),
        !seq![10u8].is_prefix_of(input@),
        !seq![13u8, 10].is_prefix_of(input@),
    ensures
        readable,
        r matches Err(HttpHeadError::Mismatch { input: tail, code: ErrorKind::CrLf }) && tail@
            == input@,
{
    let s = input@;
    if s.len() > 0 && s[0] == 10 {
        assert(s.subrange(0, 1) =~= seq![10u8]);
    }
    if s.len() > 1 && s[0] == 13 && s[1] == 10 {
        assert(s.subrange(0, 2) =~= seq![13u8, 10]);
    }
    if let Err(HttpHeadError::Mismatch { input: tail, code }) = r {
        assert(s.skip(0) =~= s);
    }
}

/// A start of the words that open a message is said to be incomplete, by as many bytes as
/// the name of the message lacks, or by the colon.
pub proof fn law_start_of_message_is_incomplete<'a>(
    input: &'a [u8],
    r: Result<(&'a [u8], (&'a [u8], usize)), HttpHeadError<'a>>,
    readable: bool,
    le: Seq<u8>,
    n: int,
)
    requires
        call_ensures(parse_http_head, (input,), r),
        call_ensures(can_read_http_head, (input,), readable),
        le == seq![13u8, 10] || le == seq![10u8],
        0 <= n < 10,
        input@ == le + bytes::ascii("+HTTPHEAD:"@).take(n),
    ensures
        readable,
        r matches Err(HttpHeadError::Incomplete(missing)) && missing == (if n < 9 {
            9 - n
        } else {
            1
        }),
{
    reveal_strlit("+HTTPHEAD");
    reveal_strlit(":");
    reveal_strlit("+HTTPHEAD:");
    let s = input@;
    let k = le.len() as int;
    let words = bytes::ascii("+HTTPHEAD:"@);
    lemma_line_ending(le, words.take(n));
    if n < 9 {
        assert(opening().subrange(0, n) =~= words.take(n));
        assert(s.skip(k).is_prefix_of(opening()));
        assert(!opening().is_prefix_of(s.skip(k)));
    } else {
        assert(s.skip(k).subrange(0, 9) =~= opening());
        let colon = bytes::ascii(":"@);
        assert(s.skip(k + 9) =~= Seq::<u8>::empty());
        assert(colon.subrange(0, 0) =~= s.skip(k + 9));
        assert(s.skip(k + 9).is_prefix_of(colon));
    }
}

/// Only an input that can still become a message is said to be incomplete: a line break,
/// and behind it a start of the words that open a message.
pub proof fn law_incomplete_can_become_message<'a>(
    input: &'a [u8],
    r: Result<(&'a [u8], (&'a [u8], usize)), HttpHeadError<'a>>,
)
    requires
        call_ensures(parse_http_head, (input,), r),
        r matches Err(HttpHeadError::Incomplete(_)),
    ensures
        exists|le: Seq<u8>, n: int|
            {
                &&& le == seq![13u8, 10] || le == seq![10u8]
                &&& 0 <= n < 10
                &&& input@ == #[trigger] (le + bytes::ascii("+HTTPHEAD:"@).take(n))
                &&& r->Err_0->Incomplete_0 == (if n < 9 {
                    9 - n
                } else {
                    1
                })
            },
{
    reveal_strlit("+HTTPHEAD");
    reveal_strlit(":");
    reveal_strlit("+HTTPHEAD:");
    let s = input@;
    let k = line_ending(s)->0;
    let le = s.take(k);
    if s[0] == LF {
        assert(le =~= seq![10u8]);
    } else {
        assert(le =~= seq![13u8, 10]);
    }
    let n = s.len() - k;
    let words = bytes::ascii("+HTTPHEAD:"@);
    let tail = s.skip(k);
    if opening().is_prefix_of(tail) {
        let colon = bytes::ascii(":"@);
        let behind = s.skip(k + 9);
        assert(behind.is_prefix_of(colon));
        if behind.len() == 1 {
            assert(colon.subrange(0, 1) =~= colon);
            assert(behind.subrange(0, 1) =~= behind);
            assert(colon.is_prefix_of(behind));
        }
        assert(behind.len() == 0);
        assert(tail.subrange(0, 9) =~= tail);
        assert(words.take(9) =~= opening());
        assert(n == 9);
    } else {
        assert(tail.is_prefix_of(opening()));
        if tail.len() == 9 {
            assert(opening().subrange(0, 9) =~= opening());
            assert(tail.subrange(0, 9) =~= tail);
        }
        assert(opening().subrange(0, n) =~= words.take(n));
    }
    assert(s =~= le + words.take(n));
}

/// An input whose bytes behind the line break differ from the words that open a message is
/// refused there: at the name of the message, or at the colon.
pub proof fn law_other_words_are_refused<'a>(
    input: &'a [u8],
    r: Result<(&'a [u8], (&'a [u8], usize)), HttpHeadError<'a>>,
    readable: bool,
    le: Seq<u8>,
    text: Seq<u8>,
    i: int,
)
    requires
        call_ensures(parse_http_head, (input,), r),
        call_ensures(can_read_http_head, (input,), readable),
        le == seq![13u8, 10] || le == seq![10u8],
        input@ == le + text,
        0 <= i < 10,
        i < text.len(),
        text[i] != bytes::ascii("+HTTPHEAD:"@)[i],
        forall|j: int| 0 <= j < i ==> #[trigger] text[j] == bytes::ascii("+HTTPHEAD:"@)[j],
    ensures
        readable,
        r matches Err(HttpHeadError::Mismatch { input: tail, code: ErrorKind::Tag }) && tail@ == (
        if i < 9 {
            text
        } else {
            text.skip(9)
        }),
{
    reveal_strlit("+HTTPHEAD");
    reveal_strlit(":");
    reveal_strlit("+HTTPHEAD:");
    let s = input@;
    let k = le.len() as int;
    let words = bytes::ascii("+HTTPHEAD:"@);
    lemma_line_ending(le, text);
    assert(forall|j: int| 0 <= j < 9 ==> #[trigger] opening()[j] == words[j]);
    if i < 9 {
        if opening().is_prefix_of(text) {
            assert(text.subrange(0, 9)[i] == opening()[i]);
        }
        if text.is_prefix_of(opening()) {
            assert(opening().subrange(0, text.len() as int)[i] == text[i]);
        }
        assert(s.skip(s.len() - text.len()) =~= text);
    } else {
        assert(text.subrange(0, 9) =~= opening());
        let behind = s.skip(k + 9);
        assert(behind =~= text.skip(9));
        let colon = bytes::ascii(":"@);
        assert(behind[0] == text[9]);
        if colon.is_prefix_of(behind) {
            assert(behind.subrange(0, 1)[0] == colon[0]);
        }
        if behind.is_prefix_of(colon) {
            assert(colon.subrange(0, behind.len() as int)[0] == behind[0]);
        }
        assert(s.skip(s.len() - behind.len()) =~= behind);
    }
}

/// A line that does not end yet is refused behind the words that open it.
pub proof fn law_open_line_is_refused<'a>(
    input: &'a [u8],
    r: Result<(&'a [u8], (&'a [u8], usize)), HttpHeadError<'a>>,
    readable: bool,
    le: Seq<u8>,
    text: Seq<u8>,
)
    requires
        call_ensures(parse_http_head, (input,), r),
        call_ensures(can_read_http_head, (input,), readable),
        le == seq![13u8, 10] || le == seq![10u8],
        input@ == le + bytes::ascii("+HTTPHEAD:"@) + text,
        forall|j: int|
            0 <= j && j + 1 < text.len() ==> !(#[trigger] text[j] == 13 && text[j + 1] == 10),
    ensures
        readable,
        r matches Err(HttpHeadError::Mismatch { input: tail, code: ErrorKind::TakeUntil }) && tail@
            == text,
{
    reveal_strlit("+HTTPHEAD:");
    bytes::law_no_crlf(text);
    lemma_words_are_passed(le, text);
    assert(input@.skip(input@.len() - text.len()) =~= text);
}

/// Where the first line has no space, it announces no length.
pub proof fn law_line_without_space_is_not_readable(
    input: &[u8],
    readable: bool,
    le: Seq<u8>,
    text: Seq<u8>,
    rest: Seq<u8>,
)
    requires
        call_ensures(can_read_http_head, (input,), readable),
        le == seq![13u8, 10] || le == seq![10u8],
        input@ == le + bytes::ascii("+HTTPHEAD:"@) + text + seq![13u8, 10] + rest,
        forall|j: int|
            0 <= j && j + 1 < text.len() ==> !(#[trigger] text[j] == 13 && text[j + 1] == 10),
        forall|j: int| 0 <= j < text.len() ==> #[trigger] text[j] != 32,
    ensures
        !readable,
{
    reveal_strlit("+HTTPHEAD:");
    bytes::law_no_crlf(text);
    let words = bytes::ascii("+HTTPHEAD:"@);
    let line = words + text + seq![CR, LF];
    lemma_any_line_is_found(le, text, rest);
    assert(input@ =~= le + line + rest);
    let p = |b: u8| b == SPACE;
    bytes::lemma_first_where(line, p);
    assert forall|j: int| 0 <= j < line.len() implies !p(#[trigger] line[j]) by {
        if j < 10 {
            assert(line[j] == "+HTTPHEAD:"@[j] as u8);
        } else if j < 10 + text.len() {
            assert(line[j] == text[j - 10]);
        }
    }
}

/// A line is readable exactly when digits, with or without a plus sign, are all that
/// stands between its first space and its end, whitespace apart.
pub proof fn law_line_is_readable(
    input: &[u8],
    readable: bool,
    le: Seq<u8>,
    before: Seq<u8>,
    number: Seq<u8>,
    rest: Seq<u8>,
)
    requires
        call_ensures(can_read_http_head, (input,), readable),
        le == seq![13u8, 10] || le == seq![10u8],
        input@ == le + bytes::ascii("+HTTPHEAD:"@) + (before + seq![32u8] + number) + seq![13u8, 10]
            + rest,
        bytes::first_crlf(before + seq![32u8] + number) is None,
        forall|j: int| 0 <= j < before.len() ==> #[trigger] before[j] != 32,
    ensures
        ({
            let core = bytes::trim(seq![32u8] + number + seq![13u8, 10]);
            readable == (bytes::length_value(core) is Some || core.len() > 0 && core[0]
                == '+' as u8 && bytes::length_value(core.skip(1)) is Some)
        }),
{
    let text = before + seq![32u8] + number;
    let line = bytes::ascii("+HTTPHEAD:"@) + text + seq![CR, LF];
    lemma_any_line_is_found(le, text, rest);
    assert(input@ =~= le + line + rest);
    lemma_announced_behind_space(before, number);
    let core = bytes::trim(seq![32u8] + number + seq![13u8, 10]);
    if core.len() > 0 {
        assert(core.skip(1) =~= core.drop_first());
        if core[0] == '+' as u8 {
            assert(!bytes::is_digit(core[0]));
            assert(!bytes::is_number(core));
        }
    }
}

/// The length is read behind the first space of a line.
proof fn lemma_announced_behind_space(before: Seq<u8>, number: Seq<u8>)
    requires
        forall|j: int| 0 <= j < before.len() ==> #[trigger] before[j] != 32,
    ensures
        announced_len(
            bytes::ascii("+HTTPHEAD:"@) + (before + seq![32u8] + number) + seq![CR, LF],
        ) == bytes::signed_length_value(bytes::trim(seq![32u8] + number + seq![13u8, 10])),
{
    reveal_strlit("+HTTPHEAD:");
    let line = bytes::ascii("+HTTPHEAD:"@) + (before + seq![32u8] + number) + seq![CR, LF];
    let p = |b: u8| b == SPACE;
    let i = (10 + before.len()) as int;
    assert(p(line[i]));
    assert forall|j: int| 0 <= j < i implies !p(#[trigger] line[j]) by {
        if j < 10 {
            assert(line[j] == "+HTTPHEAD:"@[j] as u8);
        } else {
            assert(line[j] == before[j - 10]);
        }
    }
    bytes::lemma_first_where_is(line, p, i);
    assert(line.skip(i) =~= seq![32u8] + number + seq![13u8, 10]);
}

/// A sign, a number and blanks around them are read as the number.
proof fn lemma_padded_number(
    front: Seq<u8>,
    sign: Seq<u8>,
    digits: Seq<u8>,
    back: Seq<u8>,
)
    requires
        bytes::is_blank(front),
        bytes::is_blank(back),
        sign == Seq::<u8>::empty() || sign == seq!['+' as u8],
        bytes::length_value(digits) is Some,
    ensures
        bytes::signed_length_value(
            bytes::trim(seq![32u8] + (front + sign + digits + back) + seq![13u8, 10]),
        ) == bytes::length_value(digits),
{
    let core = sign + digits;
    let f = seq![32u8] + front;
    let b = back + seq![13u8, 10];
    assert(seq![32u8] + (front + sign + digits + back) + seq![13u8, 10] =~= f + core + b);
    assert forall|i: int| 0 <= i < f.len() implies bytes::is_whitespace(#[trigger] f[i]) by {
        if i > 0 {
            assert(f[i] == front[i - 1]);
        }
    }
    assert forall|i: int| 0 <= i < b.len() implies bytes::is_whitespace(#[trigger] b[i]) by {
        if i < back.len() {
            assert(b[i] == back[i]);
        }
    }
    assert(bytes::is_digit(digits.first()));
    assert(bytes::is_digit(digits.last()));
    assert(core.last() == digits.last());
    if sign.len() == 0 {
        assert(core =~= digits);
    } else {
        assert(core.first() == '+' as u8);
        assert(core.drop_first() =~= digits);
    }
    bytes::law_trim_keeps_core(f, core, b);
}

/// Any line that announces a length is the first line of a message: whatever stands
/// before the first space, with whitespace around the number and with or without a plus
/// sign before it. Where as many bytes follow as it announces, they are the body, and the
/// message, its length and the bytes behind it are handed on; where fewer follow, the
/// message is refused at the body.
pub proof fn law_message_is_as_long_as_announced<'a>(
    input: &'a [u8],
    r: Result<(&'a [u8], (&'a [u8], usize)), HttpHeadError<'a>>,
    readable: bool,
    le: Seq<u8>,
    before: Seq<u8>,
    front: Seq<u8>,
    sign: Seq<u8>,
    digits: Seq<u8>,
    back: Seq<u8>,
    rest: Seq<u8>,
)
    requires
        call_ensures(parse_http_head, (input,), r),
        call_ensures(can_read_http_head, (input,), readable),
        le == seq![13u8, 10] || le == seq![10u8],
        forall|j: int| 0 <= j < before.len() ==> #[trigger] before[j] != 32,
        bytes::is_blank(front),
        bytes::is_blank(back),
        sign == Seq::<u8>::empty() || sign == seq!['+' as u8],
        bytes::length_value(digits) is Some,
        bytes::first_crlf(before + seq![32u8] + (front + sign + digits + back)) is None,
        input@ == le + bytes::ascii("+HTTPHEAD:"@) + (before + seq![32u8] + (front + sign + digits
            + back)) + seq![13u8, 10] + rest,
    ensures
        readable,
        ({
            let line_end = input@.len() - rest.len();
            let announced = bytes::length_value(digits)->0;
            if announced <= rest.len() {
                r matches Ok((behind, (urc, len))) && {
                    &&& len == line_end + announced
                    &&& behind@ == rest.skip(announced as int)
                    &&& urc@ == bytes::trim(input@.take(line_end + announced))
                }
            } else {
                r matches Err(HttpHeadError::Mismatch { input: tail, code: ErrorKind::Eof })
                    && tail@ == rest
            }
        }),
{
    let number = front + sign + digits + back;
    let text = before + seq![32u8] + number;
    let line = bytes::ascii("+HTTPHEAD:"@) + text + seq![CR, LF];
    lemma_any_line_is_found(le, text, rest);
    assert(input@ =~= le + line + rest);
    lemma_announced_behind_space(before, number);
    lemma_padded_number(front, sign, digits, back);
    let end = (le.len() + line.len()) as int;
    let announced = bytes::length_value(digits)->0;
    assert(input@.skip(end) =~= rest);
    if announced <= rest.len() {
        assert(input@.skip(end + announced) =~= rest.skip(announced as int));
    }
}

} // verus!
