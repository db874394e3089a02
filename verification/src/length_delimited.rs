//! Bytes that follow their own length.
use vstd::prelude::*;
use vstd::slice::slice_subrange;

use crate::bounded;
use crate::bytes;
use crate::bytes::{CR, LF, QUOTE};
use crate::http_head;

verus! {

/// A payload that followed its length, behind a separator of `S` bytes.
#[derive(Debug)]
pub struct LengthDelimited<const N: usize, const S: usize> {
    /// The number of bytes in the payload, which `bytes` knows as well.
    pub len: usize,
    /// The payload bytes.
    pub bytes: heapless::Vec<u8, N>,
}

impl<const N: usize, const S: usize> LengthDelimited<N, S> {
    /// The payload is `s`.
    pub open spec fn has_payload(self, s: Seq<u8>) -> bool {
        self.len == s.len() && bounded::holds(self.bytes, s)
    }

    /// Both have the same length and the same payload.
    pub open spec fn same(self, other: Self) -> bool {
        &&& self.len == other.len
        &&& forall|s: Seq<u8>| #[trigger] self.has_payload(s) == other.has_payload(s)
    }
}

impl<const N: usize, const S: usize> Clone for LengthDelimited<N, S> {
    fn clone(&self) -> (r: Self)
        ensures
            r.same(*self),
    {
        let bytes = bounded::clone_vec(&self.bytes);
        proof {
            assert forall|s: Seq<u8>|
                (self.len == s.len() && bounded::holds(bytes, s)) == #[trigger] self.has_payload(
                    s,
                ) by {
                assert(bounded::holds(bytes, s) == bounded::holds(self.bytes, s));
            }
        }
        LengthDelimited { len: self.len, bytes }
    }
}

/// Why bytes are no length-delimited payload.
#[derive(Clone, Copy, Debug, PartialEq, Eq, Structural)]
pub enum LengthDelimitedError {
    /// There are only digits.
    ExpectedComma,
    /// What stands in front of the separator is no length.
    ExpectedUnsignedInt,
    /// The payload is longer than there is room for.
    IncorrectSliceSize,
}

impl LengthDelimitedError {
    /// The text of the error.
    pub open spec fn text(self) -> Seq<char> {
        match self {
            LengthDelimitedError::ExpectedComma => "expected a comma"@,
            LengthDelimitedError::ExpectedUnsignedInt => "expected an unsigned int"@,
            LengthDelimitedError::IncorrectSliceSize => "incorrect slice size"@,
        }
    }

    /// The text of the error.
    pub fn message(self) -> (r: &'static str)
        ensures
            r@ == self.text(),
    {
        match self {
            LengthDelimitedError::ExpectedComma => "expected a comma",
            LengthDelimitedError::ExpectedUnsignedInt => "expected an unsigned int",
            LengthDelimitedError::IncorrectSliceSize => "incorrect slice size",
        }
    }
}

/// Where the digits at the start of `v` end, if anything stands behind them.
pub open spec fn digits_end(v: Seq<u8>) -> Option<int> {
    bytes::first_where(v, |b: u8| !bytes::is_digit(b))
}

/// The length that stands at the start of `v`, if any does.
pub open spec fn announced_len(v: Seq<u8>) -> Option<usize> {
    match digits_end(v) {
        Some(pos) => bytes::length_value(v.take(pos)),
        None => None,
    }
}

/// How many bytes the length at the start counts beside the payload, where a
/// separator has `sep` bytes.
///
/// A separator of one byte is not counted. Any other is: it stands for the line break
/// at the end of the body, which the sender counted and which was trimmed away since.
pub open spec fn counted(sep: int) -> int {
    if sep == 1 {
        0
    } else {
        sep
    }
}

/// The payload in `v`, where a separator has `sep` bytes.
///
/// The length at the start counts the payload, and what `counted` says. Double quotes
/// around the payload are left out, and the length does not count them.
pub open spec fn payload(v: Seq<u8>, sep: int) -> Result<Seq<u8>, LengthDelimitedError> {
    match digits_end(v) {
        None => Err(LengthDelimitedError::ExpectedComma),
        Some(pos) => match announced_len(v) {
            None => Err(LengthDelimitedError::ExpectedUnsignedInt),
            Some(len) => {
                let start = pos + sep;
                let end = start + len - counted(sep);
                if end + 2 <= v.len() && v[start] == QUOTE && v[end + 1] == QUOTE {
                    Ok(v.subrange(start + 1, end + 1))
                } else {
                    Ok(v.subrange(start, end))
                }
            },
        },
    }
}

/// If `v` starts with a length, the payload that it delimits lies within `v`.
pub open spec fn is_within(v: Seq<u8>, sep: int) -> bool {
    announced_len(v) matches Some(len) ==> counted(sep) <= len && digits_end(v)->0 + sep + len
        - counted(sep) <= v.len()
}

/// Reads a length-delimited payload of at most `N` bytes, where a separator has
/// `S` bytes.
#[derive(Clone, Copy, Debug)]
pub struct LengthDelimitedVisitor<const N: usize, const S: usize>;

impl<const N: usize, const S: usize> LengthDelimitedVisitor<N, S> {
    /// What the visitor reads.
    pub fn expecting(&self) -> (r: &'static str)
        ensures
            r@ == "length delimited bytes, e.g.: \"4,ABCD\""@,
    {
        "length delimited bytes, e.g.: \"4,ABCD\""
    }

    /// Whether `visit_bytes` can read `v`: the payload that a length at the start of
    /// `v` delimits must lie within `v`.
    pub fn can_visit(&self, v: &[u8]) -> (r: bool)
        ensures
            r == is_within(v@, S as int),
    {
        let pos: usize = match bytes::find_non_digit(v) {
            Some(i) => i,
            None => return true,
        };
        proof {
            bytes::lemma_first_where(v@, |b: u8| !bytes::is_digit(b));
        }
        let digits = slice_subrange(v, 0, pos);
        assert(digits@ =~= v@.take(pos as int));
        match bytes::parse_len(digits) {
            Ok(len) => if S == 1 {
                len <= v.len() - pos - 1
            } else {
                S <= len && len <= v.len() - pos
            },
            Err(()) => true,
        }
    }

    /// Reads the length at the start of `v` and the payload behind it.
    pub fn visit_bytes(self, v: &[u8]) -> (r: Result<
        LengthDelimited<N, S>,
        LengthDelimitedError,
    >)
        requires
            is_within(v@, S as int),
        ensures
            match payload(v@, S as int) {
                Err(e) => r == Err::<LengthDelimited<N, S>, _>(e),
                Ok(s) => if s.len() <= N {
                    r matches Ok(d) && d.has_payload(s)
                } else {
                    r == Err::<LengthDelimited<N, S>, _>(LengthDelimitedError::IncorrectSliceSize)
                },
            },
    {
        let pos: usize = match bytes::find_non_digit(v) {
            Some(i) => i,
            None => return Err(LengthDelimitedError::ExpectedComma),
        };
        proof {
            bytes::lemma_first_where(v@, |b: u8| !bytes::is_digit(b));
        }
        let digits = slice_subrange(v, 0, pos);
        assert(digits@ =~= v@.take(pos as int));
        let announced: usize = match bytes::parse_len(digits) {
            Ok(n) => n,
            Err(()) => return Err(LengthDelimitedError::ExpectedUnsignedInt),
        };
        let total: usize = v.len();
        let mut start: usize = pos + S;
        let mut end: usize = if S == 1 {
            start + announced
        } else {
            pos + announced
        };
        if total - end >= 2 && v[start] == QUOTE && v[end + 1] == QUOTE {
            start = start + 1;
            end = end + 1;
        }
        let payload = slice_subrange(v, start, end);
        match bounded::vec_from_slice(payload) {
            Ok(bytes) => Ok(LengthDelimited { len: payload.len(), bytes }),
            Err(()) => Err(LengthDelimitedError::IncorrectSliceSize),
        }
    }
}

/// The answer to a request for the head of an HTTP response.
#[derive(Debug)]
pub struct HttpHeadResponse {
    pub body: LengthDelimited<512, 2>,
}

impl HttpHeadResponse {
    /// Both have the same body.
    pub open spec fn same(self, other: HttpHeadResponse) -> bool {
        self.body.same(other.body)
    }
}

impl Clone for HttpHeadResponse {
    fn clone(&self) -> (r: Self)
        ensures
            r.same(*self),
    {
        HttpHeadResponse { body: self.body.clone() }
    }
}

/// The digits at the start of a text end where the first byte that is no digit stands.
proof fn lemma_digits_end(digits: Seq<u8>, rest: Seq<u8>)
    requires
        bytes::is_number(digits),
        rest.len() > 0,
        !bytes::is_digit(rest.first()),
    ensures
        digits_end(digits + rest) == Some(digits.len() as int),
        (digits + rest).take(digits.len() as int) == digits,
{
    let v = digits + rest;
    let p = |b: u8| !bytes::is_digit(b);
    assert(v[digits.len() as int] == rest.first());
    assert forall|j: int| 0 <= j < digits.len() implies !p(#[trigger] v[j]) by {
        assert(bytes::is_digit(digits[j]));
    }
    bytes::lemma_first_where_is(v, p, digits.len() as int);
    assert(v.take(digits.len() as int) =~= digits);
}

/// The length at the start is the length of the payload and of what is counted beside
/// it: with a separator of one byte, the length of the payload alone.
pub proof fn law_len_counts_payload(v: Seq<u8>, sep: int)
    requires
        0 <= sep,
        is_within(v, sep),
        payload(v, sep) is Ok,
    ensures
        announced_len(v) == Some((payload(v, sep)->Ok_0.len() + counted(sep)) as usize),
        payload(v, sep)->Ok_0.len() + counted(sep) <= usize::MAX,
{
    bytes::lemma_first_where(v, |b: u8| !bytes::is_digit(b));
}

/// A length, a separator and the bytes that they delimit are read back as they
/// were written.
pub proof fn law_payload_is_read_back(digits: Seq<u8>, separator: Seq<u8>, content: Seq<u8>)
    requires
        bytes::length_value(digits) == Some(
            (counted(separator.len() as int) + content.len()) as usize,
        ),
        counted(separator.len() as int) + content.len() <= usize::MAX,
        separator.len() > 0,
        !bytes::is_digit(separator.first()),
    ensures
        ({
            let v = digits + separator + content;
            let sep = separator.len() as int;
            &&& is_within(v, sep)
            &&& payload(v, sep) == Ok::<_, LengthDelimitedError>(content)
        }),
{
    let v = digits + separator + content;
    let sep = separator.len() as int;
    assert(v =~= digits + (separator + content));
    lemma_digits_end(digits, separator + content);
    assert(v.subrange(digits.len() + sep, v.len() as int) =~= content);
}

/// Double quotes around the bytes are not counted by the length and not read as
/// part of the payload, whatever follows them.
pub proof fn law_quotes_are_left_out(
    digits: Seq<u8>,
    separator: Seq<u8>,
    content: Seq<u8>,
    rest: Seq<u8>,
)
    requires
        bytes::length_value(digits) == Some(
            (counted(separator.len() as int) + content.len()) as usize,
        ),
        counted(separator.len() as int) + content.len() <= usize::MAX,
        separator.len() > 0,
        !bytes::is_digit(separator.first()),
    ensures
        ({
            let v = digits + separator + seq![QUOTE] + content + seq![QUOTE] + rest;
            let sep = separator.len() as int;
            &&& is_within(v, sep)
            &&& payload(v, sep) == Ok::<_, LengthDelimitedError>(content)
        }),
{
    let tail = separator + seq![QUOTE] + content + seq![QUOTE] + rest;
    let v = digits + separator + seq![QUOTE] + content + seq![QUOTE] + rest;
    let sep = separator.len() as int;
    assert(v =~= digits + tail);
    lemma_digits_end(digits, tail);
    let start = digits.len() + sep;
    let end = start + content.len();
    assert(v[start] == QUOTE);
    assert(v[end + 1] == QUOTE);
    assert(v.subrange(start + 1, end + 1) =~= content);
}

/// What a modem sends as the head of an HTTP response is what the reader hands on.
///
/// The body ends with a line break. The message is found, the line break at its
/// end is trimmed away, and behind the words that open the message the reader
/// finds the whole body but for that line break.
pub proof fn law_http_head_body_is_read(
    le: Seq<u8>,
    digits: Seq<u8>,
    content: Seq<u8>,
    rest: Seq<u8>,
)
    requires
        http_head::is_line_break(le),
        bytes::length_value(digits) == Some((content.len() + 2) as usize),
        content.len() + 2 <= usize::MAX,
        content.len() > 0,
        !bytes::is_whitespace(content.last()),
    ensures
        ({
            let body = content + seq![CR, LF];
            let frame = http_head::http_head_frame(le, digits, body);
            let urc = bytes::trim(frame);
            let opening = bytes::ascii("+HTTPHEAD: "@);
            &&& http_head::is_readable(frame + rest)
            &&& http_head::http_head(frame + rest) == http_head::HttpHead::Found(
                frame.len() as int,
            )
            &&& opening.is_prefix_of(urc)
            &&& is_within(urc.skip(11), 2)
            &&& payload(urc.skip(11), 2) == Ok::<_, LengthDelimitedError>(content)
        }),
{
    reveal_strlit("+HTTPHEAD: ");
    let body = content + seq![CR, LF];
    let frame = http_head::http_head_frame(le, digits, body);
    http_head::law_frame_is_found(le, digits, body, rest);
    let line = http_head::first_line_text(digits);
    assert(line + body =~= (line + content) + seq![CR, LF]);
    bytes::lemma_trim_end_blank(line + content, seq![CR, LF]);
    assert((line + content).last() == content.last());
    let urc = bytes::trim(frame);
    assert(urc =~= line + content);
    assert(urc.subrange(0, 11) =~= bytes::ascii("+HTTPHEAD: "@));
    assert(urc.skip(11) =~= digits + seq![CR, LF] + content);
    law_payload_is_read_back(digits, seq![CR, LF], content);
}

/// Digits, or nothing at all, are refused for want of a separator.
pub proof fn law_digits_alone_are_refused<const N: usize, const S: usize>(
    visitor: LengthDelimitedVisitor<N, S>,
    v: &[u8],
    can: bool,
    r: Result<LengthDelimited<N, S>, LengthDelimitedError>,
)
    requires
        call_ensures(LengthDelimitedVisitor::<N, S>::can_visit, (&visitor, v), can),
        call_ensures(LengthDelimitedVisitor::<N, S>::visit_bytes, (visitor, v), r),
        forall|i: int| 0 <= i < v@.len() ==> 48 <= #[trigger] v@[i] <= 57,
    ensures
        can,
        r == Err::<LengthDelimited<N, S>, _>(LengthDelimitedError::ExpectedComma),
{
    bytes::lemma_first_where(v@, |b: u8| !bytes::is_digit(b));
}

/// What stands before the first byte that is no digit has to be a length: none, or too
/// large a number, is refused.
pub proof fn law_no_length_is_refused<const N: usize, const S: usize>(
    visitor: LengthDelimitedVisitor<N, S>,
    v: &[u8],
    can: bool,
    r: Result<LengthDelimited<N, S>, LengthDelimitedError>,
    digits: Seq<u8>,
    tail: Seq<u8>,
)
    requires
        call_ensures(LengthDelimitedVisitor::<N, S>::can_visit, (&visitor, v), can),
        call_ensures(LengthDelimitedVisitor::<N, S>::visit_bytes, (visitor, v), r),
        v@ == digits + tail,
        forall|i: int| 0 <= i < digits.len() ==> 48 <= #[trigger] digits[i] <= 57,
        bytes::length_value(digits) is None,
        tail.len() > 0,
        !(48 <= tail[0] <= 57),
    ensures
        can,
        r == Err::<LengthDelimited<N, S>, _>(LengthDelimitedError::ExpectedUnsignedInt),
{
    lemma_length_ends(v@, digits, tail);
}

/// The length ends at the first byte that is no digit.
proof fn lemma_length_ends(v: Seq<u8>, digits: Seq<u8>, tail: Seq<u8>)
    requires
        v == digits + tail,
        forall|i: int| 0 <= i < digits.len() ==> 48 <= #[trigger] digits[i] <= 57,
        tail.len() > 0,
        !(48 <= tail[0] <= 57),
    ensures
        digits_end(v) == Some(digits.len() as int),
        announced_len(v) == bytes::length_value(digits),
{
    let p = |b: u8| !bytes::is_digit(b);
    let n = digits.len() as int;
    assert(v[n] == tail[0]);
    assert(p(v[n]));
    assert forall|j: int| 0 <= j < n implies !p(#[trigger] v[j]) by {
        assert(v[j] == digits[j]);
    }
    bytes::lemma_first_where_is(v, p, n);
    assert(v.take(n) =~= digits);
}

/// A payload can be read exactly when as many bytes follow as its length asks for. Behind
/// a separator of one byte these are as many as the length says; another separator is
/// counted by the length.
pub proof fn law_payload_has_to_be_there<const N: usize, const S: usize>(
    visitor: LengthDelimitedVisitor<N, S>,
    v: &[u8],
    can: bool,
    digits: Seq<u8>,
    tail: Seq<u8>,
)
    requires
        call_ensures(LengthDelimitedVisitor::<N, S>::can_visit, (&visitor, v), can),
        v@ == digits + tail,
        bytes::length_value(digits) is Some,
        tail.len() > 0,
        !(48 <= tail[0] <= 57),
    ensures
        can == ({
            let len = bytes::length_value(digits)->0;
            if S == 1 {
                1 + len <= tail.len()
            } else {
                S <= len <= tail.len()
            }
        }),
{
    assert(bytes::is_number(digits));
    assert forall|i: int| 0 <= i < digits.len() implies 48 <= #[trigger] digits[i] <= 57 by {
        assert(bytes::is_digit(digits[i]));
    }
    lemma_length_ends(v@, digits, tail);
}

/// The payload is what stands behind the separator, as much of it as the length says: all
/// of it is handed on, or it is refused for want of room. Bytes behind it are no part of
/// it.
pub proof fn law_payload_is_what_the_length_says<const N: usize, const S: usize>(
    visitor: LengthDelimitedVisitor<N, S>,
    v: &[u8],
    r: Result<LengthDelimited<N, S>, LengthDelimitedError>,
    digits: Seq<u8>,
    separator: Seq<u8>,
    content: Seq<u8>,
    rest: Seq<u8>,
)
    requires
        call_ensures(LengthDelimitedVisitor::<N, S>::visit_bytes, (visitor, v), r),
        v@ == digits + separator + content + rest,
        separator.len() == S,
        bytes::length_value(digits) matches Some(len) && len == (if S == 1 {
            content.len() as int
        } else {
            S + content.len()
        }),
        (separator + content + rest).len() > 0,
        !(48 <= (separator + content + rest)[0] <= 57),
        !(rest.len() >= 2 && (content + rest)[0] == '"' as u8 && rest[1] == '"' as u8),
    ensures
        if content.len() <= N {
            r matches Ok(d) && d.len == content.len() && bounded::holds(d.bytes, content)
        } else {
            r == Err::<LengthDelimited<N, S>, _>(LengthDelimitedError::IncorrectSliceSize)
        },
{
    let tail = separator + content + rest;
    assert(v@ =~= digits + tail);
    assert(bytes::is_number(digits));
    assert forall|i: int| 0 <= i < digits.len() implies 48 <= #[trigger] digits[i] <= 57 by {
        assert(bytes::is_digit(digits[i]));
    }
    lemma_length_ends(v@, digits, tail);
    let start = digits.len() + S as int;
    let end = start + content.len();
    assert(v@.subrange(start, end) =~= content);
    if rest.len() >= 2 {
        assert(v@[start] == (content + rest)[0]);
        assert(v@[end + 1] == rest[1]);
    }
}

/// Double quotes around the payload are not counted by the length and are no part of it.
pub proof fn law_payload_is_without_its_quotes<const N: usize, const S: usize>(
    visitor: LengthDelimitedVisitor<N, S>,
    v: &[u8],
    r: Result<LengthDelimited<N, S>, LengthDelimitedError>,
    digits: Seq<u8>,
    separator: Seq<u8>,
    content: Seq<u8>,
    rest: Seq<u8>,
)
    requires
        call_ensures(LengthDelimitedVisitor::<N, S>::visit_bytes, (visitor, v), r),
        v@ == digits + separator + seq!['"' as u8] + content + seq!['"' as u8] + rest,
        separator.len() == S,
        bytes::length_value(digits) matches Some(len) && len == (if S == 1 {
            content.len() as int
        } else {
            S + content.len()
        }),
        S > 0 ==> !(48 <= separator[0] <= 57),
    ensures
        if content.len() <= N {
            r matches Ok(d) && d.len == content.len() && bounded::holds(d.bytes, content)
        } else {
            r == Err::<LengthDelimited<N, S>, _>(LengthDelimitedError::IncorrectSliceSize)
        },
{
    let tail = separator + seq!['"' as u8] + content + seq!['"' as u8] + rest;
    assert(v@ =~= digits + tail);
    assert(bytes::is_number(digits));
    assert forall|i: int| 0 <= i < digits.len() implies 48 <= #[trigger] digits[i] <= 57 by {
        assert(bytes::is_digit(digits[i]));
    }
    lemma_length_ends(v@, digits, tail);
    let start = digits.len() + S as int;
    let end = start + content.len();
    assert(v@[start] == '"' as u8);
    assert(v@[end + 1] == '"' as u8);
    assert(v@.subrange(start + 1, end + 1) =~= content);
}

/// A copy has the length of what was copied, and compares in the same way with any bytes.
pub proof fn law_copy_of_payload<const N: usize, const S: usize>(
    d: LengthDelimited<N, S>,
    r: LengthDelimited<N, S>,
    s: Seq<u8>,
)
    requires
        call_ensures(LengthDelimited::<N, S>::clone, (&d,), r),
    ensures
        r.len == d.len,
        d.len == s.len() && bounded::holds(d.bytes, s) ==> bounded::holds(r.bytes, s),
{
    assert(r.has_payload(s) == d.has_payload(s));
}

/// A copy of an answer has the body of the answer.
pub proof fn law_copy_of_head(h: HttpHeadResponse, r: HttpHeadResponse, s: Seq<u8>)
    requires
        call_ensures(HttpHeadResponse::clone, (&h,), r),
    ensures
        r.body.len == h.body.len,
        h.body.len == s.len() && bounded::holds(h.body.bytes, s) ==> bounded::holds(
            r.body.bytes,
            s,
        ),
{
    assert(r.body.has_payload(s) == h.body.has_payload(s));
}

} // verus!
