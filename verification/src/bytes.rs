//! Searching, trimming and reading numbers in raw bytes.
use vstd::prelude::*;
use vstd::slice::slice_subrange;
use vstd::utf8::{encode_utf8, is_ascii_chars, is_ascii_chars_encode_utf8};

verus! {

/// Carriage return.
pub const CR: u8 = 13;

/// Line feed.
pub const LF: u8 = 10;

/// The space character.
pub const SPACE: u8 = 32;

/// The double quote character.
pub const QUOTE: u8 = 34;

/// The plus sign.
pub const PLUS: u8 = 43;

/// The digit zero.
pub const ZERO: u8 = 48;

/// The digit nine.
pub const NINE: u8 = 57;

/// The bytes of a text that holds ASCII characters only.
pub open spec fn ascii(text: Seq<char>) -> Seq<u8> {
    text.map_values(|c: char| c as u8)
}

/// Space, tab, line feed, form feed or carriage return.
pub open spec fn is_whitespace(b: u8) -> bool {
    b == 32 || b == 9 || b == 10 || b == 12 || b == 13
}

/// One of the ten decimal digits.
pub open spec fn is_digit(b: u8) -> bool {
    ZERO <= b <= NINE
}

/// `s` without the whitespace at its start.
pub open spec fn trim_start(s: Seq<u8>) -> Seq<u8>
    decreases s.len(),
{
    if s.len() > 0 && is_whitespace(s.first()) {
        trim_start(s.drop_first())
    } else {
        s
    }
}

/// `s` without the whitespace at its end.
pub open spec fn trim_end(s: Seq<u8>) -> Seq<u8>
    decreases s.len(),
{
    if s.len() > 0 && is_whitespace(s.last()) {
        trim_end(s.drop_last())
    } else {
        s
    }
}

/// `s` without the whitespace at either end.
pub open spec fn trim(s: Seq<u8>) -> Seq<u8> {
    trim_end(trim_start(s))
}

/// The index of the first byte of `s` that satisfies `p`, if there is one.
pub open spec fn first_where(s: Seq<u8>, p: spec_fn(u8) -> bool) -> Option<int>
    decreases s.len(),
{
    if s.len() == 0 {
        None
    } else if p(s.first()) {
        Some(0)
    } else {
        match first_where(s.drop_first(), p) {
            Some(i) => Some(i + 1),
            None => None,
        }
    }
}

/// A carriage return and a line feed stand at index `i` of `s`.
pub open spec fn crlf_at(s: Seq<u8>, i: int) -> bool {
    0 <= i && i + 1 < s.len() && s[i] == CR && s[i + 1] == LF
}

/// The index of the first carriage return that a line feed follows, if there is one.
pub open spec fn first_crlf(s: Seq<u8>) -> Option<int>
    decreases s.len(),
{
    if s.len() < 2 {
        None
    } else if crlf_at(s, 0) {
        Some(0)
    } else {
        match first_crlf(s.drop_first()) {
            Some(i) => Some(i + 1),
            None => None,
        }
    }
}

/// Every byte of `s` is a digit, and there is at least one.
pub open spec fn is_number(s: Seq<u8>) -> bool {
    s.len() > 0 && forall|i: int| 0 <= i < s.len() ==> is_digit(#[trigger] s[i])
}

/// The number that the digits of `s` write in base ten.
pub open spec fn decimal_value(s: Seq<u8>) -> nat
    decreases s.len(),
{
    if s.len() == 0 {
        0
    } else {
        decimal_value(s.drop_last()) * 10 + (s.last() - ZERO) as nat
    }
}

/// The length that `s` writes: digits only, and no more than a `usize` holds.
pub open spec fn length_value(s: Seq<u8>) -> Option<usize> {
    if is_number(s) && decimal_value(s) <= usize::MAX {
        Some(decimal_value(s) as usize)
    } else {
        None
    }
}

/// The length that `s` writes where a plus sign may stand before the digits.
pub open spec fn signed_length_value(s: Seq<u8>) -> Option<usize> {
    if s.len() > 0 && s.first() == PLUS {
        length_value(s.drop_first())
    } else {
        length_value(s)
    }
}

/// The UTF-8 encoding of an ASCII text has one byte for each character.
pub proof fn lemma_ascii(text: Seq<char>)
    requires
        is_ascii_chars(text),
    ensures
        encode_utf8(text) == ascii(text),
{
    is_ascii_chars_encode_utf8(text);
    assert(encode_utf8(text) =~= ascii(text));
}

/// What an index found by `first_where` says of the bytes up to it.
pub proof fn lemma_first_where(s: Seq<u8>, p: spec_fn(u8) -> bool)
    ensures
        match first_where(s, p) {
            Some(i) => 0 <= i < s.len() && p(s[i]) && forall|j: int|
                0 <= j < i ==> !p(#[trigger] s[j]),
            None => forall|j: int| 0 <= j < s.len() ==> !p(#[trigger] s[j]),
        },
    decreases s.len(),
{
    if s.len() > 0 && !p(s.first()) {
        let t = s.drop_first();
        lemma_first_where(t, p);
        assert forall|j: int| 0 < j < s.len() implies #[trigger] s[j] == t[j - 1] by {}
        match first_where(t, p) {
            Some(i) => {
                assert forall|j: int| 0 <= j < i + 1 implies !p(#[trigger] s[j]) by {
                    if j > 0 {
                        assert(!p(t[j - 1]));
                    }
                }
            },
            None => {
                assert forall|j: int| 0 <= j < s.len() implies !p(#[trigger] s[j]) by {
                    if j > 0 {
                        assert(!p(t[j - 1]));
                    }
                }
            },
        }
    }
}

/// The first byte that satisfies `p` is the one that `first_where` finds.
pub proof fn lemma_first_where_is(s: Seq<u8>, p: spec_fn(u8) -> bool, i: int)
    requires
        0 <= i < s.len(),
        p(s[i]),
        forall|j: int| 0 <= j < i ==> !p(#[trigger] s[j]),
    ensures
        first_where(s, p) == Some(i),
{
    lemma_first_where(s, p);
    match first_where(s, p) {
        Some(k) => {
            if k < i {
                assert(!p(s[k]));
            }
            if i < k {
                assert(!p(s[i]));
            }
        },
        None => {
            assert(!p(s[i]));
        },
    }
}

/// What an index found by `first_crlf` says of the bytes up to it.
pub proof fn lemma_first_crlf(s: Seq<u8>)
    ensures
        match first_crlf(s) {
            Some(i) => crlf_at(s, i) && forall|j: int| 0 <= j < i ==> !#[trigger] crlf_at(s, j),
            None => forall|j: int| !#[trigger] crlf_at(s, j),
        },
    decreases s.len(),
{
    if s.len() >= 2 && !crlf_at(s, 0) {
        let t = s.drop_first();
        lemma_first_crlf(t);
        assert forall|j: int| 0 < j implies #[trigger] crlf_at(s, j) == crlf_at(t, j - 1) by {}
    }
}

/// The first carriage return and line feed is the one that `first_crlf` finds.
pub proof fn lemma_first_crlf_is(s: Seq<u8>, i: int)
    requires
        crlf_at(s, i),
        forall|j: int| 0 <= j < i ==> !#[trigger] crlf_at(s, j),
    ensures
        first_crlf(s) == Some(i),
{
    lemma_first_crlf(s);
}

/// A line break that was found stays the first when more bytes follow.
pub proof fn lemma_first_crlf_extends(s: Seq<u8>, more: Seq<u8>)
    requires
        first_crlf(s) is Some,
    ensures
        first_crlf(s + more) == first_crlf(s),
{
    lemma_first_crlf(s);
    let i = first_crlf(s)->0;
    assert forall|j: int| 0 <= j < i implies !#[trigger] crlf_at(s + more, j) by {
        assert(!crlf_at(s, j));
    }
    lemma_first_crlf_is(s + more, i);
}

/// Behind bytes without a line break, a line break is the first.
pub proof fn lemma_first_crlf_behind(s: Seq<u8>, more: Seq<u8>)
    requires
        first_crlf(s) is None,
    ensures
        first_crlf(s + seq![CR, LF] + more) == Some(s.len() as int),
{
    let whole = s + seq![CR, LF] + more;
    lemma_first_crlf(s);
    assert forall|j: int| 0 <= j < s.len() implies !#[trigger] crlf_at(whole, j) by {
        assert(!crlf_at(s, j));
        assert(whole[j + 1] == (if j + 1 < s.len() { s[j + 1] } else { CR }));
    }
    lemma_first_crlf_is(whole, s.len() as int);
}

/// More digits never write a smaller number.
proof fn lemma_decimal_value_grows(s: Seq<u8>, n: int)
    requires
        0 <= n <= s.len(),
    ensures
        decimal_value(s.take(n)) <= decimal_value(s),
    decreases s.len() - n,
{
    if n == s.len() {
        assert(s.take(n) =~= s);
    } else {
        lemma_decimal_value_grows(s, n + 1);
        assert(s.take(n + 1).drop_last() =~= s.take(n));
    }
}

/// Every byte of `s` is whitespace.
pub open spec fn is_blank(s: Seq<u8>) -> bool {
    forall|i: int| 0 <= i < s.len() ==> is_whitespace(#[trigger] s[i])
}

/// Whitespace in front of `s` makes no difference to `s` without the whitespace at its start.
pub proof fn lemma_trim_start_blank(blank: Seq<u8>, s: Seq<u8>)
    requires
        is_blank(blank),
    ensures
        trim_start(blank + s) == trim_start(s),
    decreases blank.len(),
{
    if blank.len() == 0 {
        assert(blank + s =~= s);
    } else {
        assert((blank + s).first() == blank[0]);
        assert((blank + s).drop_first() =~= blank.drop_first() + s);
        assert forall|i: int| 0 <= i < blank.drop_first().len() implies is_whitespace(
            #[trigger] blank.drop_first()[i],
        ) by {
            assert(is_whitespace(blank[i + 1]));
        }
        lemma_trim_start_blank(blank.drop_first(), s);
    }
}

/// Whitespace behind `s` makes no difference to `s` without the whitespace at its end.
pub proof fn lemma_trim_end_blank(s: Seq<u8>, blank: Seq<u8>)
    requires
        is_blank(blank),
    ensures
        trim_end(s + blank) == trim_end(s),
    decreases blank.len(),
{
    if blank.len() == 0 {
        assert(s + blank =~= s);
    } else {
        assert((s + blank).last() == blank.last());
        assert((s + blank).drop_last() =~= s + blank.drop_last());
        lemma_trim_end_blank(s, blank.drop_last());
    }
}

/// Trimming takes away the whitespace on both sides and nothing else: a text
/// with no whitespace at its ends comes out as it went in.
pub proof fn law_trim_keeps_core(before: Seq<u8>, core: Seq<u8>, after: Seq<u8>)
    requires
        is_blank(before),
        is_blank(after),
        core.len() > 0,
        !is_whitespace(core.first()),
        !is_whitespace(core.last()),
    ensures
        trim(before + core + after) == core,
{
    assert(before + core + after =~= before + (core + after));
    lemma_trim_start_blank(before, core + after);
    assert((core + after).first() == core.first());
    lemma_trim_end_blank(core, after);
}

/// A text of whitespace alone is trimmed to nothing.
pub proof fn law_trim_blank(s: Seq<u8>)
    requires
        is_blank(s),
    ensures
        trim(s) == Seq::<u8>::empty(),
{
    lemma_trim_start_blank(s, Seq::empty());
    assert(s + Seq::<u8>::empty() =~= s);
}

/// What trimming leaves is a part of the text that has no whitespace at its ends.
pub proof fn law_trim_is_tight(s: Seq<u8>)
    ensures
        exists|i: int, j: int| 0 <= i <= j <= s.len() && trim(s) == #[trigger] s.subrange(i, j),
        trim(s).len() > 0 ==> !is_whitespace(trim(s).first()) && !is_whitespace(trim(s).last()),
        trim(trim(s)) == trim(s),
{
    lemma_trim_start_range(s);
    let t = trim_start(s);
    let i = choose|i: int| 0 <= i <= s.len() && t == #[trigger] s.skip(i);
    lemma_trim_end_range(t);
    let n = choose|n: int| 0 <= n <= t.len() && trim(s) == #[trigger] t.take(n);
    assert(s.skip(i).take(n) =~= s.subrange(i, i + n));
}

/// Trimming the start leaves an end of the text that starts with no whitespace.
proof fn lemma_trim_start_range(s: Seq<u8>)
    ensures
        exists|i: int| 0 <= i <= s.len() && trim_start(s) == #[trigger] s.skip(i),
        trim_start(s).len() > 0 ==> !is_whitespace(trim_start(s).first()),
    decreases s.len(),
{
    if s.len() > 0 && is_whitespace(s.first()) {
        lemma_trim_start_range(s.drop_first());
        let i = choose|i: int|
            0 <= i <= s.drop_first().len() && trim_start(s) == #[trigger] s.drop_first().skip(i);
        assert(s.drop_first().skip(i) =~= s.skip(i + 1));
    } else {
        assert(s.skip(0) =~= s);
    }
}

/// Trimming the end leaves a start of the text that ends with no whitespace.
proof fn lemma_trim_end_range(s: Seq<u8>)
    ensures
        exists|n: int| 0 <= n <= s.len() && trim_end(s) == #[trigger] s.take(n),
        trim_end(s).len() > 0 ==> !is_whitespace(trim_end(s).last()),
    decreases s.len(),
{
    if s.len() > 0 && is_whitespace(s.last()) {
        lemma_trim_end_range(s.drop_last());
        let n = choose|n: int|
            0 <= n <= s.drop_last().len() && trim_end(s) == #[trigger] s.drop_last().take(n);
        assert(s.drop_last().take(n) =~= s.take(n));
    } else {
        assert(s.take(s.len() as int) =~= s);
    }
}

/// Whether `b` is a space, a tab, a line feed, a form feed or a carriage return.
pub fn is_ascii_whitespace(b: u8) -> (r: bool)
    ensures
        r == is_whitespace(b),
{
    b == 32 || b == 9 || b == 10 || b == 12 || b == 13
}

/// Whether `b` is a decimal digit.
pub fn is_ascii_digit(b: u8) -> (r: bool)
    ensures
        r == is_digit(b),
{
    ZERO <= b && b <= NINE
}

/// `x` without the whitespace at either end.
pub fn trim_ascii_whitespace(x: &[u8]) -> (r: &[u8])
    ensures
        r@ == trim(x@),
{
    let mut from: usize = 0;
    assert(x@.subrange(0, x@.len() as int) =~= x@);
    while from < x.len() && is_ascii_whitespace(x[from])
        invariant
            from <= x@.len(),
            trim_start(x@) == trim_start(x@.subrange(from as int, x@.len() as int)),
        decreases x@.len() - from,
    {
        assert(x@.subrange(from as int, x@.len() as int).drop_first() =~= x@.subrange(
            from + 1,
            x@.len() as int,
        ));
        from = from + 1;
    }
    let mut to: usize = x.len();
    while from < to && is_ascii_whitespace(x[to - 1])
        invariant
            from <= to <= x@.len(),
            trim(x@) == trim_end(x@.subrange(from as int, to as int)),
        decreases to,
    {
        assert(x@.subrange(from as int, to as int).drop_last() =~= x@.subrange(
            from as int,
            to - 1,
        ));
        to = to - 1;
    }
    slice_subrange(x, from, to)
}

/// The index of the first `b` in `x`, if there is one.
pub fn find_byte(x: &[u8], b: u8) -> (r: Option<usize>)
    ensures
        match r {
            Some(i) => first_where(x@, |c: u8| c == b) == Some(i as int),
            None => first_where(x@, |c: u8| c == b) is None,
        },
{
    let ghost p = |c: u8| c == b;
    let mut i: usize = 0;
    while i < x.len()
        invariant
            p == (|c: u8| c == b),
            i <= x@.len(),
            forall|j: int| 0 <= j < i ==> !p(#[trigger] x@[j]),
        decreases x@.len() - i,
    {
        if x[i] == b {
            proof {
                lemma_first_where_is(x@, p, i as int);
            }
            return Some(i);
        }
        i = i + 1;
    }
    proof {
        lemma_first_where(x@, p);
    }
    None
}

/// The index of the first byte of `x` that is no digit, if there is one.
pub fn find_non_digit(x: &[u8]) -> (r: Option<usize>)
    ensures
        match r {
            Some(i) => first_where(x@, |c: u8| !is_digit(c)) == Some(i as int),
            None => first_where(x@, |c: u8| !is_digit(c)) is None,
        },
{
    let ghost p = |c: u8| !is_digit(c);
    let mut i: usize = 0;
    while i < x.len()
        invariant
            p == (|c: u8| !is_digit(c)),
            i <= x@.len(),
            forall|j: int| 0 <= j < i ==> !p(#[trigger] x@[j]),
        decreases x@.len() - i,
    {
        if !is_ascii_digit(x[i]) {
            proof {
                lemma_first_where_is(x@, p, i as int);
            }
            return Some(i);
        }
        i = i + 1;
    }
    proof {
        lemma_first_where(x@, p);
    }
    None
}

/// The index of the first carriage return that a line feed follows, if there is one.
pub fn find_crlf(x: &[u8]) -> (r: Option<usize>)
    ensures
        match r {
            Some(i) => first_crlf(x@) == Some(i as int),
            None => first_crlf(x@) is None,
        },
{
    let mut i: usize = 0;
    while i < x.len() && x.len() - i >= 2
        invariant
            i <= x@.len(),
            forall|j: int| 0 <= j < i ==> !#[trigger] crlf_at(x@, j),
        decreases x@.len() - i,
    {
        if x[i] == CR && x[i + 1] == LF {
            proof {
                lemma_first_crlf_is(x@, i as int);
            }
            return Some(i);
        }
        i = i + 1;
    }
    proof {
        lemma_first_crlf(x@);
    }
    None
}

/// Whether `x` starts with the bytes of `word`.
pub fn starts_with(x: &[u8], word: &str) -> (r: bool)
    requires
        is_ascii_chars(word@),
    ensures
        r == ascii(word@).is_prefix_of(x@),
{
    proof {
        lemma_ascii(word@);
    }
    let w = word.as_bytes();
    if x.len() < w.len() {
        return false;
    }
    let mut i: usize = 0;
    while i < w.len()
        invariant
            w@ == ascii(word@),
            w@.len() <= x@.len(),
            i <= w@.len(),
            forall|j: int| 0 <= j < i ==> #[trigger] x@[j] == w@[j],
        decreases w@.len() - i,
    {
        if x[i] != w[i] {
            assert(x@.subrange(0, w@.len() as int)[i as int] != w@[i as int]);
            return false;
        }
        i = i + 1;
    }
    assert(x@.subrange(0, w@.len() as int) =~= w@);
    true
}

/// Whether `x` holds the bytes of `word` and nothing else.
pub fn equals(x: &[u8], word: &str) -> (r: bool)
    requires
        is_ascii_chars(word@),
    ensures
        r == (x@ == ascii(word@)),
{
    proof {
        lemma_ascii(word@);
    }
    let r = x.len() == word.as_bytes().len() && starts_with(x, word);
    assert(x@.subrange(0, x@.len() as int) =~= x@);
    r
}

/// Parses a slice of bytes into an unsigned integer.
///
/// The slice must hold ASCII digits only; anything else, an empty slice, and a
/// number that is too large for `usize` are refused.
pub fn parse_len(v: &[u8]) -> (r: Result<usize, ()>)
    ensures
        match r {
            Ok(n) => length_value(v@) == Some(n),
            Err(()) => length_value(v@) is None,
        },
{
    if v.len() == 0 {
        return Err(());
    }
    let mut total: usize = 0;
    let mut i: usize = 0;
    assert(v@.take(0) =~= Seq::<u8>::empty());
    while i < v.len()
        invariant
            i <= v@.len(),
            total == decimal_value(v@.take(i as int)),
            forall|j: int| 0 <= j < i ==> is_digit(#[trigger] v@[j]),
        decreases v@.len() - i,
    {
        if !is_ascii_digit(v[i]) {
            return Err(());
        }
        let digit: usize = (v[i] - ZERO) as usize;
        proof {
            assert(v@.take(i + 1).drop_last() =~= v@.take(i as int));
            lemma_decimal_value_grows(v@, i + 1);
        }
        let tens: usize = match total.checked_mul(10) {
            Some(t) => t,
            None => return Err(()),
        };
        total = match tens.checked_add(digit) {
            Some(t) => t,
            None => return Err(()),
        };
        i = i + 1;
    }
    assert(v@.take(v@.len() as int) =~= v@);
    Ok(total)
}

/// Parses the number that `v` writes, with or without a plus sign before it.
pub fn parse_signed_len(v: &[u8]) -> (r: Result<usize, ()>)
    ensures
        match r {
            Ok(n) => signed_length_value(v@) == Some(n),
            Err(()) => signed_length_value(v@) is None,
        },
{
    if v.len() > 0 && v[0] == PLUS {
        let digits = slice_subrange(v, 1, v.len());
        assert(digits@ =~= v@.drop_first());
        parse_len(digits)
    } else {
        parse_len(v)
    }
}

/// Each letter of a text becomes one byte, in its order.
pub proof fn law_ascii_keeps_letters(text: Seq<char>)
    ensures
        ascii(text).len() == text.len(),
        forall|i: int| 0 <= i < text.len() ==> #[trigger] ascii(text)[i] == text[i] as u8,
{
}

/// Whitespace is the tab, the line feed, the form feed, the carriage return and the
/// space, and nothing else.
pub proof fn law_whitespace(b: u8, r: bool)
    requires
        call_ensures(is_ascii_whitespace, (b,), r),
    ensures
        r == seq![9u8, 10, 12, 13, 32].contains(b),
        is_whitespace(b) == r,
{
    let blanks = seq![9u8, 10, 12, 13, 32];
    assert(blanks[0] == 9 && blanks[1] == 10 && blanks[2] == 12 && blanks[3] == 13 && blanks[4]
        == 32);
}

/// The digits are the ten bytes from that of `0` on.
pub proof fn law_digits(b: u8, r: bool)
    requires
        call_ensures(is_ascii_digit, (b,), r),
    ensures
        r == (0 <= b - '0' as u8 <= 9),
        is_digit(b) == r,
{
}

/// What trimming returns is the text between the whitespace on both sides.
pub proof fn law_trim_call(
    x: &[u8],
    r: &[u8],
    before: Seq<u8>,
    core: Seq<u8>,
    after: Seq<u8>,
)
    requires
        call_ensures(trim_ascii_whitespace, (x,), r),
        x@ == before + core + after,
        forall|i: int| 0 <= i < before.len() ==> is_whitespace(#[trigger] before[i]),
        forall|i: int| 0 <= i < after.len() ==> is_whitespace(#[trigger] after[i]),
        core.len() > 0 ==> !is_whitespace(core.first()) && !is_whitespace(core.last()),
    ensures
        r@ == core,
{
    if core.len() > 0 {
        law_trim_keeps_core(before, core, after);
    } else {
        assert forall|i: int| 0 <= i < x@.len() implies is_whitespace(#[trigger] x@[i]) by {
            if i < before.len() {
                assert(x@[i] == before[i]);
            } else {
                assert(x@[i] == after[i - before.len()]);
            }
        }
        law_trim_blank(x@);
        assert(core =~= Seq::<u8>::empty());
    }
}

/// A search for a byte finds its first place, or none where there is none.
pub proof fn law_find_byte(x: &[u8], b: u8, r: Option<usize>)
    requires
        call_ensures(find_byte, (x, b), r),
    ensures
        match r {
            Some(i) => i < x@.len() && x@[i as int] == b && forall|j: int|
                0 <= j < i ==> #[trigger] x@[j] != b,
            None => forall|j: int| 0 <= j < x@.len() ==> #[trigger] x@[j] != b,
        },
{
    let p = |c: u8| c == b;
    lemma_first_where(x@, p);
    assert(forall|j: int| 0 <= j < x@.len() ==> p(#[trigger] x@[j]) == (x@[j] == b));
}

/// A search for the end of the digits finds the first byte that is none of the ten.
pub proof fn law_find_non_digit(x: &[u8], r: Option<usize>)
    requires
        call_ensures(find_non_digit, (x,), r),
    ensures
        match r {
            Some(i) => i < x@.len() && !(48 <= x@[i as int] <= 57) && forall|j: int|
                0 <= j < i ==> 48 <= #[trigger] x@[j] <= 57,
            None => forall|j: int| 0 <= j < x@.len() ==> 48 <= #[trigger] x@[j] <= 57,
        },
{
    let p = |c: u8| !is_digit(c);
    lemma_first_where(x@, p);
    assert(forall|j: int|
        0 <= j < x@.len() ==> p(#[trigger] x@[j]) == !(48 <= x@[j] <= 57));
}

/// A search for a line break finds the first carriage return with a line feed behind it.
pub proof fn law_find_crlf(x: &[u8], r: Option<usize>)
    requires
        call_ensures(find_crlf, (x,), r),
    ensures
        match r {
            Some(i) => i + 1 < x@.len() && x@[i as int] == 13 && x@[i + 1] == 10 && forall|j: int|
                0 <= j < i ==> !(#[trigger] x@[j] == 13 && x@[j + 1] == 10),
            None => forall|j: int|
                0 <= j && j + 1 < x@.len() ==> !(#[trigger] x@[j] == 13 && x@[j + 1] == 10),
        },
{
    lemma_first_crlf(x@);
    assert forall|j: int| 0 <= j && j + 1 < x@.len() implies crlf_at(x@, j) == (#[trigger] x@[j]
        == 13 && x@[j + 1] == 10) by {}
}

/// Bytes are without a line break exactly when no carriage return in them has a line feed
/// behind it.
pub proof fn law_no_crlf(s: Seq<u8>)
    ensures
        first_crlf(s) is None <==> forall|j: int|
            0 <= j && j + 1 < s.len() ==> !(#[trigger] s[j] == 13 && s[j + 1] == 10),
{
    lemma_first_crlf(s);
    assert forall|j: int| 0 <= j && j + 1 < s.len() implies crlf_at(s, j) == (#[trigger] s[j]
        == 13 && s[j + 1] == 10) by {}
}

/// A text starts with a word when the word and some bytes make up the text.
pub proof fn law_starts_with(x: &[u8], word: &str, r: bool, rest: Seq<u8>)
    requires
        call_ensures(starts_with, (x, word), r),
    ensures
        x@ == ascii(word@) + rest ==> r,
        r ==> word@.len() <= x@.len() && forall|i: int|
            0 <= i < word@.len() ==> #[trigger] x@[i] == word@[i] as u8,
{
    let w = ascii(word@);
    if x@ == w + rest {
        assert(x@.subrange(0, w.len() as int) =~= w);
    }
    if r {
        assert forall|i: int| 0 <= i < word@.len() implies #[trigger] x@[i] == word@[i] as u8 by {
            assert(x@.subrange(0, w.len() as int)[i] == w[i]);
        }
    }
}

/// A text is a word when it has the word's letters and no others.
pub proof fn law_equals(x: &[u8], word: &str, r: bool)
    requires
        call_ensures(equals, (x, word), r),
    ensures
        r == (x@.len() == word@.len() && forall|i: int|
            0 <= i < word@.len() ==> #[trigger] x@[i] == word@[i] as u8),
{
    if x@.len() == word@.len() && forall|i: int|
        0 <= i < word@.len() ==> #[trigger] x@[i] == word@[i] as u8 {
        assert(x@ =~= ascii(word@));
    }
}

/// A digit behind digits makes ten times the length and the digit; what was no length
/// before is none with a digit behind it.
proof fn lemma_length_with_digit(s: Seq<u8>, d: u8)
    requires
        s.len() > 0,
    ensures
        length_value(s.push(d)) == (if 48 <= d <= 57 {
            match length_value(s) {
                Some(n) => if 10 * n + (d - 48) <= usize::MAX {
                    Some((10 * n + (d - 48)) as usize)
                } else {
                    None
                },
                None => None,
            }
        } else {
            None
        }),
{
    let t = s.push(d);
    assert(t.drop_last() =~= s);
    assert(t.last() == d);
    assert(forall|i: int| 0 <= i < s.len() ==> #[trigger] t[i] == s[i]);
    assert(t[s.len() as int] == d);
    if is_number(t) {
        assert forall|i: int| 0 <= i < s.len() implies is_digit(#[trigger] s[i]) by {
            assert(is_digit(t[i]));
        }
        assert(is_digit(t[s.len() as int]));
    }
    if is_number(s) && is_digit(d) {
        assert forall|i: int| 0 <= i < t.len() implies is_digit(#[trigger] t[i]) by {
            if i < s.len() {
                assert(is_digit(s[i]));
            }
        }
    }
}

/// Nothing is no length, and a single byte is one exactly when it is a digit, which then
/// counts from that of `0`.
pub proof fn law_len_of_one_digit(v: &[u8], r: Result<usize, ()>)
    requires
        call_ensures(parse_len, (v,), r),
        v@.len() <= 1,
    ensures
        r is Ok <==> v@.len() == 1 && 48 <= v@[0] <= 57,
        r matches Ok(n) ==> n == v@[0] - 48,
{
    if v@.len() == 1 {
        assert(v@.drop_last() =~= Seq::<u8>::empty());
        assert(is_number(v@) == is_digit(v@[0]));
        reveal_with_fuel(decimal_value, 2);
    }
}

/// Lengths are read in base ten: with one more digit behind it, a length is ten times as
/// large and the digit more, or no length if it does not fit; with anything else behind
/// it, it is none; and what was no length does not become one.
pub proof fn law_len_of_more_digits(
    v: &[u8],
    longer: &[u8],
    d: u8,
    r: Result<usize, ()>,
    q: Result<usize, ()>,
)
    requires
        call_ensures(parse_len, (v,), r),
        call_ensures(parse_len, (longer,), q),
        v@.len() > 0,
        longer@ == v@.push(d),
    ensures
        q is Ok <==> r is Ok && 48 <= d <= 57 && 10 * r->Ok_0 + (d - 48) <= usize::MAX,
        q matches Ok(m) ==> m == 10 * r->Ok_0 + (d - 48),
{
    lemma_length_with_digit(v@, d);
}

/// The digits that a number is written with in base ten.
pub open spec fn digits_of(n: nat) -> Seq<u8>
    decreases n,
{
    let last = (48 + n % 10) as u8;
    if n < 10 {
        seq![last]
    } else {
        digits_of(n / 10).push(last)
    }
}

/// A number that is written down is read back.
pub proof fn law_len_is_read_back(n: usize)
    ensures
        length_value(digits_of(n as nat)) == Some(n),
    decreases n,
{
    let last = (48 + n % 10) as u8;
    if n < 10 {
        let s = seq![last];
        assert(digits_of(n as nat) == s);
        assert(s.drop_last() =~= Seq::<u8>::empty());
        assert(is_number(s)) by {
            assert(is_digit(s[0]));
        }
        reveal_with_fuel(decimal_value, 2);
    } else {
        law_len_is_read_back(n / 10);
        let s = digits_of((n / 10) as nat);
        assert(s.len() > 0);
        assert(digits_of(n as nat) == s.push(last));
        lemma_length_with_digit(s, last);
    }
}

/// With a plus sign before it a text is read as what stands behind the sign, and without
/// one as it is.
pub proof fn law_signed_len(
    v: &[u8],
    behind: &[u8],
    r: Result<usize, ()>,
    whole: Result<usize, ()>,
    unsigned: Result<usize, ()>,
)
    requires
        call_ensures(parse_signed_len, (v,), r),
        call_ensures(parse_len, (v,), whole),
        v@.len() > 0 ==> behind@ == v@.skip(1),
        call_ensures(parse_len, (behind,), unsigned),
    ensures
        ({
            let expected = if v@.len() > 0 && v@[0] == '+' as u8 {
                unsigned
            } else {
                whole
            };
            &&& r is Ok <==> expected is Ok
            &&& r matches Ok(n) ==> n == expected->Ok_0
        }),
{
    assert(v@.skip(1) =~= v@.drop_first());
}

} // verus!
