use vstd::prelude::*;
use vstd::string::StrSliceExecFns;

use crate::error::{Error, ErrorKind, Result};
use crate::frame::{concat_reads, feed, feed_all, join_frames, lemma_framing, DecoderView, Outcome};
use crate::request::{
    encode, lemma_decode_encode, lemma_encoding_free_of_sentinel, spec_decode, spec_encode, Request,
    RequestView, END_OF_REQUEST_SEPARATOR, MAX_REQUEST_SIZE,
};

verus! {

/// The frame that carries `r`: its encoding followed by the sentinel.
pub open spec fn spec_frame(r: RequestView) -> Seq<u8> {
    spec_encode(r).push(END_OF_REQUEST_SEPARATOR)
}

/// The frame that carries `request`.
pub fn frame_request(request: &Request) -> (r: Vec<u8>)
    ensures
        r@ == spec_frame(request@),
{
    let mut bytes = encode(request);
    bytes.push(END_OF_REQUEST_SEPARATOR);
    bytes
}

/// The frame for a `Show` of `profile` at `value`: `OutOfRange` when the
/// value is above 100, else `FrameTooLarge` when the request does not fit
/// in one frame.
pub fn show(profile: String, value: u8) -> (r: Result<Vec<u8>>)
    ensures
        value > 100 ==> r is Err && r->Err_0.kind == ErrorKind::OutOfRange
            && r->Err_0.context@ == "processing request"@ && r->Err_0.description@
            == "Expected `value` in [0, 100]."@,
        value <= 100 && spec_encode(RequestView::Show { profile: profile@, value }).len()
            > MAX_REQUEST_SIZE ==> r is Err && r->Err_0.kind == ErrorKind::FrameTooLarge
            && r->Err_0.context@ == "reading from socket"@ && r->Err_0.description@
            == "request body exceeded max request size"@,
        value <= 100 && spec_encode(RequestView::Show { profile: profile@, value }).len()
            <= MAX_REQUEST_SIZE ==> r is Ok && r->Ok_0@ == spec_frame(
            RequestView::Show { profile: profile@, value },
        ),
{
    if value > 100 {
        return Err(Error::out_of_range());
    }
    let frame = frame_request(&Request::Show { profile, value });
    if frame.len() - 1 > MAX_REQUEST_SIZE {
        return Err(Error::frame_too_large());
    }
    Ok(frame)
}

/// The frame for a `Hide`.
pub fn hide_bar() -> (r: Vec<u8>)
    ensures
        r@ == spec_frame(RequestView::Hide),
{
    frame_request(&Request::Hide)
}

/// The frame for a `Stop`.
pub fn stop() -> (r: Vec<u8>)
    ensures
        r@ == spec_frame(RequestView::Stop),
{
    frame_request(&Request::Stop)
}

/// A request that fits in one frame, sent alone on a new connection, reaches
/// the daemon intact: the decoder yields exactly its encoding, which decodes
/// to the request.
pub proof fn lemma_frame_reaches_daemon(r: RequestView)
    requires
        spec_encode(r).len() <= MAX_REQUEST_SIZE,
    ensures
        feed(DecoderView { partial: Seq::empty(), failed: false }, spec_frame(r)) == (
            DecoderView { partial: Seq::empty(), failed: false },
            Outcome::Frames(seq![spec_encode(r)]),
        ),
        spec_decode(spec_encode(r)) == Some(r),
{
    let payloads = seq![spec_encode(r)];
    let reads = seq![spec_frame(r)];
    lemma_encoding_free_of_sentinel(r);
    lemma_decode_encode(r);
    assert(payloads.drop_first() =~= Seq::<Seq<u8>>::empty());
    assert(join_frames(Seq::<Seq<u8>>::empty()) == Seq::<u8>::empty());
    assert(join_frames(payloads) =~= spec_frame(r));
    assert(reads.drop_first() =~= Seq::<Seq<u8>>::empty());
    assert(concat_reads(Seq::<Seq<u8>>::empty()) == Seq::<u8>::empty());
    assert(concat_reads(reads) =~= spec_frame(r));
    lemma_framing(payloads, reads);
    let d = DecoderView { partial: Seq::empty(), failed: false };
    let step = feed(d, spec_frame(r));
    assert(reads[0] == spec_frame(r));
    assert(feed_all(step.0, reads.drop_first()) == (step.0, Seq::<Seq<u8>>::empty()));
    if let Outcome::Frames(fs) = step.1 {
        assert(fs + Seq::<Seq<u8>>::empty() =~= fs);
    }
}

/// The value of a decimal digit.
pub open spec fn decimal_digit(c: char) -> Option<nat> {
    if '0' <= c && c <= '9' {
        Some((c as nat - '0' as nat) as nat)
    } else {
        None
    }
}

pub open spec fn all_decimal_digits(s: Seq<char>) -> bool {
    forall|i: int| 0 <= i < s.len() ==> (#[trigger] decimal_digit(s[i])).is_some()
}

/// The number that the decimal digits `s` write, most significant first.
pub open spec fn decimal_value(s: Seq<char>) -> nat
    decreases s.len(),
{
    if s.len() == 0 {
        0
    } else {
        decimal_value(s.drop_last()) * 10 + decimal_digit(s.last()).unwrap_or(0)
    }
}

/// A `u8` written in decimal: an optional `+`, then at least one digit.
pub open spec fn spec_parse_u8(text: Seq<char>) -> Option<u8> {
    let digits = if text.len() > 1 && text[0] == '+' {
        text.drop_first()
    } else {
        text
    };
    if digits.len() >= 1 && all_decimal_digits(digits) && decimal_value(digits) <= 255 {
        Some(decimal_value(digits) as u8)
    } else {
        None
    }
}

proof fn lemma_decimal_value_monotone(s: Seq<char>, i: int)
    requires
        0 <= i <= s.len(),
    ensures
        decimal_value(s.subrange(0, i)) <= decimal_value(s),
    decreases s.len() - i,
{
    if i < s.len() {
        assert(s.drop_last().subrange(0, i) =~= s.subrange(0, i));
        lemma_decimal_value_monotone(s.drop_last(), i);
    } else {
        assert(s.subrange(0, i) =~= s);
    }
}

/// Parses a `u8` written in decimal.
pub fn parse_u8(text: &str) -> (r: Option<u8>)
    ensures
        r == spec_parse_u8(text@),
{
    let n = text.unicode_len();
    let start: usize = if n > 1 && text.get_char(0) == '+' {
        1
    } else {
        0
    };
    if start >= n {
        return None;
    }
    let ghost digits = text@.subrange(start as int, n as int);
    proof {
        if start == 1 {
            assert(digits =~= text@.drop_first());
        } else {
            assert(digits =~= text@);
        }
    }
    let mut value: u32 = 0;
    let mut i: usize = start;
    while i < n
        invariant
            start <= i <= n,
            n == text@.len(),
            start == (if n > 1 && text@[0] == '+' {
                1usize
            } else {
                0usize
            }),
            digits == text@.subrange(start as int, n as int),
            digits == (if n > 1 && text@[0] == '+' {
                text@.drop_first()
            } else {
                text@
            }),
            all_decimal_digits(digits.subrange(0, i - start)),
            value == decimal_value(digits.subrange(0, i - start)),
            value <= 255,
        decreases n - i,
    {
        let c = text.get_char(i);
        if !('0' <= c && c <= '9') {
            proof {
                assert(digits[i - start] == c);
                assert(decimal_digit(digits[i - start]).is_none());
                assert(!all_decimal_digits(digits));
            }
            return None;
        }
        let d: u32 = (c as u32) - ('0' as u32);
        let ghost before = digits.subrange(0, i - start);
        let ghost after = digits.subrange(0, i - start + 1);
        proof {
            assert(after.drop_last() =~= before);
            assert(after.last() == c);
            assert forall|j: int| 0 <= j < after.len() implies (#[trigger] decimal_digit(
                after[j],
            )).is_some() by {
                if j < before.len() {
                    assert(after[j] == before[j]);
                }
            }
        }
        value = value * 10 + d;
        assert(decimal_value(after) == value);
        if value > 255 {
            proof {
                lemma_decimal_value_monotone(digits, i - start + 1);
            }
            return None;
        }
        i = i + 1;
    }
    proof {
        assert(digits.subrange(0, n - start) =~= digits);
    }
    Some(value as u8)
}

/// Index of the first space in `s`, or its length when it has none.
pub open spec fn first_space(s: Seq<char>) -> int
    decreases s.len(),
{
    if s.len() == 0 {
        0
    } else if s[0] == ' ' {
        0
    } else {
        1 + first_space(s.drop_first())
    }
}

proof fn lemma_first_space(s: Seq<char>, k: int)
    requires
        0 <= k <= s.len(),
        k < s.len() ==> s[k] == ' ',
        forall|j: int| 0 <= j < k ==> s[j] != ' ',
    ensures
        first_space(s) == k,
    decreases s.len(),
{
    if s.len() > 0 && k > 0 {
        let t = s.drop_first();
        assert forall|j: int| 0 <= j < k - 1 implies t[j] != ' ' by {
            assert(t[j] == s[j + 1]);
        }
        lemma_first_space(t, k - 1);
    }
}

/// A line of a `Show` stream: `profile value`, split at its one space, with
/// the value a `u8` in `[0, 100]`.
pub open spec fn spec_parse_show_line(line: Seq<char>) -> Option<RequestView> {
    if line_shape_ok(line) {
        match spec_parse_u8(value_text(line)) {
            Some(value) => if value <= 100 {
                Some(RequestView::Show { profile: line.subrange(0, first_space(line)), value })
            } else {
                None
            },
            None => None,
        }
    } else {
        None
    }
}

/// The line holds exactly one space.
pub open spec fn line_shape_ok(line: Seq<char>) -> bool {
    &&& first_space(line) < line.len()
    &&& first_space(value_text(line)) == value_text(line).len()
}

/// What follows the first space of the line.
pub open spec fn value_text(line: Seq<char>) -> Seq<char> {
    line.subrange(first_space(line) + 1, line.len() as int)
}

/// True when `e` is the error of kind `Other` with the given texts.
pub open spec fn is_other_error(e: Error, context: Seq<char>, description: Seq<char>) -> bool {
    &&& e.kind == ErrorKind::Other
    &&& e.context@ == context
    &&& e.description@ == description
}

/// Parses one line of a `Show` stream, `profile value`. The line must hold
/// exactly one space, and the value must be a `u8` (else an error of kind
/// `Other`) in `[0, 100]` (else `OutOfRange`).
pub fn parse_show_line(line: &str) -> (r: Result<Request>)
    ensures
        r is Ok <==> spec_parse_show_line(line@) is Some,
        r is Ok ==> spec_parse_show_line(line@) == Some(r->Ok_0@),
        !line_shape_ok(line@) ==> r is Err && is_other_error(
            r->Err_0,
            "reading stream"@,
            "Expected each line to be in format `profile value`"@,
        ),
        line_shape_ok(line@) && spec_parse_u8(value_text(line@)) is None ==> r is Err
            && is_other_error(r->Err_0, "reading stream"@, "Expected `value` to be a u8"@),
        line_shape_ok(line@) && spec_parse_u8(value_text(line@)) is Some && spec_parse_u8(
            value_text(line@),
        )->Some_0 > 100 ==> r is Err && r->Err_0.kind == ErrorKind::OutOfRange
            && r->Err_0.context@ == "processing request"@ && r->Err_0.description@
            == "Expected `value` in [0, 100]."@,
{
    let n = line.unicode_len();
    let mut k: usize = 0;
    while k < n && line.get_char(k) != ' '
        invariant
            k <= n,
            n == line@.len(),
            forall|j: int| 0 <= j < k ==> line@[j] != ' ',
        decreases n - k,
    {
        k = k + 1;
    }
    proof {
        lemma_first_space(line@, k as int);
    }
    if k == n {
        return Err(
            Error::from_description(
                "reading stream",
                "Expected each line to be in format `profile value`",
            ),
        );
    }
    let ghost rest = line@.subrange(k + 1, n as int);
    let mut m: usize = k + 1;
    while m < n && line.get_char(m) != ' '
        invariant
            k + 1 <= m <= n,
            n == line@.len(),
            rest == line@.subrange(k + 1, n as int),
            forall|j: int| 0 <= j < m - (k + 1) ==> rest[j] != ' ',
        decreases n - m,
    {
        m = m + 1;
    }
    proof {
        lemma_first_space(rest, m - (k + 1));
    }
    if m < n {
        return Err(
            Error::from_description(
                "reading stream",
                "Expected each line to be in format `profile value`",
            ),
        );
    }
    let value_text = line.substring_char(k + 1, n);
    match parse_u8(value_text) {
        None => Err(Error::from_description("reading stream", "Expected `value` to be a u8")),
        Some(value) => {
            if value > 100 {
                return Err(Error::out_of_range());
            }
            let profile = String::from_str(line.substring_char(0, k));
            Ok(Request::Show { profile, value })
        },
    }
}

} // verus!
