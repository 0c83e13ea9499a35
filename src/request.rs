use vstd::prelude::*;
use vstd::utf8::*;

verus! {

/// Largest payload of one frame, in bytes, not counting the sentinel.
pub const MAX_REQUEST_SIZE: usize = 32;

/// The byte that ends every frame. Well-formed UTF-8 never holds it, and the
/// other bytes of an encoded request stay below 16, so it never occurs inside
/// an encoded request.
pub const END_OF_REQUEST_SEPARATOR: u8 = 0xff;

pub const SHOW_TAG: u8 = 0;

pub const HIDE_TAG: u8 = 1;

pub const STOP_TAG: u8 = 2;

pub const EMPTY_TAG: u8 = 3;

/// A request sent by a client to the daemon.
#[derive(Debug, Clone, PartialEq, Eq)]
pub enum Request {
    /// Show the bar filled to `value` percent in the colors of `profile`.
    Show { profile: String, value: u8 },
    /// Hide the bar.
    Hide,
    /// Stop the daemon.
    Stop,
    /// No request; never sent on the wire.
    Empty,
}

/// A request as a mathematical value: the profile name is its characters.
pub enum RequestView {
    Show { profile: Seq<char>, value: u8 },
    Hide,
    Stop,
    Empty,
}

impl View for Request {
    type V = RequestView;

    open spec fn view(&self) -> RequestView {
        match self {
            Request::Show { profile, value } => RequestView::Show { profile: profile@, value: *value },
            Request::Hide => RequestView::Hide,
            Request::Stop => RequestView::Stop,
            Request::Empty => RequestView::Empty,
        }
    }
}

/// True when `bytes` holds no sentinel byte.
pub open spec fn free_of_sentinel(bytes: Seq<u8>) -> bool {
    forall|i: int| 0 <= i < bytes.len() ==> bytes[i] != END_OF_REQUEST_SEPARATOR
}

/// The wire encoding of a request: a tag byte; for `Show` then the value as
/// two base-16 digits, high digit first, and the profile name in UTF-8.
pub open spec fn spec_encode(r: RequestView) -> Seq<u8> {
    match r {
        RequestView::Show { profile, value } => seq![SHOW_TAG, value / 16, value % 16]
            + encode_utf8(profile),
        RequestView::Hide => seq![HIDE_TAG],
        RequestView::Stop => seq![STOP_TAG],
        RequestView::Empty => seq![EMPTY_TAG],
    }
}

/// The request that `bytes` encodes, if any.
pub open spec fn spec_decode(bytes: Seq<u8>) -> Option<RequestView> {
    if bytes.len() == 0 {
        None
    } else if bytes[0] == SHOW_TAG {
        let name = bytes.subrange(3, bytes.len() as int);
        if bytes.len() >= 3 && bytes[1] < 16 && bytes[2] < 16 && valid_utf8(name) {
            Some(
                RequestView::Show {
                    profile: decode_utf8(name),
                    value: (bytes[1] * 16 + bytes[2]) as u8,
                },
            )
        } else {
            None
        }
    } else if bytes.len() == 1 && bytes[0] == HIDE_TAG {
        Some(RequestView::Hide)
    } else if bytes.len() == 1 && bytes[0] == STOP_TAG {
        Some(RequestView::Stop)
    } else if bytes.len() == 1 && bytes[0] == EMPTY_TAG {
        Some(RequestView::Empty)
    } else {
        None
    }
}

/// Relies on std::str::from_utf8: it succeeds exactly on well-formed UTF-8,
/// and the text then holds the characters that the bytes encode.
#[verifier::external_body]
fn text_from_utf8(bytes: &[u8]) -> (r: Option<String>)
    ensures
        r.is_some() == valid_utf8(bytes@),
        r.is_some() ==> r.unwrap()@ == decode_utf8(bytes@),
{
    match std::str::from_utf8(bytes) {
        Ok(text) => Some(text.to_owned()),
        Err(_) => None,
    }
}

/// Encodes `request` for the wire, without the sentinel.
pub fn encode(request: &Request) -> (r: Vec<u8>)
    ensures
        r@ == spec_encode(request@),
{
    match request {
        Request::Show { profile, value } => {
            let mut out: Vec<u8> = vec![SHOW_TAG, *value / 16, *value % 16];
            let name = profile.as_str().as_bytes();
            let ghost head = out@;
            let mut i: usize = 0;
            while i < name.len()
                invariant
                    i <= name@.len(),
                    name@ == encode_utf8(profile@),
                    head == seq![SHOW_TAG, *value / 16, *value % 16],
                    out@ == head + name@.subrange(0, i as int),
                decreases name@.len() - i,
            {
                out.push(name[i]);
                i = i + 1;
                assert(out@ =~= head + name@.subrange(0, i as int));
            }
            assert(name@.subrange(0, name@.len() as int) =~= name@);
            out
        },
        Request::Hide => vec![HIDE_TAG],
        Request::Stop => vec![STOP_TAG],
        Request::Empty => vec![EMPTY_TAG],
    }
}

/// Decodes one frame payload; `None` when it encodes no request.
pub fn decode(bytes: &[u8]) -> (r: Option<Request>)
    ensures
        r.is_some() == spec_decode(bytes@).is_some(),
        r.is_some() ==> spec_decode(bytes@) == Some(r.unwrap()@),
{
    let n = bytes.len();
    if n == 0 {
        return None;
    }
    let tag = bytes[0];
    if tag == SHOW_TAG {
        if n < 3 || bytes[1] >= 16 || bytes[2] >= 16 {
            return None;
        }
        let high = bytes[1];
        let low = bytes[2];
        match text_from_utf8(&bytes[3..n]) {
            Some(profile) => Some(Request::Show { profile, value: high * 16 + low }),
            None => None,
        }
    } else if n == 1 && tag == HIDE_TAG {
        Some(Request::Hide)
    } else if n == 1 && tag == STOP_TAG {
        Some(Request::Stop)
    } else if n == 1 && tag == EMPTY_TAG {
        Some(Request::Empty)
    } else {
        None
    }
}

proof fn lemma_scalar_free_of_sentinel(c: char)
    ensures
        free_of_sentinel(encode_scalar(c as u32)),
{
    let s = c as u32;
    assert((s & 0x7F) as u8 != 0xffu8) by (bit_vector);
    assert((0xC0u8 | ((s >> 6u32) & 0x1Fu32) as u8) != 0xffu8) by (bit_vector);
    assert((0xE0u8 | ((s >> 12u32) & 0x0Fu32) as u8) != 0xffu8) by (bit_vector);
    assert((0xF0u8 | ((s >> 18u32) & 0x7u32) as u8) != 0xffu8) by (bit_vector);
    assert((0x80u8 | (s & 0x3Fu32) as u8) != 0xffu8) by (bit_vector);
    assert((0x80u8 | ((s >> 6u32) & 0x3Fu32) as u8) != 0xffu8) by (bit_vector);
    assert((0x80u8 | ((s >> 12u32) & 0x3Fu32) as u8) != 0xffu8) by (bit_vector);
}

/// No byte of the UTF-8 encoding of any text is the sentinel.
pub proof fn lemma_utf8_free_of_sentinel(chars: Seq<char>)
    ensures
        free_of_sentinel(encode_utf8(chars)),
    decreases chars.len(),
{
    if chars.len() > 0 {
        lemma_scalar_free_of_sentinel(chars[0]);
        lemma_utf8_free_of_sentinel(chars.drop_first());
    }
}

/// The encoding of a request never holds the sentinel byte, so it can be
/// framed by that byte alone.
pub proof fn lemma_encoding_free_of_sentinel(r: RequestView)
    ensures
        free_of_sentinel(spec_encode(r)),
{
    if let RequestView::Show { profile, value } = r {
        lemma_utf8_free_of_sentinel(profile);
        let e = spec_encode(r);
        assert forall|i: int| 0 <= i < e.len() implies e[i] != END_OF_REQUEST_SEPARATOR by {
            if i >= 3 {
                assert(e[i] == encode_utf8(profile)[i - 3]);
            }
        }
    }
}

/// Decoding the encoding of a request gives that request back.
pub proof fn lemma_decode_encode(r: RequestView)
    ensures
        spec_decode(spec_encode(r)) == Some(r),
{
    if let RequestView::Show { profile, value } = r {
        let e = spec_encode(r);
        assert(e.subrange(3, e.len() as int) =~= encode_utf8(profile));
        encode_utf8_valid_utf8(profile);
        encode_utf8_decode_utf8(profile);
        assert((value / 16) * 16 + value % 16 == value);
    }
}

/// A payload that decodes is exactly the encoding of the request it decodes to.
pub proof fn lemma_encode_decode(bytes: Seq<u8>)
    requires
        spec_decode(bytes).is_some(),
    ensures
        spec_encode(spec_decode(bytes).unwrap()) == bytes,
{
    if bytes[0] == SHOW_TAG {
        let name = bytes.subrange(3, bytes.len() as int);
        decode_utf8_encode_utf8(name);
        let v = (bytes[1] * 16 + bytes[2]) as u8;
        assert(v / 16 == bytes[1] && v % 16 == bytes[2]);
        assert(spec_encode(spec_decode(bytes).unwrap()) =~= bytes);
    } else {
        assert(spec_encode(spec_decode(bytes).unwrap()) =~= bytes);
    }
}

} // verus!
