//! Helper functions related to parsing.

use crate::error::SctpError;
use vstd::prelude::*;
use vstd::slice::slice_subrange;

verus! {

/// Size of the tag and length fields that start every tag-length-value record.
pub const TAG_LENGTH_HEADER_SIZE: usize = 4;

/// The 16-bit big-endian integer at offset `at` of `s`.
pub open spec fn spec_be_u16(s: Seq<u8>, at: int) -> u16
    recommends
        0 <= at,
        at + 2 <= s.len(),
{
    (s[at] as int * 256 + s[at + 1] as int) as u16
}

/// The number of padding bytes that bring a value of `length` bytes to a
/// 4-byte boundary.
pub open spec fn spec_padding(length: int) -> int {
    (4 - length % 4) % 4
}

/// One tag-length-value record taken from the front of a buffer.
#[derive(Clone, Copy, Debug)]
pub struct Tlv<'a> {
    /// The record's tag.
    pub tag: u16,
    /// The record's value, without padding.
    pub value: &'a [u8],
    /// What follows the record and its padding.
    pub rest: &'a [u8],
}

/// The mathematical content of a [`Tlv`].
pub ghost struct TlvView {
    pub tag: u16,
    pub value: Seq<u8>,
    pub rest: Seq<u8>,
}

impl<'a> View for Tlv<'a> {
    type V = TlvView;

    open spec fn view(&self) -> TlvView {
        TlvView { tag: self.tag, value: self.value@, rest: self.rest@ }
    }
}

/// Whether `input` starts with a complete tag-length-value record: four header
/// bytes, a declared length of at least the header, and a value that lies
/// within the buffer.
pub open spec fn tlv_accepts(input: Seq<u8>) -> bool {
    &&& input.len() >= 4
    &&& spec_be_u16(input, 2) >= 4
    &&& spec_be_u16(input, 2) <= input.len()
}

/// The record at the front of an accepted `input`.  The padding after the
/// value is skipped; the last record of a buffer may come without it, and
/// then nothing remains.
pub open spec fn tlv_frame(input: Seq<u8>) -> TlvView
    recommends
        tlv_accepts(input),
{
    let length = spec_be_u16(input, 2) as int - 4;
    let padded = length + spec_padding(length);
    TlvView {
        tag: spec_be_u16(input, 0),
        value: input.subrange(4, 4 + length),
        rest: if 4 + padded <= input.len() {
            input.subrange(4 + padded, input.len() as int)
        } else {
            Seq::empty()
        },
    }
}

/// `nom::number::complete::be_u16`: fails on fewer than two bytes; otherwise
/// yields the first two bytes read as a big-endian integer, and the input
/// after them.
#[verifier::external_body]
fn be_u16<'a>(input: &'a [u8]) -> (r: Option<(&'a [u8], u16)>)
    ensures
        input@.len() < 2 ==> r is None,
        input@.len() >= 2 ==> r is Some && r.unwrap().0@ == input@.subrange(
            2,
            input@.len() as int,
        ) && r.unwrap().1 == spec_be_u16(input@, 0),
{
    match nom::number::complete::be_u16::<(&[u8], nom::error::ErrorKind)>(input) {
        Ok((rest, value)) => Some((rest, value)),
        Err(_) => None,
    }
}

/// Consume an entire SCTP Tag-Length-Value (TLV) structure from the front of
/// `input`, and return its tag, its value and the input that follows it.
pub fn parse_tlv<'a>(input: &'a [u8]) -> (r: Result<Tlv<'a>, SctpError>)
    ensures
        tlv_accepts(input@) ==> r is Ok && r.unwrap()@ == tlv_frame(input@),
        !tlv_accepts(input@) ==> r == Err::<Tlv<'a>, SctpError>(SctpError::InvalidPacket),
{
    if input.len() < TAG_LENGTH_HEADER_SIZE {
        return Err(SctpError::InvalidPacket);
    }
    let (after_tag, tag) = match be_u16(input) {
        Some(parsed) => parsed,
        None => { return Err(SctpError::InvalidPacket); },
    };
    let (i, declared) = match be_u16(after_tag) {
        Some(parsed) => parsed,
        None => { return Err(SctpError::InvalidPacket); },
    };
    assert(declared == spec_be_u16(input@, 2));
    assert(i@ == input@.subrange(4, input@.len() as int));
    if (declared as usize) < TAG_LENGTH_HEADER_SIZE {
        return Err(SctpError::InvalidPacket);
    }
    // Subtract the header size to get the value length
    let length: usize = declared as usize - TAG_LENGTH_HEADER_SIZE;
    // Account for padding
    let padding: usize = (4 - length % 4) % 4;
    let padded_length: usize = length + padding;
    if length > i.len() {
        // not incomplete -- we should always have the full TLV
        return Err(SctpError::InvalidPacket);
    }
    // Split slices into the data which is part of this TLV (not including
    // padding) and the rest of the input stream which follows any trailing
    // padding.
    let value = slice_subrange(i, 0, length);
    let total_length: usize = i.len();
    let rest = if padded_length <= total_length {
        slice_subrange(i, padded_length, total_length)
    } else {
        // The last item is allowed to omit padding
        slice_subrange(i, total_length, total_length)
    };
    assert(value@ =~= tlv_frame(input@).value);
    assert(rest@ =~= tlv_frame(input@).rest);
    Ok(Tlv { tag, value, rest })
}

/// What a dispatch function made of a record's value.
#[derive(Debug)]
pub enum Dispatched<T> {
    /// It produced `value` and left `leftover` bytes of the record's value
    /// unread.
    Parsed { leftover: usize, value: T },
    /// It wanted more data than the record's value holds.
    Incomplete,
    /// It refused the record.
    Failed(SctpError),
}

/// Settle a record once its value has been dispatched.  The value data must
/// have been consumed completely, and a record always holds complete data:
/// leftover bytes and a wish for more are both an invalid packet.  An error
/// of the dispatch function is passed on.
pub fn finish_tlv<'a, T>(rest: &'a [u8], dispatched: Dispatched<T>) -> (r: Result<
    (&'a [u8], T),
    SctpError,
>)
    ensures
        match dispatched {
            Dispatched::Parsed { leftover, value } => if leftover == 0 {
                r == Ok::<(&'a [u8], T), SctpError>((rest, value))
            } else {
                r == Err::<(&'a [u8], T), SctpError>(SctpError::InvalidPacket)
            },
            Dispatched::Incomplete => r == Err::<(&'a [u8], T), SctpError>(
                SctpError::InvalidPacket,
            ),
            Dispatched::Failed(e) => r == Err::<(&'a [u8], T), SctpError>(e),
        },
{
    match dispatched {
        Dispatched::Parsed { leftover, value } => {
            if leftover != 0 {
                Err(SctpError::InvalidPacket)
            } else {
                Ok((rest, value))
            }
        },
        Dispatched::Incomplete => Err(SctpError::InvalidPacket),
        Dispatched::Failed(e) => Err(e),
    }
}

/// Consume an entire TLV structure and return a processed value according to
/// the provided dispatch function, which is given the record's tag and value.
/// Where the input does not start with a complete record, the dispatch
/// function is not called.
pub fn parse_tlv_with<'a, T, F: Fn(u16, &'a [u8]) -> Dispatched<T>>(
    input: &'a [u8],
    dispatch: F,
) -> (r: Result<(&'a [u8], T), SctpError>)
    requires
        forall|tag: u16, value: &'a [u8]| #[trigger] dispatch.requires((tag, value)),
    ensures
        !tlv_accepts(input@) ==> r == Err::<(&'a [u8], T), SctpError>(SctpError::InvalidPacket),
        tlv_accepts(input@) ==> exists|tlv: Tlv<'a>, dispatched: Dispatched<T>|
            tlv@ == tlv_frame(input@) && #[trigger] dispatch.ensures(
                (tlv.tag, tlv.value),
                dispatched,
            ) && r == (match dispatched {
                Dispatched::Parsed { leftover, value } => if leftover == 0 {
                    Ok::<(&'a [u8], T), SctpError>((tlv.rest, value))
                } else {
                    Err::<(&'a [u8], T), SctpError>(SctpError::InvalidPacket)
                },
                Dispatched::Incomplete => Err::<(&'a [u8], T), SctpError>(
                    SctpError::InvalidPacket,
                ),
                Dispatched::Failed(e) => Err::<(&'a [u8], T), SctpError>(e),
            }),
{
    let tlv = match parse_tlv(input) {
        Ok(tlv) => tlv,
        Err(_) => { return Err(SctpError::InvalidPacket); },
    };
    let dispatched = dispatch(tlv.tag, tlv.value);
    let ghost seen = dispatched;
    let r = finish_tlv(tlv.rest, dispatched);
    proof {
        assert(dispatch.ensures((tlv.tag, tlv.value), seen));
    }
    r
}

} // verus!
