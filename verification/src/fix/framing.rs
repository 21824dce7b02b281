//! Message boundaries in a byte stream.
use vstd::prelude::*;

use crate::fix::fields::{EQUALS, SOH};
use crate::fix::message::ParseError;
use crate::text;

verus! {

/// The length of the checksum field: `10=`, three digits and SOH.
pub const CHECKSUM_FIELD_LEN: usize = 7;

/// Whether `s` begins with the digit `tag` and `=`.
pub open spec fn starts_with_tag(s: Seq<u8>, tag: u8) -> bool {
    s.len() >= 2 && s[0] == tag && s[1] == EQUALS
}

/// What follows the first field of `buf`.
pub open spec fn after_first_field(buf: Seq<u8>) -> Seq<u8> {
    buf.skip(text::first_index(buf, SOH) + 1)
}

/// The BodyLength that stands in the second field of `buf`, where that field
/// is whole.
pub open spec fn declared_body_length(buf: Seq<u8>) -> Option<int> {
    let rest = after_first_field(buf);
    text::unsigned_value(rest.subrange(2, text::first_index(rest, SOH)), usize::MAX as int)
}

/// Whether the first field of `buf` is there up to its SOH.
pub open spec fn has_first_field(buf: Seq<u8>) -> bool {
    text::first_index(buf, SOH) < buf.len()
}

/// Whether the first two fields of `buf` are there up to their SOH.
pub open spec fn has_header(buf: Seq<u8>) -> bool {
    has_first_field(buf) && text::first_index(after_first_field(buf), SOH) < after_first_field(
        buf,
    ).len()
}

/// The bytes of the first two fields of `buf`, with their SOH.
pub open spec fn header_len(buf: Seq<u8>) -> int {
    text::first_index(buf, SOH) + 1 + text::first_index(after_first_field(buf), SOH) + 1
}

/// Where the message at the start of `buf` ends: header, declared body and
/// checksum field. `Ok(None)` asks for more bytes; an error says that `buf`
/// does not start at a message.
pub open spec fn framed(buf: Seq<u8>) -> Result<Option<int>, ParseError> {
    let rest = after_first_field(buf);
    if buf.len() < 2 {
        Ok(None)
    } else if !starts_with_tag(buf, 0x38) {
        Err(ParseError::MalformedTag)
    } else if !has_first_field(buf) {
        Ok(None)
    } else if rest.len() >= 2 && !starts_with_tag(rest, 0x39) || rest.len() == 1 && rest[0] == SOH {
        Err(ParseError::MalformedTag)
    } else if !has_header(buf) {
        Ok(None)
    } else {
        match declared_body_length(buf) {
            None => Err(ParseError::MalformedTag),
            Some(body_length) => {
                let total = header_len(buf) + body_length + CHECKSUM_FIELD_LEN;
                if buf.len() < total {
                    Ok(None)
                } else {
                    Ok(Some(total))
                }
            },
        }
    }
}

/// The header of a buffer, as far as it is there.
enum Header {
    Broken,
    Partial,
    /// The length of the header and the declared length of the body.
    Whole(usize, usize),
}

/// Reads the header of `buf`.
fn read_header(buf: &[u8]) -> (r: Header)
    ensures
        match r {
            Header::Broken => framed(buf@) == Err::<Option<int>, ParseError>(
                ParseError::MalformedTag,
            ),
            Header::Partial => framed(buf@) == Ok::<Option<int>, ParseError>(None),
            Header::Whole(header, body) => {
                &&& buf@.len() >= 2 && starts_with_tag(buf@, 0x38)
                &&& has_first_field(buf@) && has_header(buf@)
                &&& starts_with_tag(after_first_field(buf@), 0x39)
                &&& header == header_len(buf@) <= buf@.len()
                &&& declared_body_length(buf@) == Some(body as int)
            },
        },
{
    if buf.len() < 2 {
        return Header::Partial;
    }
    if buf[0] != 0x38 || buf[1] != EQUALS {
        return Header::Broken;
    }
    assert(buf@.skip(0) =~= buf@);
    let end: usize = match text::position_from(buf, 0, SOH) {
        Some(k) => k,
        None => {
            return Header::Partial;
        },
    };
    let rest = vstd::slice::slice_subrange(buf, end + 1, buf.len());
    assert(rest@ =~= after_first_field(buf@));
    if rest.len() >= 2 && (rest[0] != 0x39 || rest[1] != EQUALS) {
        return Header::Broken;
    }
    assert(rest@.skip(0) =~= rest@);
    proof {
        text::lemma_first_index(rest@, SOH);
    }
    let rest_end: usize = match text::position_from(rest, 0, SOH) {
        Some(k) => k,
        None => {
            return Header::Partial;
        },
    };
    if rest.len() < 2 {
        return Header::Broken;
    }
    let digits = vstd::slice::slice_subrange(rest, 2, rest_end);
    match text::parse_unsigned(digits, usize::MAX as u64) {
        Some(v) => Header::Whole(end + 1 + rest_end + 1, v as usize),
        None => Header::Broken,
    }
}

/// Looks for one complete message at the start of `buf`. Returns the length of
/// that message, from the `8=` to the SOH that ends the checksum field, or
/// `None` where more bytes are needed.
///
/// `buf` has to start at a message boundary; a caller that always consumes the
/// length it was given keeps it there. A stream out of step is an error: no
/// scan looks for the next message. A message that is declared longer than any
/// buffer can be is never there.
pub fn find_complete_message(buf: &[u8]) -> (r: Result<Option<usize>, ParseError>)
    ensures
        match r {
            Ok(Some(len)) => framed(buf@) == Ok::<Option<int>, ParseError>(Some(len as int)),
            Ok(None) => framed(buf@) == Ok::<Option<int>, ParseError>(None),
            Err(e) => framed(buf@) == Err::<Option<int>, ParseError>(e),
        },
{
    match read_header(buf) {
        Header::Broken => Err(ParseError::MalformedTag),
        Header::Partial => Ok(None),
        Header::Whole(header, body) => {
            let len: usize = buf.len();
            let total: usize = match header.checked_add(body) {
                Some(end) => match end.checked_add(CHECKSUM_FIELD_LEN) {
                    Some(total) => total,
                    None => {
                        return Ok(None);
                    },
                },
                None => {
                    return Ok(None);
                },
            };
            if len < total {
                Ok(None)
            } else {
                Ok(Some(total))
            }
        },
    }
}

} // verus!
