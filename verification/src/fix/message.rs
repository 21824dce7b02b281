//! FIX messages: `tag=value` fields, each ended by SOH; their checksum; and
//! the re-encoding of a message with one field replaced.
use vstd::prelude::*;

use crate::fix::fields::{EQUALS, SOH};
use crate::fix::laws;
use crate::text;

verus! {

/// A field as a tag and the bytes of its value.
pub type Field = (u32, Seq<u8>);

/// Why bytes are not a FIX message.
#[derive(Debug, PartialEq, Eq, Structural, Clone, Copy)]
pub enum ParseError {
    Empty,
    MissingSoh,
    MalformedTag,
}

/// Reads one field: a tag, the first `=`, and everything after it.
pub open spec fn field_of(piece: Seq<u8>) -> Option<Field> {
    let eq = text::first_index(piece, EQUALS);
    if eq == piece.len() {
        None
    } else {
        match text::unsigned_value(piece.take(eq), u32::MAX as int) {
            Some(tag) => Some((tag as u32, piece.skip(eq + 1))),
            None => None,
        }
    }
}

/// The fields of a message in order, or `None` where one is malformed. Pieces
/// between two SOH with nothing in them are passed over.
pub open spec fn fields_of(bytes: Seq<u8>) -> Option<Seq<Field>>
    decreases bytes.len(),
    via fields_of_decreases
{
    if bytes.len() == 0 {
        Some(Seq::empty())
    } else {
        let end = text::first_index(bytes, SOH);
        let piece = bytes.take(end);
        let rest = if end == bytes.len() {
            Seq::empty()
        } else {
            bytes.skip(end + 1)
        };
        if piece.len() == 0 {
            fields_of(rest)
        } else {
            match (field_of(piece), fields_of(rest)) {
                (Some(field), Some(others)) => Some(seq![field] + others),
                _ => None,
            }
        }
    }
}

#[via_fn]
proof fn fields_of_decreases(bytes: Seq<u8>) {
    text::lemma_first_index(bytes, SOH);
}

/// What `parse` makes of a byte string.
pub open spec fn parsed(bytes: Seq<u8>) -> Result<Seq<Field>, ParseError> {
    if bytes.len() == 0 {
        Err(ParseError::Empty)
    } else {
        match fields_of(bytes) {
            None => Err(ParseError::MalformedTag),
            Some(fields) => if fields.len() == 0 {
                Err(ParseError::MissingSoh)
            } else {
                Ok(fields)
            },
        }
    }
}

/// The value of the first field with this tag.
pub open spec fn value_of(fields: Seq<Field>, tag: u32) -> Option<Seq<u8>>
    decreases fields.len(),
{
    if fields.len() == 0 {
        None
    } else if fields[0].0 == tag {
        Some(fields[0].1)
    } else {
        value_of(fields.skip(1), tag)
    }
}

/// Read-only view over a parsed FIX message. The fields keep their order.
#[derive(Debug)]
pub struct FixMessage<'a> {
    fields: Vec<(u32, &'a [u8])>,
}

impl<'a> View for FixMessage<'a> {
    type V = Seq<Field>;

    closed spec fn view(&self) -> Seq<Field> {
        self.fields@.map_values(|f: (u32, &'a [u8])| (f.0, f.1@))
    }
}

impl<'a> FixMessage<'a> {
    /// The first value of a tag.
    pub fn get(&self, tag: u32) -> (r: Option<&'a [u8]>)
        ensures
            match r {
                Some(v) => value_of(self@, tag) == Some(v@),
                None => value_of(self@, tag) is None,
            },
    {
        let mut i: usize = 0;
        assert(self@.skip(0) =~= self@);
        while i < self.fields.len()
            invariant
                i <= self.fields@.len(),
                self@.len() == self.fields@.len(),
                value_of(self@, tag) == value_of(self@.skip(i as int), tag),
            decreases self.fields@.len() - i,
        {
            let field = self.fields[i];
            assert(self@[i as int] == (field.0, field.1@));
            assert(self@.skip(i as int)[0] == self@[i as int]);
            if field.0 == tag {
                return Some(field.1);
            }
            assert(self@.skip(i as int).skip(1) =~= self@.skip(i + 1));
            i = i + 1;
        }
        None
    }

    /// Whether the first value of `tag` is `expected`.
    pub fn is(&self, tag: u32, expected: &[u8]) -> (r: bool)
        ensures
            r == (value_of(self@, tag) == Some(expected@)),
    {
        match self.get(tag) {
            Some(value) => text::bytes_equal(value, expected),
            None => false,
        }
    }
}

/// Parses SOH-delimited `tag=value` pairs. Neither BodyLength nor the checksum
/// is looked at: a message has to be framed before it can be parsed.
pub fn parse<'a>(bytes: &'a [u8]) -> (r: Result<FixMessage<'a>, ParseError>)
    ensures
        match r {
            Ok(message) => parsed(bytes@) == Ok::<Seq<Field>, ParseError>(message@),
            Err(e) => parsed(bytes@) == Err::<Seq<Field>, ParseError>(e),
        },
{
    if bytes.len() == 0 {
        return Err(ParseError::Empty);
    }
    let mut fields: Vec<(u32, &'a [u8])> = Vec::new();
    let mut start: usize = 0;
    let ghost view = |f: (u32, &'a [u8])| (f.0, f.1@);
    assert(bytes@.skip(0) =~= bytes@);
    assert(fields@.map_values(view) =~= Seq::<Field>::empty());
    proof {
        assert(fields_of(bytes@) matches Some(all) ==> Seq::<Field>::empty() + all =~= all);
    }
    while start < bytes.len()
        invariant
            start <= bytes@.len(),
            view == (|f: (u32, &'a [u8])| (f.0, f.1@)),
            match fields_of(bytes@.skip(start as int)) {
                Some(rest) => fields_of(bytes@) == Some(fields@.map_values(view) + rest),
                None => fields_of(bytes@) is None,
            },
        decreases bytes@.len() - start,
    {
        let ghost tail = bytes@.skip(start as int);
        proof {
            text::lemma_first_index(tail, SOH);
        }
        let len: usize = match text::position_from(bytes, start, SOH) {
            Some(k) => k,
            None => bytes.len() - start,
        };
        let piece = vstd::slice::slice_subrange(bytes, start, start + len);
        assert(piece@ =~= tail.take(len as int));
        let next: usize = if start + len < bytes.len() {
            start + len + 1
        } else {
            bytes.len()
        };
        let ghost rest = bytes@.skip(next as int);
        assert(len < tail.len() ==> rest =~= tail.skip(len + 1));
        assert(len == tail.len() ==> rest =~= Seq::empty());
        if len > 0 {
            proof {
                text::lemma_first_index(piece@, EQUALS);
                assert(piece@.skip(0) =~= piece@);
            }
            let eq: usize = match text::position_from(piece, 0, EQUALS) {
                Some(k) => k,
                None => {
                    return Err(ParseError::MalformedTag);
                },
            };
            let tag_text = vstd::slice::slice_subrange(piece, 0, eq);
            assert(tag_text@ =~= piece@.take(eq as int));
            let tag: u32 = match text::parse_unsigned(tag_text, u32::MAX as u64) {
                Some(v) => v as u32,
                None => {
                    return Err(ParseError::MalformedTag);
                },
            };
            let value = vstd::slice::slice_subrange(piece, eq + 1, piece.len());
            assert(value@ =~= piece@.skip(eq + 1));
            let ghost before = fields@.map_values(view);
            fields.push((tag, value));
            proof {
                let field = (tag, value@);
                assert(field_of(piece@) == Some(field));
                assert(fields@.map_values(view) =~= before + seq![field]);
                if let Some(others) = fields_of(rest) {
                    assert(before + (seq![field] + others) =~= fields@.map_values(view) + others);
                }
            }
        }
        start = next;
    }
    assert(bytes@.skip(start as int) =~= Seq::<u8>::empty());
    assert(fields@.map_values(view) + Seq::<Field>::empty() =~= fields@.map_values(view));
    if fields.len() == 0 {
        return Err(ParseError::MissingSoh);
    }
    Ok(FixMessage { fields })
}

/// The sum of all bytes.
pub open spec fn byte_sum(bytes: Seq<u8>) -> int
    decreases bytes.len(),
{
    if bytes.len() == 0 {
        0
    } else {
        byte_sum(bytes.drop_last()) + bytes.last()
    }
}

/// The FIX checksum: the sum of all bytes modulo 256.
pub open spec fn checksum(bytes: Seq<u8>) -> int {
    byte_sum(bytes) % 256
}

/// The checksum of everything up to and with the SOH before `10=`.
pub fn compute_checksum(bytes_before_checksum_field: &[u8]) -> (r: u8)
    ensures
        r == checksum(bytes_before_checksum_field@),
{
    let bytes = bytes_before_checksum_field;
    let mut acc: u8 = 0;
    let mut i: usize = 0;
    assert(bytes@.take(0) =~= Seq::<u8>::empty());
    while i < bytes.len()
        invariant
            i <= bytes@.len(),
            acc == byte_sum(bytes@.take(i as int)) % 256,
        decreases bytes@.len() - i,
    {
        assert(bytes@.take(i + 1).drop_last() =~= bytes@.take(i as int));
        acc = acc.wrapping_add(bytes[i]);
        i = i + 1;
    }
    assert(bytes@.take(i as int) =~= bytes@);
    acc
}

/// A number below 1000 as text of exactly three digits.
pub open spec fn checksum_text(sum: int) -> Seq<char> {
    seq![
        text::digit_char(sum / 100),
        text::digit_char(sum / 10 % 10),
        text::digit_char(sum % 10),
    ]
}

/// A checksum as text of exactly three digits.
pub fn format_checksum(sum: u8) -> (r: String)
    ensures
        r@ == seq![
            text::digit_char(sum as int / 100),
            text::digit_char(sum as int / 10 % 10),
            text::digit_char(sum as int % 10),
        ],
        r@ == checksum_text(sum as int),
{
    let mut out = String::new();
    text::append_digit(&mut out, (sum / 100) as u64);
    text::append_digit(&mut out, (sum / 10 % 10) as u64);
    text::append_digit(&mut out, (sum % 10) as u64);
    assert(out@ =~= seq![
        text::digit_char(sum as int / 100),
        text::digit_char(sum as int / 10 % 10),
        text::digit_char(sum as int % 10),
    ]);
    out
}

/// A number below 1000 as exactly three digits.
pub open spec fn three_digits(n: int) -> Seq<u8> {
    seq![(0x30 + n / 100) as u8, (0x30 + n / 10 % 10) as u8, (0x30 + n % 10) as u8]
}

/// Whether the tag is one of BeginString, BodyLength and CheckSum.
pub open spec fn is_structural(tag: u32) -> bool {
    tag == 8 || tag == 9 || tag == 10
}

/// The fields of the body after `tag` has been given a new value: the
/// structural fields left out, every field with that tag replaced, the rest
/// and the order unchanged.
pub open spec fn replaced_body(fields: Seq<Field>, tag: u32, new_value: Seq<u8>) -> Seq<Field>
    decreases fields.len(),
{
    if fields.len() == 0 {
        Seq::empty()
    } else {
        let before = replaced_body(fields.drop_last(), tag, new_value);
        let last = fields.last();
        if is_structural(last.0) {
            before
        } else if last.0 == tag {
            before.push((tag, new_value))
        } else {
            before.push(last)
        }
    }
}

/// One field on the wire.
pub open spec fn encoded_field(field: Field) -> Seq<u8> {
    text::decimal(field.0 as nat) + seq![EQUALS] + field.1 + seq![SOH]
}

/// Fields on the wire, one after the other.
pub open spec fn encoded_fields(fields: Seq<Field>) -> Seq<u8>
    decreases fields.len(),
{
    if fields.len() == 0 {
        Seq::empty()
    } else {
        encoded_fields(fields.drop_last()) + encoded_field(fields.last())
    }
}

/// Everything before the checksum field of a message with this BeginString and
/// this body; BodyLength is the number of bytes of the body.
pub open spec fn unsummed_message(begin_string: Seq<u8>, body: Seq<Field>) -> Seq<u8> {
    encoded_field((8u32, begin_string)) + encoded_field(
        (9u32, text::decimal(encoded_fields(body).len())),
    ) + encoded_fields(body)
}

/// A whole message with this BeginString and this body, its BodyLength and
/// CheckSum worked out from them.
pub open spec fn encoded_message(begin_string: Seq<u8>, body: Seq<Field>) -> Seq<u8> {
    let unsummed = unsummed_message(begin_string, body);
    unsummed + encoded_field((10u32, three_digits(checksum(unsummed))))
}

/// Appends `tag`, `=`, `value` and SOH.
fn push_field(out: &mut Vec<u8>, tag: u32, value: &[u8])
    ensures
        final(out)@ == old(out)@ + encoded_field((tag, value@)),
{
    text::push_decimal(out, tag as u64);
    out.push(EQUALS);
    text::append_bytes(out, value);
    out.push(SOH);
    assert(out@ =~= old(out)@ + encoded_field((tag, value@)));
}

/// Re-encodes `bytes` with the value of `tag` replaced by `new_value`.
/// BodyLength and CheckSum are worked out anew, and BeginString carries over.
/// Tags 8, 9 and 10 are structural: what is asked for them is not looked at.
/// Where the tag does not occur, nothing is replaced.
///
/// A framed message always has a BeginString; one that parses and has none is
/// not a message to re-encode.
pub fn set_field(bytes: &[u8], tag: u32, new_value: &[u8]) -> (r: Result<Vec<u8>, ParseError>)
    requires
        parsed(bytes@) matches Ok(fields) ==> value_of(fields, 8) is Some,
    ensures
        match parsed(bytes@) {
            Ok(fields) => r is Ok && r->Ok_0@ == encoded_message(
                value_of(fields, 8)->0,
                replaced_body(fields, tag, new_value@),
            ) && r->Ok_0@ == laws::with_field(fields, tag, new_value@),
            Err(e) => r == Err::<Vec<u8>, ParseError>(e),
        },
{
    let message = match parse(bytes) {
        Ok(m) => m,
        Err(e) => {
            return Err(e);
        },
    };
    let ghost fields = message@;
    let begin_string: &[u8] = match message.get(8) {
        Some(v) => v,
        None => {
            assert(false);
            return Err(ParseError::MalformedTag);
        },
    };
    let mut body: Vec<u8> = Vec::new();
    let mut i: usize = 0;
    assert(fields.take(0) =~= Seq::<Field>::empty());
    while i < message.fields.len()
        invariant
            i <= message.fields@.len(),
            fields == message@,
            fields.len() == message.fields@.len(),
            body@ == encoded_fields(replaced_body(fields.take(i as int), tag, new_value@)),
        decreases message.fields@.len() - i,
    {
        let field = message.fields[i];
        assert(fields[i as int] == (field.0, field.1@));
        assert(fields.take(i + 1).drop_last() =~= fields.take(i as int));
        let t: u32 = field.0;
        let ghost before = replaced_body(fields.take(i as int), tag, new_value@);
        if t != 8 && t != 9 && t != 10 {
            if t == tag {
                push_field(&mut body, t, new_value);
                assert(before.push((tag, new_value@)).drop_last() =~= before);
            } else {
                push_field(&mut body, t, field.1);
                assert(before.push(fields[i as int]).drop_last() =~= before);
            }
        }
        i = i + 1;
    }
    assert(fields.take(i as int) =~= fields);
    let mut length: Vec<u8> = Vec::new();
    text::push_decimal(&mut length, body.len() as u64);
    assert(length@ =~= text::decimal(body@.len()));
    let mut full: Vec<u8> = Vec::new();
    push_field(&mut full, 8, begin_string);
    push_field(&mut full, 9, length.as_slice());
    text::append_bytes(&mut full, body.as_slice());
    let ghost replaced = replaced_body(fields, tag, new_value@);
    assert(full@ =~= unsummed_message(begin_string@, replaced));
    let sum: u8 = compute_checksum(full.as_slice());
    let digits: [u8; 3] = [0x30 + sum / 100, 0x30 + sum / 10 % 10, 0x30 + sum % 10];
    assert(digits@ =~= three_digits(sum as int));
    push_field(&mut full, 10, &digits);
    Ok(full)
}

} // verus!
