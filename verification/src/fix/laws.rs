//! What holds of framing, parsing and re-encoding taken together.
use vstd::prelude::*;

use crate::fix::fields::{EQUALS, SOH};
use crate::fix::framing;
use crate::fix::message;
use crate::fix::message::{Field, ParseError};
use crate::text;

verus! {

/// Whether no byte of `value` is an SOH, which would end the field.
pub open spec fn fits_in_field(value: Seq<u8>) -> bool {
    forall|i: int| 0 <= i < value.len() ==> value[i] != SOH
}

/// Whether all values of `fields` fit in a field.
pub open spec fn all_fit(fields: Seq<Field>) -> bool {
    forall|i: int| 0 <= i < fields.len() ==> fits_in_field((#[trigger] fields[i]).1)
}

proof fn lemma_first_index_of_concat(a: Seq<u8>, rest: Seq<u8>, b: u8)
    requires
        forall|i: int| 0 <= i < a.len() ==> a[i] != b,
        rest.len() > 0,
        rest[0] == b,
    ensures
        text::first_index(a + rest, b) == a.len(),
{
    let s = a + rest;
    assert forall|i: int| 0 <= i < a.len() implies s[i] != b by {
        assert(s[i] == a[i]);
    }
    text::lemma_first_index_is(s, b, a.len() as int);
}

/// A piece without SOH, then SOH: the piece is the first field.
pub proof fn lemma_fields_of_piece(piece: Seq<u8>, rest: Seq<u8>)
    requires
        fits_in_field(piece),
        piece.len() > 0,
    ensures
        message::fields_of(piece + seq![SOH] + rest) == (match (
            message::field_of(piece),
            message::fields_of(rest),
        ) {
            (Some(field), Some(others)) => Some(seq![field] + others),
            _ => None,
        }),
{
    let s = piece + seq![SOH] + rest;
    assert(s =~= piece + (seq![SOH] + rest));
    lemma_first_index_of_concat(piece, seq![SOH] + rest, SOH);
    assert(s.take(piece.len() as int) =~= piece);
    assert(s.skip(piece.len() as int + 1) =~= rest);
}

/// What stands in a field is read back from it.
proof fn lemma_field_of_encoded(tag: u32, value: Seq<u8>)
    ensures
        message::field_of(text::decimal(tag as nat) + seq![EQUALS] + value) == Some((tag, value)),
{
    let digits = text::decimal(tag as nat);
    let s = digits + seq![EQUALS] + value;
    text::lemma_decimal_roundtrip(tag as nat);
    text::lemma_unsigned_of_decimal(tag as nat, u32::MAX as int);
    assert(s =~= digits + (seq![EQUALS] + value));
    assert forall|i: int| 0 <= i < digits.len() implies digits[i] != EQUALS by {
        assert(text::is_digit(digits[i]));
    }
    lemma_first_index_of_concat(digits, seq![EQUALS] + value, EQUALS);
    assert(s.take(digits.len() as int) =~= digits);
    assert(s.skip(digits.len() as int + 1) =~= value);
}

pub proof fn lemma_encoded_fields_concat(a: Seq<Field>, b: Seq<Field>)
    ensures
        message::encoded_fields(a + b) == message::encoded_fields(a) + message::encoded_fields(b),
    decreases b.len(),
{
    if b.len() == 0 {
        assert(a + b =~= a);
        assert(message::encoded_fields(a) + Seq::<u8>::empty() =~= message::encoded_fields(a));
    } else {
        lemma_encoded_fields_concat(a, b.drop_last());
        assert((a + b).drop_last() =~= a + b.drop_last());
        assert(message::encoded_fields(a) + message::encoded_fields(b) =~= (
        message::encoded_fields(a) + message::encoded_fields(b.drop_last()))
            + message::encoded_field(b.last()));
    }
}

pub proof fn lemma_encoded_fields_one(field: Field)
    ensures
        message::encoded_fields(seq![field]) == message::encoded_field(field),
{
    let one = seq![field];
    assert(one.drop_last() =~= Seq::<Field>::empty());
    assert(message::encoded_fields(one.drop_last()) =~= Seq::<u8>::empty());
    assert(Seq::<u8>::empty() + message::encoded_field(field) =~= message::encoded_field(field));
}

/// Parsing undoes encoding: fields whose values hold no SOH come back as they
/// were, in their order.
pub proof fn law_parsing_undoes_encoding(fields: Seq<Field>)
    requires
        all_fit(fields),
    ensures
        message::fields_of(message::encoded_fields(fields)) == Some(fields),
    decreases fields.len(),
{
    if fields.len() > 0 {
        let first = fields[0];
        let others = fields.skip(1);
        assert forall|i: int| 0 <= i < others.len() implies fits_in_field(
            (#[trigger] others[i]).1,
        ) by {
            assert(others[i] == fields[i + 1]);
        }
        law_parsing_undoes_encoding(others);
        assert(fields =~= seq![first] + others);
        lemma_encoded_fields_concat(seq![first], others);
        lemma_encoded_fields_one(first);
        let digits = text::decimal(first.0 as nat);
        let piece = digits + seq![EQUALS] + first.1;
        text::lemma_decimal_roundtrip(first.0 as nat);
        assert forall|i: int| 0 <= i < piece.len() implies piece[i] != SOH by {
            if i < digits.len() {
                assert(text::is_digit(digits[i]));
            } else if i > digits.len() {
                assert(fits_in_field(fields[0].1));
                assert(piece[i] == first.1[i - digits.len() - 1]);
            }
        }
        lemma_field_of_encoded(first.0, first.1);
        lemma_fields_of_piece(piece, message::encoded_fields(others));
        assert(message::encoded_fields(fields) =~= piece + seq![SOH] + message::encoded_fields(
            others,
        ));
    }
}

/// All fields of an encoded message, in order.
pub open spec fn message_fields(begin_string: Seq<u8>, body: Seq<Field>) -> Seq<Field> {
    seq![
        (8u32, begin_string),
        (9u32, text::decimal(message::encoded_fields(body).len())),
    ] + body + seq![
        (
            10u32,
            message::three_digits(message::checksum(message::unsummed_message(begin_string, body))),
        ),
    ]
}

proof fn lemma_message_is_its_fields(begin_string: Seq<u8>, body: Seq<Field>)
    ensures
        message::encoded_message(begin_string, body) == message::encoded_fields(
            message_fields(begin_string, body),
        ),
{
    let eight = (8u32, begin_string);
    let nine = (9u32, text::decimal(message::encoded_fields(body).len()));
    let ten = (
        10u32,
        message::three_digits(message::checksum(message::unsummed_message(begin_string, body))),
    );
    lemma_encoded_fields_one(eight);
    lemma_encoded_fields_one(nine);
    lemma_encoded_fields_one(ten);
    lemma_encoded_fields_concat(seq![eight], seq![nine]);
    assert(seq![eight] + seq![nine] =~= seq![eight, nine]);
    lemma_encoded_fields_concat(seq![eight, nine], body);
    lemma_encoded_fields_concat(seq![eight, nine] + body, seq![ten]);
}

proof fn lemma_message_fields_fit(begin_string: Seq<u8>, body: Seq<Field>)
    requires
        fits_in_field(begin_string),
        all_fit(body),
    ensures
        all_fit(message_fields(begin_string, body)),
{
    let all = message_fields(begin_string, body);
    let length = text::decimal(message::encoded_fields(body).len());
    let sum = message::checksum(message::unsummed_message(begin_string, body));
    text::lemma_decimal_roundtrip(message::encoded_fields(body).len());
    assert forall|i: int| 0 <= i < all.len() implies fits_in_field((#[trigger] all[i]).1) by {
        if i == 1 {
            assert forall|j: int| 0 <= j < length.len() implies length[j] != SOH by {
                assert(text::is_digit(length[j]));
            }
        } else if 2 <= i < all.len() - 1 {
            assert(all[i] == body[i - 2]);
        } else if i == all.len() - 1 {
            assert(all[i].1 == message::three_digits(sum));
        }
    }
}

/// An encoded message parses to BeginString, its BodyLength, the body and its
/// CheckSum.
pub proof fn law_encoded_message_parses(begin_string: Seq<u8>, body: Seq<Field>)
    requires
        fits_in_field(begin_string),
        all_fit(body),
    ensures
        message::parsed(message::encoded_message(begin_string, body)) == Ok::<
            Seq<Field>,
            ParseError,
        >(message_fields(begin_string, body)),
{
    lemma_message_is_its_fields(begin_string, body);
    lemma_message_fields_fit(begin_string, body);
    law_parsing_undoes_encoding(message_fields(begin_string, body));
    assert(message::encoded_message(begin_string, body).len() > 0);
}

/// An encoded message is one whole frame: its BodyLength counts its body, so
/// that framing finds its end exactly.
pub proof fn law_encoded_message_is_framed(begin_string: Seq<u8>, body: Seq<Field>)
    requires
        fits_in_field(begin_string),
        message::encoded_message(begin_string, body).len() <= usize::MAX,
    ensures
        framing::framed(message::encoded_message(begin_string, body)) == Ok::<
            Option<int>,
            ParseError,
        >(Some(message::encoded_message(begin_string, body).len() as int)),
{
    let buf = message::encoded_message(begin_string, body);
    let body_bytes = message::encoded_fields(body);
    let length = text::decimal(body_bytes.len());
    let sum = message::checksum(message::unsummed_message(begin_string, body));
    assert(text::decimal(8) =~= seq![0x38u8]);
    assert(text::decimal(9) =~= seq![0x39u8]);
    assert(text::decimal(10).len() == 2) by {
        assert(text::decimal(1).len() == 1);
    }
    let first = seq![0x38u8, EQUALS] + begin_string;
    let trailer = message::encoded_field((10u32, message::three_digits(sum)));
    let second = seq![0x39u8, EQUALS] + length;
    let rest = second + (seq![SOH] + body_bytes + trailer);
    assert(buf =~= first + (seq![SOH] + rest));
    lemma_first_index_of_concat(first, seq![SOH] + rest, SOH);
    assert(framing::after_first_field(buf) =~= rest);
    text::lemma_decimal_roundtrip(body_bytes.len());
    assert forall|i: int| 0 <= i < second.len() implies second[i] != SOH by {
        if i >= 2 {
            assert(text::is_digit(length[i - 2]));
        }
    }
    lemma_first_index_of_concat(second, seq![SOH] + body_bytes + trailer, SOH);
    assert(rest.subrange(2, second.len() as int) =~= length);
    text::lemma_unsigned_of_decimal(body_bytes.len(), usize::MAX as int);
}

/// The values that parsing gives hold no SOH.
pub proof fn law_parsed_values_fit(bytes: Seq<u8>)
    ensures
        message::fields_of(bytes) matches Some(fields) ==> all_fit(fields),
    decreases bytes.len(),
{
    if bytes.len() > 0 {
        text::lemma_first_index(bytes, SOH);
        let end = text::first_index(bytes, SOH);
        let piece = bytes.take(end);
        let rest = if end == bytes.len() {
            Seq::empty()
        } else {
            bytes.skip(end + 1)
        };
        law_parsed_values_fit(rest);
        if let Some(fields) = message::fields_of(bytes) {
            if piece.len() > 0 {
                text::lemma_first_index(piece, EQUALS);
                let eq = text::first_index(piece, EQUALS);
                let others = message::fields_of(rest)->0;
                assert forall|i: int| 0 <= i < fields.len() implies fits_in_field(
                    (#[trigger] fields[i]).1,
                ) by {
                    if i == 0 {
                        let value = piece.skip(eq + 1);
                        assert(fields[0].1 == value);
                        assert forall|j: int| 0 <= j < value.len() implies value[j] != SOH by {
                            assert(value[j] == bytes[eq + 1 + j]);
                        }
                    } else {
                        assert(fields[i] == others[i - 1]);
                    }
                }
            }
        }
    }
}

proof fn lemma_value_of_push(fields: Seq<Field>, field: Field, tag: u32)
    ensures
        message::value_of(fields.push(field), tag) == (if message::value_of(fields, tag) is Some {
            message::value_of(fields, tag)
        } else if field.0 == tag {
            Some(field.1)
        } else {
            None
        }),
    decreases fields.len(),
{
    reveal_with_fuel(message::value_of, 2);
    if fields.len() == 0 {
        assert(fields.push(field).skip(1) =~= Seq::<Field>::empty());
    } else {
        assert(fields.push(field).skip(1) =~= fields.skip(1).push(field));
        lemma_value_of_push(fields.skip(1), field, tag);
    }
}

proof fn lemma_value_of_concat(a: Seq<Field>, b: Seq<Field>, tag: u32)
    ensures
        message::value_of(a + b, tag) == (if message::value_of(a, tag) is Some {
            message::value_of(a, tag)
        } else {
            message::value_of(b, tag)
        }),
    decreases a.len(),
{
    if a.len() == 0 {
        assert(a + b =~= b);
    } else {
        assert((a + b).skip(1) =~= a.skip(1) + b);
        lemma_value_of_concat(a.skip(1), b, tag);
    }
}

proof fn lemma_replaced_body_values(
    fields: Seq<Field>,
    tag: u32,
    new_value: Seq<u8>,
    wanted: u32,
)
    ensures
        message::value_of(message::replaced_body(fields, tag, new_value), wanted) == (
        if message::is_structural(wanted) {
            None
        } else if wanted == tag && message::value_of(fields, tag) is Some {
            Some(new_value)
        } else {
            message::value_of(fields, wanted)
        }),
    decreases fields.len(),
{
    if fields.len() > 0 {
        let before = message::replaced_body(fields.drop_last(), tag, new_value);
        let last = fields.last();
        lemma_replaced_body_values(fields.drop_last(), tag, new_value, wanted);
        assert(fields.drop_last().push(last) =~= fields);
        lemma_value_of_push(fields.drop_last(), last, wanted);
        lemma_value_of_push(before, (tag, new_value), wanted);
        lemma_value_of_push(before, last, wanted);
    }
}

proof fn lemma_replaced_body_fits(fields: Seq<Field>, tag: u32, new_value: Seq<u8>)
    requires
        all_fit(fields),
        fits_in_field(new_value),
    ensures
        all_fit(message::replaced_body(fields, tag, new_value)),
    decreases fields.len(),
{
    if fields.len() > 0 {
        let front = fields.drop_last();
        assert forall|i: int| 0 <= i < front.len() implies fits_in_field(
            (#[trigger] front[i]).1,
        ) by {
            assert(front[i] == fields[i]);
        }
        lemma_replaced_body_fits(front, tag, new_value);
        let before = message::replaced_body(front, tag, new_value);
        let all = message::replaced_body(fields, tag, new_value);
        assert(fits_in_field(fields[fields.len() - 1].1));
        assert forall|i: int| 0 <= i < all.len() implies fits_in_field((#[trigger] all[i]).1) by {
            if i < before.len() {
                assert(all[i] == before[i]);
            }
        }
    }
}

/// Where `set_field` takes a message, this is what it gives back.
pub open spec fn with_field(fields: Seq<Field>, tag: u32, new_value: Seq<u8>) -> Seq<u8> {
    message::encoded_message(
        message::value_of(fields, 8)->0,
        message::replaced_body(fields, tag, new_value),
    )
}

/// The fields of what `set_field` gives back.
pub open spec fn fields_with(fields: Seq<Field>, tag: u32, new_value: Seq<u8>) -> Seq<Field> {
    message_fields(
        message::value_of(fields, 8)->0,
        message::replaced_body(fields, tag, new_value),
    )
}

proof fn lemma_value_fits(fields: Seq<Field>, tag: u32)
    requires
        all_fit(fields),
    ensures
        message::value_of(fields, tag) matches Some(value) ==> fits_in_field(value),
    decreases fields.len(),
{
    if fields.len() > 0 {
        assert(fits_in_field(fields[0].1));
        let others = fields.skip(1);
        assert forall|i: int| 0 <= i < others.len() implies fits_in_field(
            (#[trigger] others[i]).1,
        ) by {
            assert(others[i] == fields[i + 1]);
        }
        lemma_value_fits(others, tag);
    }
}

/// `set_field` gives back a message that parses, in which the tag has its new
/// value, every other field of the body keeps its own, BeginString is carried
/// over, and BodyLength and CheckSum are those of the new bytes.
pub proof fn law_set_field_replaces_one_value(bytes: Seq<u8>, tag: u32, new_value: Seq<u8>)
    requires
        message::parsed(bytes) matches Ok(fields) && message::value_of(fields, 8) is Some,
        fits_in_field(new_value),
    ensures
        ({
            let fields = message::parsed(bytes)->Ok_0;
            let out = with_field(fields, tag, new_value);
            let body = message::replaced_body(fields, tag, new_value);
            let unsummed = message::unsummed_message(message::value_of(fields, 8)->0, body);
            let again = fields_with(fields, tag, new_value);
            &&& message::parsed(out) == Ok::<Seq<Field>, ParseError>(again)
            &&& message::value_of(again, 8) == message::value_of(fields, 8)
            &&& message::value_of(again, 9) == Some(
                text::decimal(message::encoded_fields(body).len()),
            )
            &&& message::value_of(again, 10) == Some(
                message::three_digits(message::checksum(unsummed)),
            )
            &&& out == unsummed + message::encoded_field(
                (10u32, message::three_digits(message::checksum(unsummed))),
            )
            &&& forall|t: u32|
                !message::is_structural(t) ==> #[trigger] message::value_of(again, t) == (if t
                    == tag && message::value_of(fields, tag) is Some {
                    Some(new_value)
                } else {
                    message::value_of(fields, t)
                })
        }),
{
    let fields = message::parsed(bytes)->Ok_0;
    let begin_string = message::value_of(fields, 8)->0;
    let body = message::replaced_body(fields, tag, new_value);
    let again = fields_with(fields, tag, new_value);
    law_parsed_values_fit(bytes);
    lemma_value_fits(fields, 8);
    lemma_replaced_body_fits(fields, tag, new_value);
    law_encoded_message_parses(begin_string, body);
    let eight = (8u32, begin_string);
    let nine = (9u32, text::decimal(message::encoded_fields(body).len()));
    let ten = (
        10u32,
        message::three_digits(message::checksum(message::unsummed_message(begin_string, body))),
    );
    let head = seq![eight, nine];
    assert forall|t: u32| #[trigger]
        message::value_of(again, t) == (if t == 8 {
            Some(begin_string)
        } else if t == 9 {
            Some(nine.1)
        } else if t == 10 {
            Some(ten.1)
        } else {
            message::value_of(body, t)
        }) by {
        lemma_value_of_concat(head + body, seq![ten], t);
        lemma_value_of_concat(head, body, t);
        lemma_replaced_body_values(fields, tag, new_value, t);
        reveal_with_fuel(message::value_of, 3);
        assert(head.skip(1) =~= seq![nine]);
        assert(seq![nine].skip(1) =~= Seq::<Field>::empty());
        assert(seq![ten].skip(1) =~= Seq::<Field>::empty());
    }
    assert forall|t: u32| !message::is_structural(t) implies #[trigger] message::value_of(again, t)
        == (if t == tag && message::value_of(fields, tag) is Some {
        Some(new_value)
    } else {
        message::value_of(fields, t)
    }) by {
        lemma_replaced_body_values(fields, tag, new_value, t);
    }
}

/// What `set_field` gives back is one whole frame.
pub proof fn law_set_field_is_framed(bytes: Seq<u8>, tag: u32, new_value: Seq<u8>)
    requires
        message::parsed(bytes) matches Ok(fields) && message::value_of(fields, 8) is Some
            && with_field(fields, tag, new_value).len() <= usize::MAX,
    ensures
        ({
            let out = with_field(message::parsed(bytes)->Ok_0, tag, new_value);
            framing::framed(out) == Ok::<Option<int>, ParseError>(Some(out.len() as int))
        }),
{
    let fields = message::parsed(bytes)->Ok_0;
    law_parsed_values_fit(bytes);
    lemma_value_fits(fields, 8);
    law_encoded_message_is_framed(
        message::value_of(fields, 8)->0,
        message::replaced_body(fields, tag, new_value),
    );
}

proof fn lemma_replaced_body_concat(a: Seq<Field>, b: Seq<Field>, tag: u32, new_value: Seq<u8>)
    ensures
        message::replaced_body(a + b, tag, new_value) == message::replaced_body(a, tag, new_value)
            + message::replaced_body(b, tag, new_value),
    decreases b.len(),
{
    if b.len() == 0 {
        assert(a + b =~= a);
        assert(message::replaced_body(a, tag, new_value) + Seq::<Field>::empty()
            =~= message::replaced_body(a, tag, new_value));
    } else {
        lemma_replaced_body_concat(a, b.drop_last(), tag, new_value);
        assert((a + b).drop_last() =~= a + b.drop_last());
        assert(message::replaced_body(a + b, tag, new_value) =~= message::replaced_body(
            a,
            tag,
            new_value,
        ) + message::replaced_body(b, tag, new_value));
    }
}

proof fn lemma_replaced_body_of_structural(field: Field, tag: u32, new_value: Seq<u8>)
    requires
        message::is_structural(field.0),
    ensures
        message::replaced_body(seq![field], tag, new_value) == Seq::<Field>::empty(),
{
    reveal_with_fuel(message::replaced_body, 2);
    assert(seq![field].drop_last() =~= Seq::<Field>::empty());
}

proof fn lemma_replaced_body_of_message(
    begin_string: Seq<u8>,
    body: Seq<Field>,
    tag: u32,
    new_value: Seq<u8>,
)
    ensures
        message::replaced_body(message_fields(begin_string, body), tag, new_value)
            == message::replaced_body(body, tag, new_value),
{
    let eight = (8u32, begin_string);
    let nine = (9u32, text::decimal(message::encoded_fields(body).len()));
    let ten = (
        10u32,
        message::three_digits(message::checksum(message::unsummed_message(begin_string, body))),
    );
    lemma_replaced_body_of_structural(eight, tag, new_value);
    lemma_replaced_body_of_structural(nine, tag, new_value);
    lemma_replaced_body_of_structural(ten, tag, new_value);
    lemma_replaced_body_concat(seq![eight], seq![nine], tag, new_value);
    assert(seq![eight] + seq![nine] =~= seq![eight, nine]);
    lemma_replaced_body_concat(seq![eight, nine], body, tag, new_value);
    lemma_replaced_body_concat(seq![eight, nine] + body, seq![ten], tag, new_value);
    assert(message::replaced_body(message_fields(begin_string, body), tag, new_value)
        =~= message::replaced_body(body, tag, new_value));
}

proof fn lemma_replaced_twice(fields: Seq<Field>, tag: u32, first: Seq<u8>, second: Seq<u8>)
    ensures
        message::replaced_body(message::replaced_body(fields, tag, first), tag, second)
            == message::replaced_body(fields, tag, second),
    decreases fields.len(),
{
    if fields.len() > 0 {
        lemma_replaced_twice(fields.drop_last(), tag, first, second);
        let before = message::replaced_body(fields.drop_last(), tag, first);
        let last = fields.last();
        assert(before.push((tag, first)).drop_last() =~= before);
        assert(before.push(last).drop_last() =~= before);
    }
}

/// Of two values set for one tag, only the last is left: the message that was
/// set before and re-encoded is the one set at once.
pub proof fn law_last_set_field_wins(
    bytes: Seq<u8>,
    tag: u32,
    first: Seq<u8>,
    second: Seq<u8>,
)
    requires
        message::parsed(bytes) matches Ok(fields) && message::value_of(fields, 8) is Some,
        fits_in_field(first),
    ensures
        ({
            let fields = message::parsed(bytes)->Ok_0;
            let once = with_field(fields, tag, first);
            &&& message::parsed(once) is Ok
            &&& with_field(message::parsed(once)->Ok_0, tag, second) == with_field(
                fields,
                tag,
                second,
            )
        }),
{
    let fields = message::parsed(bytes)->Ok_0;
    law_set_field_replaces_one_value(bytes, tag, first);
    lemma_replaced_body_of_message(
        message::value_of(fields, 8)->0,
        message::replaced_body(fields, tag, first),
        tag,
        second,
    );
    lemma_replaced_twice(fields, tag, first, second);
}

} // verus!
