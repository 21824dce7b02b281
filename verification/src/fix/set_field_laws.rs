//! What setting a field does to a message, field by field and byte by byte.
use vstd::prelude::*;

use crate::fix::laws;
use crate::fix::message;
use crate::fix::message::{Field, ParseError};
use crate::text;

verus! {

/// The fields of a message without its BeginString, BodyLength and CheckSum.
pub open spec fn others(fields: Seq<Field>) -> Seq<Field>
    decreases fields.len(),
{
    if fields.len() == 0 {
        Seq::empty()
    } else if fields.last().0 == 8 || fields.last().0 == 9 || fields.last().0 == 10 {
        others(fields.drop_last())
    } else {
        others(fields.drop_last()).push(fields.last())
    }
}

proof fn lemma_others_of_replaced(fields: Seq<Field>, tag: u32, new_value: Seq<u8>)
    ensures
        ({
            let body = message::replaced_body(fields, tag, new_value);
            &&& body.len() == others(fields).len()
            &&& forall|i: int|
                0 <= i < body.len() ==> {
                    &&& (#[trigger] body[i]).0 == others(fields)[i].0
                    &&& body[i].0 != 8 && body[i].0 != 9 && body[i].0 != 10
                    &&& body[i].1 == (if body[i].0 == tag {
                        new_value
                    } else {
                        others(fields)[i].1
                    })
                }
        }),
    decreases fields.len(),
{
    if fields.len() > 0 {
        lemma_others_of_replaced(fields.drop_last(), tag, new_value);
    }
}

proof fn lemma_others_concat(a: Seq<Field>, b: Seq<Field>)
    ensures
        others(a + b) == others(a) + others(b),
    decreases b.len(),
{
    if b.len() == 0 {
        assert(a + b =~= a);
        assert(others(a) + others(b) =~= others(a));
    } else {
        lemma_others_concat(a, b.drop_last());
        assert((a + b).drop_last() =~= a + b.drop_last());
        assert(others(a + b) =~= others(a) + others(b));
    }
}

proof fn lemma_nothing_left_out(body: Seq<Field>)
    requires
        forall|i: int|
            0 <= i < body.len() ==> (#[trigger] body[i]).0 != 8 && body[i].0 != 9 && body[i].0
                != 10,
    ensures
        others(body) == body,
    decreases body.len(),
{
    if body.len() > 0 {
        let front = body.drop_last();
        assert forall|i: int| 0 <= i < front.len() implies (#[trigger] front[i]).0 != 8
            && front[i].0 != 9 && front[i].0 != 10 by {
            assert(front[i] == body[i]);
        }
        lemma_nothing_left_out(front);
        assert(body[body.len() - 1] == body.last());
        assert(front.push(body.last()) =~= body);
    }
}

proof fn lemma_others_of_message(begin_string: Seq<u8>, body: Seq<Field>)
    requires
        others(body) == body,
    ensures
        others(laws::message_fields(begin_string, body)) == body,
{
    reveal_with_fuel(others, 3);
    let all = laws::message_fields(begin_string, body);
    let head = seq![all[0], all[1]];
    let tail = seq![all[all.len() - 1]];
    assert(all =~= head + body + tail);
    lemma_others_concat(head + body, tail);
    lemma_others_concat(head, body);
    assert(head.drop_last() =~= seq![all[0]]);
    assert(seq![all[0]].drop_last() =~= Seq::<Field>::empty());
    assert(tail.drop_last() =~= Seq::<Field>::empty());
    assert(others(all) =~= body);
}

/// Setting a field loses no other: apart from BeginString, BodyLength and
/// CheckSum, the message has as many fields as before, with the same tags in
/// the same order. Those with the tag that was set have the new value, the rest
/// their own. BeginString keeps its value.
pub proof fn law_set_field_keeps_the_other_fields(bytes: Seq<u8>, tag: u32, new_value: Seq<u8>)
    requires
        message::parsed(bytes) matches Ok(fields) && message::value_of(fields, 8) is Some,
        laws::fits_in_field(new_value),
    ensures
        ({
            let before = message::parsed(bytes)->Ok_0;
            let out = laws::with_field(before, tag, new_value);
            let after = message::parsed(out)->Ok_0;
            &&& message::parsed(out) is Ok
            &&& after.len() == others(before).len() + 3
            &&& others(after).len() == others(before).len()
            &&& forall|i: int|
                0 <= i < others(before).len() ==> {
                    &&& (#[trigger] others(after)[i]).0 == others(before)[i].0
                    &&& others(after)[i].1 == (if others(before)[i].0 == tag {
                        new_value
                    } else {
                        others(before)[i].1
                    })
                }
            &&& forall|t: u32|
                t != 9 && t != 10 && (t == 8 || t != tag) ==> #[trigger] message::value_of(after, t)
                    == message::value_of(before, t)
            &&& tag != 8 && tag != 9 && tag != 10 ==> message::value_of(after, tag) == (
            if message::value_of(before, tag) is Some {
                Some(new_value)
            } else {
                None
            })
        }),
{
    let before = message::parsed(bytes)->Ok_0;
    let begin_string = message::value_of(before, 8)->0;
    let body = message::replaced_body(before, tag, new_value);
    laws::law_set_field_replaces_one_value(bytes, tag, new_value);
    lemma_others_of_replaced(before, tag, new_value);
    lemma_nothing_left_out(body);
    lemma_others_of_message(begin_string, body);
}

/// The fields of a body, each as its tag in digits, `=`, its value and SOH.
pub open spec fn on_the_wire(fields: Seq<Field>) -> Seq<u8>
    decreases fields.len(),
{
    if fields.len() == 0 {
        Seq::empty()
    } else {
        text::decimal(fields[0].0 as nat) + seq![0x3Du8] + fields[0].1 + seq![0x01u8]
            + on_the_wire(fields.skip(1))
    }
}

proof fn lemma_on_the_wire(fields: Seq<Field>)
    ensures
        on_the_wire(fields) == message::encoded_fields(fields),
    decreases fields.len(),
{
    if fields.len() > 0 {
        lemma_on_the_wire(fields.skip(1));
        assert(fields =~= seq![fields[0]] + fields.skip(1));
        laws::lemma_encoded_fields_concat(seq![fields[0]], fields.skip(1));
        laws::lemma_encoded_fields_one(fields[0]);
        assert(on_the_wire(fields) =~= message::encoded_fields(fields));
    }
}

/// What `set_field` writes, whatever the new value holds: `8=` and the
/// BeginString, `9=` and the number of bytes of the body, the body, and `10=`
/// with the sum of all bytes before it, modulo 256, in three digits.
pub proof fn law_set_field_writes_a_message(
    fields: Seq<Field>,
    tag: u32,
    new_value: Seq<u8>,
    body: Seq<Field>,
)
    requires
        message::value_of(fields, 8) is Some,
        body.len() == others(fields).len(),
        forall|i: int|
            0 <= i < body.len() ==> (#[trigger] body[i]) == (
                others(fields)[i].0,
                if others(fields)[i].0 == tag {
                    new_value
                } else {
                    others(fields)[i].1
                },
            ),
    ensures
        ({
            let summed = seq![0x38u8, 0x3Du8] + message::value_of(fields, 8)->0 + seq![
                0x01u8,
                0x39u8,
                0x3Du8,
            ] + text::decimal(on_the_wire(body).len()) + seq![0x01u8] + on_the_wire(body);
            let sum = message::checksum(summed);
            laws::with_field(fields, tag, new_value) == summed + seq![
                0x31u8,
                0x30u8,
                0x3Du8,
                (0x30 + sum / 100) as u8,
                (0x30 + (sum / 10) % 10) as u8,
                (0x30 + sum % 10) as u8,
                0x01u8,
            ]
        }),
{
    lemma_others_of_replaced(fields, tag, new_value);
    assert(body =~= message::replaced_body(fields, tag, new_value));
    lemma_on_the_wire(body);
    assert(text::decimal(8) =~= seq![0x38u8]);
    assert(text::decimal(9) =~= seq![0x39u8]);
    assert(text::decimal(10) =~= seq![0x31u8, 0x30u8]) by {
        reveal_with_fuel(text::decimal, 2);
    }
    let begin_string = message::value_of(fields, 8)->0;
    let summed = seq![0x38u8, 0x3Du8] + begin_string + seq![0x01u8, 0x39u8, 0x3Du8]
        + text::decimal(on_the_wire(body).len()) + seq![0x01u8] + on_the_wire(body);
    assert(summed =~= message::unsummed_message(begin_string, body));
    let sum = message::checksum(summed);
    assert(laws::with_field(fields, tag, new_value) =~= summed + seq![
        0x31u8,
        0x30u8,
        0x3Du8,
        (0x30 + sum / 100) as u8,
        (0x30 + (sum / 10) % 10) as u8,
        (0x30 + sum % 10) as u8,
        0x01u8,
    ]);
}

/// The checksum of nothing is zero, that of one byte is the byte, and that of
/// two parts is the sum of theirs modulo 256. It does not depend on the order
/// of the parts.
pub proof fn law_checksum_adds_up(a: Seq<u8>, b: Seq<u8>, byte: u8)
    ensures
        message::checksum(Seq::empty()) == 0,
        message::checksum(seq![byte]) == byte,
        message::checksum(a + b) == (message::checksum(a) + message::checksum(b)) % 256,
        message::checksum(b + a) == message::checksum(a + b),
        0 <= message::checksum(a) < 256,
{
    reveal_with_fuel(message::byte_sum, 2);
    assert(seq![byte].drop_last() =~= Seq::<u8>::empty());
    lemma_byte_sum_concat(a, b);
    lemma_byte_sum_concat(b, a);
}

proof fn lemma_byte_sum_concat(a: Seq<u8>, b: Seq<u8>)
    ensures
        message::byte_sum(a + b) == message::byte_sum(a) + message::byte_sum(b),
    decreases b.len(),
{
    if b.len() == 0 {
        assert(a + b =~= a);
    } else {
        lemma_byte_sum_concat(a, b.drop_last());
        assert((a + b).drop_last() =~= a + b.drop_last());
    }
}

/// The value of a tag is that of the first field which has it; there is none
/// where no field has it.
pub proof fn law_first_value_counts(fields: Seq<Field>, tag: u32)
    ensures
        match message::value_of(fields, tag) {
            Some(value) => exists|i: int|
                0 <= i < fields.len() && #[trigger] fields[i] == (tag, value) && forall|j: int|
                    0 <= j < i ==> (#[trigger] fields[j]).0 != tag,
            None => forall|i: int| 0 <= i < fields.len() ==> (#[trigger] fields[i]).0 != tag,
        },
    decreases fields.len(),
{
    if fields.len() > 0 && fields[0].0 != tag {
        let rest = fields.skip(1);
        law_first_value_counts(rest, tag);
        if let Some(value) = message::value_of(fields, tag) {
            let i = choose|i: int|
                0 <= i < rest.len() && #[trigger] rest[i] == (tag, value) && forall|j: int|
                    0 <= j < i ==> (#[trigger] rest[j]).0 != tag;
            assert(fields[i + 1] == rest[i]);
            assert forall|j: int| 0 <= j < i + 1 implies (#[trigger] fields[j]).0 != tag by {
                if j > 0 {
                    assert(fields[j] == rest[j - 1]);
                }
            }
        } else {
            assert forall|i: int| 0 <= i < fields.len() implies (#[trigger] fields[i]).0 != tag by {
                if i > 0 {
                    assert(fields[i] == rest[i - 1]);
                }
            }
        }
    } else if fields.len() > 0 {
        assert(fields[0] == (tag, fields[0].1));
    }
}

/// Reading a message, piece by piece. What stands before the first SOH is the
/// first field: the digits before its first `=` are the tag, and everything
/// behind that is the value. An empty piece is passed over, and the last one
/// needs no SOH. A piece without `=`, or without a number that fits before it,
/// spoils the whole.
pub proof fn law_parsing_goes_piece_by_piece(
    number: Seq<u8>,
    value: Seq<u8>,
    piece: Seq<u8>,
    rest: Seq<u8>,
)
    requires
        laws::fits_in_field(number),
        laws::fits_in_field(value),
        laws::fits_in_field(piece),
        forall|i: int| 0 <= i < number.len() ==> number[i] != 0x3D,
        forall|i: int| 0 <= i < piece.len() ==> piece[i] != 0x3D,
        piece.len() > 0,
    ensures
        ({
            let field = number + seq![0x3Du8] + value;
            let tag = text::unsigned_value(number, 0xFFFF_FFFF);
            &&& message::fields_of(field + seq![0x01u8] + rest) == (match (
                tag,
                message::fields_of(rest),
            ) {
                (Some(tag), Some(fields)) => Some(seq![(tag as u32, value)] + fields),
                _ => None,
            })
            &&& message::fields_of(field) == (match tag {
                Some(tag) => Some(seq![(tag as u32, value)]),
                None => None,
            })
        }),
        message::fields_of(seq![0x01u8] + rest) == message::fields_of(rest),
        message::fields_of(Seq::empty()) == Some(Seq::<Field>::empty()),
        message::fields_of(piece + seq![0x01u8] + rest) is None,
        message::fields_of(piece) is None,
{
    reveal_with_fuel(message::fields_of, 2);
    let field = number + seq![0x3Du8] + value;
    assert forall|i: int| 0 <= i < field.len() implies field[i] != 0x01 by {
        if i < number.len() {
            assert(field[i] == number[i]);
        } else if i > number.len() {
            assert(field[i] == value[i - number.len() - 1]);
        }
    }
    text::lemma_first_index_is(field, 0x3D, number.len() as int);
    assert(field.take(number.len() as int) =~= number);
    assert(field.skip(number.len() as int + 1) =~= value);
    laws::lemma_fields_of_piece(field, rest);
    text::lemma_first_index_is(field, 0x01, field.len() as int);
    assert(field.take(field.len() as int) =~= field);
    if let Some(tag) = text::unsigned_value(number, 0xFFFF_FFFF) {
        assert(seq![(tag as u32, value)] + Seq::<Field>::empty() =~= seq![(tag as u32, value)]);
    }
    let gap = seq![0x01u8] + rest;
    text::lemma_first_index_is(gap, 0x01, 0);
    assert(gap.skip(1) =~= rest);
    text::lemma_first_index_is(piece, 0x3D, piece.len() as int);
    laws::lemma_fields_of_piece(piece, rest);
    text::lemma_first_index_is(piece, 0x01, piece.len() as int);
    assert(piece.take(piece.len() as int) =~= piece);
}

/// A message parses where there is something in it, every piece of it is a
/// field, and there is at least one. What is wrong otherwise is said in this
/// order: nothing at all, a piece that is no field, nothing but SOH.
pub proof fn law_parsing_refuses_for_three_reasons(bytes: Seq<u8>)
    ensures
        bytes.len() == 0 <==> message::parsed(bytes) == Err::<Seq<Field>, ParseError>(
            ParseError::Empty,
        ),
        message::parsed(bytes) == Err::<Seq<Field>, ParseError>(ParseError::MalformedTag)
            <==> message::fields_of(bytes) is None,
        message::parsed(bytes) == Err::<Seq<Field>, ParseError>(ParseError::MissingSoh) <==> {
            &&& bytes.len() > 0
            &&& forall|i: int| 0 <= i < bytes.len() ==> bytes[i] == 0x01
        },
        message::parsed(bytes) matches Ok(fields) ==> fields.len() > 0 && message::fields_of(bytes)
            == Some(fields),
{
    lemma_no_fields_in_separators(bytes);
    if let Some(fields) = message::fields_of(bytes) {
        assert(fields.len() == 0 ==> fields =~= Seq::<Field>::empty());
    }
}

proof fn lemma_no_fields_in_separators(bytes: Seq<u8>)
    ensures
        message::fields_of(bytes) == Some(Seq::<Field>::empty()) <==> forall|i: int|
            0 <= i < bytes.len() ==> bytes[i] == 0x01,
    decreases bytes.len(),
{
    if bytes.len() > 0 {
        text::lemma_first_index(bytes, 0x01);
        if bytes[0] == 0x01 {
            let rest = bytes.skip(1);
            text::lemma_first_index_is(bytes, 0x01, 0);
            lemma_no_fields_in_separators(rest);
            if forall|i: int| 0 <= i < rest.len() ==> rest[i] == 0x01 {
                assert forall|i: int| 0 <= i < bytes.len() implies bytes[i] == 0x01 by {
                    if i > 0 {
                        assert(bytes[i] == rest[i - 1]);
                    }
                }
            }
            if forall|i: int| 0 <= i < bytes.len() ==> bytes[i] == 0x01 {
                assert forall|i: int| 0 <= i < rest.len() implies rest[i] == 0x01 by {
                    assert(rest[i] == bytes[i + 1]);
                }
            }
        } else {
            assert(message::fields_of(bytes) matches Some(fields) ==> fields.len() > 0);
        }
    }
}

/// A checksum as text, and as bytes, is three digits that denote it: hundreds,
/// tens and ones.
pub proof fn law_checksum_is_written_in_three_digits(sum: int)
    requires
        0 <= sum < 256,
    ensures
        message::checksum_text(sum).len() == 3,
        (message::checksum_text(sum)[0] as int - 48) * 100 + (message::checksum_text(sum)[1] as int
            - 48) * 10 + (message::checksum_text(sum)[2] as int - 48) == sum,
        forall|i: int|
            0 <= i < 3 ==> {
                &&& 48 <= (#[trigger] message::checksum_text(sum)[i]) as int <= 57
                &&& message::checksum_text(sum)[i] as int == message::three_digits(sum)[i]
            },
        message::three_digits(sum).len() == 3,
{
    let t = message::checksum_text(sum);
    assert(t[0] as int == 48 + sum / 100);
    assert(t[1] as int == 48 + sum / 10 % 10);
    assert(t[2] as int == 48 + sum % 10);
    assert(sum == sum / 100 * 100 + sum / 10 % 10 * 10 + sum % 10);
}

} // verus!
