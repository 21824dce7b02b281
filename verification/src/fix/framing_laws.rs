//! What holds of framing as a stream grows, and of a frame that is parsed.
use vstd::prelude::*;

use crate::fix::fields::{EQUALS, SOH};
use crate::fix::framing;
use crate::fix::message;
use crate::fix::message::ParseError;
use crate::text;

verus! {

/// `whole` begins with `part`.
pub open spec fn begins_with(whole: Seq<u8>, part: Seq<u8>) -> bool {
    part.len() <= whole.len() && whole.take(part.len() as int) == part
}

proof fn lemma_first_index_in_longer(part: Seq<u8>, whole: Seq<u8>, b: u8)
    requires
        begins_with(whole, part),
    ensures
        text::first_index(part, b) < part.len() ==> text::first_index(whole, b)
            == text::first_index(part, b),
        text::first_index(part, b) == part.len() ==> text::first_index(whole, b) >= part.len(),
        0 <= text::first_index(part, b) <= part.len(),
        0 <= text::first_index(whole, b) <= whole.len(),
{
    text::lemma_first_index(part, b);
    text::lemma_first_index(whole, b);
    assert forall|i: int| 0 <= i < part.len() implies whole[i] == part[i] by {
        assert(whole.take(part.len() as int)[i] == whole[i]);
    }
    if text::first_index(part, b) < part.len() {
        text::lemma_first_index_is(whole, b, text::first_index(part, b));
    }
}

proof fn lemma_header_in_longer(part: Seq<u8>, whole: Seq<u8>)
    requires
        begins_with(whole, part),
        framing::has_first_field(part),
    ensures
        framing::has_first_field(whole),
        begins_with(framing::after_first_field(whole), framing::after_first_field(part)),
        framing::has_header(part) ==> framing::has_header(whole) && framing::header_len(whole)
            == framing::header_len(part),
        framing::has_header(part) && framing::after_first_field(part).len() >= 2
            && framing::starts_with_tag(framing::after_first_field(part), 0x39) ==>
            framing::declared_body_length(whole) == framing::declared_body_length(part),
{
    lemma_first_index_in_longer(part, whole, SOH);
    let rest = framing::after_first_field(part);
    let rest_whole = framing::after_first_field(whole);
    assert(rest_whole.take(rest.len() as int) =~= rest) by {
        assert forall|i: int| 0 <= i < rest.len() implies rest_whole[i] == rest[i] by {
            let j = text::first_index(part, SOH) + 1 + i;
            assert(whole.take(part.len() as int)[j] == part[j]);
        }
    }
    lemma_first_index_in_longer(rest, rest_whole, SOH);
    if framing::has_header(part) && framing::starts_with_tag(rest, 0x39) {
        let end = text::first_index(rest, SOH);
        text::lemma_first_index(rest, SOH);
        assert(end >= 2);
        assert forall|i: int| 2 <= i < end implies rest_whole[i] == rest[i] by {
            assert(rest_whole.take(rest.len() as int)[i] == rest[i]);
        }
        assert(rest_whole.subrange(2, end) =~= rest.subrange(2, end));
    }
}

proof fn lemma_first_two(part: Seq<u8>, whole: Seq<u8>)
    requires
        begins_with(whole, part),
        part.len() >= 2,
    ensures
        forall|tag: u8|
            #[trigger] framing::starts_with_tag(whole, tag) == framing::starts_with_tag(part, tag),
{
    assert(whole.take(part.len() as int)[0] == whole[0]);
    assert(whole.take(part.len() as int)[1] == whole[1]);
}

/// A message that is found is found again, with the same end, when more bytes
/// have come in behind it.
pub proof fn law_found_message_stays_found(buf: Seq<u8>, more: Seq<u8>)
    requires
        framing::framed(buf) matches Ok(Some(_)),
    ensures
        framing::framed(buf + more) == framing::framed(buf),
{
    let whole = buf + more;
    assert(whole.take(buf.len() as int) =~= buf);
    lemma_first_two(buf, whole);
    lemma_header_in_longer(buf, whole);
    text::lemma_first_index(framing::after_first_field(buf), SOH);
    lemma_first_two(framing::after_first_field(buf), framing::after_first_field(whole));
}

/// The end that is found lies in the buffer, and behind a header and a
/// checksum field: consuming a message always makes progress.
pub proof fn law_found_message_lies_in_buffer(buf: Seq<u8>)
    requires
        framing::framed(buf) matches Ok(Some(_)),
    ensures
        ({
            let len = framing::framed(buf)->Ok_0->0;
            &&& framing::header_len(buf) + framing::CHECKSUM_FIELD_LEN <= len <= buf.len()
            &&& framing::header_len(buf) >= 6
        }),
{
    text::lemma_first_index(buf, SOH);
    let rest = framing::after_first_field(buf);
    text::lemma_first_index(rest, SOH);
    let digits = rest.subrange(2, text::first_index(rest, SOH));
    let unsigned = if digits.len() > 0 && digits[0] == 0x2B {
        digits.skip(1)
    } else {
        digits
    };
    text::lemma_decimal_value_grows(unsigned, 0);
    assert(unsigned.take(0) =~= Seq::<u8>::empty());
}

/// A message that is found needs nothing of what stands behind it: cut off at
/// its end, it is found again.
pub proof fn law_message_is_found_alone(buf: Seq<u8>)
    requires
        framing::framed(buf) matches Ok(Some(_)),
    ensures
        ({
            let len = framing::framed(buf)->Ok_0->0;
            &&& framing::framed(buf.take(len)) == framing::framed(buf)
        }),
{
    law_found_message_lies_in_buffer(buf);
    let len = framing::framed(buf)->Ok_0->0;
    let one = buf.take(len);
    let rest = framing::after_first_field(buf);
    text::lemma_first_index(buf, SOH);
    text::lemma_first_index(rest, SOH);
    let end = text::first_index(buf, SOH);
    let rest_end = text::first_index(rest, SOH);
    text::lemma_first_index_is(one, SOH, end);
    let rest_one = framing::after_first_field(one);
    assert forall|i: int| 0 <= i < rest_one.len() implies rest_one[i] == rest[i] by {
        assert(rest_one[i] == buf[end + 1 + i]);
        assert(rest[i] == buf[end + 1 + i]);
    }
    text::lemma_first_index_is(rest_one, SOH, rest_end);
    assert(buf.take(one.len() as int) =~= one);
    lemma_first_two(one, buf);
    lemma_header_in_longer(one, buf);
    lemma_first_two(rest_one, rest);
}

/// A message cut short anywhere asks for more bytes: it is never taken for an
/// error, and never for a shorter message.
pub proof fn law_cut_message_asks_for_more(buf: Seq<u8>, cut: int)
    requires
        framing::framed(buf) matches Ok(Some(len)) && 0 <= cut < len,
    ensures
        framing::framed(buf.take(cut)) == Ok::<Option<int>, ParseError>(None),
{
    law_found_message_lies_in_buffer(buf);
    let part = buf.take(cut);
    assert(buf.take(part.len() as int) =~= part);
    if cut >= 2 {
        lemma_first_two(part, buf);
        if framing::has_first_field(part) {
            lemma_header_in_longer(part, buf);
            let rest = framing::after_first_field(part);
            let rest_buf = framing::after_first_field(buf);
            assert(rest.len() > 0 ==> rest[0] == rest_buf[0]) by {
                if rest.len() > 0 {
                    assert(rest_buf.take(rest.len() as int)[0] == rest_buf[0]);
                }
            }
            if rest.len() >= 2 {
                lemma_first_two(rest, rest_buf);
            } else {
                text::lemma_first_index(rest, SOH);
            }
        }
    }
}

/// A stream that is out of step stays so, whatever comes in behind it.
pub proof fn law_broken_stream_stays_broken(buf: Seq<u8>, more: Seq<u8>)
    requires
        framing::framed(buf) is Err,
    ensures
        framing::framed(buf + more) == framing::framed(buf),
{
    let whole = buf + more;
    assert(whole.take(buf.len() as int) =~= buf);
    lemma_first_two(buf, whole);
    if framing::starts_with_tag(buf, 0x38) {
        lemma_header_in_longer(buf, whole);
        let rest = framing::after_first_field(buf);
        let rest_whole = framing::after_first_field(whole);
        text::lemma_first_index(rest, SOH);
        if rest.len() >= 2 {
            lemma_first_two(rest, rest_whole);
        } else {
            assert(rest_whole.take(rest.len() as int)[0] == rest_whole[0]);
        }
    }
}

/// A framed message that parses has a BeginString: it is the first field.
pub proof fn law_framed_message_has_begin_string(buf: Seq<u8>)
    requires
        framing::framed(buf) matches Ok(Some(_)),
    ensures
        ({
            let len = framing::framed(buf)->Ok_0->0;
            message::parsed(buf.take(len)) matches Ok(fields) ==> {
                &&& fields[0].0 == 8
                &&& message::value_of(fields, 8) is Some
            }
        }),
{
    law_found_message_lies_in_buffer(buf);
    let len = framing::framed(buf)->Ok_0->0;
    let one = buf.take(len);
    text::lemma_first_index(buf, SOH);
    text::lemma_first_index(framing::after_first_field(buf), SOH);
    let end = text::first_index(buf, SOH);
    assert(one[end] == buf[end]);
    assert forall|i: int| 0 <= i < end implies one[i] != SOH by {
        assert(one[i] == buf[i]);
    }
    text::lemma_first_index_is(one, SOH, end);
    let piece = one.take(end);
    assert(piece[0] == 0x38 && piece[1] == EQUALS);
    text::lemma_first_index_is(piece, EQUALS, 1);
    assert(piece.take(1) =~= text::decimal(8));
    text::lemma_unsigned_of_decimal(8, u32::MAX as int);
}

/// A header that is all there decides: `8=`, a BeginString, SOH, `9=`, a number and
/// SOH. The message ends as many bytes behind it as the number says and seven
/// more, where they are all there. What is no number is an error.
pub proof fn law_whole_header_decides(begin_string: Seq<u8>, number: Seq<u8>, rest: Seq<u8>)
    requires
        forall|i: int| 0 <= i < begin_string.len() ==> begin_string[i] != 0x01,
        forall|i: int| 0 <= i < number.len() ==> number[i] != 0x01,
    ensures
        framing::framed(
            seq![0x38u8, 0x3Du8] + begin_string + seq![0x01u8, 0x39u8, 0x3Du8] + number + seq![
                0x01u8,
            ] + rest,
        ) == (match text::unsigned_value(number, usize::MAX as int) {
            None => Err::<Option<int>, ParseError>(ParseError::MalformedTag),
            Some(length) => Ok(
                if rest.len() < length + 7 {
                    None
                } else {
                    Some(begin_string.len() + number.len() + 6 + length + 7)
                },
            ),
        }),
{
    let buf = seq![0x38u8, 0x3Du8] + begin_string + seq![0x01u8, 0x39u8, 0x3Du8] + number + seq![
        0x01u8,
    ] + rest;
    let end = 2 + begin_string.len() as int;
    assert forall|i: int| 0 <= i < end implies buf[i] != 0x01 by {
        if i >= 2 {
            assert(buf[i] == begin_string[i - 2]);
        }
    }
    text::lemma_first_index_is(buf, 0x01, end);
    let tail = seq![0x39u8, 0x3Du8] + number + seq![0x01u8] + rest;
    assert(framing::after_first_field(buf) =~= tail);
    assert forall|i: int| 0 <= i < 2 + number.len() implies tail[i] != 0x01 by {
        if i >= 2 {
            assert(tail[i] == number[i - 2]);
        }
    }
    text::lemma_first_index_is(tail, 0x01, 2 + number.len() as int);
    assert(tail.subrange(2, 2 + number.len() as int) =~= number);
}

/// A header that is not all there asks for more bytes, as long as what is there
/// can be the start of one.
pub proof fn law_unfinished_header_asks_for_more(
    begin_string: Seq<u8>,
    number: Seq<u8>,
    byte: u8,
)
    requires
        forall|i: int| 0 <= i < begin_string.len() ==> begin_string[i] != 0x01,
        forall|i: int| 0 <= i < number.len() ==> number[i] != 0x01,
        byte != 0x01,
    ensures
        ({
            let more = Ok::<Option<int>, ParseError>(None);
            let first = seq![0x38u8, 0x3Du8] + begin_string;
            &&& framing::framed(Seq::empty()) == more
            &&& framing::framed(seq![byte]) == more
            &&& framing::framed(seq![0x01u8]) == more
            &&& framing::framed(first) == more
            &&& framing::framed(first + seq![0x01u8]) == more
            &&& framing::framed(first + seq![0x01u8, byte]) == more
            &&& framing::framed(first + seq![0x01u8, 0x39u8, 0x3Du8] + number) == more
        }),
{
    let first = seq![0x38u8, 0x3Du8] + begin_string;
    assert forall|i: int| 0 <= i < first.len() implies first[i] != 0x01 by {
        if i >= 2 {
            assert(first[i] == begin_string[i - 2]);
        }
    }
    text::lemma_first_index_is(first, 0x01, first.len() as int);
    let ended = first + seq![0x01u8];
    text::lemma_first_index_is(ended, 0x01, first.len() as int);
    assert(framing::after_first_field(ended) =~= Seq::<u8>::empty());
    let begun = first + seq![0x01u8, byte];
    text::lemma_first_index_is(begun, 0x01, first.len() as int);
    assert(framing::after_first_field(begun) =~= seq![byte]);
    text::lemma_first_index_is(seq![byte], 0x01, 1);
    let open = first + seq![0x01u8, 0x39u8, 0x3Du8] + number;
    text::lemma_first_index_is(open, 0x01, first.len() as int);
    let tail = seq![0x39u8, 0x3Du8] + number;
    assert(framing::after_first_field(open) =~= tail);
    assert forall|i: int| 0 <= i < tail.len() implies tail[i] != 0x01 by {
        if i >= 2 {
            assert(tail[i] == number[i - 2]);
        }
    }
    text::lemma_first_index_is(tail, 0x01, tail.len() as int);
}

/// What does not start with `8=`, or goes on behind its first field with
/// anything but `9=`, is no message.
pub proof fn law_out_of_step_is_an_error(buf: Seq<u8>, begin_string: Seq<u8>, rest: Seq<u8>)
    requires
        forall|i: int| 0 <= i < begin_string.len() ==> begin_string[i] != 0x01,
    ensures
        buf.len() >= 2 && (buf[0] != 0x38 || buf[1] != 0x3D) ==> framing::framed(buf) == Err::<
            Option<int>,
            ParseError,
        >(ParseError::MalformedTag),
        rest.len() >= 2 && (rest[0] != 0x39 || rest[1] != 0x3D) || rest == seq![0x01u8]
            ==> framing::framed(seq![0x38u8, 0x3Du8] + begin_string + seq![0x01u8] + rest) == Err::<
            Option<int>,
            ParseError,
        >(ParseError::MalformedTag),
{
    let whole = seq![0x38u8, 0x3Du8] + begin_string + seq![0x01u8] + rest;
    let end = 2 + begin_string.len() as int;
    assert forall|i: int| 0 <= i < end implies whole[i] != 0x01 by {
        if i >= 2 {
            assert(whole[i] == begin_string[i - 2]);
        }
    }
    text::lemma_first_index_is(whole, 0x01, end);
    assert(framing::after_first_field(whole) =~= rest);
}

} // verus!
