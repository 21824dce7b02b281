use blackswan::fix::{find_complete_message, ParseError, SOH};

fn reference_message() -> Vec<u8> {
    let with_pipes = "8=FIX.4.2|9=65|35=A|49=SERVER|56=CLIENT|34=177|52=20090107-18:15:16|98=0|108=30|10=062|";
    with_pipes
        .bytes()
        .map(|b| if b == b'|' { SOH } else { b })
        .collect()
}

#[test]
fn finds_exact_length_of_a_single_complete_message() {
    let msg = reference_message();
    let found = find_complete_message(&msg).unwrap().unwrap();
    assert_eq!(found, msg.len());
}

#[test]
fn finds_only_the_first_of_two_concatenated_messages() {
    let one = reference_message();
    let mut two = one.clone();
    two.extend_from_slice(&one);

    let found = find_complete_message(&two).unwrap().unwrap();
    assert_eq!(found, one.len());

    // and the remainder is itself a complete, correctly framed message
    let remainder = &two[found..];
    let found_again = find_complete_message(remainder).unwrap().unwrap();
    assert_eq!(found_again, one.len());
}

#[test]
fn returns_none_for_a_truncated_message() {
    let msg = reference_message();
    let truncated = &msg[..msg.len() - 10];
    assert_eq!(find_complete_message(truncated).unwrap(), None);
}

#[test]
fn returns_none_for_just_a_partial_begin_string() {
    assert_eq!(find_complete_message(b"8=FIX.4").unwrap(), None);
}

#[test]
fn rejects_a_buffer_not_starting_with_tag_8() {
    assert!(find_complete_message(b"35=D\x01").is_err());
}

#[test]
fn every_proper_prefix_asks_for_more_bytes() {
    let msg = reference_message();
    for cut in 0..msg.len() {
        assert_eq!(find_complete_message(&msg[..cut]), Ok(None));
    }
}

#[test]
fn a_broken_second_field_is_an_error_that_more_bytes_do_not_mend() {
    let mut broken = b"8=FIX.4.4\x0135=D\x01".to_vec();
    assert_eq!(find_complete_message(&broken), Err(ParseError::MalformedTag));
    broken.extend_from_slice(&reference_message());
    assert_eq!(find_complete_message(&broken), Err(ParseError::MalformedTag));
    let letters = b"8=FIX.4.4\x019=12x\x01";
    assert_eq!(find_complete_message(letters), Err(ParseError::MalformedTag));
}

#[test]
fn body_length_takes_a_plus_sign_and_leading_zeros() {
    let plus = b"8=A\x019=+5\x0135=D\x0110=000\x01";
    assert_eq!(find_complete_message(plus), Ok(Some(plus.len())));
    let zeros = b"8=A\x019=0005\x0135=D\x0110=000\x01";
    assert_eq!(find_complete_message(zeros), Ok(Some(zeros.len())));
}

#[test]
fn a_lone_soh_behind_begin_string_is_out_of_step() {
    let mut buf = b"8=FIX.4.4\x01\x01".to_vec();
    assert_eq!(find_complete_message(&buf), Err(ParseError::MalformedTag));
    buf.extend_from_slice(b"9=5\x01");
    assert_eq!(find_complete_message(&buf), Err(ParseError::MalformedTag));
}

#[test]
fn a_message_longer_than_any_buffer_is_never_there() {
    let endless = b"8=FIX.4.4\x019=18446744073709551615\x01";
    assert_eq!(find_complete_message(endless), Ok(None));
    // one that does not even fit in a length is malformed
    let too_long = b"8=FIX.4.4\x019=18446744073709551616\x01";
    assert_eq!(find_complete_message(too_long), Err(ParseError::MalformedTag));
}
