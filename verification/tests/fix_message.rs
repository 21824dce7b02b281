use blackswan::fix::{
    compute_checksum, find_complete_message, format_checksum, parse, set_field, ParseError, SOH,
};

fn reference_message() -> Vec<u8> {
    let with_pipes = "8=FIX.4.2|9=65|35=A|49=SERVER|56=CLIENT|34=177|52=20090107-18:15:16|98=0|108=30|10=062|";
    with_pipes
        .bytes()
        .map(|b| if b == b'|' { SOH } else { b })
        .collect()
}

#[test]
fn parses_reference_message_fields() {
    let raw = reference_message();
    let msg = parse(&raw).unwrap();
    assert!(msg.is(8, b"FIX.4.2"));
    assert!(msg.is(9, b"65"));
    assert!(msg.is(35, b"A"));
    assert!(msg.is(49, b"SERVER"));
    assert!(msg.is(56, b"CLIENT"));
    assert!(msg.is(10, b"062"));
}

#[test]
fn checksum_matches_the_known_correct_value() {
    let full = reference_message();
    // everything up to and including the SOH right before "10="
    let checksum_field_start = full
        .windows(4)
        .rposition(|w| w == [SOH, b'1', b'0', b'='])
        .unwrap()
        + 1;
    let sum = compute_checksum(&full[..checksum_field_start]);
    assert_eq!(format_checksum(sum), "062");
}

#[test]
fn rejects_empty_input() {
    assert_eq!(parse(&[]).unwrap_err(), ParseError::Empty);
}

#[test]
fn rejects_field_without_equals() {
    let bad = b"35D\x01".to_vec();
    assert_eq!(parse(&bad).unwrap_err(), ParseError::MalformedTag);
}

#[test]
fn set_field_replaces_the_value_and_recomputes_length_and_checksum() {
    let body = "35=8\x0139=1\x01150=F\x0144=100.50\x01";
    let header = format!("8=FIX.4.4\x019={}\x01", body.len());
    let mut original = format!("{header}{body}").into_bytes();
    let sum = compute_checksum(&original);
    original.extend_from_slice(format!("10={sum:03}\x01").as_bytes());

    let mutated = set_field(&original, 44, b"999.99").unwrap();
    let reparsed = parse(&mutated).unwrap();

    assert!(reparsed.is(44, b"999.99"));
    // everything else untouched
    assert!(reparsed.is(35, b"8"));
    assert!(reparsed.is(39, b"1"));
    assert!(reparsed.is(150, b"F"));
    assert!(reparsed.is(8, b"FIX.4.4"));

    // BodyLength and CheckSum belong to the new bytes, worked out here
    // independently
    let tag9_value = reparsed.get(9).unwrap();
    let declared_body_len: usize = std::str::from_utf8(tag9_value).unwrap().parse().unwrap();
    let first_soh = mutated.iter().position(|&b| b == SOH).unwrap();
    let second_soh =
        first_soh + 1 + mutated[first_soh + 1..].iter().position(|&b| b == SOH).unwrap();
    let header_len = second_soh + 1;
    let checksum_field_start = mutated
        .windows(4)
        .rposition(|w| w == [SOH, b'1', b'0', b'='])
        .unwrap()
        + 1;
    assert_eq!(declared_body_len, checksum_field_start - header_len);

    let expected_checksum = compute_checksum(&mutated[..checksum_field_start]);
    assert!(reparsed.is(10, format_checksum(expected_checksum).as_bytes()));
}

#[test]
fn set_field_on_a_tag_not_present_leaves_the_message_otherwise_valid() {
    let original = reference_message();
    // tag 999 isn't in the reference message at all
    let mutated = set_field(&original, 999, b"whatever").unwrap();
    let reparsed = parse(&mutated).unwrap();
    assert!(reparsed.get(999).is_none());
    assert!(reparsed.is(35, b"A")); // original fields still intact
}

#[test]
fn only_soh_is_no_message() {
    assert_eq!(parse(&[SOH, SOH]).unwrap_err(), ParseError::MissingSoh);
}

#[test]
fn tags_are_numbers_of_thirty_two_bits() {
    assert!(parse(b"+35=D\x01").unwrap().is(35, b"D"));
    assert!(parse(b"035=D\x01").unwrap().is(35, b"D"));
    assert!(parse(b"4294967295=x").unwrap().is(4294967295, b"x"));
    assert_eq!(parse(b"4294967296=x\x01").unwrap_err(), ParseError::MalformedTag);
    assert_eq!(parse(b"=x\x01").unwrap_err(), ParseError::MalformedTag);
    assert_eq!(parse(b"-1=x\x01").unwrap_err(), ParseError::MalformedTag);
    assert_eq!(parse(b"+=x\x01").unwrap_err(), ParseError::MalformedTag);
}

#[test]
fn the_first_value_of_a_tag_counts_and_may_hold_equals_signs() {
    let msg_bytes = b"58=a=b\x01\x0158=c\x01";
    let msg = parse(msg_bytes).unwrap();
    assert_eq!(msg.get(58), Some(&b"a=b"[..]));
    assert!(!msg.is(58, b"c"));
    assert_eq!(msg.get(1), None);
}

#[test]
fn checksums_have_three_digits() {
    assert_eq!(format_checksum(0), "000");
    assert_eq!(format_checksum(7), "007");
    assert_eq!(format_checksum(62), "062");
    assert_eq!(format_checksum(255), "255");
    assert_eq!(compute_checksum(&[255, 2]), 1);
    assert_eq!(compute_checksum(&[]), 0);
}

#[test]
fn set_field_with_the_old_value_gives_the_message_back() {
    let original = reference_message();
    assert_eq!(set_field(&original, 49, b"SERVER").unwrap(), original);
}

#[test]
fn the_last_of_two_set_fields_wins_and_the_result_is_one_frame() {
    let original = reference_message();
    let once = set_field(&original, 56, b"SOMEBODY-ELSE").unwrap();
    let twice = set_field(&once, 56, b"C").unwrap();
    assert_eq!(twice, set_field(&original, 56, b"C").unwrap());
    assert_eq!(find_complete_message(&once), Ok(Some(once.len())));
    assert_eq!(find_complete_message(&twice), Ok(Some(twice.len())));
}

#[test]
fn structural_tags_cannot_be_set() {
    let original = reference_message();
    assert_eq!(set_field(&original, 9, b"1").unwrap(), original);
    assert_eq!(set_field(&original, 8, b"FIX.9").unwrap(), original);
    assert_eq!(set_field(b"no-equals\x01", 44, b"1"), Err(ParseError::MalformedTag));
    assert_eq!(set_field(b"", 44, b"1"), Err(ParseError::Empty));
}
