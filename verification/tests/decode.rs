use frogment::dns::{DnsError, QName};

const HEADER: [u8; 12] = [0x12, 0x34, 0x01, 0x00, 0x00, 0x01, 0x00, 0x00, 0x00, 0x00, 0x00, 0x00];

fn message(after_header: &[u8]) -> Vec<u8> {
    let mut bytes = HEADER.to_vec();
    bytes.extend_from_slice(after_header);
    bytes
}

fn error_of(bytes: &[u8]) -> DnsError {
    match QName::from_bytes(bytes) {
        Ok(q) => panic!("decoded {:?}", q),
        Err(e) => e,
    }
}

#[test]
fn decodes_two_labels() {
    let bytes = message(b"\x07example\x03com\x00\x00\x01\x00\x01");
    let q = QName::from_bytes(&bytes).unwrap();
    assert_eq!(q.start, 12);
    assert_eq!(q.end, 25);
    assert_eq!(q.name, "example.com");
    assert!(!q.compressed);
}

#[test]
fn decodes_a_single_label_without_a_dot() {
    let bytes = message(b"\x09localhost\x00");
    let q = QName::from_bytes(&bytes).unwrap();
    assert_eq!(q.name, "localhost");
    assert_eq!(q.end, 23);
    assert_eq!(q.end, bytes.len());
}

#[test]
fn decodes_many_labels() {
    let bytes = message(b"\x01a\x02bc\x03def\x01g\x00\xff\xff");
    let q = QName::from_bytes(&bytes).unwrap();
    assert_eq!(q.name, "a.bc.def.g");
    assert_eq!(q.start, 12);
    assert_eq!(q.end, 12 + 2 + 3 + 4 + 2 + 1);
    assert!(!q.compressed);
}

#[test]
fn root_name_is_empty() {
    let bytes = message(b"\x00\x00\x01\x00\x01");
    let q = QName::from_bytes(&bytes).unwrap();
    assert_eq!(q.name, "");
    assert_eq!(q.start, 12);
    assert_eq!(q.end, 13);
    assert!(!q.compressed);
}

#[test]
fn longest_label_is_accepted() {
    let mut after = vec![63u8];
    after.extend(std::iter::repeat(b'x').take(63));
    after.push(0);
    let bytes = message(&after);
    let q = QName::from_bytes(&bytes).unwrap();
    assert_eq!(q.name, "x".repeat(63));
    assert_eq!(q.end, 12 + 64 + 1);
}

#[test]
fn label_text_is_decoded_as_utf8() {
    // "é" is C3 A9, "日本" is E6 97 A5 E6 9C AC, U+1F600 is F0 9F 98 80.
    let bytes = message(b"\x02\xc3\xa9\x06\xe6\x97\xa5\xe6\x9c\xac\x04\xf0\x9f\x98\x80\x00");
    let q = QName::from_bytes(&bytes).unwrap();
    assert_eq!(q.name, "\u{e9}.\u{65e5}\u{672c}.\u{1f600}");
    assert_eq!(q.name.chars().count(), 1 + 1 + 2 + 1 + 1);
    assert_eq!(q.end, bytes.len());
}

#[test]
fn a_dot_inside_a_label_is_kept() {
    let bytes = message(b"\x03a.b\x01c\x00");
    let q = QName::from_bytes(&bytes).unwrap();
    assert_eq!(q.name, "a.b.c");
}

#[test]
fn pointer_ends_the_name_without_being_consumed() {
    let bytes = message(b"\x03www\xc0\x20\x00\x01\x00\x01");
    let q = QName::from_bytes(&bytes).unwrap();
    assert_eq!(q.name, "www");
    assert_eq!(q.start, 12);
    assert_eq!(q.end, 16);
    assert_eq!(bytes[q.end], 0xc0);
    assert!(q.compressed);
}

#[test]
fn pointer_right_after_the_header() {
    let bytes = message(b"\xc0\x0c");
    let q = QName::from_bytes(&bytes).unwrap();
    assert_eq!(q.name, "");
    assert_eq!(q.end, 12);
    assert!(q.compressed);
}

#[test]
fn pointer_byte_alone_at_the_end_still_ends_the_name() {
    let bytes = message(b"\x01a\xff");
    let q = QName::from_bytes(&bytes).unwrap();
    assert_eq!(q.name, "a");
    assert_eq!(q.end, 14);
    assert!(q.compressed);
}

#[test]
fn every_byte_from_192_up_is_a_pointer() {
    for b in 192u8..=255 {
        let bytes = message(&[b, 0]);
        let q = QName::from_bytes(&bytes).unwrap();
        assert!(q.compressed, "byte {}", b);
        assert_eq!(q.end, 12);
    }
}

#[test]
fn shorter_than_the_header_is_too_small() {
    for len in 0..12 {
        let bytes = vec![0u8; len];
        assert_eq!(error_of(&bytes), DnsError::MessageTooSmall, "length {}", len);
    }
}

#[test]
fn too_small_wins_over_what_the_bytes_hold() {
    assert_eq!(error_of(&[0xff; 11]), DnsError::MessageTooSmall);
    assert_eq!(error_of(&[]), DnsError::MessageTooSmall);
}

#[test]
fn header_alone_is_out_of_bounds() {
    assert_eq!(error_of(&HEADER), DnsError::OutOfBounds);
}

#[test]
fn missing_terminator_is_out_of_bounds() {
    assert_eq!(error_of(&message(b"\x03www")), DnsError::OutOfBounds);
    assert_eq!(error_of(&message(b"\x03www\x03com")), DnsError::OutOfBounds);
}

#[test]
fn label_body_beyond_the_end_is_out_of_bounds() {
    assert_eq!(error_of(&message(b"\x05abcd")), DnsError::OutOfBounds);
    assert_eq!(error_of(&message(b"\x01")), DnsError::OutOfBounds);
    assert_eq!(error_of(&message(b"\x03www\x3fcom")), DnsError::OutOfBounds);
}

#[test]
fn label_that_ends_with_the_buffer_needs_a_terminator() {
    // The body fits exactly; the read of the next length byte is what fails.
    assert_eq!(error_of(&message(b"\x04abcd")), DnsError::OutOfBounds);
}

#[test]
fn length_64_is_invalid() {
    let mut after = vec![64u8];
    after.extend(std::iter::repeat(b'a').take(64));
    after.push(0);
    assert_eq!(error_of(&message(&after)), DnsError::InvalidLabelLength);
}

#[test]
fn length_64_is_invalid_even_without_a_body() {
    assert_eq!(error_of(&message(&[0b0100_0000])), DnsError::InvalidLabelLength);
}

#[test]
fn length_64_after_good_labels_is_invalid() {
    assert_eq!(error_of(&message(b"\x03www\x07example\x40")), DnsError::InvalidLabelLength);
}

#[test]
fn every_length_from_64_to_191_is_invalid() {
    for b in 64u8..192 {
        assert_eq!(error_of(&message(&[b, 0, 0])), DnsError::InvalidLabelLength, "byte {}", b);
    }
}

#[test]
fn lengths_up_to_63_are_not_invalid() {
    for b in 1u8..=63 {
        // No body follows, so the label is out of bounds, not of invalid length.
        assert_eq!(error_of(&message(&[b])), DnsError::OutOfBounds, "byte {}", b);
    }
}

#[test]
fn invalid_utf8_in_a_label_is_refused() {
    assert_eq!(error_of(&message(b"\x02\xff\xfe\x00")), DnsError::InvalidLabelEncoding);
    // A lone continuation byte.
    assert_eq!(error_of(&message(b"\x01\x80\x00")), DnsError::InvalidLabelEncoding);
    // A sequence cut off by the end of the label.
    assert_eq!(error_of(&message(b"\x01\xc3\x01\xa9\x00")), DnsError::InvalidLabelEncoding);
    // An overlong encoding of '/'.
    assert_eq!(error_of(&message(b"\x02\xc0\xaf\x00")), DnsError::InvalidLabelEncoding);
    // A surrogate.
    assert_eq!(error_of(&message(b"\x03\xed\xa0\x80\x00")), DnsError::InvalidLabelEncoding);
    // Beyond U+10FFFF.
    assert_eq!(error_of(&message(b"\x04\xf4\x90\x80\x80\x00")), DnsError::InvalidLabelEncoding);
}

#[test]
fn invalid_utf8_after_good_labels_is_refused() {
    assert_eq!(error_of(&message(b"\x03www\x01\xff\x00")), DnsError::InvalidLabelEncoding);
}

#[test]
fn the_first_error_on_the_way_is_reported() {
    // A bad label comes before the invalid length byte.
    assert_eq!(error_of(&message(b"\x01\xff\x40")), DnsError::InvalidLabelEncoding);
    // The invalid length byte comes before the bad label.
    assert_eq!(error_of(&message(b"\x01a\x40\x01\xff")), DnsError::InvalidLabelLength);
    // Bounds are checked before the label's text.
    assert_eq!(error_of(&message(b"\x03\xff\xff")), DnsError::OutOfBounds);
}

#[test]
fn decoding_leaves_the_input_alone() {
    let bytes = message(b"\x07example\x03com\x00\x00\x01\x00\x01");
    let copy = bytes.clone();
    let _ = QName::from_bytes(&bytes);
    assert_eq!(bytes, copy);
}

#[test]
fn default_descriptor_is_empty() {
    let q = QName::default();
    assert_eq!(q.start, 0);
    assert_eq!(q.end, 0);
    assert_eq!(q.name, "");
    assert!(!q.compressed);
}

#[test]
fn messages_name_the_failure() {
    assert_eq!(DnsError::MessageTooSmall.message(), "packet too small");
    assert_eq!(DnsError::OutOfBounds.message(), "out of bounds");
    assert_eq!(DnsError::InvalidLabelLength.message(), "invalid label length");
    assert_eq!(DnsError::InvalidLabelEncoding.message(), "unexpected char in label");
    assert_eq!(DnsError::AlreadyFragmented.message(), "qname already compressed");
    assert_eq!(DnsError::OffsetOverflow.message(), "qname offset does not fit in a pointer");
    assert_eq!(DnsError::BindFailure.message(), "failed to bind the listening socket");
    assert_eq!(DnsError::UpstreamIOFailure.message(), "upstream exchange failed");
    assert_eq!(DnsError::ClientIOFailure.message(), "failed to reply to the client");
}
