use dns_forwarder::errors::DnsError;
use dns_forwarder::message::labels::pointer::DomainPointer;
use dns_forwarder::message::labels::Labels;

fn name(labels: &[&str]) -> Labels {
    Labels(labels.iter().map(|label| label.to_string()).collect())
}

#[test]
fn unpack_0() {
    let raw = b"\x06google\x03com\x00";
    let labels = Labels::unpack(raw, &mut 0).unwrap();
    assert_eq!(raw.len(), labels.len());
    assert_eq!(labels.0, vec!["google", "com"]);
}

#[test]
fn labels_unpack() {
    let raw = b"\x00\x01\x02\x03\x06google\x03com\x00";
    let ptr = 4;
    let labels = Labels::unpack(raw, &mut ptr.clone()).unwrap();
    assert_eq!(raw.len() - ptr, labels.len());
    assert_eq!(labels.0, vec!["google", "com"]);
}

#[test]
fn unpack_invalid_domain_encoding() {
    let raw = b"\x06google\x03com";
    let labels = Labels::unpack(raw, &mut 0);
    assert_eq!(
        DnsError::InvalidEncoding { at: 11 }.to_string(),
        labels.unwrap_err().to_string()
    );
}

#[test]
fn labels_pack() {
    let raw = b"\x06google\x03com\x00";
    let labels = Labels::unpack(raw, &mut 0).unwrap();
    let mut buf = vec![0u8; raw.len()];
    labels.pack(&mut buf).unwrap();
    assert_eq!(raw, &buf[..]);
}

#[test]
fn labels_pack_invalid_input() {
    let raw = b"\x06google\x03com\x00";
    let labels = Labels::unpack(raw, &mut 0).unwrap();
    let mut buf = vec![0u8; raw.len() - 1];
    assert_eq!(
        labels.pack(&mut buf).unwrap_err().to_string(),
        DnsError::BufLenNotEq {
            exp: raw.len(),
            act: raw.len() - 1
        }
        .to_string(),
    );
}

#[test]
fn unpack_moves_the_cursor_behind_the_terminator() {
    let raw = b"\x00\x01\x02\x03\x06google\x03com\x00\xAA\xBB";
    let mut ptr = 4;
    let labels = Labels::unpack(raw, &mut ptr).unwrap();
    assert_eq!(labels.len(), 12);
    assert_eq!(ptr, 16);
}

#[test]
fn unpack_truncated_name_is_an_error_value() {
    let raw = b"\x06google\x03com";
    let mut ptr = 0;
    assert_eq!(
        Labels::unpack(raw, &mut ptr).unwrap_err(),
        DnsError::InvalidEncoding { at: 11 }
    );
    assert_eq!(ptr, 7);
}

#[test]
fn unpack_label_that_overruns_the_buffer() {
    let raw = b"\x06goo";
    let mut ptr = 0;
    assert_eq!(
        Labels::unpack(raw, &mut ptr).unwrap_err(),
        DnsError::InvalidEncoding { at: 7 }
    );
    assert_eq!(ptr, 0);
}

#[test]
fn unpack_empty_buffer() {
    let raw: [u8; 0] = [];
    let mut ptr = 0;
    assert_eq!(
        Labels::unpack(&raw, &mut ptr).unwrap_err(),
        DnsError::InvalidEncoding { at: 0 }
    );
    assert_eq!(ptr, 0);
}

#[test]
fn unpack_cursor_beyond_the_buffer() {
    let raw = b"\x03com\x00";
    let mut ptr = 9;
    assert_eq!(
        Labels::unpack(raw, &mut ptr).unwrap_err(),
        DnsError::InvalidEncoding { at: 9 }
    );
    assert_eq!(ptr, 9);
}

#[test]
fn unpack_root_name() {
    let raw = b"\x00";
    let mut ptr = 0;
    let labels = Labels::unpack(raw, &mut ptr).unwrap();
    assert!(labels.0.is_empty());
    assert_eq!(labels.len(), 1);
    assert_eq!(labels.to_string(), "");
    assert_eq!(ptr, 1);
}

#[test]
fn unpack_follows_a_pointer_and_stops_behind_it() {
    let raw = b"\x03com\x00\x06google\xC0\x00\xFF";
    let mut ptr = 5;
    let labels = Labels::unpack(raw, &mut ptr).unwrap();
    assert_eq!(labels.0, vec!["google", "com"]);
    assert_eq!(ptr, 14);
}

#[test]
fn unpack_follows_a_chain_of_pointers() {
    // 0: "b" then pointer to 6; 4: padding; 6: "c" end; 9: "a" then pointer to 0
    let raw = b"\x01b\xC0\x06\xEE\xEE\x01c\x00\x01a\xC0\x00";
    let mut ptr = 9;
    let labels = Labels::unpack(raw, &mut ptr).unwrap();
    assert_eq!(labels.to_string(), "a.b.c");
    assert_eq!(ptr, 13);
}

#[test]
fn unpack_follows_a_forward_pointer() {
    let raw = b"\xC0\x03\xEE\x03org\x00";
    let mut ptr = 0;
    let labels = Labels::unpack(raw, &mut ptr).unwrap();
    assert_eq!(labels.0, vec!["org"]);
    assert_eq!(ptr, 2);
}

#[test]
fn unpack_pointer_uses_fourteen_bits() {
    let mut raw = vec![0u8; 0x0105];
    raw[0x0102] = 0x01;
    raw[0x0103] = b'x';
    raw[0x0104] = 0x00;
    raw[0] = 0xC1;
    raw[1] = 0x02;
    let mut ptr = 0;
    let labels = Labels::unpack(&raw, &mut ptr).unwrap();
    assert_eq!(labels.0, vec!["x"]);
    assert_eq!(ptr, 2);
}

#[test]
fn unpack_pointer_to_itself_fails() {
    let raw = b"\xC0\x00";
    let mut ptr = 0;
    assert_eq!(
        Labels::unpack(raw, &mut ptr).unwrap_err(),
        DnsError::InvalidEncoding { at: 0 }
    );
    assert_eq!(ptr, 2);
}

#[test]
fn unpack_pointer_cycle_fails() {
    let raw = b"\x01a\xC0\x04\x01b\xC0\x00";
    let mut ptr = 0;
    assert!(matches!(
        Labels::unpack(raw, &mut ptr),
        Err(DnsError::InvalidEncoding { .. })
    ));
    assert_eq!(ptr, 4);
}

#[test]
fn unpack_pointer_cut_short() {
    let raw = b"\x03com\xC0";
    let mut ptr = 0;
    assert_eq!(
        Labels::unpack(raw, &mut ptr).unwrap_err(),
        DnsError::BufLenSmall { min: 6, act: 5 }
    );
    assert_eq!(ptr, 4);
}

#[test]
fn unpack_pointer_beyond_the_buffer() {
    let raw = b"\xC0\x20";
    let mut ptr = 0;
    assert_eq!(
        Labels::unpack(raw, &mut ptr).unwrap_err(),
        DnsError::InvalidEncoding { at: 0x20 }
    );
    assert_eq!(ptr, 2);
}

#[test]
fn unpack_replaces_bytes_that_are_not_text() {
    let raw = b"\x03a\xFFb\x00";
    let labels = Labels::unpack(raw, &mut 0).unwrap();
    assert_eq!(labels.0, vec!["a\u{FFFD}b"]);
    assert_eq!(labels.len(), 7);
}

#[test]
fn unpack_keeps_text_beyond_ascii() {
    let raw = b"\x06m\xC3\xBCnze\x00";
    let labels = Labels::unpack(raw, &mut 0).unwrap();
    assert_eq!(labels.0, vec!["m\u{FC}nze"]);
    assert_eq!(labels.len(), raw.len());
}

#[test]
fn scan_appends_to_the_words_it_is_given() {
    let raw = b"\x03www\x07example\x00";
    let mut words = vec!["first".to_string()];
    let mut ptr = 0;
    Labels::scan(&mut words, raw, &mut ptr).unwrap();
    assert_eq!(words, vec!["first", "www", "example"]);
    assert_eq!(ptr, 13);
}

#[test]
fn scan_keeps_the_words_read_before_a_failure() {
    let raw = b"\x03www\x07exam";
    let mut words = Vec::new();
    let mut ptr = 0;
    assert_eq!(
        Labels::scan(&mut words, raw, &mut ptr).unwrap_err(),
        DnsError::InvalidEncoding { at: 12 }
    );
    assert_eq!(words, vec!["www"]);
    assert_eq!(ptr, 4);
}

#[test]
fn len_counts_a_byte_per_label_and_the_terminator() {
    assert_eq!(name(&[]).len(), 1);
    assert_eq!(name(&["a"]).len(), 3);
    assert_eq!(name(&["google", "com"]).len(), 12);
    assert_eq!(name(&["m\u{FC}nze", "de"]).len(), 11);
    assert_eq!(name(&["google", "com"]).checked_len(), Some(12));
}

#[test]
fn pack_writes_every_label_behind_its_length() {
    let labels = name(&["www", "example", "org"]);
    let mut buf = vec![0xEEu8; labels.len()];
    labels.pack(&mut buf).unwrap();
    assert_eq!(&buf[..], b"\x03www\x07example\x03org\x00");
}

#[test]
fn pack_refuses_a_longer_buffer_and_leaves_it_alone() {
    let labels = name(&["google", "com"]);
    let mut buf = vec![0xEEu8; 13];
    assert_eq!(
        labels.pack(&mut buf).unwrap_err(),
        DnsError::BufLenNotEq { exp: 12, act: 13 }
    );
    assert_eq!(buf, vec![0xEEu8; 13]);
}

#[test]
fn pack_then_unpack_gives_the_name_back() {
    let labels = name(&["a", "quite-long-label-of-thirty-bytes", "m\u{FC}nze", "x"]);
    let mut buf = vec![0u8; labels.len()];
    labels.pack(&mut buf).unwrap();
    let mut ptr = 0;
    let back = Labels::unpack(&buf, &mut ptr).unwrap();
    assert_eq!(back, labels);
    assert_eq!(ptr, buf.len());
}

#[test]
fn pack_then_unpack_with_the_longest_plain_label() {
    let labels = name(&["x".repeat(191).as_str(), "y"]);
    let mut buf = vec![0u8; labels.len()];
    labels.pack(&mut buf).unwrap();
    assert_eq!(buf[0], 191);
    let back = Labels::unpack(&buf, &mut 0).unwrap();
    assert_eq!(back, labels);
}

#[test]
fn pack_writes_only_the_low_byte_of_a_long_length() {
    let labels = name(&["z".repeat(258).as_str()]);
    assert_eq!(labels.len(), 260);
    let mut buf = vec![0xEEu8; 260];
    labels.pack(&mut buf).unwrap();
    assert_eq!(buf[0], 2);
    assert_eq!(&buf[1..259], "z".repeat(258).as_bytes());
    assert_eq!(buf[259], 0);
}

#[test]
fn to_string_joins_the_labels_by_dots() {
    assert_eq!(name(&["google", "com"]).to_string(), "google.com");
    assert_eq!(name(&["localhost"]).to_string(), "localhost");
    assert_eq!(name(&["a", "", "b"]).to_string(), "a..b");
}

#[test]
fn clone_is_equal() {
    let labels = name(&["google", "com"]);
    assert_eq!(labels.clone(), labels);
}

#[test]
fn pointer_test_looks_at_the_top_two_bits() {
    assert!(DomainPointer::test(0xC0));
    assert!(DomainPointer::test(0xFF));
    assert!(!DomainPointer::test(0xBF));
    assert!(!DomainPointer::test(0x80));
    assert!(!DomainPointer::test(0x40));
    assert!(!DomainPointer::test(0x00));
}

#[test]
fn pointer_try_from_reads_the_offset_and_advances() {
    let raw = b"\x00\xFF\xFE";
    let mut at = 1;
    let pointer = DomainPointer::try_from(raw, &mut at).unwrap();
    assert_eq!(pointer.0, 0x3FFE);
    assert_eq!(at, 3);
}

#[test]
fn pointer_try_from_needs_two_bytes() {
    let raw = b"\x00\xC0";
    let mut at = 1;
    assert_eq!(
        DomainPointer::try_from(raw, &mut at).err(),
        Some(DnsError::BufLenSmall { min: 3, act: 2 })
    );
    assert_eq!(at, 1);
    let mut far = usize::MAX;
    assert_eq!(
        DomainPointer::try_from(raw, &mut far).err(),
        Some(DnsError::BufLenSmall { min: usize::MAX, act: 2 })
    );
}

#[test]
fn scan_reads_the_label_after_which_the_buffer_ends() {
    let raw = b"\x03www\x03com";
    let mut words = Vec::new();
    let mut ptr = 0;
    assert_eq!(
        Labels::scan(&mut words, raw, &mut ptr).unwrap_err(),
        DnsError::InvalidEncoding { at: 8 }
    );
    assert_eq!(words, vec!["www", "com"]);
    assert_eq!(ptr, 4);

    let mut ptr = 0;
    assert_eq!(
        Labels::unpack(raw, &mut ptr).unwrap_err(),
        DnsError::InvalidEncoding { at: 8 }
    );
    assert_eq!(ptr, 4);
}

#[test]
fn scan_does_not_read_a_label_that_does_not_fit() {
    let raw = b"\x03www\x03co";
    let mut words = Vec::new();
    let mut ptr = 0;
    assert_eq!(
        Labels::scan(&mut words, raw, &mut ptr).unwrap_err(),
        DnsError::InvalidEncoding { at: 8 }
    );
    assert_eq!(words, vec!["www"]);
    assert_eq!(ptr, 4);
}
