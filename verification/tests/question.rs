use dns_forwarder::errors::DnsError;
use dns_forwarder::message::labels::Labels;
use dns_forwarder::message::question::Question;
use dns_forwarder::message::rr;

#[test]
fn question_unpack() {
    let raw = b"\x06google\x03com\x00\x00\x01\x00\x01";
    let question = Question::unpack(raw, &mut 0).unwrap();
    assert_eq!(raw.len(), question.len());
    assert_eq!(rr::Type::A, question.qtype);
    assert_eq!(rr::Class::In, question.qclass);
}

#[test]
fn unpack_with_pointer() {
    let default_metadata = b"\x00\x01\x00\x01";
    // F.ISI.ARPA, FOO.F.ISI.ARPA, ARPA
    // 1. a sequence of labels ending in a zero octet
    let raw_0 = b"\x01F\x03ISI\x04ARPA\x00";
    // 0xC0 == 0b1100_0000
    // 2. a sequence of labels ending with a pointer
    let raw_1 = b"\x03FOO\xC0\x00";
    // 0x06 bytes is offset to ARPA in raw_0
    // 3. a pointer
    let raw_2 = b"\xC0\x06";
    let raw = [
        &raw_0[..],
        &default_metadata[..],
        &raw_1[..],
        &default_metadata[..],
        &raw_2[..],
        &default_metadata[..],
    ]
    .concat();

    let mut ptr = 0;

    let question_0 = Question::unpack(&raw, &mut ptr).unwrap();
    assert_eq!("F.ISI.ARPA", question_0.domain.to_string());
    assert_eq!(rr::Type::A, question_0.qtype);
    assert_eq!(rr::Class::In, question_0.qclass);

    let question_1 = Question::unpack(&raw, &mut ptr).unwrap();
    assert_eq!("FOO.F.ISI.ARPA", question_1.domain.to_string());
    assert_eq!(rr::Type::A, question_1.qtype);
    assert_eq!(rr::Class::In, question_1.qclass);

    let question_2 = Question::unpack(&raw, &mut ptr).unwrap();
    assert_eq!("ARPA", question_2.domain.to_string());
    assert_eq!(rr::Type::A, question_2.qtype);
    assert_eq!(rr::Class::In, question_2.qclass);
}

#[test]
fn unpack_unsupported_class() {
    let raw = b"\x06google\x03com\x00\x00\x01\x01\x01";
    let question = Question::unpack(raw, &mut 0);
    assert!(question.is_err());
}

#[test]
fn question_pack() {
    let raw = b"\x06google\x03com\x00\x00\x01\x00\x01";
    let question = Question::unpack(raw, &mut 0).unwrap();
    let mut buf = vec![0u8; raw.len()];
    question.pack(&mut buf).unwrap();
    assert_eq!(raw, &buf[..]);
}

#[test]
fn question_pack_invalid_input() {
    let raw = b"\x06google\x03com\x00\x00\x01\x00\x01";
    let question = Question::unpack(raw, &mut 0).unwrap();
    let mut buf = vec![0u8; raw.len() - 1];
    assert_eq!(
        question.pack(&mut buf).unwrap_err().to_string(),
        DnsError::BufLenNotEq {
            exp: raw.len(),
            act: raw.len() - 1
        }
        .to_string(),
    );
    assert_eq!(buf, vec![0u8; raw.len() - 1]);
}

#[test]
fn unpack_unsupported_class_names_the_class() {
    let raw = b"\x06google\x03com\x00\x00\x01\x01\x01";
    let mut ptr = 0;
    assert_eq!(
        Question::unpack(raw, &mut ptr).unwrap_err(),
        DnsError::Unsupported(rr::Error::UnsupportedClass(0x0101))
    );
    assert_eq!(ptr, 16);
}

#[test]
fn unpack_unsupported_type_names_the_type() {
    let raw = b"\x06google\x03com\x00\x00\x1C\x00\x01";
    assert_eq!(
        Question::unpack(raw, &mut 0).unwrap_err(),
        DnsError::Unsupported(rr::Error::UnsupportedType(28))
    );
}

#[test]
fn unpack_looks_at_the_type_before_the_class() {
    let raw = b"\x03com\x00\x00\x02\x00\x03";
    assert_eq!(
        Question::unpack(raw, &mut 0).unwrap_err(),
        DnsError::Unsupported(rr::Error::UnsupportedType(2))
    );
}

#[test]
fn unpack_needs_four_bytes_behind_the_name() {
    let raw = b"\x03com\x00\x00\x01\x00";
    let mut ptr = 0;
    assert_eq!(
        Question::unpack(raw, &mut ptr).unwrap_err(),
        DnsError::BufLenSmall { min: 9, act: 8 }
    );
    assert_eq!(ptr, 5);
}

#[test]
fn unpack_passes_on_the_failure_of_the_name() {
    let raw = b"\x06google\x03com";
    assert_eq!(
        Question::unpack(raw, &mut 0).unwrap_err(),
        DnsError::InvalidEncoding { at: 11 }
    );
}

#[test]
fn unpack_moves_the_cursor_behind_the_question() {
    let raw = b"\xEE\x03com\x00\x00\x01\x00\x01\xEE";
    let mut ptr = 1;
    let question = Question::unpack(raw, &mut ptr).unwrap();
    assert_eq!(question.domain.0, vec!["com"]);
    assert_eq!(ptr, 10);
}

#[test]
fn question_len_is_the_name_and_four_bytes() {
    let question = Question {
        domain: Labels(vec!["google".to_string(), "com".to_string()]),
        qtype: rr::Type::A,
        qclass: rr::Class::In,
    };
    assert_eq!(question.len(), 16);
    assert_eq!(question.checked_len(), Some(16));
}

#[test]
fn question_pack_refuses_every_other_length() {
    let question = Question {
        domain: Labels(vec!["google".to_string(), "com".to_string()]),
        qtype: rr::Type::A,
        qclass: rr::Class::In,
    };
    let mut exact = vec![0xEEu8; 16];
    assert_eq!(question.pack(&mut exact), Ok(()));
    assert_eq!(&exact[..], b"\x06google\x03com\x00\x00\x01\x00\x01");
    let mut short = vec![0xEEu8; 15];
    assert_eq!(
        question.pack(&mut short),
        Err(DnsError::BufLenNotEq { exp: 16, act: 15 })
    );
    assert_eq!(short, vec![0xEEu8; 15]);
    let mut long = vec![0xEEu8; 17];
    assert_eq!(
        question.pack(&mut long),
        Err(DnsError::BufLenNotEq { exp: 16, act: 17 })
    );
    assert_eq!(long, vec![0xEEu8; 17]);
}

#[test]
fn question_pack_then_unpack_gives_the_question_back() {
    let question = Question {
        domain: Labels(vec!["www".to_string(), "example".to_string(), "org".to_string()]),
        qtype: rr::Type::A,
        qclass: rr::Class::In,
    };
    let mut buf = vec![0u8; question.len()];
    question.pack(&mut buf).unwrap();
    let mut ptr = 0;
    assert_eq!(Question::unpack(&buf, &mut ptr).unwrap(), question);
    assert_eq!(ptr, buf.len());
    assert_eq!(question.clone(), question);
}

#[test]
fn type_and_class_convert_to_and_from_numbers() {
    assert_eq!(rr::Type::try_from(1u16), Ok(rr::Type::A));
    assert_eq!(rr::Type::try_from(0u16), Err(rr::Error::UnsupportedType(0)));
    assert_eq!(rr::Type::try_from(2u16), Err(rr::Error::UnsupportedType(2)));
    assert_eq!(rr::Class::try_from(1u16), Ok(rr::Class::In));
    assert_eq!(rr::Class::try_from(255u16), Err(rr::Error::UnsupportedClass(255)));
    assert_eq!(u16::from(rr::Type::A), 1);
    assert_eq!(u16::from(rr::Class::In), 1);
    let code: u16 = rr::Type::A.into();
    assert_eq!(code, 1);
}
