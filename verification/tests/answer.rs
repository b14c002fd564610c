use dns_forwarder::errors::DnsError;
use dns_forwarder::message::answer::{Answer, DEFAULT_TTL};
use dns_forwarder::message::labels::Labels;
use dns_forwarder::message::question::Question;
use dns_forwarder::message::rr;

fn question_for(labels: &[&str]) -> Question {
    Question {
        domain: Labels(labels.iter().map(|label| label.to_string()).collect()),
        qtype: rr::Type::A,
        qclass: rr::Class::In,
    }
}

#[test]
fn answer_pack() {
    let raw = b"\x06google\x03com\x00\x00\x01\x00\x01";
    let ttl = 0xFFDDBBAA;
    let data = vec![127, 0, 0, 1];
    let question = Question::unpack(raw, &mut 0).unwrap();
    let answer = Answer {
        name: question.domain,
        atype: question.qtype,
        aclass: question.qclass,
        ttl,
        length: data.len() as u16,
        data: data.clone(),
    };

    let mut expect = Vec::from_iter(raw.iter().cloned());
    expect.extend_from_slice(&vec![0xFF, 0xDD, 0xBB, 0xAA, 0x00, 0x04]);
    expect.extend_from_slice(&data);

    let mut buf = vec![0u8; answer.len()];
    answer.pack(&mut buf).unwrap();

    assert_eq!(buf, expect);
}

#[test]
fn answer_unpack_reads_every_field() {
    let raw = b"\xEE\x03com\x00\x00\x01\x00\x01\x00\x00\x0E\x10\x00\x04\x7F\x00\x00\x01\xEE";
    let mut ptr = 1;
    let answer = Answer::unpack(raw, &mut ptr).unwrap();
    assert_eq!(answer.name.0, vec!["com"]);
    assert_eq!(answer.atype, rr::Type::A);
    assert_eq!(answer.aclass, rr::Class::In);
    assert_eq!(answer.ttl, 3600);
    assert_eq!(answer.length, 4);
    assert_eq!(answer.data, vec![127, 0, 0, 1]);
    assert_eq!(ptr, 20);
    assert_eq!(answer.len(), 19);
}

#[test]
fn answer_unpack_reads_a_name_behind_a_pointer() {
    let raw = b"\x03com\x00\xC0\x00\x00\x01\x00\x01\x01\x02\x03\x04\x00\x02\xAB\xCD";
    let mut ptr = 5;
    let answer = Answer::unpack(raw, &mut ptr).unwrap();
    assert_eq!(answer.name.to_string(), "com");
    assert_eq!(answer.ttl, 0x01020304);
    assert_eq!(answer.length, 2);
    assert_eq!(answer.data, vec![0xAB, 0xCD]);
    assert_eq!(ptr, raw.len());
}

#[test]
fn answer_unpack_with_an_empty_payload_at_the_end() {
    let raw = b"\x00\x00\x01\x00\x01\x00\x00\x00\x00\x00\x00";
    let mut ptr = 0;
    let answer = Answer::unpack(raw, &mut ptr).unwrap();
    assert!(answer.name.0.is_empty());
    assert_eq!(answer.length, 0);
    assert!(answer.data.is_empty());
    assert_eq!(ptr, 11);
}

#[test]
fn answer_unpack_needs_ten_bytes_behind_the_name() {
    let raw = b"\x03com\x00\x00\x01\x00\x01\x00\x00\x0E\x10\x00";
    let mut ptr = 0;
    assert_eq!(
        Answer::unpack(raw, &mut ptr).unwrap_err(),
        DnsError::BufLenSmall { min: 15, act: 14 }
    );
    assert_eq!(ptr, 5);
}

#[test]
fn answer_unpack_needs_the_whole_payload() {
    let raw = b"\x03com\x00\x00\x01\x00\x01\x00\x00\x0E\x10\x00\x04\x7F\x00\x00";
    let mut ptr = 0;
    assert_eq!(
        Answer::unpack(raw, &mut ptr).unwrap_err(),
        DnsError::BufLenSmall { min: 19, act: 18 }
    );
    assert_eq!(ptr, 5);
}

#[test]
fn answer_unpack_refuses_other_types_and_classes() {
    let other_type = b"\x03com\x00\x00\x05\x00\x01\x00\x00\x0E\x10\x00\x00";
    assert_eq!(
        Answer::unpack(other_type, &mut 0).unwrap_err(),
        DnsError::Unsupported(rr::Error::UnsupportedType(5))
    );
    let other_class = b"\x03com\x00\x00\x01\x00\x03\x00\x00\x0E\x10\x00\x00";
    assert_eq!(
        Answer::unpack(other_class, &mut 0).unwrap_err(),
        DnsError::Unsupported(rr::Error::UnsupportedClass(3))
    );
}

#[test]
fn answer_unpack_passes_on_the_failure_of_the_name() {
    let raw = b"\x06google";
    assert_eq!(
        Answer::unpack(raw, &mut 0).unwrap_err(),
        DnsError::InvalidEncoding { at: 7 }
    );
}

#[test]
fn answer_len_is_name_metadata_and_payload() {
    let answer = Answer {
        name: Labels(vec!["google".to_string(), "com".to_string()]),
        atype: rr::Type::A,
        aclass: rr::Class::In,
        ttl: 1,
        length: 4,
        data: vec![1, 2, 3, 4],
    };
    assert_eq!(answer.len(), 26);
    assert_eq!(answer.checked_len(), Some(26));
}

#[test]
fn answer_pack_refuses_every_other_length() {
    let answer = Answer {
        name: Labels(vec!["com".to_string()]),
        atype: rr::Type::A,
        aclass: rr::Class::In,
        ttl: 0x00010203,
        length: 4,
        data: vec![9, 8, 7, 6],
    };
    let mut exact = vec![0xEEu8; 19];
    assert_eq!(answer.pack(&mut exact), Ok(()));
    assert_eq!(
        &exact[..],
        b"\x03com\x00\x00\x01\x00\x01\x00\x01\x02\x03\x00\x04\x09\x08\x07\x06"
    );
    let mut short = vec![0xEEu8; 18];
    assert_eq!(
        answer.pack(&mut short),
        Err(DnsError::BufLenNotEq { exp: 19, act: 18 })
    );
    assert_eq!(short, vec![0xEEu8; 18]);
    let mut long = vec![0xEEu8; 20];
    assert_eq!(
        answer.pack(&mut long),
        Err(DnsError::BufLenNotEq { exp: 19, act: 20 })
    );
    assert_eq!(long, vec![0xEEu8; 20]);
}

#[test]
fn answer_pack_then_unpack_gives_the_answer_back() {
    let answer = Answer {
        name: Labels(vec!["www".to_string(), "example".to_string(), "org".to_string()]),
        atype: rr::Type::A,
        aclass: rr::Class::In,
        ttl: 0xDEADBEEF,
        length: 4,
        data: vec![93, 184, 216, 34],
    };
    let mut buf = vec![0u8; answer.len()];
    answer.pack(&mut buf).unwrap();
    let mut ptr = 0;
    assert_eq!(Answer::unpack(&buf, &mut ptr).unwrap(), answer);
    assert_eq!(ptr, buf.len());
    assert_eq!(answer.clone(), answer);
}

#[test]
fn resolve_known_name() {
    let answer = Answer::resolve(&question_for(&["google", "com"]));
    assert_eq!(answer.name.to_string(), "google.com");
    assert_eq!(answer.atype, rr::Type::A);
    assert_eq!(answer.aclass, rr::Class::In);
    assert_eq!(answer.data, vec![142, 250, 188, 14]);
    assert_eq!(answer.ttl, 3600);
    assert_eq!(answer.ttl, DEFAULT_TTL);
    assert_eq!(answer.length, 4);
}

#[test]
fn resolve_unknown_name_gives_the_stand_in_address() {
    let answer = Answer::resolve(&question_for(&["example", "org"]));
    assert_eq!(answer.name.to_string(), "example.org");
    assert_eq!(answer.data, vec![8, 8, 8, 8]);
    assert_eq!(answer.ttl, 3600);
    assert_eq!(answer.length, 4);
}

#[test]
fn resolve_matches_the_whole_name_only() {
    for labels in [
        &["www", "google", "com"][..],
        &["google", "com", ""][..],
        &["Google", "com"][..],
        &["google.com", "x"][..],
        &[][..],
    ] {
        let answer = Answer::resolve(&question_for(labels));
        assert_eq!(answer.data, vec![8, 8, 8, 8]);
    }
    let joined = Answer::resolve(&question_for(&["google.com"]));
    assert_eq!(joined.data, vec![142, 250, 188, 14]);
}
