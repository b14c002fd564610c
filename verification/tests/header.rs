use dns_forwarder::errors::DnsError;
use dns_forwarder::message::endian::{get_u16, get_u32, put_u16, put_u32};
use dns_forwarder::message::header::{
    AuthoritativeAnswer, Header, Indicator, RecursionAvailable, RecursionDesired, ResponseCode,
    Truncation, DNS_HEADER_SIZE,
};

fn sample() -> Header {
    Header {
        id: 0x1234,
        qr: Indicator::Response,
        opcode: 0b1010,
        aa: AuthoritativeAnswer::Yes,
        tc: Truncation::No,
        rd: RecursionDesired::Yes,
        ra: RecursionAvailable::Yes,
        z: 0,
        rcode: ResponseCode::Refused,
        qdcount: 0x0102,
        ancount: 0x0304,
        nscount: 0x0506,
        arcount: 0x0708,
    }
}

const SAMPLE: [u8; 12] = [
    0x12, 0x34, 0b1101_0101, 0b1000_0101, 0x01, 0x02, 0x03, 0x04, 0x05, 0x06, 0x07, 0x08,
];

#[test]
fn header_pack_lays_out_every_field() {
    assert_eq!(sample().pack(), SAMPLE.to_vec());
    assert_eq!(DNS_HEADER_SIZE, 12);
}

#[test]
fn header_unpack_reads_every_field() {
    assert_eq!(Header::unpack(&SAMPLE), Ok(sample()));
}

#[test]
fn header_unpack_looks_at_the_first_twelve_bytes_only() {
    let mut raw = SAMPLE.to_vec();
    raw.extend_from_slice(b"\x03com\x00");
    assert_eq!(Header::unpack(&raw), Ok(sample()));
}

#[test]
fn header_unpack_single_bits() {
    let mut raw = [0u8; 12];
    let blank = Header {
        qr: Indicator::Query,
        ..Header::default()
    };
    assert_eq!(Header::unpack(&raw), Ok(blank));
    raw[2] = 0b1000_0000;
    assert_eq!(Header::unpack(&raw), Ok(Header { qr: Indicator::Response, ..blank }));
    raw[2] = 0b0111_1000;
    assert_eq!(Header::unpack(&raw), Ok(Header { opcode: 15, ..blank }));
    raw[2] = 0b0000_1000;
    assert_eq!(Header::unpack(&raw), Ok(Header { opcode: 1, ..blank }));
    raw[2] = 0b0000_0100;
    assert_eq!(Header::unpack(&raw), Ok(Header { aa: AuthoritativeAnswer::Yes, ..blank }));
    raw[2] = 0b0000_0010;
    assert_eq!(Header::unpack(&raw), Ok(Header { tc: Truncation::Yes, ..blank }));
    raw[2] = 0b0000_0001;
    assert_eq!(Header::unpack(&raw), Ok(Header { rd: RecursionDesired::Yes, ..blank }));
    raw[2] = 0;
    raw[3] = 0b1000_0000;
    assert_eq!(Header::unpack(&raw), Ok(Header { ra: RecursionAvailable::Yes, ..blank }));
    raw[3] = 0b0111_0000;
    assert_eq!(Header::unpack(&raw), Ok(Header { z: 7, ..blank }));
    raw[3] = 0b0001_0000;
    assert_eq!(Header::unpack(&raw), Ok(Header { z: 1, ..blank }));
    raw[3] = 0b0000_0100;
    assert_eq!(Header::unpack(&raw), Ok(Header { rcode: ResponseCode::NotImplemented, ..blank }));
}

#[test]
fn header_unpack_every_status() {
    let statuses = [
        ResponseCode::NoError,
        ResponseCode::FormatError,
        ResponseCode::ServerFailure,
        ResponseCode::NameError,
        ResponseCode::NotImplemented,
        ResponseCode::Refused,
    ];
    for (code, status) in statuses.iter().enumerate() {
        let mut raw = [0u8; 12];
        raw[3] = code as u8;
        assert_eq!(Header::unpack(&raw).unwrap().rcode, *status);
        let header = Header { rcode: *status, ..Header::default() };
        assert_eq!(header.pack()[3], code as u8);
    }
}

#[test]
fn header_unpack_refuses_a_status_that_stands_for_nothing() {
    for code in 6u8..16 {
        let mut raw = [0u8; 12];
        raw[3] = 0b1111_0000 | code;
        assert_eq!(Header::unpack(&raw), Err(DnsError::InvalidValue));
    }
}

#[test]
fn header_unpack_needs_twelve_bytes() {
    assert_eq!(Header::unpack(&SAMPLE[..11]), Err(DnsError::BufferTooSmall));
    assert_eq!(Header::unpack(&[]), Err(DnsError::BufferTooSmall));
}

#[test]
fn header_unpack_id_needs_two_bytes() {
    assert_eq!(Header::unpack_id(&[0xAB, 0xCD, 0xEF]), Ok(0xABCD));
    assert_eq!(Header::unpack_id(&[0xAB, 0xCD]), Ok(0xABCD));
    assert_eq!(Header::unpack_id(&[0xAB]), Err(DnsError::BufferTooSmall));
    assert_eq!(Header::unpack_id(&[]), Err(DnsError::BufferTooSmall));
}

#[test]
fn header_pack_writes_the_reserved_bits_as_zero() {
    let header = Header { z: 7, ..sample() };
    assert_eq!(header.pack(), SAMPLE.to_vec());
}

#[test]
fn header_pack_keeps_the_low_four_bits_of_the_opcode() {
    let header = Header { opcode: 0xFA, ..sample() };
    assert_eq!(header.pack(), SAMPLE.to_vec());
}

#[test]
fn header_pack_then_unpack_gives_the_header_back() {
    for opcode in 0u8..16 {
        for bits in 0u8..32 {
            let header = Header {
                id: 0xBEEF,
                qr: if bits & 1 == 0 { Indicator::Query } else { Indicator::Response },
                opcode,
                aa: if bits & 2 == 0 { AuthoritativeAnswer::No } else { AuthoritativeAnswer::Yes },
                tc: if bits & 4 == 0 { Truncation::No } else { Truncation::Yes },
                rd: if bits & 8 == 0 { RecursionDesired::No } else { RecursionDesired::Yes },
                ra: if bits & 16 == 0 { RecursionAvailable::No } else { RecursionAvailable::Yes },
                z: 0,
                rcode: ResponseCode::NameError,
                qdcount: 1,
                ancount: 0xFFFF,
                nscount: 0,
                arcount: 0x8000,
            };
            assert_eq!(Header::unpack(&header.pack()), Ok(header));
        }
    }
}

#[test]
fn header_pack_to_slice_wants_twelve_bytes() {
    let mut exact = [0xEEu8; 12];
    assert_eq!(sample().pack_to_slice(&mut exact), Ok(()));
    assert_eq!(exact, SAMPLE);
    let mut short = [0xEEu8; 11];
    assert_eq!(
        sample().pack_to_slice(&mut short),
        Err(DnsError::BufLenNotEq { exp: 12, act: 11 })
    );
    assert_eq!(short, [0xEEu8; 11]);
    let mut long = [0xEEu8; 13];
    assert_eq!(
        sample().pack_to_slice(&mut long),
        Err(DnsError::BufLenNotEq { exp: 12, act: 13 })
    );
    assert_eq!(long, [0xEEu8; 13]);
}

#[test]
fn header_default_is_a_blank_response() {
    let header = Header::default();
    assert_eq!(header.id, 0);
    assert_eq!(header.qr, Indicator::Response);
    assert_eq!(header.opcode, 0);
    assert_eq!(header.rcode, ResponseCode::NoError);
    assert_eq!(header.pack(), vec![0, 0, 0x80, 0, 0, 0, 0, 0, 0, 0, 0, 0]);
}

#[test]
fn numbers_are_read_with_the_high_byte_first() {
    let raw = [0xEE, 0x12, 0x34, 0x56, 0x78, 0xEE];
    assert_eq!(get_u16(&raw, 1), 0x1234);
    assert_eq!(get_u16(&raw, 4), 0x78EE);
    assert_eq!(get_u32(&raw, 1), 0x12345678);
    assert_eq!(get_u32(&raw, 2), 0x345678EE);
}

#[test]
fn numbers_are_written_with_the_high_byte_first() {
    let mut buf = [0xEEu8; 6];
    put_u16(&mut buf, 1, 0x1234);
    assert_eq!(buf, [0xEE, 0x12, 0x34, 0xEE, 0xEE, 0xEE]);
    put_u32(&mut buf, 2, 0xA1B2C3D4);
    assert_eq!(buf, [0xEE, 0x12, 0xA1, 0xB2, 0xC3, 0xD4]);
    put_u16(&mut buf, 0, 0x00FF);
    assert_eq!(buf, [0x00, 0xFF, 0xA1, 0xB2, 0xC3, 0xD4]);
}
