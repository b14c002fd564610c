use crate::errors::{decimal, decimal_string, DnsError};
use crate::message::endian::{get_u16, put_u16, u16_at, u16_bytes};
use vstd::prelude::*;
use vstd::string::StringExecFns;

verus! {

/// The header's size on the wire, in bytes.
pub const DNS_HEADER_SIZE: usize = 12;

/// `Response` for a reply packet, `Query` for a question packet.
#[derive(Clone, Copy, Debug, Default, PartialEq, Eq, Structural)]
pub enum Indicator {
    Query,
    #[default]
    Response,
}

/// `Yes` if the responding server owns the domain queried.
#[derive(Clone, Copy, Debug, Default, PartialEq, Eq, Structural)]
pub enum AuthoritativeAnswer {
    #[default]
    No,
    Yes,
}

/// `Yes` if the message was cut short to fit its transport.
#[derive(Clone, Copy, Debug, Default, PartialEq, Eq, Structural)]
pub enum Truncation {
    #[default]
    No,
    Yes,
}

/// `Yes` if the sender wants the query resolved recursively.
#[derive(Clone, Copy, Debug, Default, PartialEq, Eq, Structural)]
pub enum RecursionDesired {
    #[default]
    No,
    Yes,
}

/// `Yes` if the sender resolves queries recursively.
#[derive(Clone, Copy, Debug, Default, PartialEq, Eq, Structural)]
pub enum RecursionAvailable {
    #[default]
    No,
    Yes,
}

/// The status of a response.
#[derive(Clone, Copy, Debug, Default, PartialEq, Eq, Structural)]
pub enum ResponseCode {
    /// No error condition.
    #[default]
    NoError,
    /// The name server was unable to interpret the query.
    FormatError,
    /// The name server was unable to process the query.
    ServerFailure,
    /// The domain name referenced in the query does not exist.
    NameError,
    /// The name server does not support the requested kind of query.
    NotImplemented,
    /// The name server refuses to perform the operation.
    Refused,
}

impl Indicator {
    /// The value's name.
    pub open spec fn name(self) -> Seq<char> {
        match self {
            Indicator::Query => "Query"@,
            Indicator::Response => "Response"@,
        }
    }

    /// The value's name.
    pub fn as_str(&self) -> (name: &'static str)
        ensures
            name@ == self.name(),
    {
        match self {
            Indicator::Query => "Query",
            Indicator::Response => "Response",
        }
    }

    /// The bit that stands for this value on the wire.
    pub open spec fn bit(self) -> u8 {
        match self {
            Indicator::Query => 0,
            Indicator::Response => 1,
        }
    }

    /// The value that a bit of the wire stands for.
    pub open spec fn of_bit(bit: u8) -> Self {
        if bit == 0 {
            Indicator::Query
        } else {
            Indicator::Response
        }
    }

    fn to_bit(self) -> (bit: u8)
        ensures
            bit == self.bit(),
    {
        match self {
            Indicator::Query => 0,
            Indicator::Response => 1,
        }
    }

    fn from_bit(bit: u8) -> (value: Self)
        ensures
            value == Self::of_bit(bit),
    {
        if bit == 0 {
            Indicator::Query
        } else {
            Indicator::Response
        }
    }
}

impl AuthoritativeAnswer {
    /// The value's name.
    pub open spec fn name(self) -> Seq<char> {
        match self {
            AuthoritativeAnswer::No => "No"@,
            AuthoritativeAnswer::Yes => "Yes"@,
        }
    }

    /// The value's name.
    pub fn as_str(&self) -> (name: &'static str)
        ensures
            name@ == self.name(),
    {
        match self {
            AuthoritativeAnswer::No => "No",
            AuthoritativeAnswer::Yes => "Yes",
        }
    }

    /// The bit that stands for this value on the wire.
    pub open spec fn bit(self) -> u8 {
        match self {
            AuthoritativeAnswer::No => 0,
            AuthoritativeAnswer::Yes => 1,
        }
    }

    /// The value that a bit of the wire stands for.
    pub open spec fn of_bit(bit: u8) -> Self {
        if bit == 0 {
            AuthoritativeAnswer::No
        } else {
            AuthoritativeAnswer::Yes
        }
    }

    fn to_bit(self) -> (bit: u8)
        ensures
            bit == self.bit(),
    {
        match self {
            AuthoritativeAnswer::No => 0,
            AuthoritativeAnswer::Yes => 1,
        }
    }

    fn from_bit(bit: u8) -> (value: Self)
        ensures
            value == Self::of_bit(bit),
    {
        if bit == 0 {
            AuthoritativeAnswer::No
        } else {
            AuthoritativeAnswer::Yes
        }
    }
}

impl Truncation {
    /// The value's name.
    pub open spec fn name(self) -> Seq<char> {
        match self {
            Truncation::No => "No"@,
            Truncation::Yes => "Yes"@,
        }
    }

    /// The value's name.
    pub fn as_str(&self) -> (name: &'static str)
        ensures
            name@ == self.name(),
    {
        match self {
            Truncation::No => "No",
            Truncation::Yes => "Yes",
        }
    }

    /// The bit that stands for this value on the wire.
    pub open spec fn bit(self) -> u8 {
        match self {
            Truncation::No => 0,
            Truncation::Yes => 1,
        }
    }

    /// The value that a bit of the wire stands for.
    pub open spec fn of_bit(bit: u8) -> Self {
        if bit == 0 {
            Truncation::No
        } else {
            Truncation::Yes
        }
    }

    fn to_bit(self) -> (bit: u8)
        ensures
            bit == self.bit(),
    {
        match self {
            Truncation::No => 0,
            Truncation::Yes => 1,
        }
    }

    fn from_bit(bit: u8) -> (value: Self)
        ensures
            value == Self::of_bit(bit),
    {
        if bit == 0 {
            Truncation::No
        } else {
            Truncation::Yes
        }
    }
}

impl RecursionDesired {
    /// The value's name.
    pub open spec fn name(self) -> Seq<char> {
        match self {
            RecursionDesired::No => "No"@,
            RecursionDesired::Yes => "Yes"@,
        }
    }

    /// The value's name.
    pub fn as_str(&self) -> (name: &'static str)
        ensures
            name@ == self.name(),
    {
        match self {
            RecursionDesired::No => "No",
            RecursionDesired::Yes => "Yes",
        }
    }

    /// The bit that stands for this value on the wire.
    pub open spec fn bit(self) -> u8 {
        match self {
            RecursionDesired::No => 0,
            RecursionDesired::Yes => 1,
        }
    }

    /// The value that a bit of the wire stands for.
    pub open spec fn of_bit(bit: u8) -> Self {
        if bit == 0 {
            RecursionDesired::No
        } else {
            RecursionDesired::Yes
        }
    }

    fn to_bit(self) -> (bit: u8)
        ensures
            bit == self.bit(),
    {
        match self {
            RecursionDesired::No => 0,
            RecursionDesired::Yes => 1,
        }
    }

    fn from_bit(bit: u8) -> (value: Self)
        ensures
            value == Self::of_bit(bit),
    {
        if bit == 0 {
            RecursionDesired::No
        } else {
            RecursionDesired::Yes
        }
    }
}

impl RecursionAvailable {
    /// The value's name.
    pub open spec fn name(self) -> Seq<char> {
        match self {
            RecursionAvailable::No => "No"@,
            RecursionAvailable::Yes => "Yes"@,
        }
    }

    /// The value's name.
    pub fn as_str(&self) -> (name: &'static str)
        ensures
            name@ == self.name(),
    {
        match self {
            RecursionAvailable::No => "No",
            RecursionAvailable::Yes => "Yes",
        }
    }

    /// The bit that stands for this value on the wire.
    pub open spec fn bit(self) -> u8 {
        match self {
            RecursionAvailable::No => 0,
            RecursionAvailable::Yes => 1,
        }
    }

    /// The value that a bit of the wire stands for.
    pub open spec fn of_bit(bit: u8) -> Self {
        if bit == 0 {
            RecursionAvailable::No
        } else {
            RecursionAvailable::Yes
        }
    }

    fn to_bit(self) -> (bit: u8)
        ensures
            bit == self.bit(),
    {
        match self {
            RecursionAvailable::No => 0,
            RecursionAvailable::Yes => 1,
        }
    }

    fn from_bit(bit: u8) -> (value: Self)
        ensures
            value == Self::of_bit(bit),
    {
        if bit == 0 {
            RecursionAvailable::No
        } else {
            RecursionAvailable::Yes
        }
    }
}

impl ResponseCode {
    /// The value's name.
    pub open spec fn name(self) -> Seq<char> {
        match self {
            ResponseCode::NoError => "NoError"@,
            ResponseCode::FormatError => "FormatError"@,
            ResponseCode::ServerFailure => "ServerFailure"@,
            ResponseCode::NameError => "NameError"@,
            ResponseCode::NotImplemented => "NotImplemented"@,
            ResponseCode::Refused => "Refused"@,
        }
    }

    /// The value's name.
    pub fn as_str(&self) -> (name: &'static str)
        ensures
            name@ == self.name(),
    {
        match self {
            ResponseCode::NoError => "NoError",
            ResponseCode::FormatError => "FormatError",
            ResponseCode::ServerFailure => "ServerFailure",
            ResponseCode::NameError => "NameError",
            ResponseCode::NotImplemented => "NotImplemented",
            ResponseCode::Refused => "Refused",
        }
    }

    /// The number that stands for this status on the wire.
    pub open spec fn code(self) -> u8 {
        match self {
            ResponseCode::NoError => 0,
            ResponseCode::FormatError => 1,
            ResponseCode::ServerFailure => 2,
            ResponseCode::NameError => 3,
            ResponseCode::NotImplemented => 4,
            ResponseCode::Refused => 5,
        }
    }

    /// The status that a number of the wire stands for, if it stands for one.
    pub open spec fn of_code(code: u8) -> Option<Self> {
        if code == 0 {
            Some(ResponseCode::NoError)
        } else if code == 1 {
            Some(ResponseCode::FormatError)
        } else if code == 2 {
            Some(ResponseCode::ServerFailure)
        } else if code == 3 {
            Some(ResponseCode::NameError)
        } else if code == 4 {
            Some(ResponseCode::NotImplemented)
        } else if code == 5 {
            Some(ResponseCode::Refused)
        } else {
            None
        }
    }

    fn to_code(self) -> (code: u8)
        ensures
            code == self.code(),
    {
        match self {
            ResponseCode::NoError => 0,
            ResponseCode::FormatError => 1,
            ResponseCode::ServerFailure => 2,
            ResponseCode::NameError => 3,
            ResponseCode::NotImplemented => 4,
            ResponseCode::Refused => 5,
        }
    }

    fn from_code(code: u8) -> (status: Option<Self>)
        ensures
            status == Self::of_code(code),
    {
        match code {
            0 => Some(ResponseCode::NoError),
            1 => Some(ResponseCode::FormatError),
            2 => Some(ResponseCode::ServerFailure),
            3 => Some(ResponseCode::NameError),
            4 => Some(ResponseCode::NotImplemented),
            5 => Some(ResponseCode::Refused),
            _ => None,
        }
    }
}

/// The fixed part that every message starts with.
///
/// `id` pairs a response with its query. `qr` tells the two apart. `opcode`
/// is the kind of query, in four bits, and `z` is reserved, in three. The
/// four counts give the number of entries in the sections that follow.
#[derive(Clone, Copy, Debug, PartialEq, Eq, Structural)]
pub struct Header {
    pub id: u16,
    pub qr: Indicator,
    pub opcode: u8,
    pub aa: AuthoritativeAnswer,
    pub tc: Truncation,
    pub rd: RecursionDesired,
    pub ra: RecursionAvailable,
    pub z: u8,
    pub rcode: ResponseCode,
    pub qdcount: u16,
    pub ancount: u16,
    pub nscount: u16,
    pub arcount: u16,
}

impl Default for Header {
    /// A response with id 0 that reports no error and announces nothing.
    fn default() -> (header: Header)
        ensures
            header == Header::blank(),
    {
        Header {
            id: 0,
            qr: Indicator::Response,
            opcode: 0,
            aa: AuthoritativeAnswer::No,
            tc: Truncation::No,
            rd: RecursionDesired::No,
            ra: RecursionAvailable::No,
            z: 0,
            rcode: ResponseCode::NoError,
            qdcount: 0,
            ancount: 0,
            nscount: 0,
            arcount: 0,
        }
    }
}

impl Header {
    /// The header that `default` gives.
    pub open spec fn blank() -> Header {
        Header {
            id: 0,
            qr: Indicator::Response,
            opcode: 0,
            aa: AuthoritativeAnswer::No,
            tc: Truncation::No,
            rd: RecursionDesired::No,
            ra: RecursionAvailable::No,
            z: 0,
            rcode: ResponseCode::NoError,
            qdcount: 0,
            ancount: 0,
            nscount: 0,
            arcount: 0,
        }
    }

    /// The header as text, field by field.
    pub open spec fn text(self) -> Seq<char> {
        "Header { id: "@ + decimal(self.id as nat) + ", qr: "@ + self.qr.name() + ", opcode: "@ + decimal(self.opcode as nat) + ", aa: "@ + self.aa.name() + ", tc: "@ + self.tc.name() + ", rd: "@ + self.rd.name() + ", ra: "@ + self.ra.name() + ", z: "@ + decimal(self.z as nat) + ", rcode: "@ + self.rcode.name() + ", qdcount: "@ + decimal(self.qdcount as nat) + ", ancount: "@ + decimal(self.ancount as nat) + ", nscount: "@ + decimal(self.nscount as nat) + ", arcount: "@ + decimal(self.arcount as nat) + " }"@
    }

    /// The header as text, field by field.
    pub fn to_string(&self) -> (text: String)
        ensures
            text@ == self.text(),
    {
        let mut text = String::from_str("Header { id: ");
        text.append(decimal_string(self.id as usize).as_str());
        text.append(", qr: ");
        text.append(self.qr.as_str());
        text.append(", opcode: ");
        text.append(decimal_string(self.opcode as usize).as_str());
        text.append(", aa: ");
        text.append(self.aa.as_str());
        text.append(", tc: ");
        text.append(self.tc.as_str());
        text.append(", rd: ");
        text.append(self.rd.as_str());
        text.append(", ra: ");
        text.append(self.ra.as_str());
        text.append(", z: ");
        text.append(decimal_string(self.z as usize).as_str());
        text.append(", rcode: ");
        text.append(self.rcode.as_str());
        text.append(", qdcount: ");
        text.append(decimal_string(self.qdcount as usize).as_str());
        text.append(", ancount: ");
        text.append(decimal_string(self.ancount as usize).as_str());
        text.append(", nscount: ");
        text.append(decimal_string(self.nscount as usize).as_str());
        text.append(", arcount: ");
        text.append(decimal_string(self.arcount as usize).as_str());
        text.append(" }");
        text
    }

    /// The bit fields fit their widths.
    pub open spec fn wf(self) -> bool {
        self.opcode < 16 && self.z < 8
    }

    /// The third byte of the wire form: `qr`, `opcode`, `aa`, `tc`, `rd`,
    /// from the top bit down. Of `opcode` only the low four bits count.
    pub open spec fn flags_hi(self) -> u8 {
        (self.qr.bit() * 128 + (self.opcode % 16) * 8 + self.aa.bit() * 4 + self.tc.bit() * 2
            + self.rd.bit()) as u8
    }

    /// The fourth byte of the wire form: `ra`, three zero bits in the place
    /// of `z`, and `rcode`.
    pub open spec fn flags_lo(self) -> u8 {
        (self.ra.bit() * 128 + self.rcode.code()) as u8
    }

    /// The twelve bytes that stand for this header on the wire.
    pub open spec fn wire(self) -> Seq<u8> {
        u16_bytes(self.id) + seq![self.flags_hi(), self.flags_lo()] + u16_bytes(self.qdcount)
            + u16_bytes(self.ancount) + u16_bytes(self.nscount) + u16_bytes(self.arcount)
    }

    /// What the start of `buf` says, read as a header.
    pub open spec fn parse(buf: Seq<u8>) -> Result<Header, DnsError> {
        if buf.len() < 12 {
            Err(DnsError::BufferTooSmall)
        } else if buf[3] % 16 > 5 {
            Err(DnsError::InvalidValue)
        } else {
            Ok(
                Header {
                    id: u16_at(buf, 0),
                    qr: Indicator::of_bit(buf[2] / 128),
                    opcode: buf[2] / 8 % 16,
                    aa: AuthoritativeAnswer::of_bit(buf[2] / 4 % 2),
                    tc: Truncation::of_bit(buf[2] / 2 % 2),
                    rd: RecursionDesired::of_bit(buf[2] % 2),
                    ra: RecursionAvailable::of_bit(buf[3] / 128),
                    z: buf[3] / 16 % 8,
                    rcode: ResponseCode::of_code(buf[3] % 16).unwrap(),
                    qdcount: u16_at(buf, 4),
                    ancount: u16_at(buf, 6),
                    nscount: u16_at(buf, 8),
                    arcount: u16_at(buf, 10),
                },
            )
        }
    }

    /// Reads a header from the first twelve bytes of `query`.
    ///
    /// Fails with `BufferTooSmall` on fewer bytes, and with `InvalidValue`
    /// where the status field holds a number that stands for no status.
    pub fn unpack(query: &[u8]) -> (r: Result<Header, DnsError>)
        ensures
            r == Header::parse(query@),
    {
        if query.len() < DNS_HEADER_SIZE {
            return Err(DnsError::BufferTooSmall);
        }
        let hi: u8 = query[2];
        let lo: u8 = query[3];
        assert(hi >> 7 == hi / 128 && (hi >> 3) & 0x0F == hi / 8 % 16 && (hi >> 2) & 1 == hi / 4 % 2
            && (hi >> 1) & 1 == hi / 2 % 2 && hi & 1 == hi % 2) by (bit_vector);
        assert(lo >> 7 == lo / 128 && (lo >> 4) & 7 == lo / 16 % 8 && lo & 0x0F == lo % 16)
            by (bit_vector);
        let rcode = match ResponseCode::from_code(lo & 0x0F) {
            Some(rcode) => rcode,
            None => {
                return Err(DnsError::InvalidValue);
            },
        };
        Ok(
            Header {
                id: get_u16(query, 0),
                qr: Indicator::from_bit(hi >> 7),
                opcode: (hi >> 3) & 0x0F,
                aa: AuthoritativeAnswer::from_bit((hi >> 2) & 1),
                tc: Truncation::from_bit((hi >> 1) & 1),
                rd: RecursionDesired::from_bit(hi & 1),
                ra: RecursionAvailable::from_bit(lo >> 7),
                z: (lo >> 4) & 7,
                rcode,
                qdcount: get_u16(query, 4),
                ancount: get_u16(query, 6),
                nscount: get_u16(query, 8),
                arcount: get_u16(query, 10),
            },
        )
    }

    /// Reads the id alone, from the first two bytes of `query`, so that a
    /// reply to a message that cannot be decoded can still carry its id.
    ///
    /// Fails with `BufferTooSmall` on fewer than two bytes.
    pub fn unpack_id(query: &[u8]) -> (r: Result<u16, DnsError>)
        ensures
            query@.len() < 2 ==> r == Err::<u16, DnsError>(DnsError::BufferTooSmall),
            query@.len() >= 2 ==> r == Ok::<u16, DnsError>(u16_at(query@, 0)),
    {
        let id_size: usize = 2;
        if query.len() < id_size {
            return Err(DnsError::BufferTooSmall);
        }
        let id = get_u16(query, 0);
        Ok(id)
    }

    /// Writes the wire form over `buf`, which must have exactly twelve
    /// bytes; any other length is refused with `BufLenNotEq` and `buf` stays
    /// as it is.
    pub fn pack_to_slice(&self, buf: &mut [u8]) -> (r: Result<(), DnsError>)
        ensures
            old(buf)@.len() == 12 ==> r.is_ok() && final(buf)@ == self.wire(),
            old(buf)@.len() != 12 ==> final(buf)@ == old(buf)@ && r == Err::<(), DnsError>(
                DnsError::BufLenNotEq { exp: 12, act: old(buf)@.len() as usize },
            ),
    {
        if buf.len() != DNS_HEADER_SIZE {
            return Err(DnsError::BufLenNotEq { exp: DNS_HEADER_SIZE, act: buf.len() });
        }
        let q: u8 = self.qr.to_bit();
        let o: u8 = self.opcode;
        let a: u8 = self.aa.to_bit();
        let t: u8 = self.tc.to_bit();
        let d: u8 = self.rd.to_bit();
        let v: u8 = self.ra.to_bit();
        let c: u8 = self.rcode.to_code();
        assert(((q << 7) | ((o & 0x0F) << 3) | (a << 2) | (t << 1) | d) == q * 128 + (o % 16) * 8 + a
            * 4 + t * 2 + d) by (bit_vector)
            requires
                q < 2 && a < 2 && t < 2 && d < 2,
        ;
        assert(((v << 7) | c) == v * 128 + c) by (bit_vector)
            requires
                v < 2 && c < 6,
        ;
        put_u16(buf, 0, self.id);
        buf[2] = (q << 7) | ((o & 0x0F) << 3) | (a << 2) | (t << 1) | d;
        buf[3] = (v << 7) | c;
        put_u16(buf, 4, self.qdcount);
        put_u16(buf, 6, self.ancount);
        put_u16(buf, 8, self.nscount);
        put_u16(buf, 10, self.arcount);
        proof {
            assert(final(buf)@ =~= self.wire());
        }
        Ok(())
    }

    /// The twelve bytes that stand for this header on the wire.
    pub fn pack(&self) -> (bytes: Vec<u8>)
        ensures
            bytes@ == self.wire(),
            bytes@.len() == 12,
    {
        let mut bytes = vec![0u8; DNS_HEADER_SIZE];
        let _ = self.pack_to_slice(bytes.as_mut_slice());
        bytes
    }

    /// Every header takes twelve bytes on the wire.
    pub proof fn wire_is_twelve_bytes(self)
        ensures
            self.wire().len() == 12,
    {
    }

    /// Reading what a header wrote gives the header back, for every header
    /// whose bit fields fit their widths and whose reserved bits are zero.
    pub proof fn wire_round_trip(self)
        requires
            self.wf(),
            self.z == 0,
        ensures
            self.wire().len() == 12,
            Header::parse(self.wire()) == Ok::<Header, DnsError>(self),
    {
        let w = self.wire();
        assert(w.len() == 12);
        assert(w[2] == self.flags_hi());
        assert(w[3] == self.flags_lo());
        assert(w[3] % 16 == self.rcode.code());
    }
}

} // verus!
