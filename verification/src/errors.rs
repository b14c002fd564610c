use crate::message::header::Header;
use crate::message::rr;
use vstd::prelude::*;
use vstd::string::StringExecFns;

verus! {

/// Everything that can go wrong while a message is decoded, encoded or
/// forwarded.
#[derive(Debug, Clone, Copy, PartialEq, Eq, Structural)]
pub enum DnsError {
    /// A destination must have exactly `exp` bytes and has `act`.
    BufLenNotEq { exp: usize, act: usize },
    /// A source must have at least `min` bytes and has `act`.
    BufLenSmall { min: usize, act: usize },
    /// A domain name ran off the end of its buffer, or its compression
    /// pointers never reach an end; `at` is the offset where this showed.
    InvalidEncoding { at: usize },
    /// No upstream address was given, or it could not be understood.
    ResolverNotSpecified,
    /// The upstream reported success and announced no answer.
    ResolverFailed(Header),
    /// The upstream announced an answer and sent none.
    ResolverNoAnsw,
    /// Nothing of a request was accepted for sending.
    ResolverNoRecv,
    /// A fixed-size field does not fit into what is left of the buffer.
    BufferTooSmall,
    /// A bit field holds a number that stands for nothing.
    InvalidValue,
    /// A record names a type or a class that is not supported.
    Unsupported(rr::Error),
}

/// The character that stands for a digit.
pub open spec fn digit(d: int) -> char {
    if d == 0 {
        '0'
    } else if d == 1 {
        '1'
    } else if d == 2 {
        '2'
    } else if d == 3 {
        '3'
    } else if d == 4 {
        '4'
    } else if d == 5 {
        '5'
    } else if d == 6 {
        '6'
    } else if d == 7 {
        '7'
    } else if d == 8 {
        '8'
    } else {
        '9'
    }
}

/// A number written in decimal digits, without leading zeros.
pub open spec fn decimal(n: nat) -> Seq<char>
    decreases n,
{
    if n < 10 {
        seq![digit(n as int)]
    } else {
        decimal(n / 10).push(digit((n % 10) as int))
    }
}

fn digit_str(d: usize) -> (s: &'static str)
    requires
        d < 10,
    ensures
        s@ == seq![digit(d as int)],
{
    proof {
        reveal_strlit("0");
        reveal_strlit("1");
        reveal_strlit("2");
        reveal_strlit("3");
        reveal_strlit("4");
        reveal_strlit("5");
        reveal_strlit("6");
        reveal_strlit("7");
        reveal_strlit("8");
        reveal_strlit("9");
    }
    let s = match d {
        0 => "0",
        1 => "1",
        2 => "2",
        3 => "3",
        4 => "4",
        5 => "5",
        6 => "6",
        7 => "7",
        8 => "8",
        _ => "9",
    };
    proof {
        assert(s@ =~= seq![digit(d as int)]);
    }
    s
}

/// Writes a number in decimal digits.
pub fn decimal_string(n: usize) -> (text: String)
    ensures
        text@ == decimal(n as nat),
    decreases n,
{
    if n < 10 {
        String::from_str(digit_str(n))
    } else {
        let mut text = decimal_string(n / 10);
        text.append(digit_str(n % 10));
        text
    }
}

impl DnsError {
    /// What the error says, in words.
    pub open spec fn message(self) -> Seq<char> {
        match self {
            DnsError::BufLenNotEq { exp, act } =>
                "Buffer length is not equal to expected size: expected "@ + decimal(exp as nat)
                    + " bytes, got "@ + decimal(act as nat),
            DnsError::BufLenSmall { min, act } =>
                "Buffer length is not big enough: expected at least "@ + decimal(min as nat)
                    + " bytes, got "@ + decimal(act as nat),
            DnsError::InvalidEncoding { at } => "Invalid domain encoding discovered at byte "@
                + decimal(at as nat),
            DnsError::ResolverNotSpecified =>
                "Resolver address is not specified or specifed incorrectly. Usage: `run_server -r|--resolver <address>`"@,
            DnsError::ResolverFailed(header) =>
                "Invalid message received from DNS resolver, expected 1 answer, got: "@
                    + header.text(),
            DnsError::ResolverNoAnsw =>
                "No answer received from DNS resolver, but it promised exactly 1 answer"@,
            DnsError::ResolverNoRecv =>
                "Failed to forward message to the DNS resolver, 0 bytes was sent"@,
            DnsError::BufferTooSmall => "BufferTooSmall"@,
            DnsError::InvalidValue => "InvalidValue"@,
            DnsError::Unsupported(e) => e.message(),
        }
    }

    /// What the error says, in words.
    pub fn to_string(&self) -> (text: String)
        ensures
            text@ == self.message(),
    {
        match self {
            DnsError::BufLenNotEq { exp, act } => {
                let mut text = String::from_str(
                    "Buffer length is not equal to expected size: expected ",
                );
                text.append(decimal_string(*exp).as_str());
                text.append(" bytes, got ");
                text.append(decimal_string(*act).as_str());
                text
            },
            DnsError::BufLenSmall { min, act } => {
                let mut text = String::from_str(
                    "Buffer length is not big enough: expected at least ",
                );
                text.append(decimal_string(*min).as_str());
                text.append(" bytes, got ");
                text.append(decimal_string(*act).as_str());
                text
            },
            DnsError::InvalidEncoding { at } => {
                let mut text = String::from_str("Invalid domain encoding discovered at byte ");
                text.append(decimal_string(*at).as_str());
                text
            },
            DnsError::ResolverNotSpecified => String::from_str(
                "Resolver address is not specified or specifed incorrectly. Usage: `run_server -r|--resolver <address>`",
            ),
            DnsError::ResolverFailed(header) => {
                let mut text = String::from_str(
                    "Invalid message received from DNS resolver, expected 1 answer, got: ",
                );
                text.append(header.to_string().as_str());
                text
            },
            DnsError::ResolverNoAnsw => String::from_str(
                "No answer received from DNS resolver, but it promised exactly 1 answer",
            ),
            DnsError::ResolverNoRecv => String::from_str(
                "Failed to forward message to the DNS resolver, 0 bytes was sent",
            ),
            DnsError::BufferTooSmall => String::from_str("BufferTooSmall"),
            DnsError::InvalidValue => String::from_str("InvalidValue"),
            DnsError::Unsupported(e) => e.to_string(),
        }
    }
}

} // verus!
