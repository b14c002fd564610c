//! A codec for the wire format of a name-resolution protocol, and the
//! decisions of a forwarding resolver built on it.
use crate::errors::DnsError;
use crate::message::endian::u16_at;
use crate::message::header::{Header, ResponseCode};
use crate::message::labels::texts;
use crate::message::Message;
use vstd::prelude::*;
use vstd::string::StringExecFns;

pub mod errors;
pub mod message;

verus! {

/// Whether a command-line argument is the flag that announces the upstream
/// resolver's address.
pub fn is_resolver_flag(flag: String) -> (is_flag: bool)
    ensures
        is_flag == (flag@ == "-r"@ || flag@ == "--resolver"@),
{
    flag == String::from_str("-r") || flag == String::from_str("--resolver")
}

/// The upstream resolver's address among the command-line arguments: the
/// argument behind the flag, which must come first behind the program's
/// name.
pub open spec fn address_among(args: Seq<Seq<char>>) -> Option<Seq<char>> {
    if args.len() >= 3 && (args[1] == "-r"@ || args[1] == "--resolver"@) {
        Some(args[2])
    } else {
        None
    }
}

/// Finds the upstream resolver's address among the command-line arguments,
/// and fails with `ResolverNotSpecified` where the flag or the address is
/// missing.
pub fn resolver_address(args: &Vec<String>) -> (r: Result<String, DnsError>)
    ensures
        match r {
            Ok(address) => address_among(texts(args@)) == Some(address@),
            Err(e) => e == DnsError::ResolverNotSpecified && address_among(texts(args@)).is_none(),
        },
{
    if args.len() >= 2 && is_resolver_flag(args[1].clone()) {
        if args.len() >= 3 {
            Ok(args[2].clone())
        } else {
            Err(DnsError::ResolverNotSpecified)
        }
    } else {
        Err(DnsError::ResolverNotSpecified)
    }
}

/// The bytes of the reply to a query that could not be resolved: a response
/// under the query's id that reports a server failure and holds nothing
/// else.
pub fn pack_server_failure(id: u16) -> (r: Result<Vec<u8>, DnsError>)
    ensures
        r.is_ok(),
        r.unwrap()@ == (Header { id, rcode: ResponseCode::ServerFailure, ..Header::blank() }).wire(),
{
    let msg = Message::new_server_err().with_id(id);
    proof {
        let header = Header { id, rcode: ResponseCode::ServerFailure, ..Header::blank() };
        header.wire_round_trip();
        assert(crate::message::questions_wire(msg@.questions) =~= seq![]);
        assert(crate::message::answers_wire(msg@.answers) =~= seq![]);
        assert(msg@.wire() =~= header.wire());
    }
    msg.pack()
}

/// The id that the reply to a message carries which could not be read: the
/// message's own id where its first two bytes are there, and zero where
/// they are not.
pub open spec fn recovered_id(query: Seq<u8>) -> u16 {
    if query.len() >= 2 {
        u16_at(query, 0)
    } else {
        0
    }
}

/// The bytes of the reply to a message that could not be read: a response
/// under the id recovered from the message that reports a format error and
/// holds nothing else.
pub fn pack_client_failure(query: &[u8]) -> (r: Result<Vec<u8>, DnsError>)
    ensures
        r.is_ok(),
        r.unwrap()@ == (Header {
            id: recovered_id(query@),
            rcode: ResponseCode::FormatError,
            ..Header::blank()
        }).wire(),
{
    let id = match Header::unpack_id(query) {
        Ok(id) => id,
        Err(_) => 0,
    };
    let msg = Message::new_client_err().with_id(id);
    proof {
        let header = Header { id, rcode: ResponseCode::FormatError, ..Header::blank() };
        header.wire_round_trip();
        assert(crate::message::questions_wire(msg@.questions) =~= seq![]);
        assert(crate::message::answers_wire(msg@.answers) =~= seq![]);
        assert(msg@.wire() =~= header.wire());
    }
    msg.pack()
}

} // verus!
