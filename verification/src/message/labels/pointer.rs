use crate::errors::DnsError;
use crate::message::endian::{get_u16, u16_at};
use vstd::prelude::*;

verus! {

const MASK_U8: u8 = 0b1100_0000;

const MASK_U16: u16 = 0b1100_0000_0000_0000;

/// An offset into a message at which a domain name goes on.
pub struct DomainPointer(pub usize);

/// `n`, or the largest `usize` where `n` is beyond it.
pub open spec fn clip(n: int) -> usize {
    if n > usize::MAX {
        usize::MAX
    } else {
        n as usize
    }
}

/// The offset that the two pointer bytes at `at` name: the low fourteen bits
/// of the number they spell.
pub open spec fn pointer_target(buf: Seq<u8>, at: int) -> int {
    u16_at(buf, at) as int % 16384
}

impl DomainPointer {
    /// Whether `word` starts a compression pointer: its top two bits are set.
    pub fn test(word: u8) -> (is_pointer: bool)
        ensures
            is_pointer == (word >= 192),
    {
        assert((word & 0b1100_0000 == 0b1100_0000) == (word >= 192)) by (bit_vector);
        word & MASK_U8 == MASK_U8
    }

    /// Reads the pointer whose two bytes start at `at`, and moves `at` past
    /// them.
    ///
    /// Where the two bytes are not both inside `buf`, this fails with
    /// `BufLenSmall` and leaves `at` alone.
    pub fn try_from(buf: &[u8], at: &mut usize) -> (r: Result<DomainPointer, DnsError>)
        ensures
            *old(at) + 2 <= buf@.len() ==> *final(at) == *old(at) + 2 && r.is_ok() && r.unwrap().0
                == pointer_target(buf@, *old(at) as int),
            *old(at) + 2 > buf@.len() ==> *final(at) == *old(at) && r == Err::<
                DomainPointer,
                DnsError,
            >(DnsError::BufLenSmall { min: clip(*old(at) + 2), act: buf@.len() as usize }),
    {
        let size: usize = 2;
        if *at > buf.len() || buf.len() - *at < size {
            return Err(DnsError::BufLenSmall { min: at.saturating_add(size), act: buf.len() });
        }
        let mut ptr = get_u16(buf, *at);
        assert(ptr & !0b1100_0000_0000_0000u16 == ptr % 16384) by (bit_vector);
        ptr &= !MASK_U16;

        *at += size;
        Ok(DomainPointer(ptr as usize))
    }
}

} // verus!
