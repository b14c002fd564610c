use byteorder::{BigEndian, ByteOrder};
use vstd::prelude::*;

verus! {

/// The number that two bytes spell, the first byte counting most.
pub open spec fn be16(hi: u8, lo: u8) -> u16 {
    (hi as int * 256 + lo as int) as u16
}

/// The number that the two bytes of `buf` from `at` on spell.
pub open spec fn u16_at(buf: Seq<u8>, at: int) -> u16 {
    be16(buf[at], buf[at + 1])
}

/// The number that the four bytes of `buf` from `at` on spell.
pub open spec fn u32_at(buf: Seq<u8>, at: int) -> u32 {
    (u16_at(buf, at) as int * 65536 + u16_at(buf, at + 2) as int) as u32
}

/// The two bytes that spell `n`, the one that counts most first.
pub open spec fn u16_bytes(n: u16) -> Seq<u8> {
    seq![(n / 256) as u8, (n % 256) as u8]
}

/// The four bytes that spell `n`, the one that counts most first.
pub open spec fn u32_bytes(n: u32) -> Seq<u8> {
    u16_bytes((n / 65536) as u16) + u16_bytes((n % 65536) as u16)
}

/// `byteorder::BigEndian::read_u16`: the number spelt by the first two bytes
/// of the slice. It panics on a shorter slice, which `requires` leaves out.
#[verifier::external_body]
pub(crate) fn read_u16(buf: &[u8]) -> (n: u16)
    requires
        buf@.len() >= 2,
    ensures
        n == u16_at(buf@, 0),
{
    BigEndian::read_u16(buf)
}

/// `byteorder::BigEndian::read_u32`: the number spelt by the first four
/// bytes of the slice. It panics on a shorter slice, which `requires` leaves
/// out.
#[verifier::external_body]
pub(crate) fn read_u32(buf: &[u8]) -> (n: u32)
    requires
        buf@.len() >= 4,
    ensures
        n == u32_at(buf@, 0),
{
    BigEndian::read_u32(buf)
}

/// `byteorder::BigEndian::write_u16`: overwrites the first two bytes of the
/// slice with the spelling of `n` and leaves the rest alone. It panics on a
/// shorter slice, which `requires` leaves out.
#[verifier::external_body]
pub(crate) fn write_u16(buf: &mut [u8], n: u16)
    requires
        old(buf)@.len() >= 2,
    ensures
        final(buf)@ == u16_bytes(n) + old(buf)@.subrange(2, old(buf)@.len() as int),
{
    BigEndian::write_u16(buf, n)
}

/// `byteorder::BigEndian::write_u32`: overwrites the first four bytes of the
/// slice with the spelling of `n` and leaves the rest alone. It panics on a
/// shorter slice, which `requires` leaves out.
#[verifier::external_body]
pub(crate) fn write_u32(buf: &mut [u8], n: u32)
    requires
        old(buf)@.len() >= 4,
    ensures
        final(buf)@ == u32_bytes(n) + old(buf)@.subrange(4, old(buf)@.len() as int),
{
    BigEndian::write_u32(buf, n)
}

/// What `buf` holds once `bytes` has been laid over it from `at` on.
pub open spec fn overlay(buf: Seq<u8>, at: int, bytes: Seq<u8>) -> Seq<u8> {
    buf.subrange(0, at) + bytes + buf.subrange(at + bytes.len(), buf.len() as int)
}

/// Writes `n` over the two bytes of `buf` that start at `at`.
pub fn put_u16(buf: &mut [u8], at: usize, n: u16)
    requires
        at + 2 <= old(buf)@.len(),
    ensures
        final(buf)@ == overlay(old(buf)@, at as int, u16_bytes(n)),
{
    let (_, tail) = buf.split_at_mut(at);
    write_u16(tail, n);
    proof {
        assert(final(buf)@ =~= overlay(old(buf)@, at as int, u16_bytes(n)));
    }
}

/// Writes `n` over the four bytes of `buf` that start at `at`.
pub fn put_u32(buf: &mut [u8], at: usize, n: u32)
    requires
        at + 4 <= old(buf)@.len(),
    ensures
        final(buf)@ == overlay(old(buf)@, at as int, u32_bytes(n)),
{
    let (_, tail) = buf.split_at_mut(at);
    write_u32(tail, n);
    proof {
        assert(final(buf)@ =~= overlay(old(buf)@, at as int, u32_bytes(n)));
    }
}

/// Reads the number spelt by the two bytes of `buf` that start at `at`.
pub fn get_u16(buf: &[u8], at: usize) -> (n: u16)
    requires
        at + 2 <= buf@.len(),
    ensures
        n == u16_at(buf@, at as int),
{
    assert(buf.len() <= usize::MAX);
    read_u16(&buf[at..at + 2])
}

/// Reads the number spelt by the four bytes of `buf` that start at `at`.
pub fn get_u32(buf: &[u8], at: usize) -> (n: u32)
    requires
        at + 4 <= buf@.len(),
    ensures
        n == u32_at(buf@, at as int),
{
    assert(buf.len() <= usize::MAX);
    read_u32(&buf[at..at + 4])
}

/// Writes `src` over the bytes of `buf` that start at `at`.
pub fn copy_into(buf: &mut [u8], at: usize, src: &[u8])
    requires
        at + src@.len() <= old(buf)@.len(),
    ensures
        final(buf)@ == overlay(old(buf)@, at as int, src@),
{
    let total: usize = buf.len();
    let mut i: usize = 0;
    while i < src.len()
        invariant
            i <= src@.len(),
            total == buf@.len(),
            at + src@.len() <= buf@.len(),
            buf@.len() == old(buf)@.len(),
            buf@.subrange(0, at as int) == old(buf)@.subrange(0, at as int),
            buf@.subrange(at as int, at + i) == src@.subrange(0, i as int),
            buf@.subrange(at + i, buf@.len() as int) == old(buf)@.subrange(
                at + i,
                buf@.len() as int,
            ),
        decreases src@.len() - i,
    {
        let ghost before = buf@;
        buf[at + i] = src[i];
        proof {
            assert(buf@ == before.update(at + i, src@[i as int]));
            assert(buf@.subrange(0, at as int) =~= before.subrange(0, at as int));
            assert(buf@.subrange(at as int, at + i + 1) =~= before.subrange(at as int, at + i).push(
                src@[i as int],
            ));
            assert(src@.subrange(0, i + 1) =~= src@.subrange(0, i as int).push(src@[i as int]));
            assert(buf@.subrange(at + i + 1, buf@.len() as int) =~= before.subrange(
                at + i,
                buf@.len() as int,
            ).drop_first());
            assert(old(buf)@.subrange(at + i + 1, buf@.len() as int) =~= old(buf)@.subrange(
                at + i,
                buf@.len() as int,
            ).drop_first());
        }
        i += 1;
    }
    proof {
        assert(src@.subrange(0, src@.len() as int) =~= src@);
        assert(buf@ =~= buf@.subrange(0, at as int) + buf@.subrange(at as int, at + src@.len())
            + buf@.subrange(at + src@.len(), buf@.len() as int));
    }
}

/// Two bytes that were written for a number read back as that number.
pub proof fn lemma_u16_written(buf: Seq<u8>, at: int, n: u16)
    requires
        0 <= at,
        at + 2 <= buf.len(),
        buf[at] == u16_bytes(n)[0],
        buf[at + 1] == u16_bytes(n)[1],
    ensures
        u16_at(buf, at) == n,
{
}

/// Four bytes that were written for a number read back as that number.
pub proof fn lemma_u32_written(buf: Seq<u8>, at: int, n: u32)
    requires
        0 <= at,
        at + 4 <= buf.len(),
        buf[at] == u32_bytes(n)[0],
        buf[at + 1] == u32_bytes(n)[1],
        buf[at + 2] == u32_bytes(n)[2],
        buf[at + 3] == u32_bytes(n)[3],
    ensures
        u32_at(buf, at) == n,
{
    let hi = (n / 65536) as u16;
    let lo = (n % 65536) as u16;
    assert(u32_bytes(n)[0] == u16_bytes(hi)[0]);
    assert(u32_bytes(n)[1] == u16_bytes(hi)[1]);
    assert(u32_bytes(n)[2] == u16_bytes(lo)[0]);
    assert(u32_bytes(n)[3] == u16_bytes(lo)[1]);
    lemma_u16_written(buf, at, hi);
    lemma_u16_written(buf, at + 2, lo);
}

} // verus!
