use crate::errors::DnsError;
use crate::message::endian::copy_into;
use crate::message::labels::pointer::{clip, pointer_target, DomainPointer};
use vstd::prelude::*;
use vstd::string::StringExecFns;
use vstd::utf8::{decode_utf8, encode_utf8, valid_utf8};

pub mod hops;
pub mod pointer;

verus! {

const TERMINATOR_BYTE: u8 = 0x00;

const TERMINATOR_BYTE_SIZE: usize = 1;

const DOMAIN_NAME_LEN_BYTE_SIZE: usize = 1;

/// A domain name: its labels, the most specific first.
#[derive(Debug, Default, PartialEq)]
pub struct Labels(pub Vec<String>);

/// The text that `String::from_utf8_lossy` makes of bytes that are not
/// well-formed UTF-8.
pub uninterp spec fn utf8_lossy(bytes: Seq<u8>) -> Seq<char>;

/// The text of a label's bytes: what they spell where they are well-formed
/// UTF-8, and the lossy reading of them where they are not.
pub open spec fn lossy_text(bytes: Seq<u8>) -> Seq<char> {
    if valid_utf8(bytes) {
        decode_utf8(bytes)
    } else {
        utf8_lossy(bytes)
    }
}

/// `String::from_utf8_lossy`, whose result is taken as an owned string. Its
/// documentation promises the text unchanged for well-formed UTF-8; what it
/// makes of other bytes is only given a name here.
#[verifier::external_body]
fn text_of(bytes: &[u8]) -> (text: String)
    ensures
        valid_utf8(bytes@) ==> text@ == decode_utf8(bytes@),
        !valid_utf8(bytes@) ==> text@ == utf8_lossy(bytes@),
{
    String::from_utf8_lossy(bytes).into_owned()
}

/// What reading a name from a buffer comes to: the bytes of the labels met,
/// where the cursor is left, and the error that ended the reading, if one
/// did.
pub ghost struct Scan {
    pub words: Seq<Seq<u8>>,
    pub next: int,
    pub err: Option<DnsError>,
}

/// Reads a name from `buf`, starting at `at`, following at most `hops`
/// compression pointers.
///
/// A zero byte ends the name. A byte of 192 or more starts a pointer: the
/// name goes on at the offset it gives, and the cursor is left behind the
/// pointer's two bytes whatever happens there. Any other byte is the length
/// of the label that follows it, and something must follow the label: one
/// that ends where the buffer ends is still read, and then the reading
/// fails, as it does for a label that does not fit. The cursor of a reading
/// that fails in its own stream is left at the item that failed.
pub open spec fn scan_from(buf: Seq<u8>, at: int, hops: nat) -> Scan
    decreases hops, buf.len() - at,
{
    if at < 0 || at >= buf.len() {
        Scan { words: seq![], next: at, err: Some(DnsError::InvalidEncoding { at: clip(at) }) }
    } else if buf[at] == 0 {
        Scan { words: seq![], next: at + 1, err: None }
    } else if buf[at] >= 192 {
        if at + 2 > buf.len() {
            Scan {
                words: seq![],
                next: at,
                err: Some(
                    DnsError::BufLenSmall { min: clip(at + 2), act: buf.len() as usize },
                ),
            }
        } else if hops == 0 {
            Scan {
                words: seq![],
                next: at + 2,
                err: Some(DnsError::InvalidEncoding { at: at as usize }),
            }
        } else {
            let rest = scan_from(buf, pointer_target(buf, at), (hops - 1) as nat);
            Scan { words: rest.words, next: at + 2, err: rest.err }
        }
    } else {
        let end = at + 1 + buf[at];
        if end > buf.len() {
            Scan {
                words: seq![],
                next: at,
                err: Some(DnsError::InvalidEncoding { at: clip(end) }),
            }
        } else if end == buf.len() {
            Scan {
                words: seq![buf.subrange(at + 1, end)],
                next: at,
                err: Some(DnsError::InvalidEncoding { at: clip(end) }),
            }
        } else {
            let rest = scan_from(buf, end, hops);
            Scan {
                words: seq![buf.subrange(at + 1, end)] + rest.words,
                next: rest.next,
                err: rest.err,
            }
        }
    }
}

/// Reads the name that starts at `at`. A name may follow as many pointers
/// as the buffer has bytes, which is enough for every name that has an end
/// (see `hops::hop_limit_is_exact`).
pub open spec fn scan(buf: Seq<u8>, at: int) -> Scan {
    scan_from(buf, at, buf.len())
}

/// The reading was given up at a pointer because it had followed as many
/// as it may. Of a reading that does not start before the buffer, no other
/// failure names an offset inside the buffer.
pub open spec fn out_of_hops(buf: Seq<u8>, reading: Scan) -> bool {
    match reading.err {
        Some(DnsError::InvalidEncoding { at }) => at < buf.len(),
        _ => false,
    }
}

/// A reading that was not given up for want of hops comes to the same with
/// any greater number of them.
pub proof fn lemma_scan_more_hops(buf: Seq<u8>, at: int, hops: nat, more: nat)
    requires
        buf.len() <= usize::MAX,
        hops <= more,
        !out_of_hops(buf, scan_from(buf, at, hops)),
    ensures
        scan_from(buf, at, more) == scan_from(buf, at, hops),
    decreases hops, buf.len() - at,
{
    if at < 0 || at >= buf.len() {
    } else if buf[at] == 0 {
    } else if buf[at] >= 192 {
        if at + 2 <= buf.len() {
            assert(hops > 0);
            lemma_scan_more_hops(
                buf,
                pointer_target(buf, at),
                (hops - 1) as nat,
                (more - 1) as nat,
            );
        }
    } else {
        let end = at + 1 + buf[at];
        if end < buf.len() {
            lemma_scan_more_hops(buf, end, hops, more);
        }
    }
}

/// The texts of strings, one by one.
pub open spec fn texts(words: Seq<String>) -> Seq<Seq<char>> {
    words.map_values(|word: String| word@)
}

/// The texts of labels given by their bytes, one by one.
pub open spec fn lossy_texts(words: Seq<Seq<u8>>) -> Seq<Seq<char>> {
    words.map_values(|word: Seq<u8>| lossy_text(word))
}

/// A label on the wire: a byte that holds the length of its text in bytes,
/// of which only the low eight bits fit, and then the text.
pub open spec fn label_wire(text: Seq<char>) -> Seq<u8> {
    seq![(encode_utf8(text).len() % 256) as u8] + encode_utf8(text)
}

/// The labels on the wire, one after the other.
pub open spec fn body_wire(labels: Seq<Seq<char>>) -> Seq<u8>
    decreases labels.len(),
{
    if labels.len() == 0 {
        seq![]
    } else {
        body_wire(labels.drop_last()) + label_wire(labels.last())
    }
}

/// A name on the wire: its labels and the zero byte that ends them.
pub open spec fn name_wire(labels: Seq<Seq<char>>) -> Seq<u8> {
    body_wire(labels) + seq![0u8]
}

/// The labels joined by dots.
pub open spec fn dotted(labels: Seq<Seq<char>>) -> Seq<char>
    decreases labels.len(),
{
    if labels.len() == 0 {
        seq![]
    } else if labels.len() == 1 {
        labels[0]
    } else {
        dotted(labels.drop_last()) + seq!['.'] + labels.last()
    }
}

/// The first labels of a name take no more room than all of them.
pub proof fn lemma_body_wire_grows(labels: Seq<Seq<char>>, n: int)
    requires
        0 <= n <= labels.len(),
    ensures
        body_wire(labels.take(n)).len() <= body_wire(labels).len(),
    decreases labels.len(),
{
    if n == labels.len() {
        assert(labels.take(n) =~= labels);
    } else {
        assert(labels.take(n) =~= labels.drop_last().take(n));
        lemma_body_wire_grows(labels.drop_last(), n);
    }
}

/// One more label on the wire stands behind those before it, and still
/// inside the room that all of them take.
pub proof fn lemma_body_wire_step(labels: Seq<Seq<char>>, n: int)
    requires
        0 <= n < labels.len(),
    ensures
        body_wire(labels.take(n + 1)) == body_wire(labels.take(n)) + label_wire(labels[n]),
        body_wire(labels.take(n + 1)).len() <= body_wire(labels).len(),
{
    lemma_body_wire_grows(labels, n + 1);
    assert(labels.take(n + 1).drop_last() =~= labels.take(n));
    assert(labels.take(n + 1).last() == labels[n]);
}

impl View for Labels {
    type V = Seq<Seq<char>>;

    open spec fn view(&self) -> Seq<Seq<char>> {
        texts(self.0@)
    }
}

impl Labels {
    /// Reads labels from `buf`, starting at `*ptr`, and appends their texts
    /// to `words`, as `scan` describes it. Labels read before a failure stay
    /// in `words`, the label after which the buffer ends among them.
    pub fn scan(words: &mut Vec<String>, buf: &[u8], ptr: &mut usize) -> (r: Result<(), DnsError>)
        ensures
            texts(final(words)@) == texts(old(words)@) + lossy_texts(
                scan(buf@, *old(ptr) as int).words,
            ),
            *final(ptr) == scan(buf@, *old(ptr) as int).next,
            r.is_ok() <==> scan(buf@, *old(ptr) as int).err.is_none(),
            r.is_err() ==> scan(buf@, *old(ptr) as int).err == Some(r.unwrap_err()),
    {
        let len: usize = buf.len();
        let mut at: usize = *ptr;
        let mut hops: usize = len;
        let mut outer: bool = true;
        let ghost whole = scan(buf@, *old(ptr) as int);
        let ghost mut seen: Seq<Seq<u8>> = seq![];
        loop
            invariant
                len == buf@.len(),
                whole == scan(buf@, *old(ptr) as int),
                outer ==> *ptr == at,
                texts(words@) == texts(old(words)@) + lossy_texts(seen),
                whole.words == seen + scan_from(buf@, at as int, hops as nat).words,
                whole.err == scan_from(buf@, at as int, hops as nat).err,
                whole.next == (if outer {
                    scan_from(buf@, at as int, hops as nat).next
                } else {
                    *ptr as int
                }),
            decreases hops, len - at,
        {
            if at >= len {
                return Err(DnsError::InvalidEncoding { at });
            }
            let letter: u8 = buf[at];

            if letter == TERMINATOR_BYTE {
                if outer {
                    *ptr = at + TERMINATOR_BYTE_SIZE;
                }
                proof {
                    assert(seen + Seq::<Seq<u8>>::empty() =~= seen);
                }
                return Ok(());
            }
            if DomainPointer::test(letter) {
                let mut inner: usize = at;
                let target = if outer {
                    DomainPointer::try_from(buf, ptr)
                } else {
                    DomainPointer::try_from(buf, &mut inner)
                };
                match target {
                    Err(e) => {
                        return Err(e);
                    },
                    Ok(target) => {
                        if hops == 0 {
                            return Err(DnsError::InvalidEncoding { at });
                        }
                        outer = false;
                        hops -= 1;
                        at = target.0;
                    },
                }
            } else {
                let word_len: usize = letter as usize;
                if word_len > len - at - DOMAIN_NAME_LEN_BYTE_SIZE {
                    return Err(
                        DnsError::InvalidEncoding {
                            at: (at + DOMAIN_NAME_LEN_BYTE_SIZE).saturating_add(word_len),
                        },
                    );
                }
                let start: usize = at + DOMAIN_NAME_LEN_BYTE_SIZE;
                let end: usize = start + word_len;
                let word = text_of(&buf[start..end]);
                let ghost label = buf@.subrange(start as int, end as int);
                proof {
                    assert(lossy_texts(seen.push(label)) =~= lossy_texts(seen).push(
                        lossy_text(label),
                    ));
                    assert(texts(words@.push(word)) =~= texts(words@).push(word@));
                }
                words.push(word);
                if end >= len {
                    proof {
                        assert(seen + seq![label] =~= seen.push(label));
                    }
                    return Err(DnsError::InvalidEncoding { at: end });
                }
                proof {
                    let rest = scan_from(buf@, end as int, hops as nat);
                    assert(seen + (seq![label] + rest.words) =~= seen.push(label) + rest.words);
                    seen = seen.push(label);
                }
                at = end;
                if outer {
                    *ptr = at;
                }
            }
        }
    }

    /// Reads the name that starts at `*ptr` in `buf`, and leaves `*ptr`
    /// where `scan` says: behind the name's last byte in its own stream.
    pub fn unpack(buf: &[u8], ptr: &mut usize) -> (r: Result<Labels, DnsError>)
        ensures
            *final(ptr) == scan(buf@, *old(ptr) as int).next,
            match r {
                Ok(labels) => scan(buf@, *old(ptr) as int).err.is_none() && labels@ == lossy_texts(
                    scan(buf@, *old(ptr) as int).words,
                ),
                Err(e) => scan(buf@, *old(ptr) as int).err == Some(e),
            },
    {
        let mut words: Vec<String> = Vec::new();
        match Labels::scan(&mut words, buf, ptr) {
            Ok(()) => {
                proof {
                    assert(texts(Seq::<String>::empty()) + lossy_texts(
                        scan(buf@, *old(ptr) as int).words,
                    ) =~= lossy_texts(scan(buf@, *old(ptr) as int).words));
                }
                Ok(Labels(words))
            },
            Err(e) => Err(e),
        }
    }

    /// Writes the name over `buf`, which must have exactly `len()` bytes:
    /// each label behind its length, then a zero byte. No pointer is ever
    /// written. Any other length of `buf` is refused with `BufLenNotEq`, and
    /// `buf` stays as it is.
    pub fn pack(&self, buf: &mut [u8]) -> (r: Result<(), DnsError>)
        requires
            name_wire(self@).len() <= usize::MAX,
        ensures
            old(buf)@.len() == name_wire(self@).len() ==> r.is_ok() && final(buf)@ == name_wire(
                self@,
            ),
            old(buf)@.len() != name_wire(self@).len() ==> final(buf)@ == old(buf)@ && r == Err::<
                (),
                DnsError,
            >(
                DnsError::BufLenNotEq {
                    exp: name_wire(self@).len() as usize,
                    act: old(buf)@.len() as usize,
                },
            ),
    {
        let want = self.len();
        if buf.len() != want {
            return Err(DnsError::BufLenNotEq { exp: want, act: buf.len() });
        }
        let mut wrote: usize = 0;
        let mut i: usize = 0;
        while i < self.0.len()
            invariant
                i <= self.0@.len(),
                buf@.len() == want,
                want == body_wire(self@).len() + 1,
                wrote == body_wire(self@.take(i as int)).len(),
                buf@.subrange(0, wrote as int) == body_wire(self@.take(i as int)),
            decreases self.0@.len() - i,
        {
            let word = self.0[i].as_str().as_bytes();
            proof {
                lemma_body_wire_step(self@, i as int);
                assert(word@ == encode_utf8(self@[i as int]));
            }
            let ghost before = buf@;
            buf[wrote] = (word.len() % 256) as u8;
            wrote += DOMAIN_NAME_LEN_BYTE_SIZE;
            copy_into(buf, wrote, word);
            proof {
                assert(buf@.subrange(0, wrote + word@.len()) =~= before.subrange(0, wrote - 1)
                    + label_wire(self@[i as int]));
            }
            wrote += word.len();
            i += 1;
        }
        proof {
            assert(self@.take(self.0@.len() as int) =~= self@);
        }
        let ghost before = buf@;
        buf[wrote] = TERMINATOR_BYTE;
        proof {
            assert(buf@ =~= before.subrange(0, wrote as int) + seq![0u8]);
        }
        Ok(())
    }

    /// The number of bytes that the name takes on the wire: for each label
    /// one byte and its text, and one byte for the end.
    pub fn len(&self) -> (n: usize)
        requires
            name_wire(self@).len() <= usize::MAX,
        ensures
            n == name_wire(self@).len(),
    {
        let mut n: usize = 0;
        let mut i: usize = 0;
        while i < self.0.len()
            invariant
                i <= self.0@.len(),
                body_wire(self@).len() + 1 <= usize::MAX,
                n == body_wire(self@.take(i as int)).len(),
            decreases self.0@.len() - i,
        {
            proof {
                lemma_body_wire_step(self@, i as int);
            }
            n += self.0[i].as_str().len() + DOMAIN_NAME_LEN_BYTE_SIZE;
            i += 1;
        }
        proof {
            assert(self@.take(self.0@.len() as int) =~= self@);
        }
        n + TERMINATOR_BYTE_SIZE
    }

    /// The number of bytes that the name takes on the wire, where a
    /// `usize` can hold it.
    pub fn checked_len(&self) -> (n: Option<usize>)
        ensures
            name_wire(self@).len() <= usize::MAX ==> n == Some(name_wire(self@).len() as usize),
            name_wire(self@).len() > usize::MAX ==> n.is_none(),
    {
        let mut n: usize = 0;
        let mut i: usize = 0;
        while i < self.0.len()
            invariant
                i <= self.0@.len(),
                n == body_wire(self@.take(i as int)).len(),
            decreases self.0@.len() - i,
        {
            proof {
                lemma_body_wire_step(self@, i as int);
            }
            let word = self.0[i].as_str().as_bytes();
            let label = match word.len().checked_add(DOMAIN_NAME_LEN_BYTE_SIZE) {
                Some(label) => label,
                None => {
                    return None;
                },
            };
            n = match n.checked_add(label) {
                Some(n) => n,
                None => {
                    return None;
                },
            };
            i += 1;
        }
        proof {
            assert(self@.take(self.0@.len() as int) =~= self@);
        }
        n.checked_add(TERMINATOR_BYTE_SIZE)
    }

    /// The name as text: its labels joined by dots.
    pub fn to_string(&self) -> (text: String)
        ensures
            text@ == dotted(self@),
    {
        let mut text = String::new();
        let mut i: usize = 0;
        while i < self.0.len()
            invariant
                i <= self.0@.len(),
                text@ == dotted(self@.take(i as int)),
            decreases self.0@.len() - i,
        {
            proof {
                reveal_strlit(".");
                assert(self@.take(i + 1).drop_last() =~= self@.take(i as int));
                assert(self@.take(i + 1).last() == self@[i as int]);
                assert("."@ =~= seq!['.']);
            }
            if i > 0 {
                text.append(".");
            }
            text.append(self.0[i].as_str());
            proof {
                if i == 0 {
                    assert(text@ =~= self@[0]);
                }
            }
            i += 1;
        }
        proof {
            assert(self@.take(self.0@.len() as int) =~= self@);
        }
        text
    }
}

impl Clone for Labels {
    fn clone(&self) -> (copy: Labels)
        ensures
            copy@ == self@,
    {
        let copy = Labels(self.0.clone());
        proof {
            assert(copy@ =~= self@);
        }
        copy
    }
}

/// Every label takes at least one byte and at most 191: a name of such
/// labels reads back as it was written. A label without text would read as
/// the name's end, and a length of 192 or more as a pointer.
pub open spec fn plain(labels: Seq<Seq<char>>) -> bool {
    forall|i: int| 0 <= i < labels.len() ==> 1 <= (#[trigger] encode_utf8(labels[i])).len() <= 191
}

/// The bytes of the labels' texts, one by one.
pub open spec fn label_bytes(labels: Seq<Seq<char>>) -> Seq<Seq<u8>> {
    labels.map_values(|text: Seq<char>| encode_utf8(text))
}

/// The labels on the wire are the first label followed by the others.
pub proof fn lemma_body_wire_first(labels: Seq<Seq<char>>)
    requires
        labels.len() > 0,
    ensures
        body_wire(labels) == label_wire(labels.first()) + body_wire(labels.drop_first()),
    decreases labels.len(),
{
    if labels.len() == 1 {
        assert(labels.drop_last() =~= seq![]);
        assert(labels.drop_first() =~= seq![]);
        assert(body_wire(labels.drop_last()) =~= seq![]);
        assert(body_wire(labels.drop_first()) =~= seq![]);
        assert(labels.first() == labels.last());
        assert(body_wire(labels) =~= label_wire(labels.first()) + body_wire(labels.drop_first()));
    } else {
        lemma_body_wire_first(labels.drop_last());
        assert(labels.drop_last().drop_first() =~= labels.drop_first().drop_last());
        assert(labels.drop_last().first() == labels.first());
        assert(labels.drop_first().last() == labels.last());
        assert(body_wire(labels) =~= label_wire(labels.first()) + body_wire(labels.drop_first()));
    }
}

/// A name on the wire is its first label followed by the rest of the name.
pub proof fn lemma_name_wire_first(labels: Seq<Seq<char>>)
    requires
        labels.len() > 0,
    ensures
        name_wire(labels) == label_wire(labels.first()) + name_wire(labels.drop_first()),
{
    lemma_body_wire_first(labels);
    assert(name_wire(labels) =~= label_wire(labels.first()) + name_wire(labels.drop_first()));
}

/// Reading finds a name of plain labels wherever it was written: it gives
/// the labels' bytes and stops behind the name, whatever else the buffer
/// holds and however many pointers it may follow.
pub proof fn lemma_scan_written(buf: Seq<u8>, at: int, labels: Seq<Seq<char>>, hops: nat)
    requires
        plain(labels),
        0 <= at,
        at + name_wire(labels).len() <= buf.len(),
        buf.subrange(at, at + name_wire(labels).len()) == name_wire(labels),
    ensures
        scan_from(buf, at, hops) == (Scan {
            words: label_bytes(labels),
            next: at + name_wire(labels).len(),
            err: None,
        }),
    decreases labels.len(),
{
    let wire = name_wire(labels);
    assert(buf[at] == wire[0]);
    if labels.len() == 0 {
        assert(label_bytes(labels) =~= seq![]);
    } else {
        lemma_name_wire_first(labels);
        let text = encode_utf8(labels.first());
        let rest = labels.drop_first();
        let end = at + 1 + text.len();
        assert(1 <= text.len() <= 191);
        assert(wire[0] == text.len());
        assert(plain(rest)) by {
            assert forall|i: int| 0 <= i < rest.len() implies 1 <= (#[trigger] encode_utf8(
                rest[i],
            )).len() <= 191 by {
                assert(rest[i] == labels[i + 1]);
            }
        }
        assert(buf.subrange(at + 1, end) =~= text) by {
            assert forall|i: int| 0 <= i < text.len() implies buf[at + 1 + i] == text[i] by {
                assert(buf[at + 1 + i] == wire[1 + i]);
            }
        }
        assert(buf.subrange(end, end + name_wire(rest).len()) =~= name_wire(rest)) by {
            assert forall|i: int| 0 <= i < name_wire(rest).len() implies buf[end + i] == name_wire(
                rest,
            )[i] by {
                assert(buf[end + i] == wire[1 + text.len() + i]);
            }
        }
        lemma_scan_written(buf, end, rest, hops);
        assert(label_bytes(labels) =~= seq![text] + label_bytes(rest));
    }
}

/// Reading the texts of labels from their bytes gives the labels back.
pub proof fn lemma_texts_of_bytes(labels: Seq<Seq<char>>)
    ensures
        lossy_texts(label_bytes(labels)) == labels,
{
    assert forall|i: int| 0 <= i < labels.len() implies lossy_text(encode_utf8(labels[i]))
        == labels[i] by {
        vstd::utf8::encode_utf8_valid_utf8(labels[i]);
        vstd::utf8::encode_utf8_decode_utf8(labels[i]);
    }
    assert(lossy_texts(label_bytes(labels)) =~= labels);
}

impl Labels {
    /// Reading a name of plain labels from where it was written gives the
    /// name back and stops behind it, whatever stands before and behind it
    /// in the buffer.
    pub proof fn wire_round_trip(before: Seq<u8>, labels: Seq<Seq<char>>, behind: Seq<u8>)
        requires
            plain(labels),
        ensures
            scan(before + name_wire(labels) + behind, before.len() as int).err.is_none(),
            scan(before + name_wire(labels) + behind, before.len() as int).next == before.len()
                + name_wire(labels).len(),
            lossy_texts(scan(before + name_wire(labels) + behind, before.len() as int).words)
                == labels,
    {
        let buf = before + name_wire(labels) + behind;
        assert(buf.subrange(
            before.len() as int,
            (before.len() + name_wire(labels).len()) as int,
        ) =~= name_wire(labels));
        lemma_scan_written(buf, before.len() as int, labels, buf.len());
        lemma_texts_of_bytes(labels);
    }
}

} // verus!
