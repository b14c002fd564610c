use crate::errors::DnsError;
use crate::message::endian::{
    copy_into, get_u16, get_u32, lemma_u16_written, lemma_u32_written, put_u16, put_u32, u16_at, u16_bytes,
    u32_at, u32_bytes,
};
use crate::message::labels::pointer::clip;
use crate::message::labels::{
    dotted, lemma_scan_written, lemma_texts_of_bytes, lossy_texts, name_wire, plain,
    scan, Labels,
};
use crate::message::question::{Parsed, Question, QuestionView};
use crate::message::rr;
use vstd::prelude::*;
use vstd::string::StringExecFns;

verus! {

const METADATA_SIZE: usize = 10;

/// The seconds for which a resolved answer may be kept.
pub const DEFAULT_TTL: u32 = 3600;

/// A record that answers a question: whose it is, its type and class, the
/// seconds for which it may be kept, and its payload with the payload's
/// length.
#[derive(Debug, PartialEq)]
pub struct Answer {
    pub name: Labels,
    pub atype: rr::Type,
    pub aclass: rr::Class,
    pub ttl: u32,
    pub length: u16,
    pub data: Vec<u8>,
}

/// An answer as a value.
pub ghost struct AnswerView {
    pub name: Seq<Seq<char>>,
    pub atype: rr::Type,
    pub aclass: rr::Class,
    pub ttl: u32,
    pub length: u16,
    pub data: Seq<u8>,
}

/// The address of a host that is known by name, and the address that stands
/// for every other host.
pub open spec fn address_of(name: Seq<char>) -> Seq<u8> {
    if name == "google.com"@ {
        seq![142u8, 250u8, 188u8, 14u8]
    } else {
        seq![8u8, 8u8, 8u8, 8u8]
    }
}

impl AnswerView {
    /// The length field says how long the payload is.
    pub open spec fn wf(self) -> bool {
        self.length == self.data.len()
    }

    /// The answer on the wire: its name, then type and class in two bytes
    /// each, the time to live in four, the length field in two, and the
    /// payload.
    pub open spec fn wire(self) -> Seq<u8> {
        name_wire(self.name) + u16_bytes(self.atype.code()) + u16_bytes(self.aclass.code())
            + u32_bytes(self.ttl) + u16_bytes(self.length) + self.data
    }

    /// Reads the answer that starts at `at` in `buf`.
    ///
    /// The name comes first; its failure is the answer's, with its cursor.
    /// Behind the name the buffer must hold ten bytes. Type and class must
    /// be supported, the type being looked at first. The payload, as long as
    /// the length field says, must be inside the buffer. The cursor of a
    /// failure behind the name is left behind the name.
    pub open spec fn parse(buf: Seq<u8>, at: int) -> Parsed<AnswerView> {
        let name = scan(buf, at);
        let meta = name.next;
        if name.err.is_some() {
            Parsed { value: Err(name.err.unwrap()), next: name.next }
        } else if meta + 10 > buf.len() {
            Parsed {
                value: Err(DnsError::BufLenSmall { min: clip(meta + 10), act: buf.len() as usize }),
                next: meta,
            }
        } else if u16_at(buf, meta) != 1 {
            Parsed {
                value: Err(DnsError::Unsupported(rr::Error::UnsupportedType(u16_at(buf, meta)))),
                next: meta,
            }
        } else if u16_at(buf, meta + 2) != 1 {
            Parsed {
                value: Err(
                    DnsError::Unsupported(rr::Error::UnsupportedClass(u16_at(buf, meta + 2))),
                ),
                next: meta,
            }
        } else if meta + 10 + u16_at(buf, meta + 8) > buf.len() {
            Parsed {
                value: Err(
                    DnsError::BufLenSmall {
                        min: clip(meta + 10 + u16_at(buf, meta + 8)),
                        act: buf.len() as usize,
                    },
                ),
                next: meta,
            }
        } else {
            Parsed {
                value: Ok(
                    AnswerView {
                        name: lossy_texts(name.words),
                        atype: rr::Type::A,
                        aclass: rr::Class::In,
                        ttl: u32_at(buf, meta + 4),
                        length: u16_at(buf, meta + 8),
                        data: buf.subrange(meta + 10, meta + 10 + u16_at(buf, meta + 8)),
                    },
                ),
                next: meta + 10 + u16_at(buf, meta + 8),
            }
        }
    }

    /// The answer that this library gives to a question by itself: the
    /// address that it has for the question's name, to be kept for the
    /// default time.
    pub open spec fn resolved(question: QuestionView) -> AnswerView {
        AnswerView {
            name: question.domain,
            atype: question.qtype,
            aclass: question.qclass,
            ttl: 3600,
            length: 4,
            data: address_of(dotted(question.domain)),
        }
    }
}

impl View for Answer {
    type V = AnswerView;

    open spec fn view(&self) -> AnswerView {
        AnswerView {
            name: self.name@,
            atype: self.atype,
            aclass: self.aclass,
            ttl: self.ttl,
            length: self.length,
            data: self.data@,
        }
    }
}

impl Answer {
    /// Reads the answer that starts at `*ptr` in `buf` and moves `*ptr` as
    /// `AnswerView::parse` says: behind the answer where one was read.
    pub fn unpack(buf: &[u8], ptr: &mut usize) -> (r: Result<Answer, DnsError>)
        ensures
            *final(ptr) == AnswerView::parse(buf@, *old(ptr) as int).next,
            match r {
                Ok(answer) => AnswerView::parse(buf@, *old(ptr) as int).value == Ok::<
                    AnswerView,
                    DnsError,
                >(answer@),
                Err(e) => AnswerView::parse(buf@, *old(ptr) as int).value == Err::<
                    AnswerView,
                    DnsError,
                >(e),
            },
    {
        let name = match Labels::unpack(buf, ptr) {
            Ok(name) => name,
            Err(e) => {
                return Err(e);
            },
        };
        let mut at: usize = *ptr;
        if at > buf.len() || buf.len() - at < METADATA_SIZE {
            return Err(
                DnsError::BufLenSmall { min: at.saturating_add(METADATA_SIZE), act: buf.len() },
            );
        }
        let atype = match rr::Type::try_from(get_u16(buf, at)) {
            Ok(atype) => atype,
            Err(e) => {
                return Err(DnsError::Unsupported(e));
            },
        };
        let aclass = match rr::Class::try_from(get_u16(buf, at + 2)) {
            Ok(aclass) => aclass,
            Err(e) => {
                return Err(DnsError::Unsupported(e));
            },
        };
        let ttl = get_u32(buf, at + 4);
        let length = get_u16(buf, at + 8);
        at += METADATA_SIZE;

        let size: usize = length as usize;
        if buf.len() - at < size {
            return Err(DnsError::BufLenSmall { min: at.saturating_add(size), act: buf.len() });
        }
        let mut data: Vec<u8> = Vec::with_capacity(size);
        data.extend_from_slice(&buf[at..at + size]);
        proof {
            assert(data@ =~= buf@.subrange(at as int, at + size));
        }
        *ptr = at + size;

        Ok(Answer { name, atype, aclass, ttl, length, data })
    }

    /// Writes the answer over `buf`, which must have exactly `len()` bytes.
    /// Any other length is refused with `BufLenNotEq`, and `buf` stays as it
    /// is.
    pub fn pack(&self, buf: &mut [u8]) -> (r: Result<(), DnsError>)
        requires
            self@.wire().len() <= usize::MAX,
        ensures
            old(buf)@.len() == self@.wire().len() ==> r.is_ok() && final(buf)@ == self@.wire(),
            old(buf)@.len() != self@.wire().len() ==> final(buf)@ == old(buf)@ && r == Err::<
                (),
                DnsError,
            >(
                DnsError::BufLenNotEq {
                    exp: self@.wire().len() as usize,
                    act: old(buf)@.len() as usize,
                },
            ),
    {
        if buf.len() != self.len() {
            return Err(DnsError::BufLenNotEq { exp: self.len(), act: buf.len() });
        }
        let next = self.name.len();
        let (name, rest) = buf.split_at_mut(next);
        match self.name.pack(name) {
            Ok(()) => {},
            Err(e) => {
                return Err(e);
            },
        }
        put_u16(rest, 0, self.atype.into());
        put_u16(rest, 2, self.aclass.into());
        put_u32(rest, 4, self.ttl);
        put_u16(rest, 8, self.length);
        copy_into(rest, METADATA_SIZE, self.data.as_slice());
        proof {
            assert(final(buf)@ =~= self@.wire());
        }
        Ok(())
    }

    /// The number of bytes that the answer takes on the wire, where a
    /// `usize` can hold it.
    pub fn checked_len(&self) -> (n: Option<usize>)
        ensures
            self@.wire().len() <= usize::MAX ==> n == Some(self@.wire().len() as usize),
            self@.wire().len() > usize::MAX ==> n.is_none(),
    {
        match self.name.checked_len() {
            Some(n) => match n.checked_add(METADATA_SIZE) {
                Some(n) => n.checked_add(self.data.len()),
                None => None,
            },
            None => None,
        }
    }

    /// The number of bytes that the answer takes on the wire: its name, ten
    /// more, and its payload.
    pub fn len(&self) -> (n: usize)
        requires
            self@.wire().len() <= usize::MAX,
        ensures
            n == self@.wire().len(),
    {
        self.name.len() + METADATA_SIZE + self.data.len()
    }

    /// Answers a question from what this library knows by itself: a host
    /// known by name gets its address, every other host the same stand-in
    /// address.
    pub fn resolve(question: &Question) -> (answer: Answer)
        ensures
            answer@ == AnswerView::resolved(question@),
    {
        let name = question.domain.to_string();
        let known = String::from_str("google.com");
        let data: Vec<u8> = match question.qtype {
            rr::Type::A => {
                if name == known {
                    vec![142, 250, 188, 14]
                } else {
                    vec![8, 8, 8, 8]
                }
            },
        };
        proof {
            assert(data@ =~= address_of(dotted(question@.domain)));
        }
        Answer {
            name: question.domain.clone(),
            atype: question.qtype,
            aclass: question.qclass,
            ttl: DEFAULT_TTL,
            length: 4,
            data,
        }
    }
}

impl Clone for Answer {
    fn clone(&self) -> (copy: Answer)
        ensures
            copy@ == self@,
    {
        let copy = Answer {
            name: self.name.clone(),
            atype: self.atype,
            aclass: self.aclass,
            ttl: self.ttl,
            length: self.length,
            data: self.data.clone(),
        };
        proof {
            assert(copy.data@ =~= self.data@);
        }
        copy
    }
}

/// Reading finds an answer of plain labels, whose length field is right,
/// wherever it was written.
pub proof fn lemma_answer_written(buf: Seq<u8>, at: int, answer: AnswerView)
    requires
        plain(answer.name),
        answer.wf(),
        0 <= at,
        at + answer.wire().len() <= buf.len(),
        buf.subrange(at, at + answer.wire().len()) == answer.wire(),
    ensures
        AnswerView::parse(buf, at) == (Parsed {
            value: Ok::<AnswerView, DnsError>(answer),
            next: at + answer.wire().len(),
        }),
{
    let wire = answer.wire();
    let name = name_wire(answer.name);
    let n = name.len() as int;
    assert forall|i: int| 0 <= i < wire.len() implies buf[at + i] == wire[i] by {
        assert(buf.subrange(at, at + wire.len())[i] == wire[i]);
    }
    assert(buf.subrange(at, at + n) =~= name) by {
        assert forall|i: int| 0 <= i < n implies buf[at + i] == name[i] by {
            assert(wire[i] == name[i]);
        }
    }
    lemma_scan_written(buf, at, answer.name, buf.len());
    lemma_texts_of_bytes(answer.name);
    assert(buf[at + n] == wire[n] && buf[at + n + 1] == wire[n + 1]);
    assert(buf[at + n + 2] == wire[n + 2] && buf[at + n + 3] == wire[n + 3]);
    assert(buf[at + n + 4] == wire[n + 4] && buf[at + n + 5] == wire[n + 5]);
    assert(buf[at + n + 6] == wire[n + 6] && buf[at + n + 7] == wire[n + 7]);
    assert(buf[at + n + 8] == wire[n + 8] && buf[at + n + 9] == wire[n + 9]);
    lemma_u16_written(buf, at + n, answer.atype.code());
    lemma_u16_written(buf, at + n + 2, answer.aclass.code());
    lemma_u32_written(buf, at + n + 4, answer.ttl);
    lemma_u16_written(buf, at + n + 8, answer.length);
    assert(buf.subrange(at + n + 10, at + n + 10 + answer.length) =~= answer.data) by {
        assert forall|i: int| 0 <= i < answer.data.len() implies buf[at + n + 10 + i]
            == answer.data[i] by {
            assert(wire[n + 10 + i] == answer.data[i]);
        }
    }
}

impl AnswerView {
    /// Reading an answer of plain labels, whose length field is right, from
    /// where it was written gives the answer back and stops behind it,
    /// whatever stands before and behind it in the buffer.
    pub proof fn wire_round_trip(self, before: Seq<u8>, behind: Seq<u8>)
        requires
            plain(self.name),
            self.wf(),
        ensures
            AnswerView::parse(before + self.wire() + behind, before.len() as int) == (Parsed {
                value: Ok::<AnswerView, DnsError>(self),
                next: (before.len() + self.wire().len()) as int,
            }),
    {
        let buf = before + self.wire() + behind;
        assert(buf.subrange(before.len() as int, (before.len() + self.wire().len()) as int)
            =~= self.wire());
        lemma_answer_written(buf, before.len() as int, self);
    }
}

} // verus!
