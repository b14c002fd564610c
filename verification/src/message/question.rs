use crate::errors::DnsError;
use crate::message::endian::{get_u16, lemma_u16_written, put_u16, u16_at, u16_bytes};
use crate::message::labels::pointer::clip;
use crate::message::labels::{
    lemma_scan_written, lemma_texts_of_bytes, lossy_texts, name_wire, plain, scan, Labels,
};
use crate::message::rr;
use vstd::prelude::*;

verus! {

const METADATA_SIZE: usize = 4;

/// A request for the records of one name, of one type and one class.
#[derive(Debug, Default, PartialEq)]
pub struct Question {
    pub domain: Labels,
    pub qtype: rr::Type,
    pub qclass: rr::Class,
}

/// A question as a value: the texts of its name's labels, its type and its
/// class.
pub ghost struct QuestionView {
    pub domain: Seq<Seq<char>>,
    pub qtype: rr::Type,
    pub qclass: rr::Class,
}

/// What reading one item from a buffer comes to: the item or the error, and
/// where the cursor is left.
pub ghost struct Parsed<T> {
    pub value: Result<T, DnsError>,
    pub next: int,
}

impl QuestionView {
    /// The question on the wire: its name, then its type and its class in
    /// two bytes each.
    pub open spec fn wire(self) -> Seq<u8> {
        name_wire(self.domain) + u16_bytes(self.qtype.code()) + u16_bytes(self.qclass.code())
    }

    /// Reads the question that starts at `at` in `buf`.
    ///
    /// The name comes first. Its failure is the question's, and so is its
    /// cursor then. The four bytes behind it must be inside the buffer. They
    /// are the type and the class, which must both be supported; the type is
    /// looked at first, and the cursor has passed both by then.
    pub open spec fn parse(buf: Seq<u8>, at: int) -> Parsed<QuestionView> {
        let name = scan(buf, at);
        if name.err.is_some() {
            Parsed { value: Err(name.err.unwrap()), next: name.next }
        } else if name.next + 4 > buf.len() {
            Parsed {
                value: Err(
                    DnsError::BufLenSmall { min: clip(name.next + 4), act: buf.len() as usize },
                ),
                next: name.next,
            }
        } else if u16_at(buf, name.next) != 1 {
            Parsed {
                value: Err(
                    DnsError::Unsupported(rr::Error::UnsupportedType(u16_at(buf, name.next))),
                ),
                next: name.next + 4,
            }
        } else if u16_at(buf, name.next + 2) != 1 {
            Parsed {
                value: Err(
                    DnsError::Unsupported(
                        rr::Error::UnsupportedClass(u16_at(buf, name.next + 2)),
                    ),
                ),
                next: name.next + 4,
            }
        } else {
            Parsed {
                value: Ok(
                    QuestionView {
                        domain: lossy_texts(name.words),
                        qtype: rr::Type::A,
                        qclass: rr::Class::In,
                    },
                ),
                next: name.next + 4,
            }
        }
    }
}

impl View for Question {
    type V = QuestionView;

    open spec fn view(&self) -> QuestionView {
        QuestionView { domain: self.domain@, qtype: self.qtype, qclass: self.qclass }
    }
}

impl Question {
    /// Reads the question that starts at `*ptr` in `buf` and moves `*ptr`
    /// as `QuestionView::parse` says: behind the question where one was read.
    pub fn unpack(buf: &[u8], ptr: &mut usize) -> (r: Result<Question, DnsError>)
        ensures
            *final(ptr) == QuestionView::parse(buf@, *old(ptr) as int).next,
            match r {
                Ok(question) => QuestionView::parse(buf@, *old(ptr) as int).value == Ok::<
                    QuestionView,
                    DnsError,
                >(question@),
                Err(e) => QuestionView::parse(buf@, *old(ptr) as int).value == Err::<
                    QuestionView,
                    DnsError,
                >(e),
            },
    {
        let labels = match Labels::unpack(buf, ptr) {
            Ok(labels) => labels,
            Err(e) => {
                return Err(e);
            },
        };
        let at: usize = *ptr;
        if at > buf.len() || buf.len() - at < METADATA_SIZE {
            return Err(
                DnsError::BufLenSmall { min: at.saturating_add(METADATA_SIZE), act: buf.len() },
            );
        }
        let qtype_code = get_u16(buf, at);
        let qclass_code = get_u16(buf, at + 2);
        *ptr = at + METADATA_SIZE;

        let qtype = match rr::Type::try_from(qtype_code) {
            Ok(qtype) => qtype,
            Err(e) => {
                return Err(DnsError::Unsupported(e));
            },
        };
        let qclass = match rr::Class::try_from(qclass_code) {
            Ok(qclass) => qclass,
            Err(e) => {
                return Err(DnsError::Unsupported(e));
            },
        };
        Ok(Question { domain: labels, qtype, qclass })
    }

    /// Writes the question over `buf`, which must have exactly `len()`
    /// bytes. Any other length is refused with `BufLenNotEq`, and `buf`
    /// stays as it is.
    pub fn pack(&self, buf: &mut [u8]) -> (r: Result<(), DnsError>)
        requires
            self@.wire().len() <= usize::MAX,
        ensures
            old(buf)@.len() == self@.wire().len() ==> r.is_ok() && final(buf)@ == self@.wire(),
            old(buf)@.len() != self@.wire().len() ==> final(buf)@ == old(buf)@ && r == Err::<
                (),
                DnsError,
            >(
                DnsError::BufLenNotEq {
                    exp: self@.wire().len() as usize,
                    act: old(buf)@.len() as usize,
                },
            ),
    {
        if buf.len() != self.len() {
            return Err(DnsError::BufLenNotEq { exp: self.len(), act: buf.len() });
        }
        let len = self.domain.len();
        let (name, metadata) = buf.split_at_mut(len);
        match self.domain.pack(name) {
            Ok(()) => {},
            Err(e) => {
                return Err(e);
            },
        }
        put_u16(metadata, 0, self.qtype.into());
        put_u16(metadata, 2, self.qclass.into());
        proof {
            assert(final(buf)@ =~= self@.wire());
        }
        Ok(())
    }

    /// The number of bytes that the question takes on the wire, where a
    /// `usize` can hold it.
    pub fn checked_len(&self) -> (n: Option<usize>)
        ensures
            self@.wire().len() <= usize::MAX ==> n == Some(self@.wire().len() as usize),
            self@.wire().len() > usize::MAX ==> n.is_none(),
    {
        match self.domain.checked_len() {
            Some(n) => n.checked_add(METADATA_SIZE),
            None => None,
        }
    }

    /// The number of bytes that the question takes on the wire: its name
    /// and four more.
    pub fn len(&self) -> (n: usize)
        requires
            self@.wire().len() <= usize::MAX,
        ensures
            n == self@.wire().len(),
    {
        self.domain.len() + METADATA_SIZE
    }
}

impl Clone for Question {
    fn clone(&self) -> (copy: Question)
        ensures
            copy@ == self@,
    {
        Question { domain: self.domain.clone(), qtype: self.qtype, qclass: self.qclass }
    }
}

/// Reading finds a question of plain labels wherever it was written.
pub proof fn lemma_question_written(buf: Seq<u8>, at: int, question: QuestionView)
    requires
        plain(question.domain),
        0 <= at,
        at + question.wire().len() <= buf.len(),
        buf.subrange(at, at + question.wire().len()) == question.wire(),
    ensures
        QuestionView::parse(buf, at) == (Parsed {
            value: Ok::<QuestionView, DnsError>(question),
            next: at + question.wire().len(),
        }),
{
    let wire = question.wire();
    let name = name_wire(question.domain);
    let n = name.len() as int;
    assert forall|i: int| 0 <= i < wire.len() implies buf[at + i] == wire[i] by {
        assert(buf.subrange(at, at + wire.len())[i] == wire[i]);
    }
    assert(buf.subrange(at, at + n) =~= name) by {
        assert forall|i: int| 0 <= i < n implies buf[at + i] == name[i] by {
            assert(wire[i] == name[i]);
        }
    }
    lemma_scan_written(buf, at, question.domain, buf.len());
    lemma_texts_of_bytes(question.domain);
    assert(buf[at + n] == wire[n] && buf[at + n + 1] == wire[n + 1]);
    assert(buf[at + n + 2] == wire[n + 2] && buf[at + n + 3] == wire[n + 3]);
    lemma_u16_written(buf, at + n, question.qtype.code());
    lemma_u16_written(buf, at + n + 2, question.qclass.code());
}

impl QuestionView {
    /// Reading a question of plain labels from where it was written gives
    /// the question back and stops behind it, whatever stands before and
    /// behind it in the buffer.
    pub proof fn wire_round_trip(self, before: Seq<u8>, behind: Seq<u8>)
        requires
            plain(self.domain),
        ensures
            QuestionView::parse(before + self.wire() + behind, before.len() as int) == (Parsed {
                value: Ok::<QuestionView, DnsError>(self),
                next: (before.len() + self.wire().len()) as int,
            }),
    {
        let buf = before + self.wire() + behind;
        assert(buf.subrange(before.len() as int, (before.len() + self.wire().len()) as int)
            =~= self.wire());
        lemma_question_written(buf, before.len() as int, self);
    }
}

} // verus!
