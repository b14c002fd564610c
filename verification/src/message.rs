use crate::errors::DnsError;
use crate::message::answer::{lemma_answer_written, Answer, AnswerView};
use crate::message::endian::overlay;
use crate::message::header::{Header, Indicator, ResponseCode, DNS_HEADER_SIZE};
use crate::message::labels::plain;
use crate::message::question::{lemma_question_written, Parsed, Question, QuestionView};
use vstd::prelude::*;

pub mod answer;
pub mod endian;
pub mod header;
pub mod labels;
pub mod question;
pub mod resolver;
pub mod rr;

verus! {

/// A whole message: its header, its questions and its answers.
#[derive(Debug)]
pub struct Message {
    pub header: Header,
    pub questions: Vec<Question>,
    pub answers: Vec<Answer>,
}

/// A message as a value.
pub ghost struct MessageView {
    pub header: Header,
    pub questions: Seq<QuestionView>,
    pub answers: Seq<AnswerView>,
}

/// Questions as values, one by one.
pub open spec fn question_views(questions: Seq<Question>) -> Seq<QuestionView> {
    questions.map_values(|question: Question| question@)
}

/// Answers as values, one by one.
pub open spec fn answer_views(answers: Seq<Answer>) -> Seq<AnswerView> {
    answers.map_values(|answer: Answer| answer@)
}

/// The questions on the wire, one after the other.
pub open spec fn questions_wire(questions: Seq<QuestionView>) -> Seq<u8>
    decreases questions.len(),
{
    if questions.len() == 0 {
        seq![]
    } else {
        questions_wire(questions.drop_last()) + questions.last().wire()
    }
}

/// The answers on the wire, one after the other.
pub open spec fn answers_wire(answers: Seq<AnswerView>) -> Seq<u8>
    decreases answers.len(),
{
    if answers.len() == 0 {
        seq![]
    } else {
        answers_wire(answers.drop_last()) + answers.last().wire()
    }
}

/// What was read before, followed by what was read then; the first failure
/// is the failure of the whole.
pub open spec fn followed_by<T>(seen: Seq<T>, then: Parsed<Seq<T>>) -> Parsed<Seq<T>> {
    match then.value {
        Ok(rest) => Parsed { value: Ok(seen + rest), next: then.next },
        Err(e) => Parsed { value: Err(e), next: then.next },
    }
}

/// Reads `count` questions, one behind the other, the first at `at`. The
/// first that fails ends the reading.
pub open spec fn parse_questions(buf: Seq<u8>, at: int, count: nat) -> Parsed<Seq<QuestionView>>
    decreases count,
{
    if count == 0 {
        Parsed { value: Ok(seq![]), next: at }
    } else {
        let first = QuestionView::parse(buf, at);
        match first.value {
            Ok(question) => followed_by(
                seq![question],
                parse_questions(buf, first.next, (count - 1) as nat),
            ),
            Err(e) => Parsed { value: Err(e), next: first.next },
        }
    }
}

/// Reads `count` answers, one behind the other, the first at `at`. The first
/// that fails ends the reading.
pub open spec fn parse_answers(buf: Seq<u8>, at: int, count: nat) -> Parsed<Seq<AnswerView>>
    decreases count,
{
    if count == 0 {
        Parsed { value: Ok(seq![]), next: at }
    } else {
        let first = AnswerView::parse(buf, at);
        match first.value {
            Ok(answer) => followed_by(
                seq![answer],
                parse_answers(buf, first.next, (count - 1) as nat),
            ),
            Err(e) => Parsed { value: Err(e), next: first.next },
        }
    }
}

/// The first questions take no more room than all of them.
pub proof fn lemma_questions_wire_grows(questions: Seq<QuestionView>, n: int)
    requires
        0 <= n <= questions.len(),
    ensures
        questions_wire(questions.take(n)).len() <= questions_wire(questions).len(),
    decreases questions.len(),
{
    if n == questions.len() {
        assert(questions.take(n) =~= questions);
    } else {
        assert(questions.take(n) =~= questions.drop_last().take(n));
        lemma_questions_wire_grows(questions.drop_last(), n);
    }
}

/// The first answers take no more room than all of them.
pub proof fn lemma_answers_wire_grows(answers: Seq<AnswerView>, n: int)
    requires
        0 <= n <= answers.len(),
    ensures
        answers_wire(answers.take(n)).len() <= answers_wire(answers).len(),
    decreases answers.len(),
{
    if n == answers.len() {
        assert(answers.take(n) =~= answers);
    } else {
        assert(answers.take(n) =~= answers.drop_last().take(n));
        lemma_answers_wire_grows(answers.drop_last(), n);
    }
}

/// One more question on the wire stands behind those before it, and still
/// inside the room that all of them take.
pub proof fn lemma_questions_wire_step(questions: Seq<QuestionView>, n: int)
    requires
        0 <= n < questions.len(),
    ensures
        questions_wire(questions.take(n + 1)) == questions_wire(questions.take(n))
            + questions[n].wire(),
        questions_wire(questions.take(n + 1)).len() == questions_wire(questions.take(n)).len()
            + questions[n].wire().len(),
        questions_wire(questions.take(n + 1)).len() <= questions_wire(questions).len(),
{
    lemma_questions_wire_grows(questions, n + 1);
    assert(questions.take(n + 1).drop_last() =~= questions.take(n));
    assert(questions.take(n + 1).last() == questions[n]);
}

/// One more answer on the wire stands behind those before it, and still
/// inside the room that all of them take.
pub proof fn lemma_answers_wire_step(answers: Seq<AnswerView>, n: int)
    requires
        0 <= n < answers.len(),
    ensures
        answers_wire(answers.take(n + 1)) == answers_wire(answers.take(n)) + answers[n].wire(),
        answers_wire(answers.take(n + 1)).len() == answers_wire(answers.take(n)).len()
            + answers[n].wire().len(),
        answers_wire(answers.take(n + 1)).len() <= answers_wire(answers).len(),
{
    lemma_answers_wire_grows(answers, n + 1);
    assert(answers.take(n + 1).drop_last() =~= answers.take(n));
    assert(answers.take(n + 1).last() == answers[n]);
}

/// Writes `question` over the bytes of `buf` that start at `at`.
fn pack_question_at(question: &Question, buf: &mut [u8], at: usize) -> (r: Result<(), DnsError>)
    requires
        at + question@.wire().len() <= old(buf)@.len(),
    ensures
        r.is_ok(),
        final(buf)@ == overlay(old(buf)@, at as int, question@.wire()),
{
    assert(buf.len() <= usize::MAX);
    let (_, tail) = buf.split_at_mut(at);
    let (part, _) = tail.split_at_mut(question.len());
    let r = question.pack(part);
    proof {
        assert(final(buf)@ =~= overlay(old(buf)@, at as int, question@.wire()));
    }
    r
}

/// Writes `answer` over the bytes of `buf` that start at `at`.
fn pack_answer_at(answer: &Answer, buf: &mut [u8], at: usize) -> (r: Result<(), DnsError>)
    requires
        at + answer@.wire().len() <= old(buf)@.len(),
    ensures
        r.is_ok(),
        final(buf)@ == overlay(old(buf)@, at as int, answer@.wire()),
{
    assert(buf.len() <= usize::MAX);
    let (_, tail) = buf.split_at_mut(at);
    let (part, _) = tail.split_at_mut(answer.len());
    let r = answer.pack(part);
    proof {
        assert(final(buf)@ =~= overlay(old(buf)@, at as int, answer@.wire()));
    }
    r
}

impl MessageView {
    /// The message on the wire: header, questions, answers.
    pub open spec fn wire(self) -> Seq<u8> {
        self.header.wire() + questions_wire(self.questions) + answers_wire(self.answers)
    }

    /// A message takes twelve bytes for its header, and the room of its
    /// questions and of its answers.
    pub proof fn wire_len(self)
        ensures
            self.wire().len() == 12 + questions_wire(self.questions).len() + answers_wire(
                self.answers,
            ).len(),
    {
        self.header.wire_is_twelve_bytes();
    }

    /// Reads a message from `buf`: the header, then as many questions as
    /// the header counts, then, in a response only, as many answers as it
    /// counts. A query has no answers, whatever its header counts.
    pub open spec fn parse(buf: Seq<u8>) -> Result<MessageView, DnsError> {
        match Header::parse(buf) {
            Err(e) => Err(e),
            Ok(header) => {
                let questions = parse_questions(buf, 12, header.qdcount as nat);
                match questions.value {
                    Err(e) => Err(e),
                    Ok(qs) => {
                        if header.qr == Indicator::Query {
                            Ok(MessageView { header, questions: qs, answers: seq![] })
                        } else {
                            match parse_answers(buf, questions.next, header.ancount as nat).value {
                                Err(e) => Err(e),
                                Ok(ans) => Ok(MessageView { header, questions: qs, answers: ans }),
                            }
                        }
                    },
                }
            },
        }
    }
}

impl MessageView {
    /// The response that this library gives to a query by itself: every
    /// question answered, in the questions' order, as many answers announced
    /// as questions were, and the status `NoError` for a standard query and
    /// `NotImplemented` for any other kind.
    pub open spec fn resolved(self) -> MessageView {
        MessageView {
            header: Header {
                qr: Indicator::Response,
                ancount: self.header.qdcount,
                rcode: if self.header.opcode == 0 {
                    ResponseCode::NoError
                } else {
                    ResponseCode::NotImplemented
                },
                ..self.header
            },
            questions: self.questions,
            answers: self.questions.map_values(|question: QuestionView| AnswerView::resolved(question)),
        }
    }
}

impl View for Message {
    type V = MessageView;

    open spec fn view(&self) -> MessageView {
        MessageView {
            header: self.header,
            questions: question_views(self.questions@),
            answers: answer_views(self.answers@),
        }
    }
}

impl Default for Message {
    /// The blank header and nothing else.
    fn default() -> (msg: Message)
        ensures
            msg@ == (MessageView { header: Header::blank(), questions: seq![], answers: seq![] }),
    {
        let msg = Message { header: Header::default(), questions: Vec::new(), answers: Vec::new() };
        proof {
            assert(question_views(msg.questions@) =~= seq![]);
            assert(answer_views(msg.answers@) =~= seq![]);
        }
        msg
    }
}

impl Message {
    /// Reads a message from `query`, as `MessageView::parse` describes it.
    pub fn unpack(query: &[u8]) -> (r: Result<Message, DnsError>)
        ensures
            match r {
                Ok(msg) => MessageView::parse(query@) == Ok::<MessageView, DnsError>(msg@),
                Err(e) => MessageView::parse(query@) == Err::<MessageView, DnsError>(e),
            },
    {
        let header = match Header::unpack(query) {
            Ok(header) => header,
            Err(e) => {
                return Err(e);
            },
        };
        let mut ptr: usize = DNS_HEADER_SIZE;
        let mut questions: Vec<Question> = Vec::new();
        let mut i: u16 = 0;
        let ghost all_questions = parse_questions(query@, 12, header.qdcount as nat);
        proof {
            assert(question_views(questions@) =~= seq![]);
        }
        while i < header.qdcount
            invariant
                i <= header.qdcount,
                Header::parse(query@) == Ok::<Header, DnsError>(header),
                all_questions == parse_questions(query@, 12, header.qdcount as nat),
                all_questions == followed_by(
                    question_views(questions@),
                    parse_questions(query@, ptr as int, (header.qdcount - i) as nat),
                ),
            decreases header.qdcount - i,
        {
            let ghost seen = question_views(questions@);
            let ghost first = QuestionView::parse(query@, ptr as int);
            match Question::unpack(query, &mut ptr) {
                Ok(question) => {
                    proof {
                        let then = parse_questions(
                            query@,
                            first.next,
                            (header.qdcount - i - 1) as nat,
                        );
                        assert(question_views(questions@.push(question)) =~= seen.push(
                            question@,
                        ));
                        if then.value.is_ok() {
                            assert(seen + (seq![question@] + then.value.unwrap()) =~= seen.push(
                                question@,
                            ) + then.value.unwrap());
                        }
                    }
                    questions.push(question);
                },
                Err(e) => {
                    return Err(e);
                },
            }
            i += 1;
        }
        proof {
            assert(question_views(questions@) + Seq::<QuestionView>::empty() =~= question_views(
                questions@,
            ));
        }
        let mut answers: Vec<Answer> = Vec::new();
        proof {
            assert(answer_views(answers@) =~= seq![]);
        }
        match header.qr {
            Indicator::Query => {},
            Indicator::Response => {
                let ghost start = ptr as int;
                let ghost all_answers = parse_answers(query@, start, header.ancount as nat);
                let mut j: u16 = 0;
                while j < header.ancount
                    invariant
                        j <= header.ancount,
                        Header::parse(query@) == Ok::<Header, DnsError>(header),
                        header.qr == Indicator::Response,
                        all_questions == parse_questions(query@, 12, header.qdcount as nat),
                        all_questions.value == Ok::<Seq<QuestionView>, DnsError>(
                            question_views(questions@),
                        ),
                        all_questions.next == start,
                        all_answers == parse_answers(query@, start, header.ancount as nat),
                        all_answers == followed_by(
                            answer_views(answers@),
                            parse_answers(query@, ptr as int, (header.ancount - j) as nat),
                        ),
                    decreases header.ancount - j,
                {
                    let ghost seen = answer_views(answers@);
                    let ghost first = AnswerView::parse(query@, ptr as int);
                    match Answer::unpack(query, &mut ptr) {
                        Ok(answer) => {
                            proof {
                                let then = parse_answers(
                                    query@,
                                    first.next,
                                    (header.ancount - j - 1) as nat,
                                );
                                assert(answer_views(answers@.push(answer)) =~= seen.push(
                                    answer@,
                                ));
                                if then.value.is_ok() {
                                    assert(seen + (seq![answer@] + then.value.unwrap())
                                        =~= seen.push(answer@) + then.value.unwrap());
                                }
                            }
                            answers.push(answer);
                        },
                        Err(e) => {
                            return Err(e);
                        },
                    }
                    j += 1;
                }
                proof {
                    assert(answer_views(answers@) + Seq::<AnswerView>::empty() =~= answer_views(
                        answers@,
                    ));
                }
            },
        }
        Ok(Message { header, questions, answers })
    }

    /// A response that reports a format error and holds nothing else: the
    /// reply to a message that could not be read.
    pub fn new_client_err() -> (msg: Message)
        ensures
            msg@ == (MessageView {
                header: Header { rcode: ResponseCode::FormatError, ..Header::blank() },
                questions: seq![],
                answers: seq![],
            }),
    {
        let mut msg = Message::default();
        msg.header.rcode = ResponseCode::FormatError;
        msg
    }

    /// A response that reports a server failure and holds nothing else: the
    /// reply to a query that could not be resolved.
    pub fn new_server_err() -> (msg: Message)
        ensures
            msg@ == (MessageView {
                header: Header { rcode: ResponseCode::ServerFailure, ..Header::blank() },
                questions: seq![],
                answers: seq![],
            }),
    {
        let mut msg = Message::default();
        msg.header.rcode = ResponseCode::ServerFailure;
        msg
    }

    /// The same message under another id.
    pub fn with_id(self, id: u16) -> (msg: Message)
        ensures
            msg@ == (MessageView { header: Header { id, ..self@.header }, ..self@ }),
    {
        let mut msg = self;
        msg.header.id = id;
        msg
    }

    /// The id in the header.
    pub fn get_id(&self) -> (id: u16)
        ensures
            id == self@.header.id,
    {
        self.header.id
    }

    /// The number of bytes that the message takes on the wire, where a
    /// `usize` can hold it.
    pub fn checked_len(&self) -> (n: Option<usize>)
        ensures
            self@.wire().len() <= usize::MAX ==> n == Some(self@.wire().len() as usize),
            self@.wire().len() > usize::MAX ==> n.is_none(),
    {
        let ghost qs = self@.questions;
        let ghost ans = self@.answers;
        let ghost total = self@.wire().len();
        proof {
            self@.wire_len();
        }
        let mut n: usize = DNS_HEADER_SIZE;
        let mut i: usize = 0;
        while i < self.questions.len()
            invariant
                i <= self.questions@.len(),
                qs == question_views(self.questions@),
                total == self@.wire().len(),
                total == 12 + questions_wire(qs).len() + answers_wire(ans).len(),
                n == 12 + questions_wire(qs.take(i as int)).len(),
            decreases self.questions@.len() - i,
        {
            proof {
                lemma_questions_wire_step(qs, i as int);
                assert(qs[i as int] == self.questions@[i as int]@);
            }
            let next = match self.questions[i].checked_len() {
                Some(next) => next,
                None => {
                    return None;
                },
            };
            n = match n.checked_add(next) {
                Some(n) => n,
                None => {
                    return None;
                },
            };
            i += 1;
        }
        proof {
            assert(qs.take(self.questions@.len() as int) =~= qs);
        }
        let mut j: usize = 0;
        while j < self.answers.len()
            invariant
                j <= self.answers@.len(),
                ans == answer_views(self.answers@),
                total == self@.wire().len(),
                total == 12 + questions_wire(qs).len() + answers_wire(ans).len(),
                n == 12 + questions_wire(qs).len() + answers_wire(ans.take(j as int)).len(),
            decreases self.answers@.len() - j,
        {
            proof {
                lemma_answers_wire_step(ans, j as int);
                assert(ans[j as int] == self.answers@[j as int]@);
            }
            let next = match self.answers[j].checked_len() {
                Some(next) => next,
                None => {
                    return None;
                },
            };
            n = match n.checked_add(next) {
                Some(n) => n,
                None => {
                    return None;
                },
            };
            j += 1;
        }
        proof {
            assert(ans.take(self.answers@.len() as int) =~= ans);
        }
        Some(n)
    }

    /// The number of bytes that the message takes on the wire: twelve for
    /// the header, and the lengths of its questions and answers.
    pub fn len(&self) -> (n: usize)
        requires
            self@.wire().len() <= usize::MAX,
        ensures
            n == self@.wire().len(),
    {
        let ghost qs = self@.questions;
        let ghost ans = self@.answers;
        proof {
            self@.wire_len();
        }
        let mut n: usize = DNS_HEADER_SIZE;
        let mut i: usize = 0;
        while i < self.questions.len()
            invariant
                i <= self.questions@.len(),
                qs == question_views(self.questions@),
                12 + questions_wire(qs).len() <= usize::MAX,
                n == 12 + questions_wire(qs.take(i as int)).len(),
            decreases self.questions@.len() - i,
        {
            proof {
                lemma_questions_wire_step(qs, i as int);
                assert(qs[i as int] == self.questions@[i as int]@);
            }
            n += self.questions[i].len();
            i += 1;
        }
        proof {
            assert(qs.take(self.questions@.len() as int) =~= qs);
        }
        let mut j: usize = 0;
        while j < self.answers.len()
            invariant
                j <= self.answers@.len(),
                ans == answer_views(self.answers@),
                12 + questions_wire(qs).len() + answers_wire(ans).len() <= usize::MAX,
                n == 12 + questions_wire(qs).len() + answers_wire(ans.take(j as int)).len(),
            decreases self.answers@.len() - j,
        {
            proof {
                lemma_answers_wire_step(ans, j as int);
                assert(ans[j as int] == self.answers@[j as int]@);
            }
            n += self.answers[j].len();
            j += 1;
        }
        proof {
            assert(ans.take(self.answers@.len() as int) =~= ans);
        }
        n
    }

    /// The message on the wire, in a buffer of exactly its length: the
    /// header, then each question, then each answer.
    pub fn pack(&self) -> (r: Result<Vec<u8>, DnsError>)
        requires
            self@.wire().len() <= usize::MAX,
        ensures
            r.is_ok(),
            r.unwrap()@ == self@.wire(),
    {
        let ghost qs = self@.questions;
        let ghost ans = self@.answers;
        proof {
            self@.wire_len();
        }
        let len = self.len();

        let mut bytes: Vec<u8> = vec![0u8; len];
        let buf = bytes.as_mut_slice();
        let mut next: usize = DNS_HEADER_SIZE;
        {
            let (head, _) = buf.split_at_mut(next);
            match self.header.pack_to_slice(head) {
                Ok(()) => {},
                Err(e) => {
                    return Err(e);
                },
            }
        }
        let mut wrote: usize = next;

        let mut i: usize = 0;
        while i < self.questions.len()
            invariant
                i <= self.questions@.len(),
                qs == question_views(self.questions@),
                ans == answer_views(self.answers@),
                buf@.len() == len,
                len == 12 + questions_wire(qs).len() + answers_wire(ans).len(),
                wrote == 12 + questions_wire(qs.take(i as int)).len(),
                buf@.subrange(0, wrote as int) == self.header.wire() + questions_wire(
                    qs.take(i as int),
                ),
            decreases self.questions@.len() - i,
        {
            proof {
                lemma_questions_wire_step(qs, i as int);
                assert(qs[i as int] == self.questions@[i as int]@);
            }
            let question = &self.questions[i];
            next = question.len();
            let ghost before = buf@;
            match pack_question_at(question, buf, wrote) {
                Ok(()) => {},
                Err(e) => {
                    return Err(e);
                },
            }
            proof {
                assert(buf@.subrange(0, wrote + next) =~= before.subrange(0, wrote as int)
                    + question@.wire());
            }
            wrote += next;
            i += 1;
        }
        proof {
            assert(qs.take(self.questions@.len() as int) =~= qs);
        }
        let mut j: usize = 0;
        while j < self.answers.len()
            invariant
                j <= self.answers@.len(),
                qs == question_views(self.questions@),
                ans == answer_views(self.answers@),
                buf@.len() == len,
                len == 12 + questions_wire(qs).len() + answers_wire(ans).len(),
                wrote == 12 + questions_wire(qs).len() + answers_wire(ans.take(j as int)).len(),
                buf@.subrange(0, wrote as int) == self.header.wire() + questions_wire(qs)
                    + answers_wire(ans.take(j as int)),
            decreases self.answers@.len() - j,
        {
            proof {
                lemma_answers_wire_step(ans, j as int);
                assert(ans[j as int] == self.answers@[j as int]@);
            }
            let answer = &self.answers[j];
            next = answer.len();
            let ghost before = buf@;
            match pack_answer_at(answer, buf, wrote) {
                Ok(()) => {},
                Err(e) => {
                    return Err(e);
                },
            }
            proof {
                assert(buf@.subrange(0, wrote + next) =~= before.subrange(0, wrote as int)
                    + answer@.wire());
            }
            wrote += next;
            j += 1;
        }
        proof {
            assert(ans.take(self.answers@.len() as int) =~= ans);
            assert(buf@.subrange(0, len as int) =~= buf@);
        }
        Ok(bytes)
    }

    /// Answers the message from what this library knows by itself, as
    /// `MessageView::resolved` describes it.
    pub fn resolve(self) -> (msg: Message)
        ensures
            msg@ == self@.resolved(),
    {
        let mut answers: Vec<Answer> = Vec::new();
        let mut i: usize = 0;
        while i < self.questions.len()
            invariant
                i <= self.questions@.len(),
                answer_views(answers@) == self@.resolved().answers.take(i as int),
            decreases self.questions@.len() - i,
        {
            let answer = Answer::resolve(&self.questions[i]);
            proof {
                assert(answer_views(answers@.push(answer)) =~= answer_views(answers@).push(
                    answer@,
                ));
                assert(self@.resolved().answers.take(i + 1) =~= self@.resolved().answers.take(
                    i as int,
                ).push(answer@));
            }
            answers.push(answer);
            i += 1;
        }
        proof {
            assert(self@.resolved().answers.take(self.questions@.len() as int)
                =~= self@.resolved().answers);
        }
        let mut header = self.header;
        header.qr = Indicator::Response;
        header.ancount = header.qdcount;
        header.rcode = if header.opcode == 0 {
            ResponseCode::NoError
        } else {
            ResponseCode::NotImplemented
        };
        Message { header, questions: self.questions, answers }
    }
}

impl Clone for Message {
    fn clone(&self) -> (copy: Message)
        ensures
            copy@ == self@,
    {
        let copy = Message {
            header: self.header,
            questions: self.questions.clone(),
            answers: self.answers.clone(),
        };
        proof {
            assert(question_views(copy.questions@) =~= question_views(self.questions@));
            assert(answer_views(copy.answers@) =~= answer_views(self.answers@));
        }
        copy
    }
}

/// The questions on the wire are the first question followed by the others.
pub proof fn lemma_questions_wire_first(questions: Seq<QuestionView>)
    requires
        questions.len() > 0,
    ensures
        questions_wire(questions) == questions.first().wire() + questions_wire(
            questions.drop_first(),
        ),
    decreases questions.len(),
{
    if questions.len() == 1 {
        assert(questions.drop_last() =~= seq![]);
        assert(questions.drop_first() =~= seq![]);
        assert(questions_wire(questions.drop_last()) =~= seq![]);
        assert(questions_wire(questions.drop_first()) =~= seq![]);
        assert(questions.first() == questions.last());
        assert(questions_wire(questions) =~= questions.first().wire() + questions_wire(
            questions.drop_first(),
        ));
    } else {
        lemma_questions_wire_first(questions.drop_last());
        assert(questions.drop_last().drop_first() =~= questions.drop_first().drop_last());
        assert(questions.drop_last().first() == questions.first());
        assert(questions.drop_first().last() == questions.last());
        assert(questions_wire(questions) =~= questions.first().wire() + questions_wire(
            questions.drop_first(),
        ));
    }
}

/// The answers on the wire are the first answer followed by the others.
pub proof fn lemma_answers_wire_first(answers: Seq<AnswerView>)
    requires
        answers.len() > 0,
    ensures
        answers_wire(answers) == answers.first().wire() + answers_wire(answers.drop_first()),
    decreases answers.len(),
{
    if answers.len() == 1 {
        assert(answers.drop_last() =~= seq![]);
        assert(answers.drop_first() =~= seq![]);
        assert(answers_wire(answers.drop_last()) =~= seq![]);
        assert(answers_wire(answers.drop_first()) =~= seq![]);
        assert(answers.first() == answers.last());
        assert(answers_wire(answers) =~= answers.first().wire() + answers_wire(
            answers.drop_first(),
        ));
    } else {
        lemma_answers_wire_first(answers.drop_last());
        assert(answers.drop_last().drop_first() =~= answers.drop_first().drop_last());
        assert(answers.drop_last().first() == answers.first());
        assert(answers.drop_first().last() == answers.last());
        assert(answers_wire(answers) =~= answers.first().wire() + answers_wire(
            answers.drop_first(),
        ));
    }
}

/// Every question's labels are plain.
pub open spec fn plain_questions(questions: Seq<QuestionView>) -> bool {
    forall|i: int| 0 <= i < questions.len() ==> plain(#[trigger] questions[i].domain)
}

/// Every answer's labels are plain, and its length field is right.
pub open spec fn plain_answers(answers: Seq<AnswerView>) -> bool {
    forall|i: int|
        0 <= i < answers.len() ==> plain(#[trigger] answers[i].name) && answers[i].wf()
}

/// Reading finds plain questions wherever they were written one behind
/// the other.
pub proof fn lemma_questions_written(buf: Seq<u8>, at: int, questions: Seq<QuestionView>)
    requires
        plain_questions(questions),
        0 <= at,
        at + questions_wire(questions).len() <= buf.len(),
        buf.subrange(at, at + questions_wire(questions).len()) == questions_wire(questions),
    ensures
        parse_questions(buf, at, questions.len()) == (Parsed {
            value: Ok::<Seq<QuestionView>, DnsError>(questions),
            next: at + questions_wire(questions).len(),
        }),
    decreases questions.len(),
{
    if questions.len() == 0 {
        assert(questions =~= seq![]);
    } else {
        let wire = questions_wire(questions);
        let first = questions.first();
        let rest = questions.drop_first();
        let n = first.wire().len() as int;
        lemma_questions_wire_first(questions);
        assert(plain(first.domain));
        assert(plain_questions(rest)) by {
            assert forall|i: int| 0 <= i < rest.len() implies plain(#[trigger] rest[i].domain) by {
                assert(rest[i] == questions[i + 1]);
            }
        }
        assert forall|i: int| 0 <= i < wire.len() implies buf[at + i] == wire[i] by {
            assert(buf.subrange(at, at + wire.len())[i] == wire[i]);
        }
        assert(buf.subrange(at, at + n) =~= first.wire()) by {
            assert forall|i: int| 0 <= i < n implies buf[at + i] == first.wire()[i] by {
                assert(wire[i] == first.wire()[i]);
            }
        }
        assert(buf.subrange(at + n, at + n + questions_wire(rest).len()) =~= questions_wire(
            rest,
        )) by {
            assert forall|i: int| 0 <= i < questions_wire(rest).len() implies buf[at + n + i]
                == questions_wire(rest)[i] by {
                assert(wire[n + i] == questions_wire(rest)[i]);
            }
        }
        lemma_question_written(buf, at, first);
        lemma_questions_written(buf, at + n, rest);
        assert(seq![first] + rest =~= questions);
    }
}

/// Reading finds plain answers wherever they were written one behind the
/// other.
pub proof fn lemma_answers_written(buf: Seq<u8>, at: int, answers: Seq<AnswerView>)
    requires
        plain_answers(answers),
        0 <= at,
        at + answers_wire(answers).len() <= buf.len(),
        buf.subrange(at, at + answers_wire(answers).len()) == answers_wire(answers),
    ensures
        parse_answers(buf, at, answers.len()) == (Parsed {
            value: Ok::<Seq<AnswerView>, DnsError>(answers),
            next: at + answers_wire(answers).len(),
        }),
    decreases answers.len(),
{
    if answers.len() == 0 {
        assert(answers =~= seq![]);
    } else {
        let wire = answers_wire(answers);
        let first = answers.first();
        let rest = answers.drop_first();
        let n = first.wire().len() as int;
        lemma_answers_wire_first(answers);
        assert(plain(first.name) && first.wf());
        assert(plain_answers(rest)) by {
            assert forall|i: int| 0 <= i < rest.len() implies plain(#[trigger] rest[i].name)
                && rest[i].wf() by {
                assert(rest[i] == answers[i + 1]);
            }
        }
        assert forall|i: int| 0 <= i < wire.len() implies buf[at + i] == wire[i] by {
            assert(buf.subrange(at, at + wire.len())[i] == wire[i]);
        }
        assert(buf.subrange(at, at + n) =~= first.wire()) by {
            assert forall|i: int| 0 <= i < n implies buf[at + i] == first.wire()[i] by {
                assert(wire[i] == first.wire()[i]);
            }
        }
        assert(buf.subrange(at + n, at + n + answers_wire(rest).len()) =~= answers_wire(rest)) by {
            assert forall|i: int| 0 <= i < answers_wire(rest).len() implies buf[at + n + i]
                == answers_wire(rest)[i] by {
                assert(wire[n + i] == answers_wire(rest)[i]);
            }
        }
        lemma_answer_written(buf, at, first);
        lemma_answers_written(buf, at + n, rest);
        assert(seq![first] + rest =~= answers);
    }
}

impl MessageView {
    /// The wire can carry the message unchanged: the header's bit fields
    /// fit and its reserved bits are zero, it counts the questions, all
    /// labels are plain, a query has no answers, and a response has as many
    /// as its header counts, each with the right length field.
    pub open spec fn canonical(self) -> bool {
        &&& self.header.wf()
        &&& self.header.z == 0
        &&& self.header.qdcount == self.questions.len()
        &&& plain_questions(self.questions)
        &&& plain_answers(self.answers)
        &&& self.header.qr == Indicator::Query ==> self.answers.len() == 0
        &&& self.header.qr == Indicator::Response ==> self.header.ancount == self.answers.len()
    }

    /// Reading what a canonical message wrote gives the message back.
    pub proof fn wire_round_trip(self)
        requires
            self.canonical(),
        ensures
            MessageView::parse(self.wire()) == Ok::<MessageView, DnsError>(self),
    {
        let buf = self.wire();
        let head = self.header.wire();
        let qs = questions_wire(self.questions);
        let ans = answers_wire(self.answers);
        self.header.wire_round_trip();
        assert(Header::parse(buf) == Header::parse(head)) by {
            assert forall|i: int| 0 <= i < 12 implies buf[i] == head[i] by {}
        }
        let mid = 12 + qs.len() as int;
        assert(buf.subrange(12, mid) =~= qs);
        lemma_questions_written(buf, 12, self.questions);
        assert(buf.subrange(mid, mid + ans.len()) =~= ans);
        lemma_answers_written(buf, mid, self.answers);
        if self.header.qr == Indicator::Query {
            assert(self.answers =~= seq![]);
        }
    }
}

impl MessageView {
    /// A message that counts its questions is resolved into a response
    /// that counts its answers, one for each question.
    pub proof fn resolved_counts(self)
        requires
            self.header.qdcount == self.questions.len(),
        ensures
            self.resolved().header.qr == Indicator::Response,
            self.resolved().header.ancount == self.resolved().header.qdcount,
            self.resolved().header.qdcount == self.resolved().questions.len(),
            self.resolved().header.ancount == self.resolved().answers.len(),
            forall|i: int|
                0 <= i < self.questions.len() ==> #[trigger] self.resolved().answers[i]
                    == AnswerView::resolved(self.questions[i]),
    {
    }
}

/// Questions that were read are as many as were asked for.
pub proof fn lemma_questions_counted(buf: Seq<u8>, at: int, count: nat)
    ensures
        parse_questions(buf, at, count).value.is_ok() ==> parse_questions(
            buf,
            at,
            count,
        ).value.unwrap().len() == count,
    decreases count,
{
    if count > 0 {
        let first = QuestionView::parse(buf, at);
        if first.value.is_ok() {
            lemma_questions_counted(buf, first.next, (count - 1) as nat);
        }
    }
}

/// Answers that were read are as many as were asked for.
pub proof fn lemma_answers_counted(buf: Seq<u8>, at: int, count: nat)
    ensures
        parse_answers(buf, at, count).value.is_ok() ==> parse_answers(
            buf,
            at,
            count,
        ).value.unwrap().len() == count,
    decreases count,
{
    if count > 0 {
        let first = AnswerView::parse(buf, at);
        if first.value.is_ok() {
            lemma_answers_counted(buf, first.next, (count - 1) as nat);
        }
    }
}

impl MessageView {
    /// A message that was read holds as many questions as its header
    /// counts; a response holds as many answers as its header counts, and a
    /// query holds none.
    pub proof fn parsed_counts(buf: Seq<u8>)
        requires
            MessageView::parse(buf).is_ok(),
        ensures
            MessageView::parse(buf).unwrap().header == Header::parse(buf).unwrap(),
            MessageView::parse(buf).unwrap().questions.len() == MessageView::parse(
                buf,
            ).unwrap().header.qdcount,
            MessageView::parse(buf).unwrap().header.qr == Indicator::Query
                ==> MessageView::parse(buf).unwrap().answers.len() == 0,
            MessageView::parse(buf).unwrap().header.qr == Indicator::Response
                ==> MessageView::parse(buf).unwrap().answers.len() == MessageView::parse(
                buf,
            ).unwrap().header.ancount,
    {
        let header = Header::parse(buf).unwrap();
        lemma_questions_counted(buf, 12, header.qdcount as nat);
        let questions = parse_questions(buf, 12, header.qdcount as nat);
        lemma_answers_counted(buf, questions.next, header.ancount as nat);
    }
}

} // verus!
