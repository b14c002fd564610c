use crate::errors::DnsError;
use crate::message::header::{Header, Indicator, ResponseCode, DNS_HEADER_SIZE};
use crate::message::question::Question;
use crate::message::answer::AnswerView;
use crate::message::{
    answer_views, answers_wire, question_views, questions_wire, Message, MessageView,
};
use vstd::prelude::*;

verus! {

/// The state of a query that is being forwarded, question by question, to
/// an upstream server.
///
/// `msg` is the response as far as it has been put together, `template` the
/// header under which each question is sent upstream, `asked` the number of
/// questions sent so far. `stopped` is set once the upstream has reported a
/// failure.
#[derive(Debug)]
pub struct Forwarding {
    pub msg: Message,
    pub template: Header,
    pub asked: usize,
    pub stopped: bool,
}

/// The state of a forwarding as a value.
pub ghost struct ForwardingView {
    pub msg: MessageView,
    pub template: Header,
    pub asked: nat,
    pub stopped: bool,
}

impl ForwardingView {
    /// The state in which forwarding `msg` begins: nothing asked yet, and
    /// every request to announce one question under the header of `msg`.
    ///
    /// The count of answers that `msg` came with is not trusted: the
    /// response starts out counting the answers that `msg` holds, as far as
    /// sixteen bits can count them.
    pub open spec fn start(msg: MessageView) -> ForwardingView {
        ForwardingView {
            msg: MessageView {
                header: Header { ancount: (msg.answers.len() % 0x10000) as u16, ..msg.header },
                ..msg
            },
            template: Header { qdcount: 1, ..msg.header },
            asked: 0,
            stopped: false,
        }
    }

    /// The response counts the answers that it holds, as far as sixteen
    /// bits can count them.
    pub open spec fn counts_answers(self) -> bool {
        self.msg.header.ancount == self.msg.answers.len() % 0x10000
    }

    /// Nothing is left to ask: the upstream has failed, or every question
    /// has been asked.
    pub open spec fn finished(self) -> bool {
        self.stopped || self.asked >= self.msg.questions.len()
    }

    /// The request that goes upstream next: the next question alone.
    pub open spec fn request(self) -> MessageView {
        MessageView {
            header: self.template,
            questions: seq![self.msg.questions[self.asked as int]],
            answers: seq![],
        }
    }

    /// The state once the request has gone out.
    pub open spec fn asked_one(self) -> ForwardingView {
        ForwardingView { asked: self.asked + 1, ..self }
    }

    /// What a reply of the upstream makes of the state.
    ///
    /// A reply that reports a failure hands its status to the response and
    /// ends the asking; the answers gathered before stay. A reply that
    /// reports success must announce an answer, else `ResolverFailed`, and
    /// hold one, else `ResolverNoAnsw`. Its last answer joins the response,
    /// whose count of answers goes up by one and starts again at zero behind
    /// the largest count.
    pub open spec fn fold(self, reply: MessageView) -> Result<ForwardingView, DnsError> {
        if reply.header.rcode != ResponseCode::NoError {
            Ok(
                ForwardingView {
                    msg: MessageView {
                        header: Header { rcode: reply.header.rcode, ..self.msg.header },
                        ..self.msg
                    },
                    stopped: true,
                    ..self
                },
            )
        } else if reply.header.ancount == 0 {
            Err(DnsError::ResolverFailed(reply.header))
        } else if reply.answers.len() == 0 {
            Err(DnsError::ResolverNoAnsw)
        } else {
            Ok(
                ForwardingView {
                    msg: MessageView {
                        header: Header {
                            ancount: if self.msg.header.ancount == 0xFFFF {
                                0
                            } else {
                                (self.msg.header.ancount + 1) as u16
                            },
                            ..self.msg.header
                        },
                        answers: self.msg.answers.push(reply.answers.last()),
                        ..self.msg
                    },
                    ..self
                },
            )
        }
    }

    /// What the bytes of a reply make of the state: they must read as a
    /// message, which is then folded in.
    pub open spec fn fold_bytes(self, bytes: Seq<u8>) -> Result<ForwardingView, DnsError> {
        match MessageView::parse(bytes) {
            Ok(reply) => self.fold(reply),
            Err(e) => Err(e),
        }
    }

    /// The response that the forwarding ends with: what has been put
    /// together, marked as a response.
    pub open spec fn finish(self) -> MessageView {
        MessageView { header: Header { qr: Indicator::Response, ..self.msg.header }, ..self.msg }
    }
}

impl View for Forwarding {
    type V = ForwardingView;

    open spec fn view(&self) -> ForwardingView {
        ForwardingView {
            msg: self.msg@,
            template: self.template,
            asked: self.asked as nat,
            stopped: self.stopped,
        }
    }
}

impl Forwarding {
    /// Begins to forward `msg`.
    pub fn start(msg: Message) -> (state: Forwarding)
        ensures
            state@ == ForwardingView::start(msg@),
    {
        let mut template = msg.header;
        template.qdcount = 1;
        let mut msg = msg;
        msg.header.ancount = (msg.answers.len() % 0x10000) as u16;
        Forwarding { msg, template, asked: 0, stopped: false }
    }

    /// Whether `request` can be called: nothing is left to ask, or a
    /// `usize` can hold the length of the request that goes out next.
    pub fn request_fits(&self) -> (ok: bool)
        ensures
            ok == (!self@.finished() ==> self@.request().wire().len() <= usize::MAX),
    {
        if self.stopped || self.asked >= self.msg.questions.len() {
            return true;
        }
        proof {
            let request = self@.request();
            self.template.wire_is_twelve_bytes();
            assert(request.questions.drop_last() =~= seq![]);
            assert(questions_wire(request.questions.drop_last()) =~= seq![]);
            assert(questions_wire(request.questions) =~= request.questions[0].wire());
            assert(answers_wire(request.answers) =~= seq![]);
            assert(request.wire().len() == 12 + self.msg.questions@[self.asked as int]@.wire().len());
        }
        match self.msg.questions[self.asked].checked_len() {
            Some(len) => len.checked_add(DNS_HEADER_SIZE).is_some(),
            None => false,
        }
    }

    /// The bytes to send upstream next, or `None` once nothing is left to
    /// ask. A request handed out counts as asked.
    pub fn request(&mut self) -> (r: Option<Vec<u8>>)
        requires
            !old(self)@.finished() ==> old(self)@.request().wire().len() <= usize::MAX,
        ensures
            old(self)@.finished() ==> r.is_none() && final(self)@ == old(self)@,
            !old(self)@.finished() ==> r.is_some() && r.unwrap()@ == old(self)@.request().wire()
                && final(self)@ == old(self)@.asked_one(),
    {
        if self.stopped || self.asked >= self.msg.questions.len() {
            return None;
        }
        let mut questions: Vec<Question> = Vec::new();
        questions.push(self.msg.questions[self.asked].clone());
        let template = Message { header: self.template, questions, answers: Vec::new() };
        proof {
            assert(question_views(template.questions@) =~= seq![
                self@.msg.questions[self.asked as int],
            ]);
            assert(answer_views(template.answers@) =~= seq![]);
        }
        match template.pack() {
            Ok(bytes) => {
                self.asked += 1;
                Some(bytes)
            },
            Err(_) => None,
        }
    }

    /// Whether a request went out: fails with `ResolverNoRecv` where no
    /// byte of it was accepted for sending.
    pub fn sent(size: usize) -> (r: Result<(), DnsError>)
        ensures
            size > 0 ==> r.is_ok(),
            size == 0 ==> r == Err::<(), DnsError>(DnsError::ResolverNoRecv),
    {
        if size > 0 {
            Ok(())
        } else {
            Err(DnsError::ResolverNoRecv)
        }
    }

    /// Folds a reply of the upstream into the state, as
    /// `ForwardingView::fold` describes it.
    pub fn fold(self, reply: Message) -> (r: Result<Forwarding, DnsError>)
        ensures
            match r {
                Ok(state) => self@.fold(reply@) == Ok::<ForwardingView, DnsError>(state@),
                Err(e) => self@.fold(reply@) == Err::<ForwardingView, DnsError>(e),
            },
    {
        let mut state = self;
        let Message { header, questions: _, mut answers } = reply;

        if header.rcode != ResponseCode::NoError {
            state.msg.header.rcode = header.rcode;
            state.stopped = true;
            return Ok(state);
        }
        if header.ancount == 0 {
            return Err(DnsError::ResolverFailed(header));
        }
        let answer = match answers.pop() {
            Some(answer) => answer,
            None => {
                return Err(DnsError::ResolverNoAnsw);
            },
        };
        proof {
            assert(answer_views(reply.answers@).last() == answer@);
            assert(answer_views(state.msg.answers@.push(answer)) =~= answer_views(
                state.msg.answers@,
            ).push(answer@));
        }
        state.msg.answers.push(answer);
        state.msg.header.ancount = state.msg.header.ancount.wrapping_add(1);
        Ok(state)
    }

    /// Reads the bytes of a reply and folds it into the state, as
    /// `ForwardingView::fold_bytes` describes it.
    pub fn reply(self, bytes: &[u8]) -> (r: Result<Forwarding, DnsError>)
        ensures
            match r {
                Ok(state) => self@.fold_bytes(bytes@) == Ok::<ForwardingView, DnsError>(state@),
                Err(e) => self@.fold_bytes(bytes@) == Err::<ForwardingView, DnsError>(e),
            },
    {
        match Message::unpack(bytes) {
            Ok(reply) => self.fold(reply),
            Err(e) => Err(e),
        }
    }

    /// The response that the forwarding ends with.
    pub fn finish(self) -> (msg: Message)
        ensures
            msg@ == self@.finish(),
    {
        let mut msg = self.msg;
        msg.header.qr = Indicator::Response;
        msg
    }
}

impl ForwardingView {
    /// A failure that the upstream reports is never an error of the
    /// forwarding: it ends the asking, and the response that the forwarding
    /// then ends with carries the upstream's status.
    pub proof fn upstream_failure_is_passed_on(self, reply: MessageView)
        requires
            reply.header.rcode != ResponseCode::NoError,
        ensures
            self.fold(reply).is_ok(),
            self.fold(reply).unwrap().finished(),
            self.fold(reply).unwrap().finish().header.rcode == reply.header.rcode,
            self.fold(reply).unwrap().finish().header.qr == Indicator::Response,
            self.fold(reply).unwrap().finish().answers == self.msg.answers,
    {
    }

    /// A reply that reports success and announces an answer without holding
    /// one fails the forwarding with `ResolverNoAnsw`.
    pub proof fn missing_answer_is_refused(self, reply: MessageView)
        requires
            reply.header.rcode == ResponseCode::NoError,
            reply.header.ancount > 0,
            reply.answers.len() == 0,
        ensures
            self.fold(reply) == Err::<ForwardingView, DnsError>(DnsError::ResolverNoAnsw),
    {
    }
}

/// What happens to a forwarding: a request goes out, or a reply comes in.
pub ghost enum Step {
    Asked,
    Replied(MessageView),
}

/// The state that forwarding `msg` is in after `steps`, or `None` where a
/// reply has failed it.
pub open spec fn after(msg: MessageView, steps: Seq<Step>) -> Option<ForwardingView>
    decreases steps.len(),
{
    if steps.len() == 0 {
        Some(ForwardingView::start(msg))
    } else {
        match after(msg, steps.drop_last()) {
            None => None,
            Some(state) => match steps.last() {
                Step::Asked => Some(state.asked_one()),
                Step::Replied(reply) => match state.fold(reply) {
                    Ok(next) => Some(next),
                    Err(_) => None,
                },
            },
        }
    }
}

/// The answers that the last records of the replies from `from` on make.
pub open spec fn last_answers(replies: Seq<MessageView>, from: int) -> Seq<AnswerView> {
    replies.subrange(from, replies.len() as int).map_values(
        |reply: MessageView| reply.answers.last(),
    )
}

impl ForwardingView {
    /// The response that the forwarding ends with from this state on, or
    /// the error that fails it, where `replies[i]` is the upstream's reply
    /// to the request for question `i`: as long as something is left to ask,
    /// a request goes out and its reply is folded in.
    pub open spec fn run(self, replies: Seq<MessageView>) -> Result<MessageView, DnsError>
        decreases self.msg.questions.len() - self.asked,
    {
        if self.finished() {
            Ok(self.finish())
        } else {
            match self.asked_one().fold(replies[self.asked as int]) {
                Ok(next) => next.run(replies),
                Err(e) => Err(e),
            }
        }
    }

    /// Folding a reply in keeps the questions, the requests' header and the
    /// number of questions asked, and a response that counts its answers
    /// still counts them.
    pub proof fn fold_keeps_count(self, reply: MessageView)
        requires
            self.counts_answers(),
            self.fold(reply).is_ok(),
        ensures
            self.fold(reply).unwrap().counts_answers(),
            self.fold(reply).unwrap().msg.questions == self.msg.questions,
            self.fold(reply).unwrap().template == self.template,
            self.fold(reply).unwrap().asked == self.asked,
    {
    }

    /// Whatever happens to a forwarding, the response counts the answers
    /// that it holds, as far as sixteen bits can count them, and so does the
    /// response that the forwarding would end with: the count is that of the
    /// answers wherever they are no more than 65535. The questions stay those
    /// of the query.
    pub proof fn answers_stay_counted(msg: MessageView, steps: Seq<Step>)
        requires
            after(msg, steps).is_some(),
        ensures
            after(msg, steps).unwrap().counts_answers(),
            after(msg, steps).unwrap().msg.questions == msg.questions,
            after(msg, steps).unwrap().finish().questions == msg.questions,
            after(msg, steps).unwrap().finish().header.ancount == after(
                msg,
                steps,
            ).unwrap().finish().answers.len() % 0x10000,
            after(msg, steps).unwrap().finish().answers.len() <= 0xFFFF ==> after(
                msg,
                steps,
            ).unwrap().finish().header.ancount == after(msg, steps).unwrap().finish().answers.len(),
        decreases steps.len(),
    {
        if steps.len() > 0 {
            let before = after(msg, steps.drop_last()).unwrap();
            ForwardingView::answers_stay_counted(msg, steps.drop_last());
            match steps.last() {
                Step::Asked => {},
                Step::Replied(reply) => {
                    before.fold_keeps_count(reply);
                },
            }
        }
    }

    /// From a state that has not been stopped and counts its answers, a
    /// forwarding whose remaining replies each report success, announce an
    /// answer and hold one ends well: its response holds the answers
    /// gathered before and then the last record of each remaining reply.
    pub proof fn lemma_run_gathers(self, replies: Seq<MessageView>)
        requires
            !self.stopped,
            self.asked <= self.msg.questions.len(),
            replies.len() == self.msg.questions.len(),
            self.counts_answers(),
            self.msg.answers.len() + (self.msg.questions.len() - self.asked) <= 0xFFFF,
            forall|i: int|
                self.asked <= i < replies.len() ==> (#[trigger] replies[i]).header.rcode
                    == ResponseCode::NoError && replies[i].header.ancount > 0
                    && replies[i].answers.len() > 0,
        ensures
            self.run(replies).is_ok(),
            self.run(replies).unwrap().questions == self.msg.questions,
            self.run(replies).unwrap().answers == self.msg.answers + last_answers(
                replies,
                self.asked as int,
            ),
            self.run(replies).unwrap().header == (Header {
                qr: Indicator::Response,
                ancount: (self.msg.answers.len() + (self.msg.questions.len() - self.asked)) as u16,
                ..self.msg.header
            }),
        decreases self.msg.questions.len() - self.asked,
    {
        if self.finished() {
            assert(last_answers(replies, self.asked as int) =~= seq![]);
            assert(self.msg.answers + last_answers(replies, self.asked as int)
                =~= self.msg.answers);
        } else {
            let reply = replies[self.asked as int];
            let next = self.asked_one().fold(reply).unwrap();
            next.lemma_run_gathers(replies);
            assert(last_answers(replies, self.asked as int) =~= seq![reply.answers.last()]
                + last_answers(replies, (self.asked + 1) as int));
            assert(self.msg.answers + last_answers(replies, self.asked as int)
                =~= next.msg.answers + last_answers(replies, next.asked as int));
        }
    }

    /// Forwarding a query that holds no answers, whose questions are no
    /// more than 65535 and are each answered upstream by a reply that reports
    /// success, announces an answer and holds one, ends with a response to
    /// the same questions that holds one answer for each question, in the
    /// questions' order, and counts them, whatever count the query came
    /// with. A query without questions is sent nowhere and comes back marked
    /// as a response.
    pub proof fn run_answers_every_question(msg: MessageView, replies: Seq<MessageView>)
        requires
            msg.answers.len() == 0,
            msg.questions.len() <= 0xFFFF,
            replies.len() == msg.questions.len(),
            forall|i: int|
                0 <= i < replies.len() ==> (#[trigger] replies[i]).header.rcode
                    == ResponseCode::NoError && replies[i].header.ancount > 0
                    && replies[i].answers.len() > 0,
        ensures
            ForwardingView::start(msg).run(replies).is_ok(),
            ForwardingView::start(msg).run(replies).unwrap().questions == msg.questions,
            ForwardingView::start(msg).run(replies).unwrap().answers.len() == msg.questions.len(),
            ForwardingView::start(msg).run(replies).unwrap().header == (Header {
                qr: Indicator::Response,
                ancount: msg.questions.len() as u16,
                ..msg.header
            }),
            forall|i: int|
                0 <= i < replies.len() ==> #[trigger] ForwardingView::start(msg).run(
                    replies,
                ).unwrap().answers[i] == replies[i].answers.last(),
    {
        let state = ForwardingView::start(msg);
        state.lemma_run_gathers(replies);
        assert(state.msg.answers + last_answers(replies, 0) =~= last_answers(replies, 0));
    }
}

} // verus!
