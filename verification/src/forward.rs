//! The decisions of a single-hop forwarding resolver.
//!
//! One inbound query is split into one upstream query per question. The
//! questions are forwarded strictly in order: the next one is offered only
//! once the reply to the one before has been taken in. When all are through,
//! the collected answers are assembled into the response. Sending and
//! receiving are left to the caller: `start` takes in the query and names
//! the first action, and `step` takes in what happened upstream and names
//! the next, until the action is to respond.

use vstd::prelude::*;
use crate::answer::{answer_wire, Answer, AnswerView};
use crate::error::{DecodeError, EncodeError};
use crate::header::{Header, QRIndicator};
use crate::codec_laws::{lemma_message_decode_encode, lemma_parsed_questions_are_wf};
use crate::message::{
    lemma_parsed_message_counts_agree, message_wire, parse_message, Dns, DnsView,
};
use crate::name::{is_resolved, name_wf, MAX_POINTER_HOPS};
use crate::name_laws::{lemma_name_wire_succeeds, lemma_resolution_is_resolved};
use crate::question::{question_wire, Question, QuestionView};
use crate::traits::{
    lemma_resolve_each_items, lemma_wire_all_succeeds, models, resolve_each, views, wire_all,
    ResolveWithBuffer, WireRead, WireWrite,
};

verus! {

/// The state of one exchange: the inbound header, the resolved questions, the
/// answers gathered so far and how many questions have been dealt with.
#[derive(Debug, PartialEq, Eq)]
pub struct Forwarder {
    pub header: Header,
    pub questions: Vec<Question>,
    pub answers: Vec<Answer>,
    pub next: usize,
}

/// A `Forwarder` as contracts speak of it.
pub struct ForwarderView {
    pub header: Header,
    pub questions: Seq<QuestionView>,
    pub answers: Seq<AnswerView>,
    pub next: nat,
}

impl View for Forwarder {
    type V = ForwarderView;

    open spec fn view(&self) -> ForwarderView {
        ForwarderView {
            header: self.header,
            questions: views(self.questions@),
            answers: views(self.answers@),
            next: self.next as nat,
        }
    }
}

impl Clone for Forwarder {
    fn clone(&self) -> (r: Self)
        ensures
            r@ == self@,
    {
        let questions = self.questions.clone();
        let answers = self.answers.clone();
        assert(views(questions@) =~= views(self.questions@));
        assert(views(answers@) =~= views(self.answers@));
        Forwarder { header: self.header, questions, answers, next: self.next }
    }
}

/// What the caller is to do next.
#[derive(Debug, PartialEq, Eq)]
pub enum Action {
    /// Send this single-question query upstream and report the reply.
    Forward(Vec<u8>),
    /// Send this response to the requester; the exchange is over.
    Respond(Vec<u8>),
}

/// What the caller reports of an upstream exchange.
#[derive(Debug, PartialEq, Eq)]
pub enum Event {
    /// The upstream replied with this datagram.
    Reply(Vec<u8>),
    /// The exchange failed: nothing was sent or nothing came back.
    Failed,
}

/// An `Event` as contracts speak of it.
pub enum EventView {
    Reply(Seq<u8>),
    Failed,
}

impl View for Event {
    type V = EventView;

    open spec fn view(&self) -> EventView {
        match self {
            Event::Reply(bytes) => EventView::Reply(bytes@),
            Event::Failed => EventView::Failed,
        }
    }
}

/// Why an exchange cannot go on.
#[derive(Debug, Clone, Copy, PartialEq, Eq, Structural)]
pub enum ForwardError {
    /// A datagram, inbound or from upstream, could not be decoded.
    Decode(DecodeError),
    /// The next message could not be written.
    Encode(EncodeError),
}

impl ForwarderView {
    /// No more questions are counted as dealt with than there are.
    pub open spec fn wf(self) -> bool {
        self.next <= self.questions.len()
    }

    /// Every question has been dealt with.
    pub open spec fn done(self) -> bool {
        self.next >= self.questions.len()
    }

    /// The query that carries the next question alone: the inbound header,
    /// that question and no answer.
    pub open spec fn pending_query(self) -> DnsView
        recommends
            !self.done(),
    {
        DnsView {
            header: self.header,
            questions: seq![self.questions[self.next as int]],
            answers: Seq::empty(),
        }
    }

    /// The response once every question is dealt with: the inbound header
    /// turned into that of a reply, all questions and all gathered answers.
    pub open spec fn response(self) -> DnsView {
        (DnsView { header: self.header, questions: self.questions, answers: self.answers })
            .expected()
    }

    /// The state after the answers of an upstream reply were taken in.
    pub open spec fn with_reply(self, reply: DnsView) -> ForwarderView {
        ForwarderView { answers: self.answers + reply.answers, next: self.next + 1, ..self }
    }

    /// The state after the pending question was given up.
    pub open spec fn skipped(self) -> ForwarderView {
        ForwarderView { next: self.next + 1, ..self }
    }

    /// The state after `event`: a reply that can be decoded hands in its
    /// answers, a failed exchange gives the pending question up, and a reply
    /// that cannot be decoded ends the exchange.
    pub open spec fn after_event(self, event: EventView) -> Result<ForwarderView, DecodeError> {
        match event {
            EventView::Failed => Ok(self.skipped()),
            EventView::Reply(bytes) => match parse_message(bytes, 0) {
                Ok((reply, _)) => Ok(self.with_reply(reply)),
                Err(e) => Err(e),
            },
        }
    }

    /// Whether `r` is what this state calls for: the query for the pending
    /// question, the response once none is pending, or the reason why that
    /// message cannot be written.
    pub open spec fn calls_for(self, r: Result<Action, ForwardError>) -> bool {
        match r {
            Ok(Action::Forward(bytes)) => !self.done() && self.action_wire() == Ok::<
                Seq<u8>,
                EncodeError,
            >(bytes@),
            Ok(Action::Respond(bytes)) => self.done() && self.action_wire() == Ok::<
                Seq<u8>,
                EncodeError,
            >(bytes@),
            Err(ForwardError::Encode(e)) => self.action_wire() == Err::<Seq<u8>, EncodeError>(e),
            Err(ForwardError::Decode(_)) => false,
        }
    }

    /// The bytes that the next action is to carry in this state, or the
    /// reason why they cannot be written.
    pub open spec fn action_wire(self) -> Result<Seq<u8>, EncodeError> {
        if self.done() {
            message_wire(self.response())
        } else {
            message_wire(self.pending_query())
        }
    }
}

/// The state in which the exchange starts on the inbound `datagram`: its
/// header, its questions resolved against the datagram itself, no answers
/// and no question dealt with.
pub open spec fn received(datagram: Seq<u8>) -> Result<ForwarderView, DecodeError> {
    match parse_message(datagram, 0) {
        Err(e) => Err(e),
        Ok((query, _)) => match resolve_each::<Question>(query.questions, datagram) {
            Err(e) => Err(e),
            Ok(questions) => Ok(
                ForwarderView { header: query.header, questions, answers: Seq::empty(), next: 0 },
            ),
        },
    }
}

impl Forwarder {
    /// Takes in an inbound query: decodes it and resolves the name of every
    /// question against the datagram as it was received.
    pub fn receive(datagram: &[u8]) -> (r: Result<Forwarder, DecodeError>)
        ensures
            match r {
                Ok(state) => received(datagram@) == Ok::<ForwarderView, DecodeError>(state@)
                    && state@.wf(),
                Err(e) => received(datagram@) == Err::<ForwarderView, DecodeError>(e),
            },
    {
        let (query, _) = match Dns::from_bytes(datagram, 0) {
            Ok(pair) => pair,
            Err(e) => {
                return Err(e);
            },
        };
        let header = query.header;
        assert(models(query.questions@) =~= views(query.questions@));
        match query.questions.resolve(datagram) {
            Err(e) => Err(e),
            Ok(questions) => {
                assert(models(questions@) =~= views(questions@));
                let state = Forwarder { header, questions, answers: Vec::new(), next: 0 };
                assert(state@.answers =~= Seq::empty());
                Ok(state)
            },
        }
    }

    /// Whether every question has been dealt with.
    pub fn is_done(&self) -> (r: bool)
        ensures
            r == self@.done(),
    {
        self.next >= self.questions.len()
    }

    /// Says what to do next. While a question is pending, that is to forward
    /// the query that carries it alone; afterwards, to send the response.
    /// Fails exactly when the message in question cannot be written.
    pub fn next_action(&self) -> (r: Result<Action, EncodeError>)
        ensures
            match r {
                Ok(Action::Forward(bytes)) => !self@.done() && self@.action_wire() == Ok::<
                    Seq<u8>,
                    EncodeError,
                >(bytes@),
                Ok(Action::Respond(bytes)) => self@.done() && self@.action_wire() == Ok::<
                    Seq<u8>,
                    EncodeError,
                >(bytes@),
                Err(e) => self@.action_wire() == Err::<Seq<u8>, EncodeError>(e),
            },
    {
        if self.next < self.questions.len() {
            let mut questions: Vec<Question> = Vec::new();
            questions.push(self.questions[self.next].clone());
            let query = Dns { header: self.header, questions, answers: Vec::new() };
            proof {
                assert(query@.questions =~= self@.pending_query().questions);
                assert(query@.answers =~= self@.pending_query().answers);
            }
            match query.to_bytes() {
                Ok(bytes) => Ok(Action::Forward(bytes)),
                Err(e) => Err(e),
            }
        } else {
            let response = self.assemble();
            match response.to_bytes() {
                Ok(bytes) => Ok(Action::Respond(bytes)),
                Err(e) => Err(e),
            }
        }
    }

    /// Takes in the upstream reply to the pending question: all its answers
    /// are added, in order, behind those gathered so far, and the question
    /// counts as dealt with. A reply that cannot be decoded changes nothing.
    pub fn accept_reply(&mut self, reply: &[u8]) -> (r: Result<(), DecodeError>)
        requires
            !old(self)@.done(),
        ensures
            match r {
                Ok(()) => parse_message(reply@, 0) is Ok && final(self)@ == old(self)@.with_reply(
                    parse_message(reply@, 0)->Ok_0.0,
                ) && final(self)@.wf(),
                Err(e) => parse_message(reply@, 0) == Err::<(DnsView, int), DecodeError>(e)
                    && *final(self) == *old(self),
            },
    {
        assert(self.next < self.questions.len());
        match Dns::from_bytes(reply, 0) {
            Err(e) => Err(e),
            Ok((message, _)) => {
                let ghost before = views(self.answers@);
                let ghost added = views(message.answers@);
                let mut answers = message.answers;
                self.answers.append(&mut answers);
                self.next = self.next + 1;
                assert(views(self.answers@) =~= before + added);
                Ok(())
            },
        }
    }

    /// Gives the pending question up: it counts as dealt with, and no answer
    /// is added for it.
    pub fn skip(&mut self)
        requires
            !old(self)@.done(),
        ensures
            final(self)@ == old(self)@.skipped(),
            final(self)@.wf(),
    {
        assert(self.next < self.questions.len());
        self.next = self.next + 1;
    }

    /// Starts an exchange on an inbound query and says what to do first.
    /// Fails exactly when the query cannot be taken in: the first message
    /// can always be written.
    pub fn start(datagram: &[u8]) -> (r: Result<(Forwarder, Action), ForwardError>)
        ensures
            match r {
                Ok((state, action)) => received(datagram@) == Ok::<ForwarderView, DecodeError>(
                    state@,
                ) && state@.wf() && state@.calls_for(Ok::<Action, ForwardError>(action)),
                Err(e) => received(datagram@) is Err && e == ForwardError::Decode(
                    received(datagram@)->Err_0,
                ),
            },
    {
        let state = match Forwarder::receive(datagram) {
            Ok(state) => state,
            Err(e) => {
                return Err(ForwardError::Decode(e));
            },
        };
        proof {
            lemma_first_message_is_writable(datagram@);
        }
        match state.next_action() {
            Ok(action) => Ok((state, action)),
            Err(e) => Err(ForwardError::Encode(e)),
        }
    }

    /// Moves the exchange on by what happened upstream to the pending
    /// question, and says what to do next. A reply that cannot be decoded
    /// changes nothing and is reported.
    pub fn step(&mut self, event: Event) -> (r: Result<Action, ForwardError>)
        requires
            !old(self)@.done(),
        ensures
            match old(self)@.after_event(event@) {
                Err(e) => r == Err::<Action, ForwardError>(ForwardError::Decode(e))
                    && *final(self) == *old(self),
                Ok(next) => final(self)@ == next && next.wf() && next.calls_for(r),
            },
    {
        match event {
            Event::Failed => {
                self.skip();
            },
            Event::Reply(bytes) => {
                match self.accept_reply(bytes.as_slice()) {
                    Ok(()) => {},
                    Err(e) => {
                        return Err(ForwardError::Decode(e));
                    },
                }
            },
        }
        match self.next_action() {
            Ok(action) => Ok(action),
            Err(e) => Err(ForwardError::Encode(e)),
        }
    }

    /// Deals with all pending questions at once by answers that the caller
    /// supplies, for a resolver without an upstream.
    pub fn answer_locally(&mut self, answers: Vec<Answer>)
        ensures
            final(self)@ == (ForwarderView {
                answers: old(self)@.answers + views(answers@),
                next: if old(self)@.done() {
                    old(self)@.next
                } else {
                    old(self)@.questions.len()
                },
                ..old(self)@
            }),
            final(self)@.done(),
    {
        let ghost before = views(self.answers@);
        let ghost added = views(answers@);
        let mut answers = answers;
        self.answers.append(&mut answers);
        if self.next < self.questions.len() {
            self.next = self.questions.len();
        }
        assert(views(self.answers@) =~= before + added);
    }

    /// The response as a message: the inbound header marked as a response,
    /// with response code 0 for a standard query and 4 for any other
    /// operation and with counts that are the lengths of the lists; then all
    /// questions and all answers gathered.
    pub fn assemble(&self) -> (r: Dns)
        ensures
            r@ == self@.response(),
    {
        let questions = self.questions.clone();
        let answers = self.answers.clone();
        assert(views(questions@) =~= views(self.questions@));
        assert(views(answers@) =~= views(self.answers@));
        let message = Dns { header: self.header, questions, answers };
        message.to_expected()
    }
}

/// Every question has a well-formed name that holds labels only.
pub open spec fn questions_resolved(questions: Seq<QuestionView>) -> bool {
    forall|i: int|
        0 <= i < questions.len() ==> name_wf((#[trigger] questions[i]).domain_name) && is_resolved(
            questions[i].domain_name,
        )
}

/// The exchange starts with as many questions as the inbound header
/// announces, each with a well-formed name that holds labels only, whatever
/// pointers the datagram held.
pub proof fn lemma_received_questions_are_resolved(datagram: Seq<u8>)
    requires
        received(datagram) is Ok,
    ensures
        received(datagram)->Ok_0.questions.len() == received(datagram)->Ok_0.header.question_count,
        questions_resolved(received(datagram)->Ok_0.questions),
{
    let query = parse_message(datagram, 0)->Ok_0.0;
    let asked = query.questions;
    let resolved = received(datagram)->Ok_0.questions;
    lemma_parsed_questions_are_wf(datagram, 12, query.header.question_count as nat);
    lemma_resolve_each_items::<Question>(asked, datagram);
    assert forall|i: int| 0 <= i < resolved.len() implies name_wf(
        (#[trigger] resolved[i]).domain_name,
    ) && is_resolved(resolved[i].domain_name) by {
        assert(name_wf(asked[i].domain_name));
        assert(Question::resolved(asked[i], datagram) == Ok::<QuestionView, DecodeError>(
            resolved[i],
        ));
        lemma_resolution_is_resolved(asked[i].domain_name, datagram, MAX_POINTER_HOPS as nat);
    }
}

/// While the questions are resolved, the query for the pending one can
/// always be written: forwarding never fails for want of a writable name.
pub proof fn lemma_pending_query_is_writable(state: ForwarderView)
    requires
        questions_resolved(state.questions),
        !state.done(),
    ensures
        state.action_wire() is Ok,
{
    let q = state.questions[state.next as int];
    lemma_name_wire_succeeds(q.domain_name);
    assert(question_wire(q) is Ok);
    let one = seq![q];
    assert(one.drop_first() =~= Seq::<QuestionView>::empty());
    assert(wire_all::<Question>(one.drop_first()) is Ok);
    assert(wire_all::<Question>(one) is Ok);
}

/// The response carries the inbound header's id and flags with these
/// changes: it is marked as a response, and its code is 0 where the operation
/// code is 0 and 4 otherwise. Where neither list is longer than 65535 items,
/// its counts are the lengths of the lists: as many questions as the query
/// asked and as many answers as were gathered.
pub proof fn lemma_response_header(state: ForwarderView)
    ensures
        state.response().header.qr_indicator == QRIndicator::Response,
        state.response().header.response_code == (if state.header.op_code == 0 {
            0u8
        } else {
            4u8
        }),
        state.response().header.id == state.header.id,
        state.response().questions == state.questions,
        state.response().answers == state.answers,
        state.questions.len() <= 0xffff && state.answers.len() <= 0xffff
            ==> state.response().counts_agree(),
{
}

/// The answers of `replies`, reply by reply and in order.
pub open spec fn gathered(replies: Seq<DnsView>) -> Seq<AnswerView>
    decreases replies.len(),
{
    if replies.len() == 0 {
        Seq::empty()
    } else {
        gathered(replies.drop_last()) + replies.last().answers
    }
}

/// The state after each of `replies` was taken in, in order.
pub open spec fn after_replies(state: ForwarderView, replies: Seq<DnsView>) -> ForwarderView
    decreases replies.len(),
{
    if replies.len() == 0 {
        state
    } else {
        after_replies(state, replies.drop_last()).with_reply(replies.last())
    }
}

/// The message that an exchange starts with can always be written: the
/// query for the first question or, where nothing was asked, the response.
pub proof fn lemma_first_message_is_writable(datagram: Seq<u8>)
    requires
        received(datagram) is Ok,
    ensures
        received(datagram)->Ok_0.action_wire() is Ok,
{
    let start = received(datagram)->Ok_0;
    lemma_received_questions_are_resolved(datagram);
    if start.done() {
        assert(start.response().questions =~= Seq::<QuestionView>::empty());
        assert(start.response().answers =~= Seq::<AnswerView>::empty());
    } else {
        lemma_pending_query_is_writable(start);
    }
}

/// Taking in one reply per question, each with exactly one answer, leaves a
/// finished exchange whose response holds as many answers as questions.
pub proof fn lemma_one_answer_per_question(state: ForwarderView, replies: Seq<DnsView>)
    requires
        state.next == 0,
        state.answers.len() == 0,
        replies.len() == state.questions.len(),
        forall|i: int| 0 <= i < replies.len() ==> (#[trigger] replies[i]).answers.len() == 1,
    ensures
        after_replies(state, replies).done(),
        after_replies(state, replies).questions == state.questions,
        after_replies(state, replies).response().answers.len() == state.questions.len(),
        after_replies(state, replies).response().questions.len() == state.questions.len(),
        state.questions.len() <= 0xffff ==> after_replies(state, replies).response().counts_agree(),
{
    lemma_after_replies(state, replies);
    lemma_gathered_len(replies);
}

/// Taking replies in adds their answers behind those already gathered, moves
/// on by one question per reply and changes nothing else.
pub proof fn lemma_after_replies(state: ForwarderView, replies: Seq<DnsView>)
    ensures
        after_replies(state, replies) == (ForwarderView {
            answers: state.answers + gathered(replies),
            next: state.next + replies.len(),
            ..state
        }),
    decreases replies.len(),
{
    if replies.len() == 0 {
        assert(state.answers + gathered(replies) =~= state.answers);
    } else {
        lemma_after_replies(state, replies.drop_last());
        assert((state.answers + gathered(replies.drop_last())) + replies.last().answers
            =~= state.answers + gathered(replies));
    }
}

/// Replies with one answer each yield as many answers as there are replies:
/// the answer of the first reply, then that of the second, and so on.
pub proof fn lemma_gathered_len(replies: Seq<DnsView>)
    requires
        forall|i: int| 0 <= i < replies.len() ==> (#[trigger] replies[i]).answers.len() == 1,
    ensures
        gathered(replies).len() == replies.len(),
        forall|i: int|
            0 <= i < replies.len() ==> (#[trigger] gathered(replies)[i]) == replies[i].answers[0],
    decreases replies.len(),
{
    if replies.len() > 0 {
        let front = replies.drop_last();
        assert forall|i: int| 0 <= i < front.len() implies (#[trigger] front[i]).answers.len()
            == 1 by {
            assert(front[i] == replies[i]);
        }
        lemma_gathered_len(front);
        assert forall|i: int| 0 <= i < replies.len() implies (#[trigger] gathered(replies)[i])
            == replies[i].answers[0] by {
            if i < front.len() {
                assert(gathered(replies)[i] == gathered(front)[i]);
                assert(front[i] == replies[i]);
            }
        }
    }
}

/// A whole exchange, from the inbound datagram to the bytes of the response.
///
/// Where the inbound query can be taken in and every question is answered by
/// one upstream reply that holds exactly one record, and that record can be
/// written, the exchange ends with a response that can be written. Read
/// back, it holds the questions of the query with their names resolved and
/// the records of the replies in order; its header announces as many answers
/// as questions, is marked as a response, and carries code 0 where the
/// query's operation code is 0 and code 4 otherwise.
pub proof fn lemma_forwarded_exchange(datagram: Seq<u8>, replies: Seq<DnsView>)
    requires
        received(datagram) is Ok,
        replies.len() == received(datagram)->Ok_0.questions.len(),
        forall|i: int|
            0 <= i < replies.len() ==> (#[trigger] replies[i]).answers.len() == 1 && answer_wire(
                replies[i].answers[0],
            ) is Ok,
    ensures
        ({
            let start = received(datagram)->Ok_0;
            let end = after_replies(start, replies);
            let count = start.header.question_count;
            &&& end.done()
            &&& end.action_wire() is Ok
            &&& parse_message(end.action_wire()->Ok_0, 0) is Ok
            &&& ({
                let back = parse_message(end.action_wire()->Ok_0, 0)->Ok_0.0;
                &&& back.questions == start.questions
                &&& back.answers == gathered(replies)
                &&& back.header.question_count == count
                &&& back.header.answer_record_count == count
                &&& back.header.qr_indicator == QRIndicator::Response
                &&& back.header.response_code == (if start.header.op_code == 0 {
                    0u8
                } else {
                    4u8
                })
                &&& back.header.id == start.header.id
            })
        }),
{
    let start = received(datagram)->Ok_0;
    let end = after_replies(start, replies);
    lemma_received_questions_are_resolved(datagram);
    lemma_after_replies(start, replies);
    lemma_gathered_len(replies);
    assert(start.answers + gathered(replies) =~= gathered(replies));
    let response = end.response();
    assert forall|i: int| 0 <= i < response.questions.len() implies Question::wire(
        #[trigger] response.questions[i],
    ) is Ok by {
        lemma_name_wire_succeeds(response.questions[i].domain_name);
    }
    lemma_wire_all_succeeds::<Question>(response.questions);
    assert forall|i: int| 0 <= i < response.answers.len() implies Answer::wire(
        #[trigger] response.answers[i],
    ) is Ok by {
        assert(response.answers[i] == replies[i].answers[0]);
    }
    lemma_wire_all_succeeds::<Answer>(response.answers);
    lemma_parsed_message_counts_agree(datagram, 0);
    assert(response.header.wf());
    lemma_message_decode_encode(response);
}

} // verus!
