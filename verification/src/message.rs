//! Whole messages: a header, then as many questions and resource records as
//! the header counts announce.

use vstd::prelude::*;
use crate::answer::{Answer, AnswerView};
use crate::error::{DecodeError, EncodeError};
use crate::header::{Header, QRIndicator, RCODE_NOT_IMPLEMENTED};
use crate::question::{Question, QuestionView};
use crate::traits::{
    after, lemma_parse_count_len, models, parse_count, resolve_each, views, wire_all, Parsed,
    ReadUntill, ResolveWithBuffer, WireRead, WireWrite, WriteAll,
};
use crate::wire::has_bytes;

verus! {

/// The largest number of questions, or of answers, a header can announce.
pub const MAX_COUNT: usize = 0xffff;

/// A DNS message.
#[derive(Debug, PartialEq, Eq)]
pub struct Dns {
    pub header: Header,
    pub questions: Vec<Question>,
    pub answers: Vec<Answer>,
}

/// A message as contracts speak of it.
pub struct DnsView {
    pub header: Header,
    pub questions: Seq<QuestionView>,
    pub answers: Seq<AnswerView>,
}

impl View for Dns {
    type V = DnsView;

    open spec fn view(&self) -> DnsView {
        DnsView {
            header: self.header,
            questions: views(self.questions@),
            answers: views(self.answers@),
        }
    }
}

impl DnsView {
    /// The header counts say how many questions and answers the message holds.
    pub open spec fn counts_agree(self) -> bool {
        self.header.question_count == self.questions.len() && self.header.answer_record_count
            == self.answers.len()
    }

    /// The message with its header counts set to the lengths of its lists.
    /// Meant for lists of at most 65535 items.
    pub open spec fn synchronized(self) -> DnsView {
        DnsView {
            header: Header {
                question_count: self.questions.len() as u16,
                answer_record_count: self.answers.len() as u16,
                ..self.header
            },
            ..self
        }
    }

    /// The message as the reply to a query: marked as a response, with
    /// response code 0 for a standard query (operation code 0) and 4 for any
    /// other, and with its counts set to the lengths of its lists, cut to 16
    /// bits.
    pub open spec fn expected(self) -> DnsView {
        DnsView {
            header: Header {
                qr_indicator: QRIndicator::Response,
                response_code: if self.header.op_code == 0 {
                    0u8
                } else {
                    4u8
                },
                question_count: (self.questions.len() % 0x1_0000) as u16,
                answer_record_count: (self.answers.len() % 0x1_0000) as u16,
                ..self.header
            },
            ..self
        }
    }
}

/// The wire grammar of a message: a header, then exactly as many questions
/// as its question count says, then exactly as many records as its answer
/// count says. Bytes behind the last record are not looked at.
pub open spec fn parse_message(bytes: Seq<u8>, pos: int) -> Parsed<DnsView> {
    if !has_bytes(bytes, pos, 12) {
        Err(DecodeError::Truncated)
    } else {
        let header = Header::parse(bytes, pos);
        match parse_count::<Question>(bytes, pos + 12, header.question_count as nat) {
            Err(e) => Err(e),
            Ok((questions, p)) => match parse_count::<Answer>(
                bytes,
                p,
                header.answer_record_count as nat,
            ) {
                Err(e) => Err(e),
                Ok((answers, end)) => Ok((DnsView { header, questions, answers }, end)),
            },
        }
    }
}

/// The bytes of a message: the header with its counts set to the lengths of
/// the lists, then the questions, then the answers. A list of more than 65535
/// items cannot be announced; otherwise the first question or answer that
/// cannot be written decides the error.
pub open spec fn message_wire(m: DnsView) -> Result<Seq<u8>, EncodeError> {
    if m.questions.len() > 0xffff || m.answers.len() > 0xffff {
        Err(EncodeError::TooManyRecords)
    } else {
        match wire_all::<Question>(m.questions) {
            Err(e) => Err(e),
            Ok(questions) => after(
                m.synchronized().header.wire() + questions,
                wire_all::<Answer>(m.answers),
            ),
        }
    }
}

/// The message in which every question's name is resolved in the datagram
/// `buf`; header and answers stay.
pub open spec fn resolve_message(m: DnsView, buf: Seq<u8>) -> Result<DnsView, DecodeError> {
    match resolve_each::<Question>(m.questions, buf) {
        Err(e) => Err(e),
        Ok(questions) => Ok(DnsView { questions, ..m }),
    }
}

impl Clone for Dns {
    fn clone(&self) -> (r: Self)
        ensures
            r@ == self@,
    {
        let questions = self.questions.clone();
        let answers = self.answers.clone();
        assert(views(questions@) =~= views(self.questions@));
        assert(views(answers@) =~= views(self.answers@));
        Dns { header: self.header, questions, answers }
    }
}

impl Default for Dns {
    fn default() -> (r: Self)
        ensures
            r@ == (DnsView {
                header: Header::new(),
                questions: Seq::empty(),
                answers: Seq::empty(),
            }),
    {
        let r = Dns { header: Header::new(), questions: Vec::new(), answers: Vec::new() };
        assert(r@.questions =~= Seq::empty());
        assert(r@.answers =~= Seq::empty());
        r
    }
}

/// A message that was read holds as many questions and answers as its
/// header announces, and the bit fields of its header fit their widths.
pub proof fn lemma_parsed_message_counts_agree(bytes: Seq<u8>, pos: int)
    requires
        parse_message(bytes, pos) is Ok,
    ensures
        parse_message(bytes, pos)->Ok_0.0.counts_agree(),
        parse_message(bytes, pos)->Ok_0.0.header.wf(),
{
    let header = Header::parse(bytes, pos);
    lemma_parse_count_len::<Question>(bytes, pos + 12, header.question_count as nat);
    let p = parse_count::<Question>(bytes, pos + 12, header.question_count as nat)->Ok_0.1;
    lemma_parse_count_len::<Answer>(bytes, p, header.answer_record_count as nat);
}

impl WireRead for Dns {
    open spec fn parse(bytes: Seq<u8>, pos: int) -> Parsed<DnsView> {
        parse_message(bytes, pos)
    }

    /// Reads a message as `parse_message` describes: exactly as many
    /// questions and answers as the header announces.
    fn from_bytes(input: &[u8], offset: usize) -> (r: Result<(Dns, usize), DecodeError>) {
        let (header, at_questions) = match Header::from_bytes(input, offset) {
            Ok(pair) => pair,
            Err(e) => {
                return Err(e);
            },
        };
        let (questions, at_answers) = match Question::read_count(
            input,
            at_questions,
            header.question_count as usize,
        ) {
            Ok(pair) => pair,
            Err(e) => {
                return Err(e);
            },
        };
        let (answers, end) = match Answer::read_count(
            input,
            at_answers,
            header.answer_record_count as usize,
        ) {
            Ok(pair) => pair,
            Err(e) => {
                return Err(e);
            },
        };
        Ok((Dns { header, questions, answers }, end))
    }
}

impl WireWrite for Dns {
    open spec fn wire(v: DnsView) -> Result<Seq<u8>, EncodeError> {
        message_wire(v)
    }

    /// Appends the message. The counts that are written are the lengths of
    /// the lists, whatever the header holds.
    fn write(&self, output: &mut Vec<u8>) -> (r: Result<(), EncodeError>) {
        if self.questions.len() > MAX_COUNT || self.answers.len() > MAX_COUNT {
            return Err(EncodeError::TooManyRecords);
        }
        let start: usize = output.len();
        let mut header = self.header;
        header.question_count = self.questions.len() as u16;
        header.answer_record_count = self.answers.len() as u16;
        assert(header == self@.synchronized().header);
        header.write(output);
        match Question::write_all(output, self.questions.as_slice()) {
            Err(e) => {
                output.truncate(start);
                assert(output@ =~= old(output)@);
                return Err(e);
            },
            Ok(()) => {},
        }
        match Answer::write_all(output, self.answers.as_slice()) {
            Err(e) => {
                output.truncate(start);
                assert(output@ =~= old(output)@);
                return Err(e);
            },
            Ok(()) => {},
        }
        assert(output@ =~= old(output)@ + message_wire(self@)->Ok_0);
        Ok(())
    }
}

impl ResolveWithBuffer for Dns {
    type Model = DnsView;

    open spec fn model(&self) -> DnsView {
        self@
    }

    open spec fn resolved(m: DnsView, buf: Seq<u8>) -> Result<DnsView, DecodeError> {
        resolve_message(m, buf)
    }

    /// Resolves the name of every question; header and answers pass through.
    fn resolve(self, buf: &[u8]) -> (r: Result<Dns, DecodeError>) {
        let header = self.header;
        let answers = self.answers;
        assert(models(self.questions@) =~= views(self.questions@));
        match self.questions.resolve(buf) {
            Err(e) => Err(e),
            Ok(questions) => {
                assert(models(questions@) =~= views(questions@));
                Ok(Dns { header, questions, answers })
            },
        }
    }
}

impl Dns {
    /// Turns the message into the reply to send: a response whose code is 0
    /// for a standard query and 4 for any other operation, and whose counts
    /// are the lengths of its lists.
    pub fn to_expected(self) -> (r: Self)
        ensures
            r@ == self@.expected(),
            self.questions@.len() <= 0xffff && self.answers@.len() <= 0xffff
                ==> r@.counts_agree(),
    {
        let mut m = self;
        m.header.response_code = if m.header.op_code == 0 {
            0
        } else {
            RCODE_NOT_IMPLEMENTED
        };
        m.header.qr_indicator = QRIndicator::Response;
        m.header.question_count = (m.questions.len() % 0x1_0000) as u16;
        m.header.answer_record_count = (m.answers.len() % 0x1_0000) as u16;
        m
    }
}

} // verus!
