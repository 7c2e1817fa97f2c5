//! What holds of questions, resource records and whole messages across
//! encoding and decoding.

use vstd::prelude::*;
use crate::answer::{
    answer_tail_wire, answer_wire, parse_answer, Answer, AnswerClass, AnswerType, AnswerView,
};
use crate::error::DecodeError;
use crate::header::{lemma_header_round_trip, lemma_header_wire_bytes, Header};
use crate::message::{message_wire, parse_message, DnsView};
use crate::name::{name_wf, name_wire};
use crate::name_laws::{lemma_name_round_trip, lemma_parsed_name_is_wf};
use crate::question::{parse_question, question_wire, Question, QuestionView};
use crate::traits::{parse_count, wire_all};
use crate::wire::{
    lemma_split_window, lemma_u16_at_window, lemma_u16_round_trip, lemma_u32_at_window,
    u16_bytes, u32_bytes,
};

verus! {

/// Every record type is found again from its code, and every code from 1 to
/// 16 stands for a type.
pub proof fn lemma_type_codes(t: AnswerType, code: u16)
    ensures
        AnswerType::spec_from_code(t.spec_code()) == Some(t),
        1 <= t.spec_code() <= 16,
        AnswerType::spec_from_code(code) is Some <==> 1 <= code <= 16,
        AnswerType::spec_from_code(code) is Some ==> AnswerType::spec_from_code(
            code,
        )->Some_0.spec_code() == code,
{
}

/// Every record class is found again from its code, and every code from 1 to
/// 4 stands for a class.
pub proof fn lemma_class_codes(c: AnswerClass, code: u16)
    ensures
        AnswerClass::spec_from_code(c.spec_code()) == Some(c),
        1 <= c.spec_code() <= 4,
        AnswerClass::spec_from_code(code) is Some <==> 1 <= code <= 4,
        AnswerClass::spec_from_code(code) is Some ==> AnswerClass::spec_from_code(
            code,
        )->Some_0.spec_code() == code,
{
}

/// Decoding the wire form of a question gives the question back, wherever in
/// a datagram those bytes stand and whatever follows them.
pub proof fn lemma_question_round_trip(q: QuestionView, bytes: Seq<u8>, pos: int)
    requires
        question_wire(q) is Ok,
        0 <= pos,
        pos + question_wire(q)->Ok_0.len() <= bytes.len(),
        bytes.subrange(pos, pos + question_wire(q)->Ok_0.len()) == question_wire(q)->Ok_0,
    ensures
        parse_question(bytes, pos) == Ok::<(QuestionView, int), DecodeError>(
            (q, pos + question_wire(q)->Ok_0.len()),
        ),
{
    let name = name_wire(q.domain_name)->Ok_0;
    let t = u16_bytes(q.q_type);
    let c = u16_bytes(q.class);
    assert(question_wire(q)->Ok_0 == (name + t) + c);
    lemma_split_window(bytes, pos, name + t, c);
    lemma_split_window(bytes, pos, name, t);
    lemma_name_round_trip(q.domain_name, bytes, pos);
    let p = pos + name.len();
    lemma_u16_at_window(bytes, p, q.q_type);
    lemma_u16_at_window(bytes, p + 2, q.class);
}

/// Decoding the wire form of a list of questions, with the list's length as
/// the count, gives the list back.
pub proof fn lemma_questions_round_trip(questions: Seq<QuestionView>, bytes: Seq<u8>, pos: int)
    requires
        wire_all::<Question>(questions) is Ok,
        0 <= pos,
        pos + wire_all::<Question>(questions)->Ok_0.len() <= bytes.len(),
        bytes.subrange(pos, pos + wire_all::<Question>(questions)->Ok_0.len()) == wire_all::<Question>(
            questions,
        )->Ok_0,
    ensures
        parse_count::<Question>(bytes, pos, questions.len()) == Ok::<(Seq<QuestionView>, int), DecodeError>(
            (questions, pos + wire_all::<Question>(questions)->Ok_0.len()),
        ),
    decreases questions.len(),
{
    if questions.len() == 0 {
        assert(questions =~= Seq::empty());
    } else {
        let first = question_wire(questions[0])->Ok_0;
        let rest = questions.drop_first();
        let rest_w = wire_all::<Question>(rest)->Ok_0;
        lemma_split_window(bytes, pos, first, rest_w);
        lemma_question_round_trip(questions[0], bytes, pos);
        lemma_questions_round_trip(rest, bytes, pos + first.len());
        assert(seq![questions[0]] + rest =~= questions);
    }
}

/// The names of questions that were read from a datagram are well formed.
pub proof fn lemma_parsed_questions_are_wf(bytes: Seq<u8>, pos: int, count: nat)
    requires
        parse_count::<Question>(bytes, pos, count) is Ok,
    ensures
        parse_count::<Question>(bytes, pos, count)->Ok_0.0.len() == count,
        forall|i: int|
            0 <= i < count ==> name_wf(
                (#[trigger] parse_count::<Question>(bytes, pos, count)->Ok_0.0[i]).domain_name,
            ),
    decreases count,
{
    if count > 0 {
        let next = parse_question(bytes, pos)->Ok_0.1;
        let first = parse_question(bytes, pos)->Ok_0.0;
        lemma_parsed_name_is_wf(bytes, pos);
        lemma_parsed_questions_are_wf(bytes, next, (count - 1) as nat);
        let all = parse_count::<Question>(bytes, pos, count)->Ok_0.0;
        let rest = parse_count::<Question>(bytes, next, (count - 1) as nat)->Ok_0.0;
        assert(all == seq![first] + rest);
        assert forall|i: int| 0 <= i < count implies name_wf((#[trigger] all[i]).domain_name) by {
            if i > 0 {
                assert(all[i] == rest[i - 1]);
            }
        }
    }
}

/// Decoding the wire form of a resource record gives the record back,
/// wherever in a datagram those bytes stand and whatever follows them.
pub proof fn lemma_answer_round_trip(a: AnswerView, bytes: Seq<u8>, pos: int)
    requires
        answer_wire(a) is Ok,
        0 <= pos,
        pos + answer_wire(a)->Ok_0.len() <= bytes.len(),
        bytes.subrange(pos, pos + answer_wire(a)->Ok_0.len()) == answer_wire(a)->Ok_0,
    ensures
        parse_answer(bytes, pos) == Ok::<(AnswerView, int), DecodeError>(
            (a, pos + answer_wire(a)->Ok_0.len()),
        ),
{
    let name = name_wire(a.name)->Ok_0;
    let t = u16_bytes(a.rtype.spec_code());
    let c = u16_bytes(a.class.spec_code());
    let ttl = u32_bytes(a.ttl);
    let len = u16_bytes(a.data.len() as u16);
    let tail = answer_tail_wire(a);
    assert(tail == (((t + c) + ttl) + len) + a.data);
    assert(answer_wire(a)->Ok_0 == name + tail);
    lemma_split_window(bytes, pos, name, tail);
    lemma_name_round_trip(a.name, bytes, pos);
    let p = pos + name.len();
    lemma_split_window(bytes, p, ((t + c) + ttl) + len, a.data);
    lemma_split_window(bytes, p, (t + c) + ttl, len);
    lemma_split_window(bytes, p, t + c, ttl);
    lemma_split_window(bytes, p, t, c);
    lemma_u16_at_window(bytes, p, a.rtype.spec_code());
    lemma_u16_at_window(bytes, p + 2, a.class.spec_code());
    lemma_u32_at_window(bytes, p + 4, a.ttl);
    lemma_u16_at_window(bytes, p + 8, a.data.len() as u16);
    lemma_type_codes(a.rtype, 0);
    lemma_class_codes(a.class, 0);
}

/// Decoding the wire form of a list of resource records, with the list's
/// length as the count, gives the list back.
pub proof fn lemma_answers_round_trip(answers: Seq<AnswerView>, bytes: Seq<u8>, pos: int)
    requires
        wire_all::<Answer>(answers) is Ok,
        0 <= pos,
        pos + wire_all::<Answer>(answers)->Ok_0.len() <= bytes.len(),
        bytes.subrange(pos, pos + wire_all::<Answer>(answers)->Ok_0.len()) == wire_all::<Answer>(
            answers,
        )->Ok_0,
    ensures
        parse_count::<Answer>(bytes, pos, answers.len()) == Ok::<(Seq<AnswerView>, int), DecodeError>(
            (answers, pos + wire_all::<Answer>(answers)->Ok_0.len()),
        ),
    decreases answers.len(),
{
    if answers.len() == 0 {
        assert(answers =~= Seq::empty());
    } else {
        let first = answer_wire(answers[0])->Ok_0;
        let rest = answers.drop_first();
        let rest_w = wire_all::<Answer>(rest)->Ok_0;
        lemma_split_window(bytes, pos, first, rest_w);
        lemma_answer_round_trip(answers[0], bytes, pos);
        lemma_answers_round_trip(rest, bytes, pos + first.len());
        assert(seq![answers[0]] + rest =~= answers);
    }
}

/// The header that is read back from the bytes of a message announces as
/// many questions and answers as the message holds, whatever counts its own
/// header held.
pub proof fn lemma_written_counts_are_list_lengths(m: DnsView)
    requires
        message_wire(m) is Ok,
    ensures
        message_wire(m)->Ok_0.len() >= 12,
        Header::parse(message_wire(m)->Ok_0, 0).question_count == m.questions.len(),
        Header::parse(message_wire(m)->Ok_0, 0).answer_record_count == m.answers.len(),
{
    let h = m.synchronized().header;
    let w = message_wire(m)->Ok_0;
    let q = wire_all::<Question>(m.questions)->Ok_0;
    let a = wire_all::<Answer>(m.answers)->Ok_0;
    assert(w == (h.wire() + q) + a);
    lemma_header_wire_bytes(h);
    assert(h.wire().len() == 12);
    assert forall|i: int| 0 <= i < 12 implies w[i] == h.wire()[i] by {}
    assert(w[4] == h.wire()[4] && w[5] == h.wire()[5] && w[6] == h.wire()[6] && w[7]
        == h.wire()[7]);
    lemma_u16_round_trip(h.question_count);
    lemma_u16_round_trip(h.answer_record_count);
}

/// Decoding the wire form of a message gives the message back with its
/// counts set to the lengths of its lists, provided the bit fields of its
/// header fit their widths.
pub proof fn lemma_message_round_trip(m: DnsView, bytes: Seq<u8>, pos: int)
    requires
        m.header.wf(),
        message_wire(m) is Ok,
        0 <= pos,
        pos + message_wire(m)->Ok_0.len() <= bytes.len(),
        bytes.subrange(pos, pos + message_wire(m)->Ok_0.len()) == message_wire(m)->Ok_0,
    ensures
        parse_message(bytes, pos) == Ok::<(DnsView, int), DecodeError>(
            (m.synchronized(), pos + message_wire(m)->Ok_0.len()),
        ),
        m.synchronized().counts_agree(),
{
    let h = m.synchronized().header;
    let q = wire_all::<Question>(m.questions)->Ok_0;
    let a = wire_all::<Answer>(m.answers)->Ok_0;
    assert(message_wire(m)->Ok_0 == (h.wire() + q) + a);
    lemma_header_wire_bytes(h);
    assert(h.wire().len() == 12);
    lemma_split_window(bytes, pos, h.wire() + q, a);
    lemma_split_window(bytes, pos, h.wire(), q);
    lemma_header_round_trip(h, bytes, pos);
    lemma_questions_round_trip(m.questions, bytes, pos + 12);
    lemma_answers_round_trip(m.answers, bytes, pos + 12 + q.len());
}

/// Encoding a message and decoding the bytes gives the message back with
/// its counts set to the lengths of its lists, and takes in every byte.
pub proof fn lemma_message_decode_encode(m: DnsView)
    requires
        m.header.wf(),
        message_wire(m) is Ok,
    ensures
        parse_message(message_wire(m)->Ok_0, 0) == Ok::<(DnsView, int), DecodeError>(
            (m.synchronized(), message_wire(m)->Ok_0.len() as int),
        ),
        m.synchronized().header.question_count == m.questions.len(),
        m.synchronized().header.answer_record_count == m.answers.len(),
{
    let w = message_wire(m)->Ok_0;
    assert(w.subrange(0, w.len() as int) =~= w);
    lemma_message_round_trip(m, w, 0);
}

} // verus!
