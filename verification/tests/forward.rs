use dns_relay::answer::Answer;
use dns_relay::error::{DecodeError, EncodeError};
use dns_relay::forward::{Action, Event, ForwardError, Forwarder};
use dns_relay::header::{Header, QRIndicator};
use dns_relay::message::Dns;
use dns_relay::name::{Name, NameKind};
use dns_relay::question::Question;
use dns_relay::traits::{WireRead, WireWrite};

/// An upstream that answers every question of a query with one record for
/// the name that was asked.
fn upstream(query: &[u8]) -> Vec<u8> {
    let (message, _) = Dns::from_bytes(query, 0).unwrap();
    let answers = message
        .questions
        .iter()
        .map(|q| Answer::new(q.domain_name.clone()))
        .collect();
    Dns { answers, ..message }.to_expected().to_bytes().unwrap()
}

fn query(op_code: u8, names: &[&str]) -> Vec<u8> {
    let mut header = Header::new();
    header.id = 4711;
    header.qr_indicator = QRIndicator::Query;
    header.op_code = op_code;
    header.recursion_desired = true;
    let questions = names.iter().map(|n| Question::new(n, 1)).collect();
    Dns { header, questions, answers: vec![] }.to_bytes().unwrap()
}

fn run(datagram: &[u8]) -> (Vec<Vec<u8>>, Vec<u8>) {
    let (mut state, mut action) = Forwarder::start(datagram).unwrap();
    let mut forwarded = Vec::new();
    loop {
        match action {
            Action::Forward(bytes) => {
                assert!(!state.is_done());
                let reply = upstream(&bytes);
                forwarded.push(bytes);
                action = state.step(Event::Reply(reply)).unwrap();
            }
            Action::Respond(bytes) => {
                assert!(state.is_done());
                return (forwarded, bytes);
            }
        }
    }
}

#[test]
fn two_questions_are_forwarded_one_by_one() {
    let datagram = query(0, &["abc.example.com", "def.example.com"]);
    let (forwarded, response) = run(&datagram);

    assert_eq!(forwarded.len(), 2);
    for (sent, name) in forwarded.iter().zip(["abc.example.com", "def.example.com"]) {
        let (single, end) = Dns::from_bytes(sent, 0).unwrap();
        assert_eq!(end, sent.len());
        assert_eq!(single.header.id, 4711);
        assert_eq!(single.header.qr_indicator, QRIndicator::Query);
        assert_eq!(single.header.question_count, 1);
        assert_eq!(single.header.answer_record_count, 0);
        assert_eq!(single.questions, vec![Question::new(name, 1)]);
        assert_eq!(single.answers, vec![]);
    }

    let (reply, end) = Dns::from_bytes(&response, 0).unwrap();
    assert_eq!(end, response.len());
    assert_eq!(reply.header.question_count, 2);
    assert_eq!(reply.header.answer_record_count, 2);
    assert_eq!(reply.header.qr_indicator, QRIndicator::Response);
    assert_eq!(reply.header.response_code, 0);
    assert_eq!(reply.header.id, 4711);
    assert!(reply.header.recursion_desired);
    assert_eq!(
        reply.questions,
        vec![Question::new("abc.example.com", 1), Question::new("def.example.com", 1)]
    );
    assert_eq!(
        reply.answers,
        vec![
            Answer::new(Name::new("abc.example.com")),
            Answer::new(Name::new("def.example.com"))
        ]
    );
}

#[test]
fn unsupported_operation_gets_code_four() {
    let datagram = query(2, &["a.b", "c.d"]);
    let (_, response) = run(&datagram);
    let (reply, _) = Dns::from_bytes(&response, 0).unwrap();
    assert_eq!(reply.header.response_code, 4);
    assert_eq!(reply.header.op_code, 2);
    assert_eq!(reply.header.question_count, 2);
    assert_eq!(reply.header.answer_record_count, 2);
    assert_eq!(reply.header.qr_indicator, QRIndicator::Response);
}

#[test]
fn compressed_questions_are_resolved_against_the_inbound_datagram() {
    let mut header = Header::new();
    header.qr_indicator = QRIndicator::Query;
    header.question_count = 2;
    let mut datagram = header.to_bytes();
    datagram.extend([3, b'a', b'b', b'c', 7, b'e', b'x', b'a', b'm', b'p', b'l', b'e', 3, b'c', b'o', b'm', 0, 0, 1, 0, 1]);
    datagram.extend([3, b'd', b'e', b'f', 192, 16, 0, 1, 0, 1]);
    datagram.extend([0u8; 40]);

    let state = Forwarder::receive(&datagram).unwrap();
    assert_eq!(state.next, 0);
    assert_eq!(state.answers, vec![]);
    assert_eq!(
        state.questions,
        vec![Question::new("abc.example.com", 1), Question::new("def.example.com", 1)]
    );

    let (forwarded, response) = run(&datagram);
    let (second, _) = Dns::from_bytes(&forwarded[1], 0).unwrap();
    assert_eq!(second.questions, vec![Question::new("def.example.com", 1)]);
    let (reply, _) = Dns::from_bytes(&response, 0).unwrap();
    assert_eq!(reply.answers.len(), 2);
    assert_eq!(reply.answers[1].name, Name::new("def.example.com"));
}

#[test]
fn query_without_questions_is_answered_at_once() {
    let datagram = query(0, &[]);
    let (forwarded, response) = run(&datagram);
    assert!(forwarded.is_empty());
    let (reply, _) = Dns::from_bytes(&response, 0).unwrap();
    assert_eq!(reply.header.question_count, 0);
    assert_eq!(reply.header.answer_record_count, 0);
    assert_eq!(reply.header.qr_indicator, QRIndicator::Response);
}

#[test]
fn receive_errors() {
    assert_eq!(Forwarder::receive(&[1, 2, 3]), Err(DecodeError::Truncated));
    let mut header = Header::new();
    header.question_count = 1;
    let mut looped = header.to_bytes();
    looped.extend([192, 12, 0, 1, 0, 1]);
    assert_eq!(Forwarder::receive(&looped), Err(DecodeError::PointerLoop));
    let mut lost = header.to_bytes();
    lost.extend([192, 200, 0, 1, 0, 1]);
    assert_eq!(Forwarder::receive(&lost), Err(DecodeError::PointerOutOfRange));
}

#[test]
fn bad_reply_changes_nothing() {
    let datagram = query(0, &["a.b"]);
    let mut state = Forwarder::receive(&datagram).unwrap();
    let before = state.clone();
    assert_eq!(state.accept_reply(&[0; 5]), Err(DecodeError::Truncated));
    assert_eq!(state, before);
    assert!(!state.is_done());
}

#[test]
fn reply_answers_are_appended_in_order() {
    let datagram = query(0, &["a", "b"]);
    let mut state = Forwarder::receive(&datagram).unwrap();
    let mut first = Answer::new(Name::new("a"));
    first.ttl = 1;
    let mut second = Answer::new(Name::new("a"));
    second.ttl = 2;
    let reply = Dns { header: Header::new(), questions: vec![], answers: vec![first.clone(), second.clone()] };
    state.accept_reply(&reply.to_bytes().unwrap()).unwrap();
    assert_eq!(state.next, 1);
    assert_eq!(state.answers, vec![first.clone(), second.clone()]);
    let empty = Dns { header: Header::new(), questions: vec![], answers: vec![] };
    state.accept_reply(&empty.to_bytes().unwrap()).unwrap();
    assert_eq!(state.next, 2);
    assert!(state.is_done());
    assert_eq!(state.answers, vec![first, second]);
    let message = state.assemble();
    assert_eq!(message.header.question_count, 2);
    assert_eq!(message.header.answer_record_count, 2);
}

#[test]
fn skipped_question_adds_no_answer() {
    let datagram = query(0, &["a", "b"]);
    let mut state = Forwarder::receive(&datagram).unwrap();
    state.skip();
    assert_eq!(state.next, 1);
    match state.next_action().unwrap() {
        Action::Forward(bytes) => {
            let (single, _) = Dns::from_bytes(&bytes, 0).unwrap();
            assert_eq!(single.questions, vec![Question::new("b", 1)]);
            state.accept_reply(&upstream(&bytes)).unwrap();
        }
        Action::Respond(_) => panic!("a question is still pending"),
    }
    match state.next_action().unwrap() {
        Action::Respond(bytes) => {
            let (reply, _) = Dns::from_bytes(&bytes, 0).unwrap();
            assert_eq!(reply.header.question_count, 2);
            assert_eq!(reply.header.answer_record_count, 1);
            assert_eq!(reply.answers, vec![Answer::new(Name::new("b"))]);
        }
        Action::Forward(_) => panic!("no question is pending"),
    }
}

#[test]
fn local_answers_finish_the_exchange() {
    let datagram = query(0, &["a", "b"]);
    let mut state = Forwarder::receive(&datagram).unwrap();
    state.answer_locally(vec![Answer::new(Name::new("a")), Answer::new(Name::new("b"))]);
    assert!(state.is_done());
    assert_eq!(state.next, 2);
    match state.next_action().unwrap() {
        Action::Respond(bytes) => {
            let (reply, _) = Dns::from_bytes(&bytes, 0).unwrap();
            assert_eq!(reply.header.answer_record_count, 2);
            assert_eq!(reply.header.question_count, 2);
        }
        Action::Forward(_) => panic!("no question is pending"),
    }
}

#[test]
fn unwritable_message_is_reported() {
    let mut state = Forwarder::receive(&query(0, &["a"])).unwrap();
    state.questions[0].domain_name = Name { entries: vec![NameKind::Pointer(1)] };
    assert_eq!(state.next_action(), Err(EncodeError::UnresolvedPointer));
    state.skip();
    assert_eq!(state.next_action(), Err(EncodeError::UnresolvedPointer));
    state.questions.clear();
    let mut long = Answer::default();
    long.data = vec![0u8; 65536];
    state.answers.push(long);
    state.next = 0;
    assert_eq!(state.next_action(), Err(EncodeError::DataTooLong));
}

#[test]
fn start_says_what_to_do_first() {
    let (state, action) = Forwarder::start(&query(0, &["a.b", "c"])).unwrap();
    assert_eq!(state, Forwarder::receive(&query(0, &["a.b", "c"])).unwrap());
    assert_eq!(Ok(action), state.next_action());
    match state.next_action().unwrap() {
        Action::Forward(bytes) => {
            let (single, _) = Dns::from_bytes(&bytes, 0).unwrap();
            assert_eq!(single.questions, vec![Question::new("a.b", 1)]);
        }
        Action::Respond(_) => panic!("a question is pending"),
    }
    assert_eq!(
        Forwarder::start(&[0; 3]),
        Err(ForwardError::Decode(DecodeError::Truncated))
    );
    let mut header = Header::new();
    header.answer_record_count = 1;
    let mut pointed = header.to_bytes();
    pointed.extend([192, 12, 0, 1, 0, 1, 0, 0, 0, 0, 0, 0]);
    // What the query itself holds as answers is not carried over.
    let (state, action) = Forwarder::start(&pointed).unwrap();
    assert_eq!(state.answers, vec![]);
    assert_eq!(action, Action::Respond(Header::new().to_bytes()));
}

#[test]
fn step_takes_replies_and_failures() {
    let (mut state, _) = Forwarder::start(&query(0, &["a", "b", "c"])).unwrap();
    let untouched = state.clone();
    assert_eq!(
        state.step(Event::Reply(vec![1, 2, 3])),
        Err(ForwardError::Decode(DecodeError::Truncated))
    );
    assert_eq!(state, untouched);

    let action = state.step(Event::Failed).unwrap();
    assert_eq!(state.next, 1);
    assert_eq!(state.answers, vec![]);
    let second = match action {
        Action::Forward(bytes) => bytes,
        Action::Respond(_) => panic!("two questions are pending"),
    };
    assert_eq!(Dns::from_bytes(&second, 0).unwrap().0.questions, vec![Question::new("b", 1)]);

    let action = state.step(Event::Reply(upstream(&second))).unwrap();
    assert_eq!(state.next, 2);
    assert_eq!(state.answers, vec![Answer::new(Name::new("b"))]);
    assert!(matches!(action, Action::Forward(_)));

    let mut compressed = Dns { header: Header::new(), questions: vec![], answers: vec![] }
        .to_bytes()
        .unwrap();
    compressed[7] = 1;
    compressed.extend([192, 12, 0, 1, 0, 1, 0, 0, 0, 60, 0, 0]);
    assert_eq!(
        state.step(Event::Reply(compressed)),
        Err(ForwardError::Encode(EncodeError::UnresolvedPointer))
    );
    assert_eq!(state.next, 3);
    assert!(state.is_done());
    assert_eq!(state.answers.len(), 2);
    assert_eq!(state.answers[1].name, Name { entries: vec![NameKind::Pointer(12)] });
}
