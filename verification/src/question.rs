//! Questions: a name, a query type and a query class.

use vstd::prelude::*;
use vstd::string::StringSliceAdditionalSpecFns;
use crate::error::{DecodeError, EncodeError};
use crate::name::{
    as_labels, default_name, is_resolved, name_wire, parse_name, resolve_name, split_labels, Name,
    NameEntry, MAX_POINTER_HOPS,
};
use crate::traits::{Parsed, ResolveWithBuffer, WireRead, WireWrite};
use crate::wire::{has_bytes, push_u16, read_u16, u16_at, u16_bytes};

verus! {

/// The class of the Internet, the only one this resolver asks for.
pub const CLASS_IN: u16 = 1;

/// One question of a query.
#[derive(Debug, PartialEq, Eq)]
pub struct Question {
    pub domain_name: Name,
    pub q_type: u16,
    pub class: u16,
}

/// A question as contracts speak of it.
pub struct QuestionView {
    pub domain_name: Seq<NameEntry>,
    pub q_type: u16,
    pub class: u16,
}

impl View for Question {
    type V = QuestionView;

    open spec fn view(&self) -> QuestionView {
        QuestionView { domain_name: self.domain_name@, q_type: self.q_type, class: self.class }
    }
}

/// The wire grammar of a question: a name, then type and class as 16-bit
/// big-endian integers.
pub open spec fn parse_question(bytes: Seq<u8>, pos: int) -> Parsed<QuestionView> {
    match parse_name(bytes, pos) {
        Err(e) => Err(e),
        Ok((name, p)) => if !has_bytes(bytes, p, 4) {
            Err(DecodeError::Truncated)
        } else {
            Ok(
                (
                    QuestionView {
                        domain_name: name,
                        q_type: u16_at(bytes, p),
                        class: u16_at(bytes, p + 2),
                    },
                    p + 4,
                ),
            )
        },
    }
}

/// The bytes of a question; it can be written exactly when its name can.
pub open spec fn question_wire(q: QuestionView) -> Result<Seq<u8>, EncodeError> {
    match name_wire(q.domain_name) {
        Err(e) => Err(e),
        Ok(name) => Ok(name + u16_bytes(q.q_type) + u16_bytes(q.class)),
    }
}

/// What resolving a question's name in the datagram `buf` yields; type and
/// class stay.
pub open spec fn resolve_question(q: QuestionView, buf: Seq<u8>) -> Result<
    QuestionView,
    DecodeError,
> {
    match resolve_name(q.domain_name, buf, MAX_POINTER_HOPS as nat) {
        Err(e) => Err(e),
        Ok(name) => Ok(QuestionView { domain_name: name, q_type: q.q_type, class: q.class }),
    }
}

impl Clone for Question {
    fn clone(&self) -> (r: Self)
        ensures
            r@ == self@,
    {
        Question { domain_name: self.domain_name.clone(), q_type: self.q_type, class: self.class }
    }
}

impl Default for Question {
    /// A question of type 1 and class IN for `codecrafters.io`.
    fn default() -> (r: Self)
        ensures
            r@ == (QuestionView { domain_name: default_name(), q_type: 1, class: 1 }),
    {
        Question { domain_name: Name::default(), q_type: 1, class: CLASS_IN }
    }
}

impl Question {
    /// A question of class IN for the dotted name `name`.
    pub fn new(name: &str, q_type: u16) -> (r: Self)
        ensures
            r@ == (QuestionView {
                domain_name: as_labels(split_labels(name.spec_bytes())),
                q_type,
                class: 1,
            }),
            is_resolved(r@.domain_name),
    {
        Question { domain_name: Name::new(name), q_type, class: CLASS_IN }
    }
}

impl WireRead for Question {
    open spec fn parse(bytes: Seq<u8>, pos: int) -> Parsed<QuestionView> {
        parse_question(bytes, pos)
    }

    /// Reads a question as `parse_question` describes. Its name may end in a
    /// pointer.
    fn from_bytes(input: &[u8], offset: usize) -> (r: Result<(Question, usize), DecodeError>) {
        let (domain_name, at_type) = match Name::from_bytes(input, offset) {
            Ok(pair) => pair,
            Err(e) => {
                return Err(e);
            },
        };
        let (q_type, at_class) = match read_u16(input, at_type) {
            Ok(pair) => pair,
            Err(e) => {
                return Err(e);
            },
        };
        let (class, end) = match read_u16(input, at_class) {
            Ok(pair) => pair,
            Err(e) => {
                return Err(e);
            },
        };
        Ok((Question { domain_name, q_type, class }, end))
    }
}

impl WireWrite for Question {
    open spec fn wire(v: QuestionView) -> Result<Seq<u8>, EncodeError> {
        question_wire(v)
    }

    /// Appends the name, the type and the class. Fails exactly when the name
    /// cannot be written.
    fn write(&self, output: &mut Vec<u8>) -> (r: Result<(), EncodeError>) {
        match self.domain_name.write(output) {
            Err(e) => Err(e),
            Ok(()) => {
                push_u16(output, self.q_type);
                push_u16(output, self.class);
                assert(output@ =~= old(output)@ + question_wire(self@)->Ok_0);
                Ok(())
            },
        }
    }
}

impl ResolveWithBuffer for Question {
    type Model = QuestionView;

    open spec fn model(&self) -> QuestionView {
        self@
    }

    open spec fn resolved(m: QuestionView, buf: Seq<u8>) -> Result<QuestionView, DecodeError> {
        resolve_question(m, buf)
    }

    /// Resolves the name of the question; type and class pass through.
    fn resolve(self, buf: &[u8]) -> (r: Result<Question, DecodeError>) {
        let q_type = self.q_type;
        let class = self.class;
        match self.domain_name.resolve(buf) {
            Err(e) => Err(e),
            Ok(domain_name) => Ok(Question { domain_name, q_type, class }),
        }
    }
}

} // verus!
