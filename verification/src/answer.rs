//! Resource records: a name, type, class, time to live and a data blob whose
//! length prefix is always computed from the data when the record is written.

use vstd::prelude::*;
use crate::error::{DecodeError, EncodeError};
use crate::name::{default_name, name_wire, parse_name, Name, NameEntry};
use crate::traits::{Parsed, WireRead, WireWrite};
use crate::wire::{
    copy_bytes, has_bytes, push_bytes, push_u16, push_u32, read_u16, read_u32, u16_at, u16_bytes,
    u32_at, u32_bytes,
};

verus! {

/// The longest data blob a 16-bit length prefix can announce.
pub const MAX_DATA_LEN: usize = 0xffff;

/// The time to live given to a record that is built from a name alone.
pub const DEFAULT_TTL: u32 = 60;

/// The class of a resource record.
#[derive(Debug, Clone, Copy, PartialEq, Eq, Structural)]
pub enum AnswerClass {
    IN,
    CS,
    CH,
    HS,
}

/// The type of a resource record.
#[derive(Debug, Clone, Copy, PartialEq, Eq, Structural)]
pub enum AnswerType {
    A,
    NS,
    MD,
    MF,
    CNAME,
    SOA,
    MB,
    MG,
    MR,
    NULL,
    WKS,
    PTR,
    HINFO,
    MINFO,
    MX,
    TXT,
}

impl Default for AnswerClass {
    fn default() -> (r: Self)
        ensures
            r == AnswerClass::IN,
    {
        AnswerClass::IN
    }
}

impl Default for AnswerType {
    fn default() -> (r: Self)
        ensures
            r == AnswerType::A,
    {
        AnswerType::A
    }
}

impl AnswerClass {
    /// The number that stands for the class on the wire, 1 to 4.
    pub open spec fn spec_code(self) -> u16 {
        match self {
            AnswerClass::IN => 1,
            AnswerClass::CS => 2,
            AnswerClass::CH => 3,
            AnswerClass::HS => 4,
        }
    }

    /// The class that `code` stands for, if any.
    pub open spec fn spec_from_code(code: u16) -> Option<AnswerClass> {
        if code == 1 {
            Some(AnswerClass::IN)
        } else if code == 2 {
            Some(AnswerClass::CS)
        } else if code == 3 {
            Some(AnswerClass::CH)
        } else if code == 4 {
            Some(AnswerClass::HS)
        } else {
            None
        }
    }

    /// The number that stands for the class on the wire.
    #[verifier::when_used_as_spec(spec_code)]
    pub fn code(self) -> (r: u16)
        ensures
            r == self.spec_code(),
            1 <= r <= 4,
            AnswerClass::spec_from_code(r) == Some(self),
    {
        match self {
            AnswerClass::IN => 1,
            AnswerClass::CS => 2,
            AnswerClass::CH => 3,
            AnswerClass::HS => 4,
        }
    }

    /// The class that `code` stands for; `None` for a code outside 1 to 4.
    #[verifier::when_used_as_spec(spec_from_code)]
    pub fn from_code(code: u16) -> (r: Option<AnswerClass>)
        ensures
            r == AnswerClass::spec_from_code(code),
            r is Some <==> 1 <= code <= 4,
            r is Some ==> r->Some_0.spec_code() == code,
    {
        match code {
            1 => Some(AnswerClass::IN),
            2 => Some(AnswerClass::CS),
            3 => Some(AnswerClass::CH),
            4 => Some(AnswerClass::HS),
            _ => None,
        }
    }
}

impl AnswerType {
    /// The number that stands for the type on the wire, 1 to 16.
    pub open spec fn spec_code(self) -> u16 {
        match self {
            AnswerType::A => 1,
            AnswerType::NS => 2,
            AnswerType::MD => 3,
            AnswerType::MF => 4,
            AnswerType::CNAME => 5,
            AnswerType::SOA => 6,
            AnswerType::MB => 7,
            AnswerType::MG => 8,
            AnswerType::MR => 9,
            AnswerType::NULL => 10,
            AnswerType::WKS => 11,
            AnswerType::PTR => 12,
            AnswerType::HINFO => 13,
            AnswerType::MINFO => 14,
            AnswerType::MX => 15,
            AnswerType::TXT => 16,
        }
    }

    /// The type that `code` stands for, if any.
    pub open spec fn spec_from_code(code: u16) -> Option<AnswerType> {
        if code == 1 {
            Some(AnswerType::A)
        } else if code == 2 {
            Some(AnswerType::NS)
        } else if code == 3 {
            Some(AnswerType::MD)
        } else if code == 4 {
            Some(AnswerType::MF)
        } else if code == 5 {
            Some(AnswerType::CNAME)
        } else if code == 6 {
            Some(AnswerType::SOA)
        } else if code == 7 {
            Some(AnswerType::MB)
        } else if code == 8 {
            Some(AnswerType::MG)
        } else if code == 9 {
            Some(AnswerType::MR)
        } else if code == 10 {
            Some(AnswerType::NULL)
        } else if code == 11 {
            Some(AnswerType::WKS)
        } else if code == 12 {
            Some(AnswerType::PTR)
        } else if code == 13 {
            Some(AnswerType::HINFO)
        } else if code == 14 {
            Some(AnswerType::MINFO)
        } else if code == 15 {
            Some(AnswerType::MX)
        } else if code == 16 {
            Some(AnswerType::TXT)
        } else {
            None
        }
    }

    /// The number that stands for the type on the wire.
    #[verifier::when_used_as_spec(spec_code)]
    pub fn code(self) -> (r: u16)
        ensures
            r == self.spec_code(),
            1 <= r <= 16,
            AnswerType::spec_from_code(r) == Some(self),
    {
        match self {
            AnswerType::A => 1,
            AnswerType::NS => 2,
            AnswerType::MD => 3,
            AnswerType::MF => 4,
            AnswerType::CNAME => 5,
            AnswerType::SOA => 6,
            AnswerType::MB => 7,
            AnswerType::MG => 8,
            AnswerType::MR => 9,
            AnswerType::NULL => 10,
            AnswerType::WKS => 11,
            AnswerType::PTR => 12,
            AnswerType::HINFO => 13,
            AnswerType::MINFO => 14,
            AnswerType::MX => 15,
            AnswerType::TXT => 16,
        }
    }

    /// The type that `code` stands for; `None` for a code outside 1 to 16.
    #[verifier::when_used_as_spec(spec_from_code)]
    pub fn from_code(code: u16) -> (r: Option<AnswerType>)
        ensures
            r == AnswerType::spec_from_code(code),
            r is Some <==> 1 <= code <= 16,
            r is Some ==> r->Some_0.spec_code() == code,
    {
        match code {
            1 => Some(AnswerType::A),
            2 => Some(AnswerType::NS),
            3 => Some(AnswerType::MD),
            4 => Some(AnswerType::MF),
            5 => Some(AnswerType::CNAME),
            6 => Some(AnswerType::SOA),
            7 => Some(AnswerType::MB),
            8 => Some(AnswerType::MG),
            9 => Some(AnswerType::MR),
            10 => Some(AnswerType::NULL),
            11 => Some(AnswerType::WKS),
            12 => Some(AnswerType::PTR),
            13 => Some(AnswerType::HINFO),
            14 => Some(AnswerType::MINFO),
            15 => Some(AnswerType::MX),
            16 => Some(AnswerType::TXT),
            _ => None,
        }
    }
}

/// One resource record.
#[derive(Debug, PartialEq, Eq)]
pub struct Answer {
    pub name: Name,
    pub rtype: AnswerType,
    pub class: AnswerClass,
    pub ttl: u32,
    pub data: Vec<u8>,
}

/// A resource record as contracts speak of it.
pub struct AnswerView {
    pub name: Seq<NameEntry>,
    pub rtype: AnswerType,
    pub class: AnswerClass,
    pub ttl: u32,
    pub data: Seq<u8>,
}

impl View for Answer {
    type V = AnswerView;

    open spec fn view(&self) -> AnswerView {
        AnswerView {
            name: self.name@,
            rtype: self.rtype,
            class: self.class,
            ttl: self.ttl,
            data: self.data@,
        }
    }
}

/// The wire grammar of a resource record: a name, the type and the class as
/// 16-bit codes, the time to live in 32 bits, a 16-bit length and that many
/// bytes of data. The fields are read in this order, and the first that cannot
/// be read decides the error.
pub open spec fn parse_answer(bytes: Seq<u8>, pos: int) -> Parsed<AnswerView> {
    match parse_name(bytes, pos) {
        Err(e) => Err(e),
        Ok((name, p)) => if !has_bytes(bytes, p, 2) {
            Err(DecodeError::Truncated)
        } else if AnswerType::spec_from_code(u16_at(bytes, p)) is None {
            Err(DecodeError::UnknownRecordType)
        } else if !has_bytes(bytes, p + 2, 2) {
            Err(DecodeError::Truncated)
        } else if AnswerClass::spec_from_code(u16_at(bytes, p + 2)) is None {
            Err(DecodeError::UnknownRecordClass)
        } else if !has_bytes(bytes, p + 4, 6 + u16_at(bytes, p + 8)) {
            Err(DecodeError::Truncated)
        } else {
            Ok(
                (
                    AnswerView {
                        name,
                        rtype: AnswerType::spec_from_code(u16_at(bytes, p))->Some_0,
                        class: AnswerClass::spec_from_code(u16_at(bytes, p + 2))->Some_0,
                        ttl: u32_at(bytes, p + 4),
                        data: bytes.subrange(p + 10, p + 10 + u16_at(bytes, p + 8)),
                    },
                    p + 10 + u16_at(bytes, p + 8),
                ),
            )
        },
    }
}

/// What follows the name in the bytes of a record.
pub open spec fn answer_tail_wire(a: AnswerView) -> Seq<u8> {
    u16_bytes(a.rtype.spec_code()) + u16_bytes(a.class.spec_code()) + u32_bytes(a.ttl)
        + u16_bytes(a.data.len() as u16) + a.data
}

/// The bytes of a record. The length prefix is the length of the data; a
/// record can be written exactly when its name can and its data has at most
/// 65535 bytes.
pub open spec fn answer_wire(a: AnswerView) -> Result<Seq<u8>, EncodeError> {
    match name_wire(a.name) {
        Err(e) => Err(e),
        Ok(name) => if a.data.len() > 0xffff {
            Err(EncodeError::DataTooLong)
        } else {
            Ok(name + answer_tail_wire(a))
        },
    }
}

impl Clone for Answer {
    fn clone(&self) -> (r: Self)
        ensures
            r@ == self@,
    {
        Answer {
            name: self.name.clone(),
            rtype: self.rtype,
            class: self.class,
            ttl: self.ttl,
            data: self.data.clone(),
        }
    }
}

impl Default for Answer {
    fn default() -> (r: Self)
        ensures
            r@ == (AnswerView {
                name: default_name(),
                rtype: AnswerType::A,
                class: AnswerClass::IN,
                ttl: 60,
                data: seq![8u8, 8u8, 8u8, 8u8],
            }),
    {
        Answer::new(Name::default())
    }
}

impl Answer {
    /// A record of type A and class IN for `name` that lives 60 seconds and
    /// holds the address 8.8.8.8.
    pub fn new(name: Name) -> (r: Self)
        ensures
            r@ == (AnswerView {
                name: name@,
                rtype: AnswerType::A,
                class: AnswerClass::IN,
                ttl: 60,
                data: seq![8u8, 8u8, 8u8, 8u8],
            }),
    {
        let mut data: Vec<u8> = Vec::new();
        data.push(8);
        data.push(8);
        data.push(8);
        data.push(8);
        assert(data@ =~= seq![8u8, 8u8, 8u8, 8u8]);
        Answer { name, rtype: AnswerType::A, class: AnswerClass::IN, ttl: DEFAULT_TTL, data }
    }
}

impl WireRead for Answer {
    open spec fn parse(bytes: Seq<u8>, pos: int) -> Parsed<AnswerView> {
        parse_answer(bytes, pos)
    }

    /// Reads a record as `parse_answer` describes.
    fn from_bytes(input: &[u8], offset: usize) -> (r: Result<(Answer, usize), DecodeError>) {
        let (name, at_type) = match Name::from_bytes(input, offset) {
            Ok(pair) => pair,
            Err(e) => {
                return Err(e);
            },
        };
        let (type_code, at_class) = match read_u16(input, at_type) {
            Ok(pair) => pair,
            Err(e) => {
                return Err(e);
            },
        };
        let rtype = match AnswerType::from_code(type_code) {
            Some(t) => t,
            None => {
                return Err(DecodeError::UnknownRecordType);
            },
        };
        let (class_code, at_ttl) = match read_u16(input, at_class) {
            Ok(pair) => pair,
            Err(e) => {
                return Err(e);
            },
        };
        let class = match AnswerClass::from_code(class_code) {
            Some(c) => c,
            None => {
                return Err(DecodeError::UnknownRecordClass);
            },
        };
        let (ttl, at_length) = match read_u32(input, at_ttl) {
            Ok(pair) => pair,
            Err(e) => {
                return Err(e);
            },
        };
        let (length, at_data) = match read_u16(input, at_length) {
            Ok(pair) => pair,
            Err(e) => {
                return Err(e);
            },
        };
        let n: usize = length as usize;
        if n > input.len() - at_data {
            return Err(DecodeError::Truncated);
        }
        let data = copy_bytes(input, at_data, n);
        Ok((Answer { name, rtype, class, ttl, data }, at_data + n))
    }
}

impl WireWrite for Answer {
    open spec fn wire(v: AnswerView) -> Result<Seq<u8>, EncodeError> {
        answer_wire(v)
    }

    /// Appends the record; the length prefix is computed from the data.
    /// Fails when the name cannot be written or the data is longer than
    /// 65535 bytes.
    fn write(&self, output: &mut Vec<u8>) -> (r: Result<(), EncodeError>) {
        let start: usize = output.len();
        match self.name.write(output) {
            Err(e) => Err(e),
            Ok(()) => {
                if self.data.len() > MAX_DATA_LEN {
                    output.truncate(start);
                    assert(output@ =~= old(output)@);
                    return Err(EncodeError::DataTooLong);
                }
                push_u16(output, self.rtype.code());
                push_u16(output, self.class.code());
                push_u32(output, self.ttl);
                push_u16(output, self.data.len() as u16);
                push_bytes(output, self.data.as_slice());
                assert(output@ =~= old(output)@ + answer_wire(self@)->Ok_0);
                Ok(())
            },
        }
    }
}

} // verus!
