//! The fixed twelve-byte header that opens every DNS message.
//!
//! Layout, most significant bit first: `id` (16 bits); one flag byte holding
//! QR (1), OPCODE (4), AA (1), TC (1), RD (1); one flag byte holding RA (1),
//! Z (3), RCODE (4); then four 16-bit big-endian counts.

use vstd::prelude::*;
use crate::error::DecodeError;
use crate::wire::{has_bytes, lemma_u16_round_trip, push_u16, u16_at, u16_bytes};

verus! {

/// The number of bytes a header occupies on the wire.
pub const HEADER_LEN: usize = 12;

/// The response code reported for every operation other than a standard query.
pub const RCODE_NOT_IMPLEMENTED: u8 = 4;

/// Whether a message is a query or a response.
#[derive(Debug, Clone, Copy, PartialEq, Eq, Structural)]
pub enum QRIndicator {
    Query,
    Response,
}

impl Default for QRIndicator {
    fn default() -> (r: Self)
        ensures
            r == QRIndicator::Response,
    {
        QRIndicator::Response
    }
}

/// A DNS message header.
#[derive(Debug, Clone, Copy, PartialEq, Eq, Structural)]
pub struct Header {
    pub id: u16,
    pub qr_indicator: QRIndicator,
    /// Four bits on the wire.
    pub op_code: u8,
    pub authoritative_answer: bool,
    pub truncation: bool,
    pub recursion_desired: bool,
    pub recursion_available: bool,
    /// Three bits on the wire.
    pub reserved: u8,
    /// Four bits on the wire.
    pub response_code: u8,
    pub question_count: u16,
    pub answer_record_count: u16,
    pub authority_record_count: u16,
    pub additional_record_count: u16,
}

/// A flag as the bit it occupies.
pub open spec fn bit(b: bool) -> int {
    if b {
        1
    } else {
        0
    }
}

impl Header {
    /// Every bit field fits the width it has on the wire.
    pub open spec fn wf(self) -> bool {
        self.op_code < 16 && self.reserved < 8 && self.response_code < 16
    }

    /// The first flag byte: QR, OPCODE, AA, TC, RD. A wider `op_code` is cut
    /// to its low four bits.
    pub open spec fn flags_hi(self) -> u8 {
        (bit(self.qr_indicator == QRIndicator::Response) * 128 + (self.op_code % 16) * 8 + bit(
            self.authoritative_answer,
        ) * 4 + bit(self.truncation) * 2 + bit(self.recursion_desired)) as u8
    }

    /// The second flag byte: RA, Z, RCODE. Wider `reserved` and `response_code`
    /// are cut to their low three and four bits.
    pub open spec fn flags_lo(self) -> u8 {
        (bit(self.recursion_available) * 128 + (self.reserved % 8) * 16 + (self.response_code
            % 16)) as u8
    }

    /// The twelve bytes of the header.
    pub open spec fn wire(self) -> Seq<u8> {
        u16_bytes(self.id) + seq![self.flags_hi(), self.flags_lo()] + u16_bytes(
            self.question_count,
        ) + u16_bytes(self.answer_record_count) + u16_bytes(self.authority_record_count)
            + u16_bytes(self.additional_record_count)
    }

    /// The header that the twelve bytes at `pos` spell.
    pub open spec fn parse(bytes: Seq<u8>, pos: int) -> Header
        recommends
            has_bytes(bytes, pos, 12),
    {
        let hi = bytes[pos + 2];
        let lo = bytes[pos + 3];
        Header {
            id: u16_at(bytes, pos),
            qr_indicator: if hi >= 128 {
                QRIndicator::Response
            } else {
                QRIndicator::Query
            },
            op_code: ((hi / 8) % 16) as u8,
            authoritative_answer: (hi / 4) % 2 == 1,
            truncation: (hi / 2) % 2 == 1,
            recursion_desired: hi % 2 == 1,
            recursion_available: lo >= 128,
            reserved: ((lo / 16) % 8) as u8,
            response_code: (lo % 16) as u8,
            question_count: u16_at(bytes, pos + 4),
            answer_record_count: u16_at(bytes, pos + 6),
            authority_record_count: u16_at(bytes, pos + 8),
            additional_record_count: u16_at(bytes, pos + 10),
        }
    }

    /// The header with id 1234 that marks a response; everything else is zero.
    pub open spec fn spec_new() -> Header {
        Header {
            id: 1234,
            qr_indicator: QRIndicator::Response,
            op_code: 0,
            authoritative_answer: false,
            truncation: false,
            recursion_desired: false,
            recursion_available: false,
            reserved: 0,
            response_code: 0,
            question_count: 0,
            answer_record_count: 0,
            authority_record_count: 0,
            additional_record_count: 0,
        }
    }

    /// A header with id 1234 that marks a response; everything else is zero.
    #[verifier::when_used_as_spec(spec_new)]
    pub fn new() -> (r: Self)
        ensures
            r == Header::spec_new(),
            r.wf(),
    {
        Header {
            id: 1234,
            qr_indicator: QRIndicator::Response,
            op_code: 0,
            authoritative_answer: false,
            truncation: false,
            recursion_desired: false,
            recursion_available: false,
            reserved: 0,
            response_code: 0,
            question_count: 0,
            answer_record_count: 0,
            authority_record_count: 0,
            additional_record_count: 0,
        }
    }

    /// Appends the twelve bytes of the header to `output`.
    pub fn write(&self, output: &mut Vec<u8>)
        ensures
            final(output)@ == old(output)@ + self.wire(),
    {
        let qr: u8 = match self.qr_indicator {
            QRIndicator::Response => 128,
            QRIndicator::Query => 0,
        };
        let aa: u8 = if self.authoritative_answer { 4 } else { 0 };
        let tc: u8 = if self.truncation { 2 } else { 0 };
        let rd: u8 = if self.recursion_desired { 1 } else { 0 };
        let ra: u8 = if self.recursion_available { 128 } else { 0 };
        let hi: u8 = qr + (self.op_code % 16) * 8 + aa + tc + rd;
        let lo: u8 = ra + (self.reserved % 8) * 16 + self.response_code % 16;
        push_u16(output, self.id);
        output.push(hi);
        output.push(lo);
        push_u16(output, self.question_count);
        push_u16(output, self.answer_record_count);
        push_u16(output, self.authority_record_count);
        push_u16(output, self.additional_record_count);
        assert(output@ =~= old(output)@ + self.wire());
    }

    /// The twelve bytes of the header. Bit fields wider than their place on
    /// the wire are cut to it, so this never fails.
    pub fn to_bytes(&self) -> (r: Vec<u8>)
        ensures
            r@ == self.wire(),
            r@.len() == 12,
    {
        let mut out: Vec<u8> = Vec::new();
        self.write(&mut out);
        assert(out@ =~= self.wire());
        out
    }

    /// Reads a header from the twelve bytes at `offset`. Fails exactly when
    /// fewer than twelve bytes are left; otherwise returns the header and the
    /// offset behind it.
    pub fn from_bytes(input: &[u8], offset: usize) -> (r: Result<(Header, usize), DecodeError>)
        ensures
            match r {
                Ok((header, end)) => has_bytes(input@, offset as int, 12) && header
                    == Header::parse(input@, offset as int) && end == offset + 12 && header.wf(),
                Err(e) => !has_bytes(input@, offset as int, 12) && e == DecodeError::Truncated,
            },
    {
        if input.len() < HEADER_LEN || offset > input.len() - HEADER_LEN {
            return Err(DecodeError::Truncated);
        }
        let hi: u8 = input[offset + 2];
        let lo: u8 = input[offset + 3];
        let id: u16 = u16::from(input[offset]) * 256 + u16::from(input[offset + 1]);
        let question_count: u16 = u16::from(input[offset + 4]) * 256 + u16::from(
            input[offset + 5],
        );
        let answer_record_count: u16 = u16::from(input[offset + 6]) * 256 + u16::from(
            input[offset + 7],
        );
        let authority_record_count: u16 = u16::from(input[offset + 8]) * 256 + u16::from(
            input[offset + 9],
        );
        let additional_record_count: u16 = u16::from(input[offset + 10]) * 256 + u16::from(
            input[offset + 11],
        );
        let header = Header {
            id,
            qr_indicator: if hi >= 128 {
                QRIndicator::Response
            } else {
                QRIndicator::Query
            },
            op_code: (hi / 8) % 16,
            authoritative_answer: (hi / 4) % 2 == 1,
            truncation: (hi / 2) % 2 == 1,
            recursion_desired: hi % 2 == 1,
            recursion_available: lo >= 128,
            reserved: (lo / 16) % 8,
            response_code: lo % 16,
            question_count,
            answer_record_count,
            authority_record_count,
            additional_record_count,
        };
        Ok((header, offset + HEADER_LEN))
    }

    /// Reads a header from `input`, which must hold twelve bytes and no more.
    pub fn try_from_bytes(input: &[u8]) -> (r: Result<Header, DecodeError>)
        ensures
            input@.len() < 12 ==> r == Err::<Header, DecodeError>(DecodeError::Truncated),
            input@.len() > 12 ==> r == Err::<Header, DecodeError>(DecodeError::TrailingData),
            input@.len() == 12 ==> r == Ok::<Header, DecodeError>(Header::parse(input@, 0)),
    {
        match Header::from_bytes(input, 0) {
            Err(e) => Err(e),
            Ok((header, end)) => {
                if end < input.len() {
                    Err(DecodeError::TrailingData)
                } else {
                    Ok(header)
                }
            },
        }
    }
}

impl Default for Header {
    fn default() -> (r: Self)
        ensures
            r == Header::spec_new(),
            r.wire() == seq![4u8, 210u8, 128u8, 0u8, 0u8, 0u8, 0u8, 0u8, 0u8, 0u8, 0u8, 0u8],
    {
        let h = Header::new();
        assert(h.wire() =~= seq![4u8, 210u8, 128u8, 0u8, 0u8, 0u8, 0u8, 0u8, 0u8, 0u8, 0u8, 0u8]);
        h
    }
}

/// The two flag bytes of a header whose bit fields fit their widths give
/// each flag and field back.
pub proof fn lemma_flag_bytes_round_trip(h: Header)
    requires
        h.wf(),
    ensures
        (h.flags_hi() >= 128) == (h.qr_indicator == QRIndicator::Response),
        (h.flags_hi() / 8) % 16 == h.op_code,
        ((h.flags_hi() / 4) % 2 == 1) == h.authoritative_answer,
        ((h.flags_hi() / 2) % 2 == 1) == h.truncation,
        (h.flags_hi() % 2 == 1) == h.recursion_desired,
        (h.flags_lo() >= 128) == h.recursion_available,
        (h.flags_lo() / 16) % 8 == h.reserved,
        h.flags_lo() % 16 == h.response_code,
{
    let qr = bit(h.qr_indicator == QRIndicator::Response);
    let op = h.op_code as int;
    let aa = bit(h.authoritative_answer);
    let tc = bit(h.truncation);
    let rd = bit(h.recursion_desired);
    let hi = qr * 128 + op * 8 + aa * 4 + tc * 2 + rd;
    assert(0 <= hi < 256);
    assert(h.flags_hi() == hi);
    assert((hi / 8) % 16 == op);
    assert((hi / 4) % 2 == aa);
    assert((hi / 2) % 2 == tc);
    assert(hi % 2 == rd);
    let ra = bit(h.recursion_available);
    let z = h.reserved as int;
    let rc = h.response_code as int;
    let lo = ra * 128 + z * 16 + rc;
    assert(0 <= lo < 256);
    assert(h.flags_lo() == lo);
    assert((lo / 16) % 8 == z);
    assert(lo % 16 == rc);
}

/// The twelve bytes of a header, one by one.
pub proof fn lemma_header_wire_bytes(h: Header)
    ensures
        h.wire() == seq![
            (h.id / 256) as u8,
            (h.id % 256) as u8,
            h.flags_hi(),
            h.flags_lo(),
            (h.question_count / 256) as u8,
            (h.question_count % 256) as u8,
            (h.answer_record_count / 256) as u8,
            (h.answer_record_count % 256) as u8,
            (h.authority_record_count / 256) as u8,
            (h.authority_record_count % 256) as u8,
            (h.additional_record_count / 256) as u8,
            (h.additional_record_count % 256) as u8,
        ],
{
    let a = u16_bytes(h.id) + seq![h.flags_hi(), h.flags_lo()];
    assert(a =~= seq![(h.id / 256) as u8, (h.id % 256) as u8, h.flags_hi(), h.flags_lo()]);
    let b = a + u16_bytes(h.question_count);
    assert(b =~= seq![
        (h.id / 256) as u8,
        (h.id % 256) as u8,
        h.flags_hi(),
        h.flags_lo(),
        (h.question_count / 256) as u8,
        (h.question_count % 256) as u8,
    ]);
    let c = b + u16_bytes(h.answer_record_count);
    assert(c =~= seq![
        (h.id / 256) as u8,
        (h.id % 256) as u8,
        h.flags_hi(),
        h.flags_lo(),
        (h.question_count / 256) as u8,
        (h.question_count % 256) as u8,
        (h.answer_record_count / 256) as u8,
        (h.answer_record_count % 256) as u8,
    ]);
    let d = c + u16_bytes(h.authority_record_count);
    assert(d =~= seq![
        (h.id / 256) as u8,
        (h.id % 256) as u8,
        h.flags_hi(),
        h.flags_lo(),
        (h.question_count / 256) as u8,
        (h.question_count % 256) as u8,
        (h.answer_record_count / 256) as u8,
        (h.answer_record_count % 256) as u8,
        (h.authority_record_count / 256) as u8,
        (h.authority_record_count % 256) as u8,
    ]);
    assert(h.wire() =~= seq![
        (h.id / 256) as u8,
        (h.id % 256) as u8,
        h.flags_hi(),
        h.flags_lo(),
        (h.question_count / 256) as u8,
        (h.question_count % 256) as u8,
        (h.answer_record_count / 256) as u8,
        (h.answer_record_count % 256) as u8,
        (h.authority_record_count / 256) as u8,
        (h.authority_record_count % 256) as u8,
        (h.additional_record_count / 256) as u8,
        (h.additional_record_count % 256) as u8,
    ]);
}

/// Decoding the bytes of a header whose bit fields fit their widths gives the
/// header back, wherever in a datagram those bytes stand.
pub proof fn lemma_header_round_trip(h: Header, bytes: Seq<u8>, pos: int)
    requires
        h.wf(),
        0 <= pos,
        pos + 12 <= bytes.len(),
        bytes.subrange(pos, pos + 12) == h.wire(),
    ensures
        Header::parse(bytes, pos) == h,
{
    let w = h.wire();
    lemma_header_wire_bytes(h);
    assert(w.len() == 12);
    assert forall|i: int| 0 <= i < 12 implies bytes[pos + i] == w[i] by {
        assert(bytes.subrange(pos, pos + 12)[i] == bytes[pos + i]);
    }
    assert(bytes[pos] == w[0] && bytes[pos + 1] == w[1] && bytes[pos + 2] == w[2]);
    assert(bytes[pos + 3] == w[3] && bytes[pos + 4] == w[4] && bytes[pos + 5] == w[5]);
    assert(bytes[pos + 6] == w[6] && bytes[pos + 7] == w[7] && bytes[pos + 8] == w[8]);
    assert(bytes[pos + 9] == w[9] && bytes[pos + 10] == w[10] && bytes[pos + 11] == w[11]);
    lemma_flag_bytes_round_trip(h);
    lemma_u16_round_trip(h.id);
    lemma_u16_round_trip(h.question_count);
    lemma_u16_round_trip(h.answer_record_count);
    lemma_u16_round_trip(h.authority_record_count);
    lemma_u16_round_trip(h.additional_record_count);
    let g = Header::parse(bytes, pos);
    assert(g.id == h.id);
    assert(g.qr_indicator == h.qr_indicator);
    assert(g.op_code == h.op_code);
    assert(g.reserved == h.reserved);
    assert(g.response_code == h.response_code);
    assert(g.question_count == h.question_count);
    assert(g.answer_record_count == h.answer_record_count);
    assert(g.authority_record_count == h.authority_record_count);
    assert(g.additional_record_count == h.additional_record_count);
}

/// Encoding a header whose bit fields fit their widths and decoding the
/// twelve bytes gives the header back.
pub proof fn lemma_header_decode_encode(h: Header)
    requires
        h.wf(),
    ensures
        h.wire().len() == 12,
        Header::parse(h.wire(), 0) == h,
{
    lemma_header_wire_bytes(h);
    assert(h.wire().subrange(0, 12) =~= h.wire());
    lemma_header_round_trip(h, h.wire(), 0);
}

/// The header that twelve bytes spell has bit fields that fit their widths.
pub proof fn lemma_parsed_header_is_wf(bytes: Seq<u8>, pos: int)
    ensures
        Header::parse(bytes, pos).wf(),
{
}

} // verus!
