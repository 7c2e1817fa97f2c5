//! Domain names: length-prefixed labels, closed by a zero byte or by a
//! compression pointer to an earlier place in the same datagram.

use vstd::prelude::*;
use vstd::string::StringSliceAdditionalSpecFns;
use crate::error::{DecodeError, EncodeError};
use crate::traits::{
    prefixed, views, wire_all_with_null, Parsed, ResolveWithBuffer, WireRead, WireWrite,
    WriteAll,
};
use crate::wire::{copy_bytes, push_bytes};

verus! {

/// The longest label the wire format can announce.
pub const MAX_LABEL_LEN: usize = 63;

/// How many compression pointers one resolution follows before it gives up.
pub const MAX_POINTER_HOPS: usize = 16;

/// The byte that separates labels in the dotted text form of a name.
pub const DOT: u8 = 46;

/// One entry of a name as it is stored.
#[derive(Debug, PartialEq, Eq)]
pub enum NameKind {
    /// A run of raw bytes, 1 to 63 of them in a well-formed name.
    Label { data: Vec<u8> },
    /// A reference to the name that starts at this byte offset of the datagram.
    Pointer(u16),
}

/// One entry of a name as contracts speak of it.
pub enum NameEntry {
    Label(Seq<u8>),
    Pointer(u16),
}

impl View for NameKind {
    type V = NameEntry;

    open spec fn view(&self) -> NameEntry {
        match self {
            NameKind::Label { data } => NameEntry::Label(data@),
            NameKind::Pointer(offset) => NameEntry::Pointer(*offset),
        }
    }
}

impl Clone for NameKind {
    fn clone(&self) -> (r: Self)
        ensures
            r@ == self@,
    {
        match self {
            NameKind::Label { data } => NameKind::Label { data: data.clone() },
            NameKind::Pointer(offset) => NameKind::Pointer(*offset),
        }
    }
}

/// A domain name: labels, possibly closed by one pointer.
#[derive(Debug, PartialEq, Eq)]
pub struct Name {
    pub entries: Vec<NameKind>,
}

impl View for Name {
    type V = Seq<NameEntry>;

    open spec fn view(&self) -> Seq<NameEntry> {
        views(self.entries@)
    }
}

/// A label has 1 to 63 bytes; a pointer offset has 14 bits.
pub open spec fn entry_wf(e: NameEntry) -> bool {
    match e {
        NameEntry::Label(data) => 1 <= data.len() <= 63,
        NameEntry::Pointer(offset) => offset < 0x4000,
    }
}

/// Every entry is well formed, and a pointer stands only in the last place.
pub open spec fn name_wf(n: Seq<NameEntry>) -> bool {
    forall|i: int|
        0 <= i < n.len() ==> entry_wf(#[trigger] n[i]) && (n[i] is Pointer ==> i == n.len() - 1)
}

/// The name holds labels only.
pub open spec fn is_resolved(n: Seq<NameEntry>) -> bool {
    forall|i: int| 0 <= i < n.len() ==> #[trigger] n[i] is Label
}

/// The wire grammar of a name, read from `bytes` at `pos`.
///
/// A tag byte of zero ends the name. A tag whose top bits are `00` announces a
/// label of that many bytes. A tag whose top bits are `11` opens a two-byte
/// pointer, which ends the name. Any other tag is malformed, and running out
/// of bytes is a truncation.
pub open spec fn parse_name(bytes: Seq<u8>, pos: int) -> Parsed<Seq<NameEntry>>
    decreases bytes.len() - pos,
{
    if pos < 0 || pos >= bytes.len() {
        Err(DecodeError::Truncated)
    } else {
        let tag = bytes[pos];
        if tag == 0 {
            Ok((Seq::empty(), pos + 1))
        } else if tag < 64 {
            if pos + 1 + tag > bytes.len() {
                Err(DecodeError::Truncated)
            } else {
                prefixed(
                    seq![NameEntry::Label(bytes.subrange(pos + 1, pos + 1 + tag))],
                    parse_name(bytes, pos + 1 + tag),
                )
            }
        } else if tag >= 192 {
            if pos + 2 > bytes.len() {
                Err(DecodeError::Truncated)
            } else {
                Ok(
                    (
                        seq![NameEntry::Pointer(((tag - 192) * 256 + bytes[pos + 1]) as u16)],
                        pos + 2,
                    ),
                )
            }
        } else {
            Err(DecodeError::MalformedNameTag)
        }
    }
}

/// The bytes of one entry: a label is its length and its bytes; a pointer is
/// never written.
pub open spec fn entry_wire(e: NameEntry) -> Result<Seq<u8>, EncodeError> {
    match e {
        NameEntry::Label(data) => if 1 <= data.len() <= 63 {
            Ok(seq![data.len() as u8] + data)
        } else {
            Err(EncodeError::LabelLength)
        },
        NameEntry::Pointer(_) => Err(EncodeError::UnresolvedPointer),
    }
}

/// The bytes of a name: its labels in order, then a zero byte. The first
/// entry that cannot be written decides the error.
pub open spec fn name_wire(n: Seq<NameEntry>) -> Result<Seq<u8>, EncodeError> {
    wire_all_with_null::<NameKind>(n)
}

/// The name that `n` stands for in the datagram `buf`, following at most
/// `hops` pointers: while the last entry is a pointer, it is replaced by the
/// name that is read at its offset.
pub open spec fn resolve_name(n: Seq<NameEntry>, buf: Seq<u8>, hops: nat) -> Result<
    Seq<NameEntry>,
    DecodeError,
>
    decreases hops,
{
    if n.len() == 0 || !(n.last() is Pointer) {
        Ok(n)
    } else if hops == 0 {
        Err(DecodeError::PointerLoop)
    } else if n.last()->Pointer_0 >= buf.len() {
        Err(DecodeError::PointerOutOfRange)
    } else {
        match parse_name(buf, n.last()->Pointer_0 as int) {
            Err(e) => Err(e),
            Ok((tail, _)) => resolve_name(n.drop_last() + tail, buf, (hops - 1) as nat),
        }
    }
}

/// The pieces of `s` between its dots, in order. Text without a dot is one
/// piece; two dots in a row, or a dot at either end, give an empty piece.
pub open spec fn split_labels(s: Seq<u8>) -> Seq<Seq<u8>>
    decreases s.len(),
{
    if s.len() == 0 {
        seq![Seq::empty()]
    } else {
        let before = split_labels(s.drop_last());
        if s.last() == DOT {
            before.push(Seq::empty())
        } else {
            before.drop_last().push(before.last().push(s.last()))
        }
    }
}

/// Each piece as a label entry.
pub open spec fn as_labels(pieces: Seq<Seq<u8>>) -> Seq<NameEntry> {
    pieces.map_values(|d: Seq<u8>| NameEntry::Label(d))
}

impl NameKind {
    /// Reads entries from `input` at `offset` until a zero tag or a pointer
    /// closes the name, as `parse_name` describes.
    pub fn read_until_null_or_pointer(input: &[u8], offset: usize) -> (r: Result<
        (Vec<NameKind>, usize),
        DecodeError,
    >)
        ensures
            match r {
                Ok((entries, end)) => parse_name(input@, offset as int) == Ok::<
                    (Seq<NameEntry>, int),
                    DecodeError,
                >((views(entries@), end as int)) && offset < end <= input@.len(),
                Err(e) => parse_name(input@, offset as int) == Err::<
                    (Seq<NameEntry>, int),
                    DecodeError,
                >(e),
            },
    {
        let mut entries: Vec<NameKind> = Vec::new();
        let mut pos: usize = offset;
        assert(views(entries@) + Seq::<NameEntry>::empty() =~= Seq::<NameEntry>::empty());
        loop
            invariant
                offset <= pos,
                pos == offset || pos <= input@.len(),
                entries@.len() == 0 <==> pos == offset,
                parse_name(input@, offset as int) == prefixed(
                    views(entries@),
                    parse_name(input@, pos as int),
                ),
            decreases input@.len() - pos,
        {
            if pos >= input.len() {
                return Err(DecodeError::Truncated);
            }
            let tag: u8 = input[pos];
            if tag == 0 {
                assert(views(entries@) + Seq::<NameEntry>::empty() =~= views(entries@));
                return Ok((entries, pos + 1));
            } else if tag < 64 {
                let n: usize = tag as usize;
                if n > input.len() - pos - 1 {
                    return Err(DecodeError::Truncated);
                }
                let data = copy_bytes(input, pos + 1, n);
                let ghost before = views(entries@);
                let ghost label = NameEntry::Label(data@);
                entries.push(NameKind::Label { data });
                proof {
                    assert(views(entries@) =~= before + seq![label]);
                    let rest = parse_name(input@, pos + 1 + n);
                    match rest {
                        Ok((m, _)) => {
                            assert(before + (seq![label] + m) =~= (before + seq![label]) + m);
                        },
                        Err(_) => {},
                    }
                }
                pos = pos + 1 + n;
            } else if tag >= 192 {
                if input.len() - pos < 2 {
                    return Err(DecodeError::Truncated);
                }
                let target: u16 = ((tag - 192) as u16) * 256 + input[pos + 1] as u16;
                let ghost before = views(entries@);
                entries.push(NameKind::Pointer(target));
                assert(views(entries@) =~= before + seq![NameEntry::Pointer(target)]);
                return Ok((entries, pos + 2));
            } else {
                return Err(DecodeError::MalformedNameTag);
            }
        }
    }
}

impl WireWrite for NameKind {
    open spec fn wire(v: NameEntry) -> Result<Seq<u8>, EncodeError> {
        entry_wire(v)
    }

    /// Appends a label as its length and its bytes. Fails for a label that
    /// is empty or longer than 63 bytes, and for a pointer.
    fn write(&self, output: &mut Vec<u8>) -> (r: Result<(), EncodeError>) {
        match self {
            NameKind::Pointer(_) => Err(EncodeError::UnresolvedPointer),
            NameKind::Label { data } => {
                if data.len() == 0 || data.len() > MAX_LABEL_LEN {
                    return Err(EncodeError::LabelLength);
                }
                output.push(data.len() as u8);
                push_bytes(output, data.as_slice());
                assert(output@ =~= old(output)@ + (seq![data@.len() as u8] + data@));
                Ok(())
            },
        }
    }
}

impl Clone for Name {
    fn clone(&self) -> (r: Self)
        ensures
            r@ == self@,
    {
        let entries = self.entries.clone();
        assert(views(entries@) =~= views(self.entries@));
        Name { entries }
    }
}

impl Name {
    /// The name whose labels are the pieces of `name` between its dots.
    pub fn new(name: &str) -> (r: Self)
        ensures
            r@ == as_labels(split_labels(name.spec_bytes())),
            is_resolved(r@),
    {
        Name::from_dotted(name.as_bytes())
    }

    /// The name whose labels are the pieces of `text` between its dots.
    pub fn from_dotted(text: &[u8]) -> (r: Self)
        ensures
            r@ == as_labels(split_labels(text@)),
            is_resolved(r@),
    {
        let mut entries: Vec<NameKind> = Vec::new();
        let mut current: Vec<u8> = Vec::new();
        let mut i: usize = 0;
        assert(text@.take(0) =~= Seq::<u8>::empty());
        assert(as_labels(split_labels(text@.take(0))) =~= views(entries@).push(
            NameEntry::Label(current@),
        ));
        while i < text.len()
            invariant
                i <= text.len(),
                as_labels(split_labels(text@.take(i as int))) == views(entries@).push(
                    NameEntry::Label(current@),
                ),
            decreases text.len() - i,
        {
            let ghost done = views(entries@);
            let ghost open = current@;
            let ghost pieces = split_labels(text@.take(i as int));
            proof {
                assert(text@.take(i + 1).drop_last() =~= text@.take(i as int));
                assert(text@.take(i + 1).last() == text@[i as int]);
                assert(as_labels(pieces).len() == done.len() + 1);
                assert(as_labels(pieces).last() == NameEntry::Label(open));
                assert(pieces.last() == open);
            }
            if text[i] == DOT {
                entries.push(NameKind::Label { data: current });
                current = Vec::new();
                assert(as_labels(pieces.push(Seq::empty())) =~= as_labels(pieces).push(
                    NameEntry::Label(Seq::empty()),
                ));
                assert(views(entries@) =~= done.push(NameEntry::Label(open)));
            } else {
                current.push(text[i]);
                assert(as_labels(pieces.drop_last().push(open.push(text@[i as int]))) =~= done.push(
                    NameEntry::Label(current@),
                )) by {
                    assert(as_labels(pieces).drop_last() =~= done);
                    assert(as_labels(pieces.drop_last()) =~= as_labels(pieces).drop_last());
                }
            }
            i += 1;
        }
        assert(text@.take(i as int) =~= text@);
        let ghost done = views(entries@);
        entries.push(NameKind::Label { data: current });
        assert(views(entries@) =~= done.push(NameEntry::Label(current@)));
        Name { entries }
    }
}

impl WireRead for Name {
    open spec fn parse(bytes: Seq<u8>, pos: int) -> Parsed<Seq<NameEntry>> {
        parse_name(bytes, pos)
    }

    /// Reads a name as `parse_name` describes. The name may end in a pointer.
    fn from_bytes(input: &[u8], offset: usize) -> (r: Result<(Name, usize), DecodeError>) {
        match NameKind::read_until_null_or_pointer(input, offset) {
            Ok((entries, end)) => Ok((Name { entries }, end)),
            Err(e) => Err(e),
        }
    }
}

impl WireWrite for Name {
    open spec fn wire(v: Seq<NameEntry>) -> Result<Seq<u8>, EncodeError> {
        name_wire(v)
    }

    /// Appends the labels of the name, then a zero byte. Fails when a label
    /// is empty or longer than 63 bytes or when the name holds a pointer.
    fn write(&self, output: &mut Vec<u8>) -> (r: Result<(), EncodeError>) {
        NameKind::write_all_with_null(output, self.entries.as_slice())
    }
}

impl ResolveWithBuffer for Name {
    type Model = Seq<NameEntry>;

    open spec fn model(&self) -> Seq<NameEntry> {
        self@
    }

    open spec fn resolved(m: Seq<NameEntry>, buf: Seq<u8>) -> Result<Seq<NameEntry>, DecodeError> {
        resolve_name(m, buf, MAX_POINTER_HOPS as nat)
    }

    /// Replaces a closing pointer by the name it refers to in the datagram
    /// `buf`, again and again until the name holds labels only. A name
    /// without a closing pointer is returned as it is. Fails when a pointer
    /// leads behind the end of `buf`, when the bytes it leads to are no name,
    /// or when more than sixteen pointers would have to be followed.
    fn resolve(self, buf: &[u8]) -> (r: Result<Name, DecodeError>) {
        let mut entries: Vec<NameKind> = self.entries;
        let mut hops: usize = 0;
        loop
            invariant
                hops <= MAX_POINTER_HOPS,
                resolve_name(self@, buf@, MAX_POINTER_HOPS as nat) == resolve_name(
                    views(entries@),
                    buf@,
                    (MAX_POINTER_HOPS - hops) as nat,
                ),
            decreases MAX_POINTER_HOPS - hops,
        {
            let len: usize = entries.len();
            if len == 0 {
                return Ok(Name { entries });
            }
            let target: usize = match &entries[len - 1] {
                NameKind::Label { .. } => {
                    return Ok(Name { entries });
                },
                NameKind::Pointer(offset) => *offset as usize,
            };
            if hops == MAX_POINTER_HOPS {
                return Err(DecodeError::PointerLoop);
            }
            if target >= buf.len() {
                return Err(DecodeError::PointerOutOfRange);
            }
            match NameKind::read_until_null_or_pointer(buf, target) {
                Err(e) => {
                    return Err(e);
                },
                Ok((tail, _)) => {
                    let ghost before = views(entries@);
                    let mut tail = tail;
                    let ghost tail_view = views(tail@);
                    entries.pop();
                    entries.append(&mut tail);
                    assert(views(entries@) =~= before.drop_last() + tail_view);
                    hops += 1;
                },
            }
        }
    }
}

/// The name `codecrafters.io`, which stands in where no name is given.
pub open spec fn default_name() -> Seq<NameEntry> {
    seq![
        NameEntry::Label(
            seq![99u8, 111u8, 100u8, 101u8, 99u8, 114u8, 97u8, 102u8, 116u8, 101u8, 114u8, 115u8],
        ),
        NameEntry::Label(seq![105u8, 111u8]),
    ]
}

impl Default for Name {
    /// The name `codecrafters.io`.
    fn default() -> (r: Self)
        ensures
            r@ == default_name(),
            is_resolved(r@),
            name_wf(r@),
    {
        let first: [u8; 12] = [99, 111, 100, 101, 99, 114, 97, 102, 116, 101, 114, 115];
        let second: [u8; 2] = [105, 111];
        let mut entries: Vec<NameKind> = Vec::new();
        let data = copy_bytes(first.as_slice(), 0, 12);
        assert(data@ =~= default_name()[0]->Label_0);
        entries.push(NameKind::Label { data });
        let data = copy_bytes(second.as_slice(), 0, 2);
        assert(data@ =~= default_name()[1]->Label_0);
        entries.push(NameKind::Label { data });
        assert(views(entries@) =~= default_name());
        Name { entries }
    }
}

} // verus!
