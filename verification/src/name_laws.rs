//! What holds of names across encoding, decoding and pointer resolution.

use vstd::prelude::*;
use crate::error::{DecodeError, EncodeError};
use crate::name::{
    entry_wf, entry_wire, is_resolved, name_wf, name_wire, parse_name, resolve_name,
    split_labels, NameEntry, NameKind, DOT,
};
use crate::traits::{after, wire_all};

verus! {

/// The bytes of the empty name are a single zero byte; those of any other
/// name are the bytes of its first entry, then those of the name that the
/// other entries make.
pub proof fn lemma_name_wire_unfold(n: Seq<NameEntry>)
    ensures
        n.len() == 0 ==> name_wire(n) == Ok::<Seq<u8>, EncodeError>(seq![0u8]),
        n.len() > 0 ==> name_wire(n) == (match entry_wire(n[0]) {
            Err(e) => Err::<Seq<u8>, EncodeError>(e),
            Ok(first) => after(first, name_wire(n.drop_first())),
        }),
{
    if n.len() == 0 {
        assert(Seq::<u8>::empty() + seq![0u8] =~= seq![0u8]);
    } else {
        match entry_wire(n[0]) {
            Err(_) => {},
            Ok(first) => {
                match wire_all::<NameKind>(n.drop_first()) {
                    Err(_) => {},
                    Ok(rest) => {
                        assert((first + rest) + seq![0u8] =~= first + (rest + seq![0u8]));
                    },
                }
            },
        }
    }
}

/// A name can be written exactly when it is well formed and holds no pointer.
pub proof fn lemma_name_wire_succeeds(n: Seq<NameEntry>)
    ensures
        name_wire(n) is Ok <==> name_wf(n) && is_resolved(n),
    decreases n.len(),
{
    lemma_name_wire_unfold(n);
    if n.len() > 0 {
        let rest = n.drop_first();
        lemma_name_wire_succeeds(rest);
        if name_wire(n) is Ok {
            assert forall|i: int| 0 <= i < n.len() implies entry_wf(#[trigger] n[i]) && n[i] is Label by {
                if i > 0 {
                    assert(rest[i - 1] == n[i]);
                }
            }
        }
        if name_wf(n) && is_resolved(n) {
            assert(entry_wf(n[0]) && n[0] is Label);
            assert forall|i: int| 0 <= i < rest.len() implies entry_wf(#[trigger] rest[i])
                && rest[i] is Label by {
                assert(rest[i] == n[i + 1]);
            }
        }
    }
}

/// Decoding the wire form of a name gives the name back, wherever in a
/// datagram those bytes stand and whatever follows them.
pub proof fn lemma_name_round_trip(n: Seq<NameEntry>, bytes: Seq<u8>, pos: int)
    requires
        name_wire(n) is Ok,
        0 <= pos,
        pos + name_wire(n)->Ok_0.len() <= bytes.len(),
        bytes.subrange(pos, pos + name_wire(n)->Ok_0.len()) == name_wire(n)->Ok_0,
    ensures
        parse_name(bytes, pos) == Ok::<(Seq<NameEntry>, int), DecodeError>(
            (n, pos + name_wire(n)->Ok_0.len()),
        ),
    decreases n.len(),
{
    let w = name_wire(n)->Ok_0;
    lemma_name_wire_unfold(n);
    assert forall|i: int| 0 <= i < w.len() implies bytes[pos + i] == w[i] by {
        assert(bytes.subrange(pos, pos + w.len())[i] == bytes[pos + i]);
    }
    if n.len() == 0 {
        assert(w[0] == 0);
        assert(bytes[pos] == 0);
        assert(parse_name(bytes, pos).unwrap().0 =~= n);
    } else {
        let data = n[0]->Label_0;
        let first = entry_wire(n[0])->Ok_0;
        let rest = n.drop_first();
        let rest_w = name_wire(rest)->Ok_0;
        assert(w == first + rest_w);
        assert(first.len() == 1 + data.len());
        assert(w[0] == first[0]);
        assert(bytes[pos] == data.len() as u8);
        let next = pos + 1 + data.len();
        assert(bytes.subrange(pos + 1, next) =~= data) by {
            assert forall|i: int| 0 <= i < data.len() implies bytes[pos + 1 + i] == data[i] by {
                assert(w[1 + i] == first[1 + i]);
            }
        }
        assert(bytes.subrange(next, next + rest_w.len()) =~= rest_w) by {
            assert forall|i: int| 0 <= i < rest_w.len() implies bytes[next + i] == rest_w[i] by {
                assert(w[first.len() + i] == rest_w[i]);
            }
        }
        lemma_name_round_trip(rest, bytes, next);
        assert(seq![NameEntry::Label(data)] + rest =~= n);
    }
}

/// Encoding a name and decoding the bytes gives the name back and takes in
/// every byte. This holds of every name that can be encoded: one of labels
/// of 1 to 63 bytes each, whatever those bytes are.
pub proof fn lemma_name_decode_encode(n: Seq<NameEntry>)
    requires
        name_wire(n) is Ok,
    ensures
        parse_name(name_wire(n)->Ok_0, 0) == Ok::<(Seq<NameEntry>, int), DecodeError>(
            (n, name_wire(n)->Ok_0.len() as int),
        ),
{
    let w = name_wire(n)->Ok_0;
    assert(w.subrange(0, w.len() as int) =~= w);
    lemma_name_round_trip(n, w, 0);
}

/// A name that was read from a datagram is well formed, and reading it
/// consumed at least one byte and no byte behind the datagram's end.
pub proof fn lemma_parsed_name_is_wf(bytes: Seq<u8>, pos: int)
    requires
        parse_name(bytes, pos) is Ok,
    ensures
        name_wf(parse_name(bytes, pos)->Ok_0.0),
        pos < parse_name(bytes, pos)->Ok_0.1 <= bytes.len(),
    decreases bytes.len() - pos,
{
    let tag = bytes[pos];
    if 0 < tag < 64 {
        let next = pos + 1 + tag;
        lemma_parsed_name_is_wf(bytes, next);
        let rest = parse_name(bytes, next)->Ok_0.0;
        let n = parse_name(bytes, pos)->Ok_0.0;
        assert(n == seq![NameEntry::Label(bytes.subrange(pos + 1, next))] + rest);
        assert forall|i: int| 0 <= i < n.len() implies entry_wf(#[trigger] n[i]) && (n[i] is Pointer
            ==> i == n.len() - 1) by {
            if i > 0 {
                assert(n[i] == rest[i - 1]);
            }
        }
    }
}

/// Reading a name and writing it again gives the bytes that were read,
/// provided the name holds no pointer.
pub proof fn lemma_name_wire_of_parsed(bytes: Seq<u8>, pos: int)
    requires
        parse_name(bytes, pos) is Ok,
        is_resolved(parse_name(bytes, pos)->Ok_0.0),
    ensures
        name_wire(parse_name(bytes, pos)->Ok_0.0) == Ok::<Seq<u8>, EncodeError>(
            bytes.subrange(pos, parse_name(bytes, pos)->Ok_0.1),
        ),
    decreases bytes.len() - pos,
{
    let tag = bytes[pos];
    let n = parse_name(bytes, pos)->Ok_0.0;
    let end = parse_name(bytes, pos)->Ok_0.1;
    lemma_parsed_name_is_wf(bytes, pos);
    lemma_name_wire_unfold(n);
    if tag == 0 {
        assert(bytes.subrange(pos, end) =~= seq![0u8]);
    } else if tag < 64 {
        let next = pos + 1 + tag;
        let rest = parse_name(bytes, next)->Ok_0.0;
        let data = bytes.subrange(pos + 1, next);
        assert(n == seq![NameEntry::Label(data)] + rest);
        assert(n.drop_first() =~= rest);
        assert forall|i: int| 0 <= i < rest.len() implies #[trigger] rest[i] is Label by {
            assert(rest[i] == n[i + 1]);
        }
        lemma_name_wire_of_parsed(bytes, next);
        lemma_parsed_name_is_wf(bytes, next);
        assert(bytes.subrange(pos, end) =~= (seq![data.len() as u8] + data) + bytes.subrange(
            next,
            end,
        ));
    } else {
        assert(n[0] is Pointer);
    }
}

/// Resolution changes nothing in a name that holds no pointer.
pub proof fn lemma_resolved_name_is_fixed(n: Seq<NameEntry>, buf: Seq<u8>, hops: nat)
    requires
        is_resolved(n),
    ensures
        resolve_name(n, buf, hops) == Ok::<Seq<NameEntry>, DecodeError>(n),
{
}

/// Whatever a well-formed name resolves to is well formed and holds labels
/// only.
pub proof fn lemma_resolution_is_resolved(n: Seq<NameEntry>, buf: Seq<u8>, hops: nat)
    requires
        name_wf(n),
        resolve_name(n, buf, hops) is Ok,
    ensures
        name_wf(resolve_name(n, buf, hops)->Ok_0),
        is_resolved(resolve_name(n, buf, hops)->Ok_0),
    decreases hops,
{
    if n.len() == 0 || !(n.last() is Pointer) {
        assert forall|i: int| 0 <= i < n.len() implies #[trigger] n[i] is Label by {
            assert(entry_wf(n[i]));
        }
    } else {
        let target = n.last()->Pointer_0 as int;
        let tail = parse_name(buf, target)->Ok_0.0;
        lemma_parsed_name_is_wf(buf, target);
        let next = n.drop_last() + tail;
        assert forall|i: int| 0 <= i < next.len() implies entry_wf(#[trigger] next[i]) && (
        next[i] is Pointer ==> i == next.len() - 1) by {
            if i < n.len() - 1 {
                assert(next[i] == n[i]);
            } else {
                assert(next[i] == tail[i - (n.len() - 1)]);
            }
        }
        lemma_resolution_is_resolved(next, buf, (hops - 1) as nat);
    }
}

/// A name that ends in a pointer to a place where the datagram holds a name
/// that ends in a pointer to that same place cannot be resolved, however many
/// pointers may be followed: the resolution ends with `PointerLoop`.
pub proof fn lemma_self_pointer_is_rejected(n: Seq<NameEntry>, buf: Seq<u8>, hops: nat)
    requires
        n.len() > 0,
        n.last() is Pointer,
        parse_name(buf, n.last()->Pointer_0 as int) is Ok,
        parse_name(buf, n.last()->Pointer_0 as int)->Ok_0.0.len() > 0,
        parse_name(buf, n.last()->Pointer_0 as int)->Ok_0.0.last() == n.last(),
    ensures
        resolve_name(n, buf, hops) == Err::<Seq<NameEntry>, DecodeError>(DecodeError::PointerLoop),
    decreases hops,
{
    if hops > 0 {
        let target = n.last()->Pointer_0 as int;
        lemma_parsed_name_is_wf(buf, target);
        let tail = parse_name(buf, target)->Ok_0.0;
        let next = n.drop_last() + tail;
        assert(next.last() == tail.last());
        lemma_self_pointer_is_rejected(next, buf, (hops - 1) as nat);
    }
}

/// The pieces with a dot between each two of them.
pub open spec fn join_labels(pieces: Seq<Seq<u8>>) -> Seq<u8>
    decreases pieces.len(),
{
    if pieces.len() == 0 {
        Seq::empty()
    } else if pieces.len() == 1 {
        pieces[0]
    } else {
        join_labels(pieces.drop_last()) + seq![DOT] + pieces.last()
    }
}

/// No piece holds a dot.
pub open spec fn dot_free(pieces: Seq<Seq<u8>>) -> bool {
    forall|i: int, j: int|
        0 <= i < pieces.len() && 0 <= j < pieces[i].len() ==> #[trigger] pieces[i][j] != DOT
}

/// Splitting text at its dots gives at least one piece, no piece holds a
/// dot, and the pieces joined by dots are the text again.
pub proof fn lemma_split_then_join(s: Seq<u8>)
    ensures
        split_labels(s).len() >= 1,
        dot_free(split_labels(s)),
        join_labels(split_labels(s)) == s,
    decreases s.len(),
{
    if s.len() > 0 {
        let front = s.drop_last();
        let c = s.last();
        lemma_split_then_join(front);
        let before = split_labels(front);
        let pieces = split_labels(s);
        if c == DOT {
            assert(pieces.drop_last() =~= before);
            assert(join_labels(pieces) =~= s);
            assert forall|i: int, j: int| 0 <= i < pieces.len() && 0 <= j < pieces[i].len() implies
                #[trigger] pieces[i][j] != DOT by {
                assert(pieces[i] == before[i]);
            }
        } else {
            let grown = before.last().push(c);
            assert(pieces.last() == grown);
            assert(pieces.drop_last() =~= before.drop_last());
            if before.len() == 1 {
                assert(join_labels(pieces) =~= s);
            } else {
                assert(join_labels(pieces) =~= join_labels(before).push(c));
                assert(join_labels(pieces) =~= s);
            }
            assert forall|i: int, j: int| 0 <= i < pieces.len() && 0 <= j < pieces[i].len() implies
                #[trigger] pieces[i][j] != DOT by {
                if i < pieces.len() - 1 {
                    assert(pieces[i] == before[i]);
                } else if j < grown.len() - 1 {
                    assert(grown[j] == before.last()[j]);
                }
            }
        }
    }
}

/// Joining pieces that hold no dot and splitting the text again gives the
/// pieces back: the split is the only way to cut text into dot-free pieces.
pub proof fn lemma_join_then_split(pieces: Seq<Seq<u8>>)
    requires
        pieces.len() >= 1,
        dot_free(pieces),
    ensures
        split_labels(join_labels(pieces)) == pieces,
    decreases pieces.len(),
{
    let front = pieces.drop_last();
    let piece = pieces.last();
    if front.len() > 0 {
        assert forall|i: int, j: int| 0 <= i < front.len() && 0 <= j < front[i].len() implies
            #[trigger] front[i][j] != DOT by {
            assert(front[i] == pieces[i]);
        }
        lemma_join_then_split(front);
    }
    assert forall|j: int| 0 <= j < piece.len() implies piece[j] != DOT by {
        assert(pieces[pieces.len() - 1][j] != DOT);
    }
    lemma_split_piece_appended(front, piece, piece.len());
    assert(piece.take(piece.len() as int) =~= piece);
    assert(front.push(piece) =~= pieces);
    if pieces.len() == 1 {
        assert(Seq::<u8>::empty() + piece =~= piece);
    }
}

/// The text that precedes the last piece: nothing where there is no other
/// piece, and else the other pieces joined, then a dot.
pub open spec fn joined_front(front: Seq<Seq<u8>>) -> Seq<u8> {
    if front.len() == 0 {
        Seq::empty()
    } else {
        join_labels(front) + seq![DOT]
    }
}

/// Splitting the joined pieces `front`, followed by a dot where there are
/// any, followed by the first `k` bytes of a dot-free piece, gives `front`
/// and that beginning of the piece.
proof fn lemma_split_piece_appended(front: Seq<Seq<u8>>, piece: Seq<u8>, k: nat)
    requires
        k <= piece.len(),
        forall|j: int| 0 <= j < piece.len() ==> piece[j] != DOT,
        front.len() > 0 ==> split_labels(join_labels(front)) == front,
    ensures
        split_labels(joined_front(front) + piece.take(k as int)) == front.push(
            piece.take(k as int),
        ),
    decreases k,
{
    let head = joined_front(front);
    if k == 0 {
        assert(piece.take(0) =~= Seq::<u8>::empty());
        assert(head + piece.take(0) =~= head);
        if front.len() == 0 {
            assert(split_labels(head) =~= front.push(Seq::<u8>::empty()));
        } else {
            assert(head.drop_last() =~= join_labels(front));
            assert(head.last() == DOT);
        }
    } else {
        lemma_split_piece_appended(front, piece, (k - 1) as nat);
        let text = head + piece.take(k as int);
        let shorter = head + piece.take(k - 1);
        assert(text.drop_last() =~= shorter);
        assert(text.last() == piece[k - 1]);
        let before = split_labels(shorter);
        assert(before == front.push(piece.take(k - 1)));
        assert(before.drop_last() =~= front);
        assert(before.last().push(piece[k - 1]) =~= piece.take(k as int));
    }
}

} // verus!
