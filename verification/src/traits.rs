//! What the wire structures have in common: a grammar to read them by, a
//! byte form to write, and the loops that read and write lists of them.

use vstd::prelude::*;
use crate::error::{DecodeError, EncodeError};

verus! {

/// What reading a structure from a datagram yields: the value and the offset
/// behind it.
pub type Parsed<V> = Result<(V, int), DecodeError>;

/// `r` with `prefix` put in front of the items it holds.
pub open spec fn prefixed<V>(prefix: Seq<V>, r: Parsed<Seq<V>>) -> Parsed<Seq<V>> {
    match r {
        Ok((n, end)) => Ok((prefix + n, end)),
        Err(e) => Err(e),
    }
}

/// `r` with `prefix` put in front of the bytes it holds.
pub open spec fn after(prefix: Seq<u8>, r: Result<Seq<u8>, EncodeError>) -> Result<
    Seq<u8>,
    EncodeError,
> {
    match r {
        Ok(bytes) => Ok(prefix + bytes),
        Err(e) => Err(e),
    }
}

/// The items of a stored list as contracts speak of them.
pub open spec fn views<T: View>(items: Seq<T>) -> Seq<T::V> {
    items.map_values(|x: T| x@)
}

/// A structure that can be read from a datagram.
pub trait WireRead: Sized + View {
    /// The grammar of the structure: what is read from `bytes` at `pos`.
    spec fn parse(bytes: Seq<u8>, pos: int) -> Parsed<Self::V>;

    /// Reads one value from `input` at `offset`, as `parse` describes, and
    /// returns it with the offset behind it.
    fn from_bytes(input: &[u8], offset: usize) -> (r: Result<(Self, usize), DecodeError>)
        ensures
            match r {
                Ok((value, end)) => Self::parse(input@, offset as int) == Ok::<
                    (Self::V, int),
                    DecodeError,
                >((value@, end as int)) && offset < end <= input@.len(),
                Err(e) => Self::parse(input@, offset as int) == Err::<(Self::V, int), DecodeError>(
                    e,
                ),
            },
    ;

    /// Reads one value from `input`, which must hold that value and no more.
    fn try_from_bytes(input: &[u8]) -> (r: Result<Self, DecodeError>)
        ensures
            match r {
                Ok(value) => Self::parse(input@, 0) == Ok::<(Self::V, int), DecodeError>(
                    (value@, input@.len() as int),
                ),
                Err(e) => match Self::parse(input@, 0) {
                    Ok((_, end)) => end != input@.len() && e == DecodeError::TrailingData,
                    Err(inner) => e == inner,
                },
            },
    {
        match Self::from_bytes(input, 0) {
            Err(e) => Err(e),
            Ok((value, end)) => {
                if end < input.len() {
                    Err(DecodeError::TrailingData)
                } else {
                    Ok(value)
                }
            },
        }
    }
}

/// A structure that can be written in wire format.
pub trait WireWrite: Sized + View {
    /// The bytes of a value, or the reason why it cannot be written.
    spec fn wire(v: Self::V) -> Result<Seq<u8>, EncodeError>;

    /// Appends the wire form of the value to `output`. On failure `output`
    /// is left as it was.
    fn write(&self, output: &mut Vec<u8>) -> (r: Result<(), EncodeError>)
        ensures
            match r {
                Ok(()) => Self::wire(self@) is Ok && final(output)@ == old(output)@ + Self::wire(
                    self@,
                )->Ok_0,
                Err(e) => Self::wire(self@) == Err::<Seq<u8>, EncodeError>(e) && final(output)@
                    == old(output)@,
            },
    ;

    /// The wire form of the value.
    fn to_bytes(&self) -> (r: Result<Vec<u8>, EncodeError>)
        ensures
            match r {
                Ok(bytes) => Self::wire(self@) == Ok::<Seq<u8>, EncodeError>(bytes@),
                Err(e) => Self::wire(self@) == Err::<Seq<u8>, EncodeError>(e),
            },
    {
        let mut out: Vec<u8> = Vec::new();
        match self.write(&mut out) {
            Ok(()) => {
                assert(out@ =~= Self::wire(self@)->Ok_0);
                Ok(out)
            },
            Err(e) => Err(e),
        }
    }
}

/// `count` values read one behind the other, starting at `pos`. The first
/// that cannot be read decides the error.
pub open spec fn parse_count<T: WireRead>(bytes: Seq<u8>, pos: int, count: nat) -> Parsed<
    Seq<T::V>,
>
    decreases count,
{
    if count == 0 {
        Ok((Seq::empty(), pos))
    } else {
        match T::parse(bytes, pos) {
            Err(e) => Err(e),
            Ok((first, next)) => prefixed(
                seq![first],
                parse_count::<T>(bytes, next, (count - 1) as nat),
            ),
        }
    }
}

/// Reading `count` values yields `count` values.
pub proof fn lemma_parse_count_len<T: WireRead>(bytes: Seq<u8>, pos: int, count: nat)
    requires
        parse_count::<T>(bytes, pos, count) is Ok,
    ensures
        parse_count::<T>(bytes, pos, count)->Ok_0.0.len() == count,
    decreases count,
{
    if count > 0 {
        let next = T::parse(bytes, pos)->Ok_0.1;
        lemma_parse_count_len::<T>(bytes, next, (count - 1) as nat);
    }
}

/// The bytes of the values one behind the other, with nothing between them.
/// The first value that cannot be written decides the error.
pub open spec fn wire_all<T: WireWrite>(items: Seq<T::V>) -> Result<Seq<u8>, EncodeError>
    decreases items.len(),
{
    if items.len() == 0 {
        Ok(Seq::empty())
    } else {
        match T::wire(items[0]) {
            Err(e) => Err(e),
            Ok(first) => after(first, wire_all::<T>(items.drop_first())),
        }
    }
}

/// A list can be written exactly when each of its values can.
pub proof fn lemma_wire_all_succeeds<T: WireWrite>(items: Seq<T::V>)
    ensures
        wire_all::<T>(items) is Ok <==> (forall|i: int|
            0 <= i < items.len() ==> T::wire(#[trigger] items[i]) is Ok),
    decreases items.len(),
{
    if items.len() > 0 {
        let rest = items.drop_first();
        lemma_wire_all_succeeds::<T>(rest);
        if wire_all::<T>(items) is Ok {
            assert forall|i: int| 0 <= i < items.len() implies T::wire(#[trigger] items[i])
                is Ok by {
                if i > 0 {
                    assert(items[i] == rest[i - 1]);
                }
            }
        }
        if forall|i: int| 0 <= i < items.len() ==> T::wire(#[trigger] items[i]) is Ok {
            assert(T::wire(items[0]) is Ok);
            assert forall|i: int| 0 <= i < rest.len() implies T::wire(#[trigger] rest[i])
                is Ok by {
                assert(rest[i] == items[i + 1]);
            }
        }
    }
}

/// The bytes of the values one behind the other, closed by a zero byte.
pub open spec fn wire_all_with_null<T: WireWrite>(items: Seq<T::V>) -> Result<
    Seq<u8>,
    EncodeError,
> {
    match wire_all::<T>(items) {
        Ok(bytes) => Ok(bytes + seq![0u8]),
        Err(e) => Err(e),
    }
}

/// Reading lists of values.
pub trait ReadUntill: WireRead {
    /// Reads exactly `count` values from `input`, starting at `offset`, and
    /// returns them with the offset behind the last. Running out of input
    /// before `count` values are read is an error, as is any value that
    /// cannot be read.
    fn read_count(input: &[u8], offset: usize, count: usize) -> (r: Result<
        (Vec<Self>, usize),
        DecodeError,
    >)
        ensures
            match r {
                Ok((items, end)) => parse_count::<Self>(input@, offset as int, count as nat)
                    == Ok::<(Seq<Self::V>, int), DecodeError>((views(items@), end as int))
                    && items@.len() == count && offset <= end && (end <= input@.len() || count
                    == 0),
                Err(e) => parse_count::<Self>(input@, offset as int, count as nat) == Err::<
                    (Seq<Self::V>, int),
                    DecodeError,
                >(e),
            },
    {
        let mut items: Vec<Self> = Vec::new();
        let mut pos: usize = offset;
        let mut i: usize = 0;
        assert(Seq::<Self::V>::empty() + Seq::<Self::V>::empty() =~= Seq::<Self::V>::empty());
        assert(views(items@) =~= Seq::<Self::V>::empty());
        while i < count
            invariant
                i <= count,
                offset <= pos,
                pos <= input@.len() || i == 0,
                items@.len() == i,
                parse_count::<Self>(input@, offset as int, count as nat) == prefixed(
                    views(items@),
                    parse_count::<Self>(input@, pos as int, (count - i) as nat),
                ),
            decreases count - i,
        {
            match Self::from_bytes(input, pos) {
                Err(e) => {
                    return Err(e);
                },
                Ok((value, next)) => {
                    let ghost before = views(items@);
                    let ghost v = value@;
                    items.push(value);
                    proof {
                        assert(views(items@) =~= before + seq![v]);
                        match parse_count::<Self>(input@, next as int, (count - i - 1) as nat) {
                            Ok((m, _)) => {
                                assert(before + (seq![v] + m) =~= (before + seq![v]) + m);
                            },
                            Err(_) => {},
                        }
                    }
                    pos = next;
                    i += 1;
                },
            }
        }
        assert(views(items@) + Seq::<Self::V>::empty() =~= views(items@));
        Ok((items, pos))
    }
}

impl<T: WireRead> ReadUntill for T {

}

/// Writing lists of values.
pub trait WriteAll: WireWrite {
    /// Appends the wire forms of `entries` to `output`, in order and with
    /// nothing between them. On failure `output` is left as it was.
    fn write_all(output: &mut Vec<u8>, entries: &[Self]) -> (r: Result<(), EncodeError>)
        ensures
            match r {
                Ok(()) => wire_all::<Self>(views(entries@)) is Ok && final(output)@ == old(output)@
                    + wire_all::<Self>(views(entries@))->Ok_0,
                Err(e) => wire_all::<Self>(views(entries@)) == Err::<Seq<u8>, EncodeError>(e)
                    && final(output)@ == old(output)@,
            },
    {
        let start: usize = output.len();
        let ghost all = views(entries@);
        let mut i: usize = 0;
        assert(all.skip(0) =~= all);
        assert(output@ =~= old(output)@ + Seq::<u8>::empty());
        let ghost mut written: Seq<u8> = Seq::empty();
        while i < entries.len()
            invariant
                i <= entries.len(),
                all == views(entries@),
                start == old(output)@.len(),
                output@ == old(output)@ + written,
                wire_all::<Self>(all) == after(written, wire_all::<Self>(all.skip(i as int))),
            decreases entries.len() - i,
        {
            proof {
                assert(all.skip(i as int)[0] == entries@[i as int]@);
                assert(all.skip(i as int).drop_first() =~= all.skip(i + 1));
            }
            match entries[i].write(output) {
                Err(e) => {
                    output.truncate(start);
                    assert(output@ =~= old(output)@);
                    return Err(e);
                },
                Ok(()) => {
                    proof {
                        let first = Self::wire(entries@[i as int]@)->Ok_0;
                        match wire_all::<Self>(all.skip(i + 1)) {
                            Ok(rest) => {
                                assert(written + (first + rest) =~= (written + first) + rest);
                            },
                            Err(_) => {},
                        }
                        assert(output@ =~= old(output)@ + (written + first));
                        written = written + first;
                    }
                },
            }
            i += 1;
        }
        assert(written + Seq::<u8>::empty() =~= written);
        Ok(())
    }

    /// Appends the wire forms of `entries` to `output`, in order, and closes
    /// them with a zero byte. On failure `output` is left as it was.
    fn write_all_with_null(output: &mut Vec<u8>, entries: &[Self]) -> (r: Result<(), EncodeError>)
        ensures
            match r {
                Ok(()) => wire_all_with_null::<Self>(views(entries@)) is Ok && final(output)@
                    == old(output)@ + wire_all_with_null::<Self>(views(entries@))->Ok_0,
                Err(e) => wire_all_with_null::<Self>(views(entries@)) == Err::<
                    Seq<u8>,
                    EncodeError,
                >(e) && final(output)@ == old(output)@,
            },
    {
        match Self::write_all(output, entries) {
            Err(e) => Err(e),
            Ok(()) => {
                output.push(0);
                assert(output@ =~= old(output)@ + (wire_all::<Self>(views(entries@))->Ok_0
                    + seq![0u8]));
                Ok(())
            },
        }
    }
}

impl<T: WireWrite> WriteAll for T {

}

/// A value whose names may end in compression pointers that are resolved
/// against a datagram.
pub trait ResolveWithBuffer: Sized {
    /// The value as contracts speak of it.
    type Model;

    /// The value as contracts speak of it.
    spec fn model(&self) -> Self::Model;

    /// What resolving `m` in the datagram `buf` yields.
    spec fn resolved(m: Self::Model, buf: Seq<u8>) -> Result<Self::Model, DecodeError>;

    /// Resolves the value against the datagram `buf`, which is only read.
    fn resolve(self, buf: &[u8]) -> (r: Result<Self, DecodeError>)
        ensures
            match r {
                Ok(value) => Self::resolved(self.model(), buf@) == Ok::<Self::Model, DecodeError>(
                    value.model(),
                ),
                Err(e) => Self::resolved(self.model(), buf@) == Err::<Self::Model, DecodeError>(e),
            },
    ;
}

/// What resolving each item in turn yields. The first one that fails decides
/// the error.
pub open spec fn resolve_each<T: ResolveWithBuffer>(items: Seq<T::Model>, buf: Seq<u8>) -> Result<
    Seq<T::Model>,
    DecodeError,
>
    decreases items.len(),
{
    if items.len() == 0 {
        Ok(Seq::empty())
    } else {
        match T::resolved(items[0], buf) {
            Err(e) => Err(e),
            Ok(first) => match resolve_each::<T>(items.drop_first(), buf) {
                Err(e) => Err(e),
                Ok(rest) => Ok(seq![first] + rest),
            },
        }
    }
}

/// Where a list can be resolved, the result holds, place by place, what
/// each item resolves to.
pub proof fn lemma_resolve_each_items<T: ResolveWithBuffer>(items: Seq<T::Model>, buf: Seq<u8>)
    requires
        resolve_each::<T>(items, buf) is Ok,
    ensures
        resolve_each::<T>(items, buf)->Ok_0.len() == items.len(),
        forall|i: int|
            0 <= i < items.len() ==> T::resolved(#[trigger] items[i], buf) == Ok::<
                T::Model,
                DecodeError,
            >(resolve_each::<T>(items, buf)->Ok_0[i]),
    decreases items.len(),
{
    if items.len() > 0 {
        let rest = items.drop_first();
        lemma_resolve_each_items::<T>(rest, buf);
        let out = resolve_each::<T>(items, buf)->Ok_0;
        let tail = resolve_each::<T>(rest, buf)->Ok_0;
        assert forall|i: int| 0 <= i < items.len() implies T::resolved(#[trigger] items[i], buf)
            == Ok::<T::Model, DecodeError>(out[i]) by {
            if i > 0 {
                assert(items[i] == rest[i - 1]);
                assert(out[i] == tail[i - 1]);
            }
        }
    }
}

/// The items of a stored list as `ResolveWithBuffer` speaks of them.
pub open spec fn models<T: ResolveWithBuffer>(items: Seq<T>) -> Seq<T::Model> {
    items.map_values(|x: T| x.model())
}

impl<T: ResolveWithBuffer> ResolveWithBuffer for Vec<T> {
    type Model = Seq<T::Model>;

    open spec fn model(&self) -> Seq<T::Model> {
        models(self@)
    }

    open spec fn resolved(m: Seq<T::Model>, buf: Seq<u8>) -> Result<Seq<T::Model>, DecodeError> {
        resolve_each::<T>(m, buf)
    }

    /// Resolves every item of the list, in order; the first failure ends the
    /// work.
    fn resolve(self, buf: &[u8]) -> (r: Result<Vec<T>, DecodeError>) {
        let ghost all = models(self@);
        let mut rest = self;
        let mut stack: Vec<T> = Vec::new();
        let n: usize = rest.len();
        // Turn the list round, so that its items can be taken out in order.
        while rest.len() > 0
            invariant
                rest@.len() + stack@.len() == n,
                all == models(self@),
                n == all.len(),
                forall|j: int| 0 <= j < rest@.len() ==> (#[trigger] rest@[j]).model() == all[j],
                forall|j: int|
                    0 <= j < stack@.len() ==> (#[trigger] stack@[j]).model() == all[n - 1 - j],
            decreases rest@.len(),
        {
            match rest.pop() {
                Some(item) => {
                    stack.push(item);
                },
                None => {},
            }
        }
        let mut done: Vec<T> = Vec::new();
        assert(all.skip(0) =~= all);
        assert(models(done@) =~= Seq::<T::Model>::empty());
        while stack.len() > 0
            invariant
                done@.len() + stack@.len() == n,
                all == models(self@),
                n == all.len(),
                forall|j: int|
                    0 <= j < stack@.len() ==> (#[trigger] stack@[j]).model() == all[n - 1 - j],
                resolve_each::<T>(all, buf@) == (match resolve_each::<T>(
                    all.skip(done@.len() as int),
                    buf@,
                ) {
                    Ok(tail) => Ok::<Seq<T::Model>, DecodeError>(models(done@) + tail),
                    Err(e) => Err::<Seq<T::Model>, DecodeError>(e),
                }),
            decreases stack@.len(),
        {
            let ghost i = done@.len() as int;
            proof {
                assert(all.skip(i)[0] == all[i]);
                assert(all.skip(i).drop_first() =~= all.skip(i + 1));
            }
            match stack.pop() {
                None => {},
                Some(item) => {
                    assert(item.model() == all[i]);
                    match item.resolve(buf) {
                        Err(e) => {
                            return Err(e);
                        },
                        Ok(value) => {
                            let ghost before = models(done@);
                            let ghost v = value.model();
                            done.push(value);
                            proof {
                                assert(models(done@) =~= before + seq![v]);
                                match resolve_each::<T>(all.skip(i + 1), buf@) {
                                    Ok(tail) => {
                                        assert(before + (seq![v] + tail) =~= (before + seq![v])
                                            + tail);
                                    },
                                    Err(_) => {},
                                }
                            }
                        },
                    }
                },
            }
        }
        assert(all.skip(n as int) =~= Seq::<T::Model>::empty());
        assert(models(done@) + Seq::<T::Model>::empty() =~= models(done@));
        Ok(done)
    }
}

} // verus!
