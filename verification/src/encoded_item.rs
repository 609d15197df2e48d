//! Arrays of entries whose indices are stored as differences.
//!
//! Each entry starts with a variable-length integer: for the first entry its
//! index, for every later one the difference to the index before it. What
//! follows that integer belongs to the entry's own decoder, which is handed
//! the offset behind the integer and the index, and gives back the entity
//! with the offset behind its payload.

use vstd::prelude::*;
use crate::error::DecodeError;
use crate::leb128::{lemma_read_encoded, read_uleb128, uleb128_at, uleb128_bytes};

verus! {

/// Whether `decode` may be called on every offset and index.
pub open spec fn accepts_all<T, D>(decode: D) -> bool where
    D: Fn(usize, u32) -> Result<(T, usize), DecodeError>,
 {
    forall|pos: usize, index: u32| call_requires(decode, (pos, index))
}

/// Whether `r` is a way for one entry to come out: the entry that starts at
/// `pos` and follows an entry of index `prev`. On success `r` holds the
/// entity, its index and the offset behind it.
///
/// The entry fails as its integer fails to be read; with `InvalidId` of the
/// difference where the index would pass 32 bits; and as `decode` fails.
pub open spec fn entry_outcome<T, D>(
    bytes: Seq<u8>,
    decode: D,
    pos: usize,
    prev: u32,
    r: Result<(T, u32, usize), DecodeError>,
) -> bool where D: Fn(usize, u32) -> Result<(T, usize), DecodeError> {
    match uleb128_at(bytes, pos) {
        Err(e) => r == Err::<(T, u32, usize), DecodeError>(e),
        Ok((delta, after)) => {
            if prev + delta > u32::MAX {
                r == Err::<(T, u32, usize), DecodeError>(DecodeError::InvalidId { id: delta })
            } else {
                match r {
                    Ok((item, index, next)) => {
                        &&& index == prev + delta
                        &&& call_ensures(
                            decode,
                            (after, index),
                            Ok::<(T, usize), DecodeError>((item, next)),
                        )
                    },
                    Err(e) => call_ensures(
                        decode,
                        (after, (prev + delta) as u32),
                        Err::<(T, usize), DecodeError>(e),
                    ),
                }
            }
        },
    }
}

/// A record of how one array was read: the entities that were decoded, one
/// behind the other, with the index of each and the offset behind each, and
/// the error that ended the reading where an entry failed.
pub struct ArrayTrace<T> {
    pub items: Seq<T>,
    pub indices: Seq<u32>,
    pub ends: Seq<usize>,
    pub failure: Option<DecodeError>,
}

impl<T> ArrayTrace<T> {
    /// The offset at which entry `i` starts, in an array that starts at `start`.
    pub open spec fn start_of(self, start: usize, i: int) -> usize {
        if i == 0 {
            start
        } else {
            self.ends[i - 1]
        }
    }

    /// The index that the difference of entry `i` is added to: 0 for the
    /// first entry, else the index of the entry before.
    pub open spec fn index_before(self, i: int) -> u32 {
        if i == 0 {
            0
        } else {
            self.indices[i - 1]
        }
    }

    /// The offset behind the last entry that was decoded.
    pub open spec fn end(self, start: usize) -> usize {
        self.start_of(start, self.items.len() as int)
    }

    /// What the reading gave: all entities and the offset behind them, or the
    /// error that ended it.
    pub open spec fn result(self, start: usize) -> Result<(Seq<T>, usize), DecodeError> {
        match self.failure {
            None => Ok((self.items, self.end(start))),
            Some(e) => Err(e),
        }
    }
}

/// Whether entry `i` of `trace` is a way for the entry at its place to come
/// out.
pub open spec fn entry_traced<T, D>(
    bytes: Seq<u8>,
    decode: D,
    start: usize,
    trace: ArrayTrace<T>,
    i: int,
) -> bool where D: Fn(usize, u32) -> Result<(T, usize), DecodeError> {
    entry_outcome(
        bytes,
        decode,
        trace.start_of(start, i),
        trace.index_before(i),
        Ok::<(T, u32, usize), DecodeError>((trace.items[i], trace.indices[i], trace.ends[i])),
    )
}

/// Whether `trace` is a way for an array of `count` entries at `start` to be
/// read with `decode`: every entry of the trace came out of the bytes and of
/// `decode` at the place where the entry before it ended, and the reading
/// stopped after `count` entries, or before that at the first entry that
/// failed.
pub open spec fn array_traced<T, D>(
    bytes: Seq<u8>,
    decode: D,
    start: usize,
    count: u32,
    trace: ArrayTrace<T>,
) -> bool where D: Fn(usize, u32) -> Result<(T, usize), DecodeError> {
    &&& trace.indices.len() == trace.items.len()
    &&& trace.ends.len() == trace.items.len()
    &&& forall|i: int|
        0 <= i < trace.items.len() ==> #[trigger] entry_traced(bytes, decode, start, trace, i)
    &&& match trace.failure {
        None => trace.items.len() == count,
        Some(e) => {
            &&& trace.items.len() < count
            &&& entry_outcome(
                bytes,
                decode,
                trace.end(start),
                trace.index_before(trace.items.len() as int),
                Err::<(T, u32, usize), DecodeError>(e),
            )
        },
    }
}

/// A run that stops short at an entry that fails is a way for the array to be
/// read.
proof fn lemma_trace_fails<T, D>(
    bytes: Seq<u8>,
    decode: D,
    start: usize,
    count: u32,
    trace: ArrayTrace<T>,
    e: DecodeError,
) where D: Fn(usize, u32) -> Result<(T, usize), DecodeError>
    requires
        trace.items.len() < count,
        trace.indices.len() == trace.items.len(),
        trace.ends.len() == trace.items.len(),
        forall|i: int|
            0 <= i < trace.items.len() ==> #[trigger] entry_traced(bytes, decode, start, trace, i),
        entry_outcome(
            bytes,
            decode,
            trace.end(start),
            trace.index_before(trace.items.len() as int),
            Err::<(T, u32, usize), DecodeError>(e),
        ),
    ensures
        array_traced(bytes, decode, start, count, ArrayTrace { failure: Some(e), ..trace }),
{
    let failed = ArrayTrace { failure: Some(e), ..trace };
    assert forall|i: int| 0 <= i < failed.items.len() implies #[trigger] entry_traced(
        bytes,
        decode,
        start,
        failed,
        i,
    ) by {
        assert(entry_traced(bytes, decode, start, trace, i));
    }
}

/// Reads `count` entries at `*offset`, each with `decode`, and moves the
/// offset behind the last. With a `count` of 0 nothing is read, `decode` is
/// not called and the array is empty. On failure no entity is handed out and
/// the offset stays where it was.
///
/// What `decode` gives is its own affair, so the result is stated through a
/// trace: some run of the entries fits the bytes and `decode`, and the
/// function hands out what that run gave.
pub fn decode_entries<T, D>(bytes: &[u8], offset: &mut usize, count: u32, decode: &D) -> (r: Result<
    Vec<T>,
    DecodeError,
>) where D: Fn(usize, u32) -> Result<(T, usize), DecodeError>
    requires
        accepts_all::<T, D>(*decode),
    ensures
        exists|trace: ArrayTrace<T>|
            {
                &&& #[trigger] array_traced(bytes@, *decode, *old(offset), count, trace)
                &&& trace.result(*old(offset)) == (match r {
                    Ok(items) => Ok::<(Seq<T>, usize), DecodeError>((items@, *final(offset))),
                    Err(e) => Err::<(Seq<T>, usize), DecodeError>(e),
                })
            },
        r is Err ==> *final(offset) == *old(offset),
        count == 0 ==> r is Ok,
{
    let start = *offset;
    let mut items: Vec<T> = Vec::new();
    let mut pos: usize = start;
    let mut prev: u32 = 0;
    let mut done: u32 = 0;
    let ghost mut trace = ArrayTrace::<T> {
        items: Seq::empty(),
        indices: Seq::empty(),
        ends: Seq::empty(),
        failure: None,
    };
    while done < count
        invariant
            done <= count,
            trace.items == items@,
            trace.items.len() == done,
            trace.indices.len() == done,
            trace.ends.len() == done,
            trace.failure is None,
            forall|i: int|
                0 <= i < trace.items.len() ==> #[trigger] entry_traced(
                    bytes@,
                    *decode,
                    start,
                    trace,
                    i,
                ),
            pos == trace.end(start),
            prev == trace.index_before(done as int),
            accepts_all::<T, D>(*decode),
            *offset == start,
            start == *old(offset),
        decreases count - done,
    {
        let mut cursor = pos;
        let delta = match read_uleb128(bytes, &mut cursor) {
            Ok(delta) => delta,
            Err(e) => {
                proof {
                    lemma_trace_fails(bytes@, *decode, start, count, trace, e);
                }
                return Err(e);
            },
        };
        let index = match prev.checked_add(delta) {
            Some(index) => index,
            None => {
                let e = DecodeError::InvalidId { id: delta };
                proof {
                    lemma_trace_fails(bytes@, *decode, start, count, trace, e);
                }
                return Err(e);
            },
        };
        match decode(cursor, index) {
            Ok((item, next)) => {
                proof {
                    let longer = ArrayTrace {
                        items: trace.items.push(item),
                        indices: trace.indices.push(index),
                        ends: trace.ends.push(next),
                        failure: None,
                    };
                    assert forall|i: int| 0 <= i < longer.items.len() implies #[trigger] entry_traced(
                        bytes@,
                        *decode,
                        start,
                        longer,
                        i,
                    ) by {
                        if i < trace.items.len() {
                            assert(entry_traced(bytes@, *decode, start, trace, i));
                        }
                    }
                    trace = longer;
                }
                items.push(item);
                prev = index;
                pos = next;
                done = done + 1;
            },
            Err(e) => {
                proof {
                    lemma_trace_fails(bytes@, *decode, start, count, trace, e);
                }
                return Err(e);
            },
        }
    }
    *offset = pos;
    assert(array_traced(bytes@, *decode, start, count, trace));
    Ok(items)
}

/// The indices of an array never fall: each entry has the index of the entry
/// before it or a larger one, so that the entities stand in the order of
/// their indices.
pub proof fn lemma_indices_ascend<T, D>(
    bytes: Seq<u8>,
    decode: D,
    start: usize,
    count: u32,
    trace: ArrayTrace<T>,
    i: int,
    j: int,
) where D: Fn(usize, u32) -> Result<(T, usize), DecodeError>
    requires
        array_traced(bytes, decode, start, count, trace),
        0 <= i <= j < trace.items.len(),
    ensures
        trace.indices[i] <= trace.indices[j],
    decreases j - i,
{
    if i < j {
        lemma_indices_ascend(bytes, decode, start, count, trace, i, j - 1);
        assert(entry_traced(bytes, decode, start, trace, j));
    }
}

/// Whether `decode` gives one result on each offset and index.
pub open spec fn single_valued<T, D>(decode: D) -> bool where
    D: Fn(usize, u32) -> Result<(T, usize), DecodeError>,
 {
    forall|pos: usize, index: u32, r1: Result<(T, usize), DecodeError>, r2: Result<(T, usize), DecodeError>|
        #[trigger] call_ensures(decode, (pos, index), r1) && #[trigger] call_ensures(
            decode,
            (pos, index),
            r2,
        ) ==> r1 == r2
}

/// Whether two traces hold the same entity, index and end as entry `i`.
spec fn same_entry<T>(one: ArrayTrace<T>, other: ArrayTrace<T>, i: int) -> bool {
    &&& one.items[i] == other.items[i]
    &&& one.indices[i] == other.indices[i]
    &&& one.ends[i] == other.ends[i]
}

/// With a decoder that gives one result on each argument, two traces of one
/// array hold the same entries as far as both reach.
proof fn lemma_traces_share_entries<T, D>(
    bytes: Seq<u8>,
    decode: D,
    start: usize,
    count: u32,
    one: ArrayTrace<T>,
    other: ArrayTrace<T>,
    k: int,
) where D: Fn(usize, u32) -> Result<(T, usize), DecodeError>
    requires
        single_valued(decode),
        array_traced(bytes, decode, start, count, one),
        array_traced(bytes, decode, start, count, other),
        0 <= k <= one.items.len(),
        k <= other.items.len(),
    ensures
        forall|i: int| 0 <= i < k ==> #[trigger] same_entry(one, other, i),
    decreases k,
{
    if k > 0 {
        let i = k - 1;
        lemma_traces_share_entries(bytes, decode, start, count, one, other, i);
        assert(entry_traced(bytes, decode, start, one, i));
        assert(entry_traced(bytes, decode, start, other, i));
        if i > 0 {
            assert(same_entry(one, other, i - 1));
        }
        let after = uleb128_at(bytes, one.start_of(start, i))->Ok_0.1;
        let first = Ok::<(T, usize), DecodeError>((one.items[i], one.ends[i]));
        let second = Ok::<(T, usize), DecodeError>((other.items[i], other.ends[i]));
        assert(call_ensures(decode, (after, one.indices[i]), first));
        assert(call_ensures(decode, (after, one.indices[i]), second));
        assert(first->Ok_0 == second->Ok_0);
        assert(same_entry(one, other, i));
    }
}

/// With a decoder that gives one result on each argument, an array has one
/// result: two traces of it give the same entities and the same end, or the
/// same error.
pub proof fn lemma_array_result_unique<T, D>(
    bytes: Seq<u8>,
    decode: D,
    start: usize,
    count: u32,
    one: ArrayTrace<T>,
    other: ArrayTrace<T>,
) where D: Fn(usize, u32) -> Result<(T, usize), DecodeError>
    requires
        single_valued(decode),
        array_traced(bytes, decode, start, count, one),
        array_traced(bytes, decode, start, count, other),
    ensures
        one.result(start) == other.result(start),
{
    let shared = if one.items.len() <= other.items.len() {
        one.items.len() as int
    } else {
        other.items.len() as int
    };
    lemma_traces_share_entries(bytes, decode, start, count, one, other, shared);
    if shared > 0 {
        assert(same_entry(one, other, shared - 1));
    }
    if shared < other.items.len() {
        assert(entry_traced(bytes, decode, start, other, shared));
    }
    if shared < one.items.len() {
        assert(entry_traced(bytes, decode, start, one, shared));
    }
    assert(one.items.len() == other.items.len());
    assert(one.items =~= other.items) by {
        assert forall|i: int| 0 <= i < shared implies one.items[i] == other.items[i] by {
            assert(same_entry(one, other, i));
        }
    }
}

/// The indices of `count` entries without payload that stand at `at`, the
/// first following an index of `prev`, with the offset behind the last.
pub open spec fn indices_from(bytes: Seq<u8>, at: usize, prev: u32, count: nat) -> Result<
    (Seq<u32>, usize),
    DecodeError,
>
    decreases count,
{
    if count == 0 {
        Ok((Seq::empty(), at))
    } else {
        match uleb128_at(bytes, at) {
            Err(e) => Err(e),
            Ok((delta, next)) => {
                if prev + delta > u32::MAX {
                    Err(DecodeError::InvalidId { id: delta })
                } else {
                    match indices_from(bytes, next, (prev + delta) as u32, (count - 1) as nat) {
                        Err(e) => Err(e),
                        Ok((rest, end)) => Ok((seq![(prev + delta) as u32] + rest, end)),
                    }
                }
            },
        }
    }
}

/// Whether `decode` reads no payload and hands the index back as the entity.
pub open spec fn index_only<D>(decode: D) -> bool where
    D: Fn(usize, u32) -> Result<(u32, usize), DecodeError>,
 {
    forall|pos: usize, index: u32, r: Result<(u32, usize), DecodeError>|
        call_ensures(decode, (pos, index), r) ==> r == Ok::<(u32, usize), DecodeError>(
            (index, pos),
        )
}

/// With a decoder that reads no payload, a trace gives the indices that stand
/// in the bytes: from entry `k` on it agrees with `indices_from`.
proof fn lemma_index_only_trace<D>(
    bytes: Seq<u8>,
    decode: D,
    start: usize,
    count: u32,
    trace: ArrayTrace<u32>,
    k: int,
) where D: Fn(usize, u32) -> Result<(u32, usize), DecodeError>
    requires
        array_traced(bytes, decode, start, count, trace),
        index_only(decode),
        0 <= k <= trace.items.len(),
    ensures
        indices_from(bytes, trace.start_of(start, k), trace.index_before(k), (count - k) as nat)
            == (match trace.failure {
            None => Ok::<(Seq<u32>, usize), DecodeError>((trace.items.skip(k), trace.end(start))),
            Some(e) => Err::<(Seq<u32>, usize), DecodeError>(e),
        }),
    decreases trace.items.len() - k,
{
    if k == trace.items.len() {
        assert(trace.items.skip(k) =~= Seq::<u32>::empty());
    } else {
        assert(entry_traced(bytes, decode, start, trace, k));
        lemma_index_only_trace(bytes, decode, start, count, trace, k + 1);
        assert(seq![trace.indices[k]] + trace.items.skip(k + 1) =~= trace.items.skip(k));
    }
}

/// Reads the indices of `count` entries without payload at `*offset`, and
/// moves the offset behind the last. The first integer is the first index,
/// every later one the difference to the index before it. On failure the
/// offset stays where it was.
pub fn decode_indices(bytes: &[u8], offset: &mut usize, count: u32) -> (r: Result<Vec<u32>, DecodeError>)
    ensures
        match indices_from(bytes@, *old(offset), 0, count as nat) {
            Ok((indices, end)) => r matches Ok(found) && found@ == indices && *final(offset) == end,
            Err(e) => r == Err::<Vec<u32>, DecodeError>(e) && *final(offset) == *old(offset),
        },
{
    let ghost start = *offset;
    let bare = |pos: usize, index: u32| -> (o: Result<(u32, usize), DecodeError>)
        ensures
            o == Ok::<(u32, usize), DecodeError>((index, pos)),
        { Ok((index, pos)) };
    let r = decode_entries(bytes, offset, count, &bare);
    proof {
        let trace = choose|trace: ArrayTrace<u32>|
            {
                &&& #[trigger] array_traced(bytes@, bare, start, count, trace)
                &&& trace.result(start) == (match r {
                    Ok(items) => Ok::<(Seq<u32>, usize), DecodeError>((items@, *offset)),
                    Err(e) => Err::<(Seq<u32>, usize), DecodeError>(e),
                })
            };
        lemma_index_only_trace(bytes@, bare, start, count, trace, 0);
        assert(trace.items.skip(0) =~= trace.items);
    }
    r
}

/// Whether no index is smaller than one before it.
pub open spec fn ascending(indices: Seq<u32>) -> bool {
    forall|i: int, j: int| 0 <= i <= j < indices.len() ==> indices[i] <= indices[j]
}

/// The bytes that hold `indices` as differences: each index as the encoding
/// of its distance from the one before it, the first from `prev`.
pub open spec fn delta_bytes(indices: Seq<u32>, prev: u32) -> Seq<u8>
    decreases indices.len(),
{
    if indices.len() == 0 {
        Seq::empty()
    } else {
        uleb128_bytes((indices[0] - prev) as nat) + delta_bytes(indices.drop_first(), indices[0])
    }
}

/// Ascending indices that are stored as differences are read back as they
/// were: reading as many indices as were stored, from the start of their
/// bytes, gives `indices` and ends where the bytes end.
pub proof fn lemma_delta_round_trip(indices: Seq<u32>)
    requires
        ascending(indices),
        delta_bytes(indices, 0).len() <= usize::MAX,
    ensures
        indices_from(delta_bytes(indices, 0), 0, 0, indices.len()) == Ok::<
            (Seq<u32>, usize),
            DecodeError,
        >((indices, delta_bytes(indices, 0).len() as usize)),
{
    let bytes = delta_bytes(indices, 0);
    assert(bytes.subrange(0, bytes.len() as int) =~= bytes);
    lemma_delta_round_trip_within(bytes, 0, 0, indices);
}

/// The same inside a longer buffer and behind an earlier index. Where the
/// bytes of `indices`, stored from `prev` on, stand at `at` in a buffer,
/// whatever stands around them, reading as many indices as were stored gives
/// `indices` and ends where their bytes end.
pub proof fn lemma_delta_round_trip_within(
    bytes: Seq<u8>,
    at: usize,
    prev: u32,
    indices: Seq<u32>,
)
    requires
        ascending(indices),
        indices.len() > 0 ==> prev <= indices[0],
        bytes.len() <= usize::MAX,
        at + delta_bytes(indices, prev).len() <= bytes.len(),
        bytes.subrange(at as int, at + delta_bytes(indices, prev).len()) == delta_bytes(indices, prev),
    ensures
        indices_from(bytes, at, prev, indices.len()) == Ok::<(Seq<u32>, usize), DecodeError>(
            (indices, (at + delta_bytes(indices, prev).len()) as usize),
        ),
    decreases indices.len(),
{
    if indices.len() == 0 {
        assert(indices =~= Seq::<u32>::empty());
    } else {
        let first = uleb128_bytes((indices[0] - prev) as nat);
        let rest = indices.drop_first();
        let tail = delta_bytes(rest, indices[0]);
        let all = delta_bytes(indices, prev);
        assert(all.len() == first.len() + tail.len());
        assert(bytes.subrange(at as int, at + first.len()) =~= first) by {
            assert forall|i: int| 0 <= i < first.len() implies bytes[at + i] == first[i] by {
                assert(bytes[at + i] == bytes.subrange(at as int, at + all.len())[i]);
            }
        }
        lemma_read_encoded(bytes, at, (indices[0] - prev) as u32);
        let next = (at + first.len()) as usize;
        assert(bytes.subrange(next as int, next + tail.len()) =~= tail) by {
            assert forall|i: int| 0 <= i < tail.len() implies bytes[next + i] == tail[i] by {
                assert(bytes[next + i] == bytes.subrange(at as int, at + all.len())[first.len() + i]);
            }
        }
        assert(ascending(rest)) by {
            assert forall|i: int, j: int| 0 <= i <= j < rest.len() implies rest[i] <= rest[j] by {
                assert(indices[i + 1] <= indices[j + 1]);
            }
        }
        if rest.len() > 0 {
            assert(indices[0] <= indices[1]);
        }
        lemma_delta_round_trip_within(bytes, next, indices[0], rest);
        assert(seq![indices[0]] + rest =~= indices);
    }
}

} // verus!
