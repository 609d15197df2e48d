//! Unsigned variable-length integers: groups of seven bits, least significant
//! group first, every byte but the last with its top bit set. A value of 32
//! bits takes one to five groups.

use vstd::prelude::*;
use crate::error::DecodeError;

verus! {

/// The most groups that one 32-bit value takes.
pub const MAX_GROUPS: usize = 5;

/// Whether `byte` announces a further group.
pub open spec fn continues(byte: u8) -> bool {
    byte >= 0x80
}

/// The seven payload bits of `byte`.
pub open spec fn payload(byte: u8) -> nat {
    (byte % 0x80) as nat
}

/// The number of bytes from `at` up to and including the first one that does
/// not continue, where that byte is among the first `limit` and inside the
/// buffer.
pub open spec fn group_count(bytes: Seq<u8>, at: int, limit: nat) -> Option<nat>
    decreases limit,
{
    if limit == 0 || at < 0 || at >= bytes.len() {
        None
    } else if !continues(bytes[at]) {
        Some(1nat)
    } else {
        match group_count(bytes, at + 1, (limit - 1) as nat) {
            Some(n) => Some(n + 1),
            None => None,
        }
    }
}

/// The number that the payloads of the `count` bytes from `at` on spell.
pub open spec fn groups_value(bytes: Seq<u8>, at: int, count: nat) -> nat
    decreases count,
{
    if count == 0 {
        0
    } else {
        payload(bytes[at]) + 0x80 * groups_value(bytes, at + 1, (count - 1) as nat)
    }
}

/// What reading one variable-length integer at `at` gives: the value and the
/// offset behind its last group. It is `Truncated` where the buffer ends
/// before a last group, where the first five bytes all continue, and where
/// the five groups spell more than 32 bits hold.
pub open spec fn uleb128_at(bytes: Seq<u8>, at: usize) -> Result<(u32, usize), DecodeError> {
    match group_count(bytes, at as int, MAX_GROUPS as nat) {
        Some(count) => {
            if groups_value(bytes, at as int, count) <= u32::MAX {
                Ok((groups_value(bytes, at as int, count) as u32, (at + count) as usize))
            } else {
                Err(DecodeError::Truncated { offset: at })
            }
        },
        None => Err(DecodeError::Truncated { offset: at }),
    }
}

/// The encoding of `value`: as few groups as hold it.
pub open spec fn uleb128_bytes(value: nat) -> Seq<u8>
    decreases value,
{
    if value < 0x80 {
        seq![value as u8]
    } else {
        seq![(0x80 + value % 0x80) as u8] + uleb128_bytes(value / 0x80)
    }
}

/// A lower limit finds the same last group, or none where that group lies
/// behind it.
proof fn lemma_group_count_limit(bytes: Seq<u8>, at: int, small: nat, large: nat)
    requires
        small <= large,
    ensures
        group_count(bytes, at, small) == (match group_count(bytes, at, large) {
            Some(n) => if n <= small { Some(n) } else { None },
            None => None,
        }),
        group_count(bytes, at, large) matches Some(n) ==> 1 <= n <= large && at + n <= bytes.len(),
    decreases large,
{
    if large == 0 || at < 0 || at >= bytes.len() {
    } else if !continues(bytes[at]) {
    } else if small == 0 {
        lemma_group_count_limit(bytes, at + 1, 0, (large - 1) as nat);
    } else {
        lemma_group_count_limit(bytes, at + 1, (small - 1) as nat, (large - 1) as nat);
    }
}

/// Calls `scroll::Uleb128::read` and hands back the value with the offset
/// behind it.
///
/// Trusted: `scroll` reads groups up to the first byte that does not continue
/// and gives what they spell, with the offset behind that byte. It looks at
/// ten bytes at most, so that on success the last group is among the first
/// ten, and it fails only where the first nine bytes in the buffer all
/// continue.
#[verifier::external_body]
fn scroll_uleb128(bytes: &[u8], offset: usize) -> (r: Result<(u64, usize), scroll::Error>)
    ensures
        match r {
            Ok((value, next)) => {
                &&& offset < next <= bytes@.len()
                &&& group_count(bytes@, offset as int, 10) == Some((next - offset) as nat)
                &&& value == groups_value(bytes@, offset as int, (next - offset) as nat)
            },
            Err(_) => group_count(bytes@, offset as int, 9) is None,
        },
{
    let mut next = offset;
    let value = scroll::Uleb128::read(bytes, &mut next)?;
    Ok((value, next))
}

/// Reads one variable-length integer at `*offset` and moves the offset behind
/// its last group. On failure the offset stays where it was.
pub fn read_uleb128(bytes: &[u8], offset: &mut usize) -> (r: Result<u32, DecodeError>)
    ensures
        match uleb128_at(bytes@, *old(offset)) {
            Ok((value, next)) => r == Ok::<u32, DecodeError>(value) && *final(offset) == next,
            Err(e) => r == Err::<u32, DecodeError>(e) && *final(offset) == *old(offset),
        },
{
    let start = *offset;
    match scroll_uleb128(bytes, start) {
        Ok((value, next)) => {
            proof {
                lemma_group_count_limit(bytes@, start as int, MAX_GROUPS as nat, 10);
            }
            if next - start <= MAX_GROUPS && value <= u32::MAX as u64 {
                *offset = next;
                Ok(value as u32)
            } else {
                Err(DecodeError::Truncated { offset: start })
            }
        },
        Err(_) => {
            proof {
                lemma_group_count_limit(bytes@, start as int, MAX_GROUPS as nat, 9);
            }
            Err(DecodeError::Truncated { offset: start })
        },
    }
}

/// Encodes `value` in as few groups as hold it.
pub fn encode_uleb128(value: u32) -> (out: Vec<u8>)
    ensures
        out@ == uleb128_bytes(value as nat),
        1 <= out@.len() <= MAX_GROUPS,
{
    let mut out: Vec<u8> = Vec::new();
    let mut rest: u32 = value;
    while rest >= 0x80
        invariant
            uleb128_bytes(value as nat) == out@ + uleb128_bytes(rest as nat),
        decreases rest,
    {
        let ghost before = out@;
        out.push((0x80 + rest % 0x80) as u8);
        proof {
            let tail = uleb128_bytes((rest / 0x80) as nat);
            assert(out@ + tail =~= before + (seq![(0x80 + rest % 0x80) as u8] + tail));
        }
        rest = rest / 0x80;
    }
    let ghost before = out@;
    out.push(rest as u8);
    proof {
        assert(out@ =~= before + seq![rest as u8]);
        lemma_five_groups();
        lemma_encoding_length(value as nat, MAX_GROUPS as nat);
    }
    out
}

/// Five groups hold 35 bits.
proof fn lemma_five_groups()
    ensures
        vstd::arithmetic::power::pow(0x80, 5) == 0x8_0000_0000,
{
    reveal_with_fuel(vstd::arithmetic::power::pow, 6);
}

/// A value below 128 to the power of `groups` is encoded in at most `groups`
/// bytes, and in at least one.
proof fn lemma_encoding_length(value: nat, groups: nat)
    requires
        groups >= 1,
        value < vstd::arithmetic::power::pow(0x80, groups),
    ensures
        1 <= uleb128_bytes(value).len() <= groups,
    decreases value,
{
    if value >= 0x80 {
        assert(vstd::arithmetic::power::pow(0x80, groups) == 0x80 * vstd::arithmetic::power::pow(
            0x80,
            (groups - 1) as nat,
        )) by {
            reveal(vstd::arithmetic::power::pow);
        }
        if groups == 1 {
            vstd::arithmetic::power::lemma_pow0(0x80);
        }
        lemma_encoding_length(value / 0x80, (groups - 1) as nat);
    }
}

/// Reading gives back what was encoded: the encoding of `value` is read as
/// one integer of that value, which ends where the encoding ends.
pub proof fn lemma_round_trip(value: u32)
    ensures
        uleb128_at(uleb128_bytes(value as nat), 0) == Ok::<(u32, usize), DecodeError>(
            (value, uleb128_bytes(value as nat).len() as usize),
        ),
        1 <= uleb128_bytes(value as nat).len() <= MAX_GROUPS,
{
    let bytes = uleb128_bytes(value as nat);
    lemma_five_groups();
    lemma_encoding_length(value as nat, MAX_GROUPS as nat);
    assert(bytes.subrange(0, bytes.len() as int) =~= bytes);
    lemma_read_encoded(bytes, 0, value);
}

/// The same inside a longer buffer. Where the encoding of `value` stands at
/// `at` in a buffer, whatever stands around it, it is read as one integer of
/// that value which ends where the encoding ends.
pub proof fn lemma_read_encoded(bytes: Seq<u8>, at: usize, value: u32)
    requires
        bytes.len() <= usize::MAX,
        at + uleb128_bytes(value as nat).len() <= bytes.len(),
        bytes.subrange(at as int, at + uleb128_bytes(value as nat).len()) == uleb128_bytes(
            value as nat,
        ),
    ensures
        uleb128_at(bytes, at) == Ok::<(u32, usize), DecodeError>(
            (value, (at + uleb128_bytes(value as nat).len()) as usize),
        ),
{
    lemma_five_groups();
    lemma_encoding_length(value as nat, MAX_GROUPS as nat);
    lemma_groups_of_encoding(bytes, at as int, value as nat, MAX_GROUPS as nat);
}

/// The groups of an encoding: they end with its last byte and spell the value.
proof fn lemma_groups_of_encoding(bytes: Seq<u8>, at: int, value: nat, limit: nat)
    requires
        0 <= at,
        uleb128_bytes(value).len() <= limit,
        at + uleb128_bytes(value).len() <= bytes.len(),
        bytes.subrange(at, at + uleb128_bytes(value).len()) == uleb128_bytes(value),
    ensures
        group_count(bytes, at, limit) == Some(uleb128_bytes(value).len()),
        groups_value(bytes, at, uleb128_bytes(value).len()) == value,
    decreases value,
{
    let encoding = uleb128_bytes(value);
    assert(bytes[at] == bytes.subrange(at, at + encoding.len())[0]);
    if value < 0x80 {
        assert(encoding.len() == 1);
        assert(groups_value(bytes, at + 1, 0) == 0);
    } else {
        let rest = uleb128_bytes(value / 0x80);
        assert(encoding.len() == 1 + rest.len());
        assert(bytes.subrange(at + 1, at + 1 + rest.len()) =~= rest) by {
            assert forall|i: int| 0 <= i < rest.len() implies bytes[at + 1 + i] == rest[i] by {
                assert(bytes[at + 1 + i] == bytes.subrange(at, at + encoding.len())[1 + i]);
            }
        }
        lemma_groups_of_encoding(bytes, at + 1, value / 0x80, (limit - 1) as nat);
    }
}

/// Five bytes that all continue hold no integer: reading there fails with
/// `Truncated`, however long the buffer is.
pub proof fn lemma_missing_terminator(bytes: Seq<u8>, at: usize)
    requires
        forall|i: int| at <= i < at + MAX_GROUPS && i < bytes.len() ==> continues(#[trigger] bytes[i]),
    ensures
        uleb128_at(bytes, at) == Err::<(u32, usize), DecodeError>(
            DecodeError::Truncated { offset: at },
        ),
{
    lemma_all_continue(bytes, at as int, at as int, MAX_GROUPS as nat);
}

/// No last group is found among bytes that all continue.
proof fn lemma_all_continue(bytes: Seq<u8>, start: int, at: int, limit: nat)
    requires
        start <= at,
        forall|i: int| start <= i < at + limit && i < bytes.len() ==> continues(#[trigger] bytes[i]),
    ensures
        group_count(bytes, at, limit) is None,
    decreases limit,
{
    if limit > 0 && 0 <= at < bytes.len() {
        lemma_all_continue(bytes, start, at + 1, (limit - 1) as nat);
    }
}

} // verus!
