//! Variable-length integers: seven payload bits per byte, least significant
//! group first, the high bit of a byte announcing that another byte follows.

use vstd::prelude::*;
use crate::error::ProtocolError;

verus! {

/// The seven payload bits of a byte, as a number.
pub open spec fn low7(byte: u8) -> nat {
    (byte % 128) as nat
}

/// The place value of the group at position `index`: 128 to that power.
pub open spec fn weight(index: nat) -> nat
    decreases index,
{
    if index == 0 {
        1
    } else {
        128 * weight((index - 1) as nat)
    }
}

/// The number that a run of groups spells, first group least significant.
/// Continuation bits are ignored.
pub open spec fn groups_value(groups: Seq<u8>) -> nat
    decreases groups.len(),
{
    if groups.len() == 0 {
        0
    } else {
        low7(groups[0]) + 128 * groups_value(groups.drop_first())
    }
}

/// A number read as a 32-bit two's complement integer: the 32-bit accumulator
/// keeps the low 32 bits and its top bit is the sign.
pub open spec fn as_signed(n: nat) -> int {
    let low = n % 0x1_0000_0000;
    if low >= 0x8000_0000 {
        low - 0x1_0000_0000
    } else {
        low as int
    }
}

/// The unsigned 32-bit number with the same bits as `v`.
pub open spec fn as_unsigned(v: int) -> nat {
    if v < 0 {
        (v + 0x1_0000_0000) as nat
    } else {
        v as nat
    }
}

/// The canonical groups of `n`: as few bytes as hold it, every byte but the
/// last with its high bit set.
pub open spec fn groups_of(n: nat) -> Seq<u8>
    decreases n,
{
    if n < 128 {
        seq![n as u8]
    } else {
        seq![(n % 128 + 128) as u8] + groups_of(n / 128)
    }
}

/// The wire form of a 32-bit integer.
pub open spec fn encoding(value: i32) -> Seq<u8> {
    groups_of(as_unsigned(value as int))
}

/// How many bytes the wire form of `value` takes.
pub open spec fn encoded_len(value: i32) -> nat {
    let n = as_unsigned(value as int);
    if n < 0x80 {
        1
    } else if n < 0x4000 {
        2
    } else if n < 0x20_0000 {
        3
    } else if n < 0x1000_0000 {
        4
    } else {
        5
    }
}

/// How many leading bytes of `input` have the continuation bit set.
pub open spec fn leading_continuations(input: Seq<u8>) -> nat
    decreases input.len(),
{
    if input.len() > 0 && input[0] >= 128 {
        1 + leading_continuations(input.drop_first())
    } else {
        0
    }
}

/// What the start of a byte stream holds when a varint is expected there.
pub enum Decoded {
    /// A varint of `consumed` bytes that spells `value`.
    Value { value: i32, consumed: nat },
    /// Five bytes in a row announce another one.
    Malformed,
    /// The stream ends before the varint does.
    Truncated,
}

/// The varint at the start of `input`: it ends with the first byte whose high
/// bit is clear, which has to be among the first five; later bytes are not
/// looked at.
pub open spec fn decoding(input: Seq<u8>) -> Decoded {
    let more = leading_continuations(input);
    if more >= 5 {
        Decoded::Malformed
    } else if more >= input.len() {
        Decoded::Truncated
    } else {
        Decoded::Value {
            value: as_signed(groups_value(input.take(more + 1 as int))) as i32,
            consumed: more + 1,
        }
    }
}

/// A varint of which some bytes have been read: their number and the sum of
/// their groups so far.
pub struct Partial {
    pub sum: nat,
    pub count: nat,
}

/// What one more byte does to a varint that is being read.
pub enum Progress {
    /// The byte announces another; the varint goes on.
    More(Partial),
    /// The byte was the last one; the varint spells this value.
    Done(i32),
    /// The byte is the fifth and still announces another.
    Malformed,
}

impl Partial {
    /// Nothing read yet.
    pub open spec fn empty() -> Partial {
        Partial { sum: 0, count: 0 }
    }

    /// At most four bytes were read, and the sum is what that many groups can hold.
    pub open spec fn wf(self) -> bool {
        self.count <= 4 && self.sum < weight(self.count)
    }

    /// The state after the continuation bytes `read`.
    pub open spec fn after(read: Seq<u8>) -> Partial {
        Partial { sum: groups_value(read), count: read.len() }
    }

    /// The effect of the next byte.
    pub open spec fn absorb(self, byte: u8) -> Progress {
        let sum = self.sum + low7(byte) * weight(self.count);
        if byte < 128 {
            Progress::Done(as_signed(sum) as i32)
        } else if self.count >= 4 {
            Progress::Malformed
        } else {
            Progress::More(Partial { sum, count: self.count + 1 })
        }
    }
}

/// Encodes `value` in as few bytes as hold it. A negative value is written as
/// the unsigned number with the same 32 bits, which takes five bytes.
pub fn encode(value: i32) -> (bytes: Vec<u8>)
    ensures
        bytes@ == encoding(value),
        bytes@.len() == encoded_len(value),
{
    let mut rest: u32 = if value >= 0 {
        value as u32
    } else {
        (value as i64 + 0x1_0000_0000i64) as u32
    };
    let mut bytes: Vec<u8> = Vec::new();
    proof {
        lemma_groups_len(rest as nat);
    }
    while rest >= 128
        invariant
            bytes@ + groups_of(rest as nat) == encoding(value),
        decreases rest,
    {
        let group: u8 = (rest % 128 + 128) as u8;
        assert(groups_of(rest as nat) == seq![group] + groups_of((rest / 128) as nat));
        assert(bytes@.push(group) + groups_of((rest / 128) as nat) == bytes@ + groups_of(
            rest as nat,
        ));
        bytes.push(group);
        rest = rest / 128;
    }
    assert(bytes@.push(rest as u8) == bytes@ + groups_of(rest as nat));
    bytes.push(rest as u8);
    bytes
}

/// Reads a varint one byte at a time.
pub struct VarintDecoder {
    sum: u32,
    count: u8,
}

impl View for VarintDecoder {
    type V = Partial;

    closed spec fn view(&self) -> Partial {
        Partial { sum: self.sum as nat, count: self.count as nat }
    }
}

impl VarintDecoder {
    #[verifier::type_invariant]
    spec fn inv(self) -> bool {
        self@.wf()
    }

    /// A decoder that has read nothing.
    pub fn new() -> (decoder: VarintDecoder)
        ensures
            decoder@ == Partial::empty(),
    {
        VarintDecoder { sum: 0, count: 0 }
    }

    /// Takes the next byte of the stream. After `Ok(Some(_))` and after an
    /// error the decoder is empty again, ready for the next varint.
    pub fn push(&mut self, byte: u8) -> (outcome: Result<Option<i32>, ProtocolError>)
        ensures
            final(self)@.wf(),
            match old(self)@.absorb(byte) {
                Progress::More(partial) => outcome == Ok::<Option<i32>, ProtocolError>(None)
                    && final(self)@ == partial,
                Progress::Done(value) => outcome == Ok::<Option<i32>, ProtocolError>(Some(value))
                    && final(self)@ == Partial::empty(),
                Progress::Malformed => outcome == Err::<Option<i32>, ProtocolError>(
                    ProtocolError::MalformedVarint,
                ) && final(self)@ == Partial::empty(),
            },
    {
        proof {
            use_type_invariant(&*self);
            lemma_weights();
        }
        let shift: u32 = 7 * (self.count as u32);
        let group: u32 = (byte & 0x7f) as u32;
        assert(byte & 0x7f == byte % 128) by (bit_vector);
        let scale: u64 = 1u64 << shift;
        assert(scale == weight(self.count as nat)) by {
            assert(1u64 << 0u32 == 1) by (bit_vector);
            assert(1u64 << 7u32 == 0x80) by (bit_vector);
            assert(1u64 << 14u32 == 0x4000) by (bit_vector);
            assert(1u64 << 21u32 == 0x20_0000) by (bit_vector);
            assert(1u64 << 28u32 == 0x1000_0000) by (bit_vector);
        }
        assert(group * scale <= 127 * 0x1000_0000) by (nonlinear_arith)
            requires
                group <= 127,
                scale <= 0x1000_0000,
        ;
        // The groups do not overlap, so adding a group is or-ing it in at its
        // bit offset.
        let sum: u64 = self.sum as u64 + (group as u64) * scale;
        if byte & 0x80 == 0 {
            assert(byte & 0x80 == 0 <==> byte < 128) by (bit_vector);
            let low: u64 = sum % 0x1_0000_0000;
            let value: i32 = if low >= 0x8000_0000 {
                (low as i64 - 0x1_0000_0000i64) as i32
            } else {
                low as i32
            };
            *self = VarintDecoder { sum: 0, count: 0 };
            Ok(Some(value))
        } else {
            assert(byte & 0x80 == 0 <==> byte < 128) by (bit_vector);
            if self.count >= 4 {
                *self = VarintDecoder { sum: 0, count: 0 };
                Err(ProtocolError::MalformedVarint)
            } else {
                assert(sum < weight((self.count + 1) as nat)) by (nonlinear_arith)
                    requires
                        sum == self.sum + group * weight(self.count as nat),
                        group < 128,
                        self.sum < weight(self.count as nat),
                        weight((self.count + 1) as nat) == 128 * weight(self.count as nat),
                ;
                *self = VarintDecoder { sum: sum as u32, count: self.count + 1 };
                Ok(None)
            }
        }
    }
}

/// Decodes the varint at the start of `input` and says how many bytes it took.
/// Input that ends inside the varint is reported as a transport failure.
pub fn decode(input: &[u8]) -> (outcome: Result<(i32, usize), ProtocolError>)
    ensures
        match decoding(input@) {
            Decoded::Value { value, consumed } => outcome == Ok::<(i32, usize), ProtocolError>(
                (value, consumed as usize),
            ),
            Decoded::Malformed => outcome == Err::<(i32, usize), ProtocolError>(
                ProtocolError::MalformedVarint,
            ),
            Decoded::Truncated => outcome == Err::<(i32, usize), ProtocolError>(
                ProtocolError::TransportError,
            ),
        },
{
    let mut decoder = VarintDecoder::new();
    let mut index: usize = 0;
    assert(input@.take(0) =~= Seq::<u8>::empty());
    while index < input.len()
        invariant
            index <= input.len(),
            decoder@.wf(),
            decoder@ == Partial::after(input@.take(index as int)),
            forall|j: int| 0 <= j < index ==> input@[j] >= 128,
        decreases input.len() - index,
    {
        let byte: u8 = input[index];
        proof {
            lemma_value_push(input@.take(index as int), byte);
            assert(input@.take(index as int).push(byte) =~= input@.take(index + 1));
            lemma_leading(input@, index as nat);
            if byte >= 128 {
                lemma_leading(input@, (index + 1) as nat);
            }
        }
        match decoder.push(byte) {
            Ok(Some(value)) => {
                return Ok((value, index + 1));
            },
            Ok(None) => {},
            Err(error) => {
                return Err(error);
            },
        }
        index += 1;
    }
    proof {
        lemma_leading(input@, index as nat);
    }
    Err(ProtocolError::TransportError)
}

/// Reading back what was written gives the value again, whatever follows it
/// in the stream, and takes exactly the bytes that were written.
pub proof fn lemma_round_trip(value: i32, tail: Seq<u8>)
    ensures
        decoding(encoding(value) + tail) == (Decoded::Value {
            value,
            consumed: encoding(value).len(),
        }),
{
    let n = as_unsigned(value as int);
    let groups = encoding(value);
    let input = groups + tail;
    lemma_groups_shape(n);
    lemma_groups_len(n);
    lemma_leading(input, (groups.len() - 1) as nat);
    assert(input.take(groups.len() as int) =~= groups);
}

/// The encoder writes as few bytes as the value allows: one for values below
/// 2^7, two below 2^14, three below 2^21, four below 2^28, five otherwise
/// (negative values among them).
pub proof fn lemma_encoding_len(value: i32)
    ensures
        encoding(value).len() == encoded_len(value),
        1 <= encoded_len(value) <= 5,
{
    lemma_groups_len(as_unsigned(value as int));
}

/// The encoding is canonical: it never ends in a padding group of zero,
/// except that zero itself is the single byte zero.
pub proof fn lemma_encoding_canonical(value: i32)
    ensures
        encoding(value).len() >= 1,
        value != 0 ==> encoding(value).last() != 0,
        value == 0 ==> encoding(value) == seq![0u8],
{
    let n = as_unsigned(value as int);
    lemma_groups_shape(n);
    if n < 128 {
        assert(groups_of(n) =~= seq![n as u8]);
    }
}

/// No byte sequence that decodes to `value` is shorter than its encoding.
pub proof fn lemma_encoding_minimal(input: Seq<u8>, value: i32, consumed: nat)
    requires
        decoding(input) == (Decoded::Value { value, consumed }),
    ensures
        encoded_len(value) <= consumed,
{
    let groups = input.take(consumed as int);
    lemma_value_bound(groups);
    lemma_weights();
}

/// Five bytes that all announce another byte are rejected, whatever follows:
/// the decoder never looks past the fifth byte.
pub proof fn lemma_overlong_is_malformed(input: Seq<u8>)
    requires
        input.len() >= 5,
        forall|j: int| 0 <= j < 5 ==> input[j] >= 128,
    ensures
        decoding(input) == Decoded::Malformed,
{
    lemma_leading(input, 5);
}

/// A decoded varint lies within the first five bytes of the input, ends at
/// the first byte whose high bit is clear, and depends on no later byte.
pub proof fn lemma_decoding_bounded(input: Seq<u8>, value: i32, consumed: nat)
    requires
        decoding(input) == (Decoded::Value { value, consumed }),
    ensures
        1 <= consumed <= 5,
        consumed <= input.len(),
        input[consumed - 1] < 128,
        forall|j: int| 0 <= j < consumed - 1 ==> input[j] >= 128,
        decoding(input.take(consumed as int)) == decoding(input),
{
    lemma_leading_shape(input);
    let head = input.take(consumed as int);
    lemma_leading(head, (consumed - 1) as nat);
    assert(head.take(consumed as int) =~= head);
}

/// What the varint at the start of a stream is, told from its next byte: the
/// stream starts with the continuation bytes `read` and goes on with `rest`.
pub proof fn lemma_decoding_by_next_byte(read: Seq<u8>, rest: Seq<u8>)
    requires
        read.len() <= 4,
        forall|j: int| 0 <= j < read.len() ==> read[j] >= 128,
    ensures
        rest.len() == 0 ==> decoding(read + rest) == Decoded::Truncated,
        rest.len() > 0 && rest[0] < 128 ==> decoding(read + rest) == (Decoded::Value {
            value: as_signed(groups_value(read) + low7(rest[0]) * weight(read.len())) as i32,
            consumed: read.len() + 1,
        }),
        rest.len() > 0 && rest[0] >= 128 && read.len() == 4 ==> decoding(read + rest)
            == Decoded::Malformed,
        rest.len() > 0 ==> read.push(rest[0]) + rest.skip(1) == read + rest,
{
    let whole = read + rest;
    assert forall|j: int| 0 <= j < read.len() implies whole[j] >= 128 by {
        assert(whole[j] == read[j]);
    }
    if rest.len() == 0 {
        assert(whole =~= read);
        lemma_leading(whole, read.len());
    } else {
        let byte = rest[0];
        assert(whole[read.len() as int] == byte);
        assert(read.push(byte) + rest.skip(1) =~= whole);
        if byte < 128 {
            lemma_leading(whole, read.len());
            lemma_value_push(read, byte);
            assert(whole.take(read.len() + 1 as int) =~= read.push(byte));
        } else if read.len() == 4 {
            lemma_leading(whole, 5);
        }
    }
}

/// A varint that goes on after one more byte is still within its bounds.
pub proof fn lemma_absorb_wf(partial: Partial, byte: u8)
    requires
        partial.wf(),
    ensures
        partial.absorb(byte) matches Progress::More(next) ==> next.wf() && next.count
            == partial.count + 1,
{
    if let Progress::More(next) = partial.absorb(byte) {
        assert(next.sum < weight(next.count)) by (nonlinear_arith)
            requires
                next.sum == partial.sum + low7(byte) * weight(partial.count),
                low7(byte) < 128,
                partial.sum < weight(partial.count),
                weight(next.count) == 128 * weight(partial.count),
        ;
    }
}

/// The first five place values.
pub proof fn lemma_weights()
    ensures
        weight(0) == 1,
        weight(1) == 0x80,
        weight(2) == 0x4000,
        weight(3) == 0x20_0000,
        weight(4) == 0x1000_0000,
        weight(5) == 0x8_0000_0000,
{
    reveal_with_fuel(weight, 6);
}

/// How many groups a number takes, by its size.
pub proof fn lemma_groups_len(n: nat)
    ensures
        n < 0x80 ==> groups_of(n).len() == 1,
        0x80 <= n < 0x4000 ==> groups_of(n).len() == 2,
        0x4000 <= n < 0x20_0000 ==> groups_of(n).len() == 3,
        0x20_0000 <= n < 0x1000_0000 ==> groups_of(n).len() == 4,
        0x1000_0000 <= n < 0x8_0000_0000 ==> groups_of(n).len() == 5,
{
    reveal_with_fuel(groups_of, 6);
}

/// The canonical groups of a number: only the last byte has its high bit
/// clear, and together they spell the number.
pub proof fn lemma_groups_shape(n: nat)
    ensures
        groups_of(n).len() >= 1,
        forall|j: int| 0 <= j < groups_of(n).len() - 1 ==> groups_of(n)[j] >= 128,
        groups_of(n)[groups_of(n).len() - 1] < 128,
        n >= 128 ==> groups_of(n)[groups_of(n).len() - 1] != 0,
        groups_value(groups_of(n)) == n,
    decreases n,
{
    if n >= 128 {
        let rest = groups_of(n / 128);
        let first = (n % 128 + 128) as u8;
        lemma_groups_shape(n / 128);
        assert(groups_of(n) == seq![first] + rest);
        assert(groups_of(n).drop_first() =~= rest);
        assert forall|j: int| 0 <= j < groups_of(n).len() - 1 implies groups_of(n)[j] >= 128 by {
            if j > 0 {
                assert(groups_of(n)[j] == rest[j - 1]);
            }
        }
    } else {
        assert(groups_of(n).drop_first() =~= Seq::<u8>::empty());
        reveal_with_fuel(groups_value, 2);
    }
}

/// A group appended at the end counts with the place value of its position.
pub proof fn lemma_value_push(groups: Seq<u8>, byte: u8)
    ensures
        groups_value(groups.push(byte)) == groups_value(groups) + low7(byte) * weight(groups.len()),
    decreases groups.len(),
{
    if groups.len() == 0 {
        assert(groups.push(byte).drop_first() =~= groups);
        reveal_with_fuel(groups_value, 2);
    } else {
        let rest = groups.drop_first();
        lemma_value_push(rest, byte);
        assert(groups.push(byte).drop_first() =~= rest.push(byte));
        assert(128 * (low7(byte) * weight(rest.len())) == low7(byte) * weight(groups.len()))
            by (nonlinear_arith)
            requires
                weight(groups.len()) == 128 * weight(rest.len()),
        ;
    }
}

/// A run of groups spells less than the place value that follows it.
pub proof fn lemma_value_bound(groups: Seq<u8>)
    ensures
        groups_value(groups) < weight(groups.len()),
    decreases groups.len(),
{
    if groups.len() > 0 {
        lemma_value_bound(groups.drop_first());
    }
}

/// Where the leading run of continuation bytes ends.
pub proof fn lemma_leading(input: Seq<u8>, run: nat)
    requires
        run <= input.len(),
        forall|j: int| 0 <= j < run ==> input[j] >= 128,
    ensures
        leading_continuations(input) >= run,
        (run == input.len() || input[run as int] < 128) ==> leading_continuations(input) == run,
    decreases run,
{
    if run > 0 {
        let rest = input.drop_first();
        assert forall|j: int| 0 <= j < run - 1 implies rest[j] >= 128 by {
            assert(rest[j] == input[j + 1]);
        }
        lemma_leading(rest, (run - 1) as nat);
    }
}

/// The bytes counted by `leading_continuations` have their high bit set and
/// the byte after them, if there is one, has not.
pub proof fn lemma_leading_shape(input: Seq<u8>)
    ensures
        leading_continuations(input) <= input.len(),
        forall|j: int| 0 <= j < leading_continuations(input) ==> input[j] >= 128,
        leading_continuations(input) < input.len() ==> input[leading_continuations(input) as int]
            < 128,
    decreases input.len(),
{
    if input.len() > 0 && input[0] >= 128 {
        let rest = input.drop_first();
        lemma_leading_shape(rest);
        assert forall|j: int| 0 <= j < leading_continuations(input) implies input[j] >= 128 by {
            if j > 0 {
                assert(input[j] == rest[j - 1]);
            }
        }
    }
}

} // verus!
