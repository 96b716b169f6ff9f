//! The record that a step publishes, and the words that a step is given.
//!
//! A record is seven fields of 32 bits in a fixed order, each big-endian in a
//! slot of its own: 28 bytes, never fewer.

use vstd::prelude::*;
use crate::error::KernelError;

verus! {

/// The number of bytes in an encoded record.
pub const RECORD_WIDTH: usize = 28;

/// The number of words in the input stream of a step.
pub const INPUT_WORDS: usize = 5;

/// The four bytes of a field, most significant first.
pub open spec fn be_bytes(x: u32) -> Seq<u8> {
    seq![
        (x / 0x100_0000) as u8,
        (x / 0x1_0000 % 0x100) as u8,
        (x / 0x100 % 0x100) as u8,
        (x % 0x100) as u8,
    ]
}

/// The field that four bytes hold, most significant first.
pub open spec fn be_value(bytes: Seq<u8>) -> u32 {
    (bytes[0] * 0x100_0000 + bytes[1] * 0x1_0000 + bytes[2] * 0x100 + bytes[3]) as u32
}

/// What a step publishes: its inputs and the weights it arrived at. Weights
/// and rate are patterns, `d` and `t` plain integers.
#[derive(Clone, Copy, Debug, PartialEq, Eq, Structural)]
pub struct PublicRecord {
    pub d: u32,
    pub t: u32,
    pub w_l: u32,
    pub w_r: u32,
    pub r: u32,
    pub updated_w_l: u32,
    pub updated_w_r: u32,
}

impl PublicRecord {
    /// The bytes of the record: the fields in their order, four bytes each.
    pub open spec fn encoding(self) -> Seq<u8> {
        be_bytes(self.d) + be_bytes(self.t) + be_bytes(self.w_l) + be_bytes(self.w_r) + be_bytes(
            self.r,
        ) + be_bytes(self.updated_w_l) + be_bytes(self.updated_w_r)
    }

    /// The record that a byte sequence holds. Only a sequence of the full
    /// width holds one.
    pub open spec fn decoding(bytes: Seq<u8>) -> Result<PublicRecord, KernelError> {
        if bytes.len() != RECORD_WIDTH {
            Err(KernelError::RecordLength)
        } else {
            Ok(
                PublicRecord {
                    d: be_value(bytes.subrange(0, 4)),
                    t: be_value(bytes.subrange(4, 8)),
                    w_l: be_value(bytes.subrange(8, 12)),
                    w_r: be_value(bytes.subrange(12, 16)),
                    r: be_value(bytes.subrange(16, 20)),
                    updated_w_l: be_value(bytes.subrange(20, 24)),
                    updated_w_r: be_value(bytes.subrange(24, 28)),
                },
            )
        }
    }

    /// Encodes the record. The result always has the full width.
    pub fn encode(&self) -> (bytes: Vec<u8>)
        ensures
            bytes@ == self.encoding(),
    {
        let mut bytes: Vec<u8> = Vec::with_capacity(RECORD_WIDTH);
        push_field(&mut bytes, self.d);
        push_field(&mut bytes, self.t);
        push_field(&mut bytes, self.w_l);
        push_field(&mut bytes, self.w_r);
        push_field(&mut bytes, self.r);
        push_field(&mut bytes, self.updated_w_l);
        push_field(&mut bytes, self.updated_w_r);
        assert(bytes@ =~= self.encoding());
        bytes
    }

    /// Decodes a record. A byte sequence of any other length than the full
    /// width is refused, and no part of it is read.
    pub fn decode(bytes: &[u8]) -> (r: Result<PublicRecord, KernelError>)
        ensures
            r == PublicRecord::decoding(bytes@),
    {
        if bytes.len() != RECORD_WIDTH {
            return Err(KernelError::RecordLength);
        }
        Ok(
            PublicRecord {
                d: read_field(bytes, 0),
                t: read_field(bytes, 4),
                w_l: read_field(bytes, 8),
                w_r: read_field(bytes, 12),
                r: read_field(bytes, 16),
                updated_w_l: read_field(bytes, 20),
                updated_w_r: read_field(bytes, 24),
            },
        )
    }
}

/// Appends the four bytes of a field.
fn push_field(bytes: &mut Vec<u8>, x: u32)
    ensures
        final(bytes)@ == old(bytes)@ + be_bytes(x),
{
    bytes.push((x / 0x100_0000) as u8);
    bytes.push((x / 0x1_0000 % 0x100) as u8);
    bytes.push((x / 0x100 % 0x100) as u8);
    bytes.push((x % 0x100) as u8);
    assert(bytes@ =~= old(bytes)@ + be_bytes(x));
}

/// The field in the four bytes from `at` on.
fn read_field(bytes: &[u8], at: usize) -> (x: u32)
    requires
        at + 4 <= bytes.len(),
    ensures
        x == be_value(bytes@.subrange(at as int, at + 4)),
{
    bytes[at] as u32 * 0x100_0000 + bytes[at + 1] as u32 * 0x1_0000 + bytes[at + 2] as u32 * 0x100
        + bytes[at + 3] as u32
}

/// Four bytes hold the field they were made from.
pub proof fn lemma_be_value_of_bytes(x: u32)
    ensures
        be_bytes(x).len() == 4,
        be_value(be_bytes(x)) == x,
{
}

/// Four bytes are the bytes of the field they hold.
pub proof fn lemma_be_bytes_of_value(bytes: Seq<u8>)
    requires
        bytes.len() == 4,
    ensures
        be_bytes(be_value(bytes)) == bytes,
{
    assert(be_bytes(be_value(bytes)) =~= bytes);
}

/// Every record encodes to the full width, and decoding gives it back whole.
pub proof fn lemma_decode_encode(record: PublicRecord)
    ensures
        record.encoding().len() == RECORD_WIDTH,
        PublicRecord::decoding(record.encoding()) == Ok::<PublicRecord, KernelError>(record),
{
    let bytes = record.encoding();
    lemma_be_value_of_bytes(record.d);
    lemma_be_value_of_bytes(record.t);
    lemma_be_value_of_bytes(record.w_l);
    lemma_be_value_of_bytes(record.w_r);
    lemma_be_value_of_bytes(record.r);
    lemma_be_value_of_bytes(record.updated_w_l);
    lemma_be_value_of_bytes(record.updated_w_r);
    assert(bytes.subrange(0, 4) =~= be_bytes(record.d));
    assert(bytes.subrange(4, 8) =~= be_bytes(record.t));
    assert(bytes.subrange(8, 12) =~= be_bytes(record.w_l));
    assert(bytes.subrange(12, 16) =~= be_bytes(record.w_r));
    assert(bytes.subrange(16, 20) =~= be_bytes(record.r));
    assert(bytes.subrange(20, 24) =~= be_bytes(record.updated_w_l));
    assert(bytes.subrange(24, 28) =~= be_bytes(record.updated_w_r));
}

/// A byte sequence decodes to a record exactly when it has the full width,
/// and then the record encodes to the same bytes: no two byte sequences hold
/// one record, and none holds part of one.
pub proof fn lemma_encode_decode(bytes: Seq<u8>)
    ensures
        PublicRecord::decoding(bytes) is Ok <==> bytes.len() == RECORD_WIDTH,
        bytes.len() != RECORD_WIDTH ==> PublicRecord::decoding(bytes) == Err::<
            PublicRecord,
            KernelError,
        >(KernelError::RecordLength),
        bytes.len() == RECORD_WIDTH ==> PublicRecord::decoding(bytes)->Ok_0.encoding() == bytes,
{
    if bytes.len() == RECORD_WIDTH {
        let record = PublicRecord::decoding(bytes)->Ok_0;
        lemma_be_bytes_of_value(bytes.subrange(0, 4));
        lemma_be_bytes_of_value(bytes.subrange(4, 8));
        lemma_be_bytes_of_value(bytes.subrange(8, 12));
        lemma_be_bytes_of_value(bytes.subrange(12, 16));
        lemma_be_bytes_of_value(bytes.subrange(16, 20));
        lemma_be_bytes_of_value(bytes.subrange(20, 24));
        lemma_be_bytes_of_value(bytes.subrange(24, 28));
        assert(record.encoding() =~= bytes);
    }
}

/// The inputs of a step, as the input stream carries them.
#[derive(Clone, Copy, Debug, PartialEq, Eq, Structural)]
pub struct TrainingInput {
    pub d: u32,
    pub t: u32,
    pub r: u32,
    pub w_l: u32,
    pub w_r: u32,
}

impl TrainingInput {
    /// The words of the input stream, in the order they are read.
    pub open spec fn words(self) -> Seq<u32> {
        seq![self.d, self.t, self.r, self.w_l, self.w_r]
    }

    /// The inputs that a stream of words holds. Only a stream of exactly five
    /// words holds any.
    pub open spec fn reading(words: Seq<u32>) -> Result<TrainingInput, KernelError> {
        if words.len() != INPUT_WORDS {
            Err(KernelError::InputLength)
        } else {
            Ok(TrainingInput { d: words[0], t: words[1], r: words[2], w_l: words[3], w_r: words[4] })
        }
    }

    /// The words to write to the input stream, in order.
    pub fn to_words(&self) -> (words: Vec<u32>)
        ensures
            words@ == self.words(),
    {
        let mut words: Vec<u32> = Vec::with_capacity(INPUT_WORDS);
        words.push(self.d);
        words.push(self.t);
        words.push(self.r);
        words.push(self.w_l);
        words.push(self.w_r);
        assert(words@ =~= self.words());
        words
    }

    /// The inputs read off the input stream. A stream of fewer or of more
    /// than five words is refused.
    pub fn from_words(words: &[u32]) -> (r: Result<TrainingInput, KernelError>)
        ensures
            r == TrainingInput::reading(words@),
    {
        if words.len() != INPUT_WORDS {
            return Err(KernelError::InputLength);
        }
        Ok(TrainingInput { d: words[0], t: words[1], r: words[2], w_l: words[3], w_r: words[4] })
    }
}

/// The words of a step's inputs read back as the same inputs.
pub proof fn lemma_reading_of_words(input: TrainingInput)
    ensures
        TrainingInput::reading(input.words()) == Ok::<TrainingInput, KernelError>(input),
{
}

} // verus!
