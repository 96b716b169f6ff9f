//! The two ends of a proved step: what the constrained side publishes, and the
//! check that the host makes on it by training again.

use vstd::prelude::*;
use crate::error::KernelError;
use crate::perceptron::{perceptron_update, update_perceptron};
use crate::record::{lemma_decode_encode, PublicRecord, TrainingInput};

verus! {

/// The record of a step on the given inputs.
pub open spec fn committed_record(input: TrainingInput) -> PublicRecord {
    let updated = perceptron_update(input.d, input.t, input.r, input.w_l, input.w_r);
    PublicRecord {
        d: input.d,
        t: input.t,
        w_l: input.w_l,
        w_r: input.w_r,
        r: input.r,
        updated_w_l: updated.0,
        updated_w_r: updated.1,
    }
}

/// The inputs that a record names.
pub open spec fn inputs_of(record: PublicRecord) -> TrainingInput {
    TrainingInput { d: record.d, t: record.t, r: record.r, w_l: record.w_l, w_r: record.w_r }
}

/// Whether the record's results are what its inputs train to, bit for bit.
pub open spec fn is_consistent(record: PublicRecord) -> bool {
    record == committed_record(inputs_of(record))
}

/// What the constrained side publishes for a stream of input words.
pub open spec fn published(words: Seq<u32>) -> Result<Seq<u8>, KernelError> {
    match TrainingInput::reading(words) {
        Ok(input) => Ok(committed_record(input).encoding()),
        Err(e) => Err(e),
    }
}

/// What the host makes of published bytes: the record where it is whole and
/// consistent, and otherwise the reason why not.
pub open spec fn verdict(bytes: Seq<u8>) -> Result<PublicRecord, KernelError> {
    match PublicRecord::decoding(bytes) {
        Ok(record) => if is_consistent(record) {
            Ok(record)
        } else {
            Err(KernelError::ParityMismatch)
        },
        Err(e) => Err(e),
    }
}

/// Runs the step and builds its record.
pub fn run_step(input: &TrainingInput) -> (record: PublicRecord)
    ensures
        record == committed_record(*input),
{
    let (updated_w_l, updated_w_r) = update_perceptron(
        input.d,
        input.t,
        input.r,
        input.w_l,
        input.w_r,
    );
    PublicRecord {
        d: input.d,
        t: input.t,
        w_l: input.w_l,
        w_r: input.w_r,
        r: input.r,
        updated_w_l,
        updated_w_r,
    }
}

/// The constrained side: reads the inputs off the stream, runs the step and
/// encodes its record.
pub fn publish(words: &[u32]) -> (r: Result<Vec<u8>, KernelError>)
    ensures
        match r {
            Ok(bytes) => published(words@) == Ok::<Seq<u8>, KernelError>(bytes@),
            Err(e) => published(words@) == Err::<Seq<u8>, KernelError>(e),
        },
{
    match TrainingInput::from_words(words) {
        Ok(input) => Ok(run_step(&input).encode()),
        Err(e) => Err(e),
    }
}

/// Trains again on the inputs that a record names and compares the results
/// with the record's own.
pub fn check_record(record: &PublicRecord) -> (ok: bool)
    ensures
        ok == is_consistent(*record),
{
    let (expected_w_l, expected_w_r) = update_perceptron(
        record.d,
        record.t,
        record.r,
        record.w_l,
        record.w_r,
    );
    record.updated_w_l == expected_w_l && record.updated_w_r == expected_w_r
}

/// The host side: decodes published bytes and accepts the record only if
/// training again on its inputs gives its results.
pub fn check_published(bytes: &[u8]) -> (r: Result<PublicRecord, KernelError>)
    ensures
        r == verdict(bytes@),
{
    match PublicRecord::decode(bytes) {
        Ok(record) => if check_record(&record) {
            Ok(record)
        } else {
            Err(KernelError::ParityMismatch)
        },
        Err(e) => Err(e),
    }
}

/// The record of a step is consistent: training on the inputs it names gives
/// the results it holds.
pub proof fn lemma_committed_is_consistent(input: TrainingInput)
    ensures
        inputs_of(committed_record(input)) == input,
        is_consistent(committed_record(input)),
{
}

/// What the constrained side publishes for the words of any inputs, the host
/// accepts, and it reads back the record of those inputs.
pub proof fn lemma_published_is_accepted(input: TrainingInput)
    ensures
        published(input.words()) == Ok::<Seq<u8>, KernelError>(committed_record(input).encoding()),
        verdict(committed_record(input).encoding()) == Ok::<PublicRecord, KernelError>(
            committed_record(input),
        ),
{
    lemma_decode_encode(committed_record(input));
    lemma_committed_is_consistent(input);
}

/// A record that the host accepts holds, in its result fields, exactly what
/// training on its input fields returns.
pub proof fn lemma_accepted_is_retrained(bytes: Seq<u8>)
    requires
        verdict(bytes) is Ok,
    ensures
        ({
            let record = verdict(bytes)->Ok_0;
            (record.updated_w_l, record.updated_w_r) == perceptron_update(
                record.d,
                record.t,
                record.r,
                record.w_l,
                record.w_r,
            )
        }),
{
}

} // verus!
