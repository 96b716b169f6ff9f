//! The fixed example tables that the training steps run over.

use vstd::prelude::*;
use crate::error::KernelError;
use crate::scalar::Scalar;

verus! {

/// The pattern of `0.0`.
pub const ZERO: u32 = 0;

/// The pattern of `1.0`.
pub const ONE: u32 = 0x3f80_0000;

/// The two-input gates whose truth tables the perceptron can be trained on.
#[derive(Clone, Copy, Debug, PartialEq, Eq, Structural)]
pub enum Dataset {
    AND,
    NAND,
    OR,
    NOR,
    XOR,
}

/// The output of a gate on two inputs.
pub open spec fn gate_output(dataset: Dataset, left: bool, right: bool) -> bool {
    match dataset {
        Dataset::AND => left && right,
        Dataset::NAND => !(left && right),
        Dataset::OR => left || right,
        Dataset::NOR => !(left || right),
        Dataset::XOR => left != right,
    }
}

/// The pattern of `1.0` for true, of `0.0` for false.
pub open spec fn truth_bits(b: bool) -> u32 {
    if b {
        ONE
    } else {
        ZERO
    }
}

/// Row `i` of a gate's truth table: left input, right input, expected
/// output. The rows count the inputs up in binary, the left input the high bit.
pub open spec fn gate_row(dataset: Dataset, i: int) -> Seq<u32> {
    let left = i / 2 == 1;
    let right = i % 2 == 1;
    seq![truth_bits(left), truth_bits(right), truth_bits(gate_output(dataset, left, right))]
}

/// The four rows of a gate's truth table, in the order training visits them.
pub open spec fn gate_table(dataset: Dataset) -> Seq<Seq<u32>> {
    Seq::new(4, |i: int| gate_row(dataset, i))
}

/// Which gate an index selects. An index that selects none falls back to
/// `AND`.
pub open spec fn dataset_of(i: u32) -> Dataset {
    if i == 1 {
        Dataset::NAND
    } else if i == 2 {
        Dataset::OR
    } else if i == 3 {
        Dataset::NOR
    } else if i == 4 {
        Dataset::XOR
    } else {
        Dataset::AND
    }
}

/// Selects a gate by index: `0` to `4` in the order of the variants, and
/// `AND` for every other index.
pub fn u32_to_dataset(i: u32) -> (dataset: Dataset)
    ensures
        dataset == dataset_of(i),
        i > 4 ==> dataset == Dataset::AND,
{
    match i {
        0 => Dataset::AND,
        1 => Dataset::NAND,
        2 => Dataset::OR,
        3 => Dataset::NOR,
        4 => Dataset::XOR,
        _ => Dataset::AND,
    }
}

/// The patterns that a table of scalars holds.
pub open spec fn table_bits<const C: usize, const R: usize>(table: [[Scalar; C]; R]) -> Seq<Seq<u32>> {
    Seq::new(R as nat, |i: int| Seq::new(C as nat, |j: int| table[i][j].bits))
}

/// The truth table of a gate: four rows of left input, right input and
/// expected output.
pub fn get_dataset(dataset: Dataset) -> (table: [[Scalar; 3]; 4])
    ensures
        table_bits(table) == gate_table(dataset),
{
    let zero = Scalar { bits: ZERO };
    let one = Scalar { bits: ONE };
    let table = match dataset {
        Dataset::AND => [[zero, zero, zero], [zero, one, zero], [one, zero, zero], [one, one, one]],
        Dataset::NAND => [[zero, zero, one], [zero, one, one], [one, zero, one], [one, one, zero]],
        Dataset::OR => [[zero, zero, zero], [zero, one, one], [one, zero, one], [one, one, one]],
        Dataset::NOR => [[zero, zero, one], [zero, one, zero], [one, zero, zero], [one, one, zero]],
        Dataset::XOR => [[zero, zero, zero], [zero, one, one], [one, zero, one], [one, one, zero]],
    };
    proof {
        assert forall|i: int| 0 <= i < 4 implies #[trigger] table_bits(table)[i] == gate_row(dataset, i) by {
            assert(table_bits(table)[i] =~= gate_row(dataset, i));
        }
    }
    table
}

/// The example sets that the multi-layer network can be trained on.
#[allow(non_camel_case_types)]
#[derive(Clone, Copy, Debug, PartialEq, Eq, Structural)]
pub enum MLP_Dataset {
    MLP_TEST,
}

/// The pattern of `2.0`.
pub const TWO: u32 = 0x4000_0000;

/// The pattern of `3.0`.
pub const THREE: u32 = 0x4040_0000;

/// The pattern of `4.0`.
pub const FOUR: u32 = 0x4080_0000;

/// The rows of an example set: four features, then a one-hot label of three.
pub open spec fn mlp_table(ds: MLP_Dataset) -> Seq<Seq<u32>> {
    match ds {
        MLP_Dataset::MLP_TEST => seq![seq![ONE, TWO, THREE, FOUR, ONE, ZERO, ZERO]],
    }
}

/// Whether an index selects an example set for the multi-layer network.
pub open spec fn is_mlp_index(i: u32) -> bool {
    i == 0
}

/// The example set that a valid index selects.
pub fn u32_to_mlp_ds(i: u32) -> (ds: MLP_Dataset)
    requires
        is_mlp_index(i),
    ensures
        ds == MLP_Dataset::MLP_TEST,
{
    MLP_Dataset::MLP_TEST
}

/// The example set that an index selects, or the refusal of an index that
/// selects none.
pub fn find_mlp_dataset(i: u32) -> (r: Result<MLP_Dataset, KernelError>)
    ensures
        is_mlp_index(i) ==> r == Ok::<MLP_Dataset, KernelError>(MLP_Dataset::MLP_TEST),
        !is_mlp_index(i) ==> r == Err::<MLP_Dataset, KernelError>(KernelError::UnknownDataset),
{
    if i == 0 {
        Ok(u32_to_mlp_ds(i))
    } else {
        Err(KernelError::UnknownDataset)
    }
}

/// The rows of an example set.
pub fn get_mlp_dataset(ds: MLP_Dataset) -> (table: [[Scalar; 7]; 1])
    ensures
        table_bits(table) == mlp_table(ds),
{
    let zero = Scalar { bits: ZERO };
    let one = Scalar { bits: ONE };
    let table = match ds {
        MLP_Dataset::MLP_TEST => [
            [one, Scalar { bits: TWO }, Scalar { bits: THREE }, Scalar { bits: FOUR }, one, zero, zero],
        ],
    };
    proof {
        assert(table_bits(table)[0] =~= mlp_table(ds)[0]);
    }
    table
}

} // verus!
