//! Online training of a two-input threshold unit.

use vstd::prelude::*;
use crate::dataset::{
    dataset_of, gate_table, get_dataset, table_bits, u32_to_dataset, Dataset, ONE, ZERO,
};
use crate::scalar::{difference, is_positive, product, sum, Scalar};

verus! {

/// The activation: `0.0` above zero, `1.0` at zero, below it and on a NaN.
pub open spec fn heaviside_bits(n: u32) -> u32 {
    if is_positive(n) {
        ZERO
    } else {
        ONE
    }
}

/// The activation of the unit. It fires where the usual threshold rests.
pub fn heaviside(n: Scalar) -> (r: Scalar)
    ensures
        r.bits == heaviside_bits(n.bits),
{
    if n.is_positive() {
        Scalar::from_bits(ZERO)
    } else {
        Scalar::from_bits(ONE)
    }
}

/// The weights after one example. The unit predicts from the weighted sum of
/// the two inputs plus a fixed bias of `1.0`; each weight then moves against
/// the error, scaled by the learning rate and by its own input.
pub open spec fn perceptron_step(row: Seq<u32>, rate: u32, weights: (u32, u32)) -> (u32, u32) {
    let activation = sum(sum(product(weights.0, row[0]), product(weights.1, row[1])), ONE);
    let error = difference(heaviside_bits(activation), row[2]);
    (
        difference(weights.0, product(product(rate, error), row[0])),
        difference(weights.1, product(product(rate, error), row[1])),
    )
}

/// The weights after the first `count` rows of the table, taken in order.
pub open spec fn perceptron_rows(
    table: Seq<Seq<u32>>,
    count: nat,
    rate: u32,
    weights: (u32, u32),
) -> (u32, u32)
    decreases count,
{
    if count == 0 {
        weights
    } else {
        perceptron_step(
            table[count - 1],
            rate,
            perceptron_rows(table, (count - 1) as nat, rate, weights),
        )
    }
}

/// The weights after `epochs` passes over the whole table.
pub open spec fn perceptron_epochs(
    table: Seq<Seq<u32>>,
    epochs: nat,
    rate: u32,
    weights: (u32, u32),
) -> (u32, u32)
    decreases epochs,
{
    if epochs == 0 {
        weights
    } else {
        perceptron_rows(
            table,
            table.len(),
            rate,
            perceptron_epochs(table, (epochs - 1) as nat, rate, weights),
        )
    }
}

/// The weights that training returns: `t` epochs over the truth table that
/// `d` selects, at learning rate `r`, from the weights `w_l` and `w_r`.
pub open spec fn perceptron_update(d: u32, t: u32, r: u32, w_l: u32, w_r: u32) -> (u32, u32) {
    perceptron_epochs(gate_table(dataset_of(d)), t as nat, r, (w_l, w_r))
}

/// Without an epoch nothing is learned: the weights come back as they went
/// in, whatever patterns they are.
pub proof fn lemma_no_epochs_no_update(d: u32, r: u32, w_l: u32, w_r: u32)
    ensures
        perceptron_update(d, 0, r, w_l, w_r) == (w_l, w_r),
{
}

/// An index that selects no gate trains as index `0` does, on `AND`.
pub proof fn lemma_unknown_index_trains_on_and(d: u32, t: u32, r: u32, w_l: u32, w_r: u32)
    requires
        d > 4,
    ensures
        dataset_of(d) == dataset_of(0),
        dataset_of(d) == Dataset::AND,
        perceptron_update(d, t, r, w_l, w_r) == perceptron_update(0, t, r, w_l, w_r),
{
}

/// Trains `t` epochs on the dataset that `d` selects, at learning rate `r`,
/// from the weights `w_l` and `w_r`. Rate and weights go in and come out as
/// patterns.
///
/// The result is a function of the five arguments and of nothing else: two
/// runs on the same arguments, on whatever machines, return the same patterns.
pub fn update_perceptron(d: u32, t: u32, r: u32, w_l: u32, w_r: u32) -> (updated: (u32, u32))
    ensures
        updated == perceptron_update(d, t, r, w_l, w_r),
        t == 0 ==> updated == (w_l, w_r),
{
    let dataset = get_dataset(u32_to_dataset(d));
    let learning_rate = Scalar::from_bits(r);
    let mut weight_left = Scalar::from_bits(w_l);
    let mut weight_right = Scalar::from_bits(w_r);
    let ghost table = gate_table(dataset_of(d));

    let mut epoch: u32 = 0;
    while epoch < t
        invariant
            epoch <= t,
            table == gate_table(dataset_of(d)),
            table_bits(dataset) == table,
            learning_rate.bits == r,
            (weight_left.bits, weight_right.bits) == perceptron_epochs(
                table,
                epoch as nat,
                r,
                (w_l, w_r),
            ),
        decreases t - epoch,
    {
        let ghost start = (weight_left.bits, weight_right.bits);
        let mut i: usize = 0;
        while i < 4
            invariant
                i <= 4,
                table.len() == 4,
                table_bits(dataset) == table,
                learning_rate.bits == r,
                (weight_left.bits, weight_right.bits) == perceptron_rows(table, i as nat, r, start),
            decreases 4 - i,
        {
            let example = &dataset[i];

            // Unpack the example; the bias is fixed and never learned.
            let left = example[0];
            let right = example[1];
            let bias = Scalar::from_bits(ONE);
            let truth = example[2];

            // Run a model prediction.
            let predicted = heaviside(
                weight_left.times(left).plus(weight_right.times(right)).plus(bias),
            );

            // Update the weights, each from its value before this example.
            let error = predicted.minus(truth);
            weight_left = weight_left.minus(learning_rate.times(error).times(left));
            weight_right = weight_right.minus(learning_rate.times(error).times(right));
            i = i + 1;
        }
        epoch = epoch + 1;
    }

    (weight_left.to_bits(), weight_right.to_bits())
}

} // verus!
