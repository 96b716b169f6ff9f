//! One gradient step at a time for a network of four inputs, four hidden
//! units and three outputs, with the gradients written out by hand.

use vstd::prelude::*;
use crate::dataset::{
    get_mlp_dataset, is_mlp_index, mlp_table, table_bits, u32_to_mlp_ds, MLP_Dataset, ZERO,
};
use crate::error::KernelError;
use crate::perceptron::{heaviside, heaviside_bits};
use crate::scalar::{difference, is_positive, product, sum, Scalar};

verus! {

/// The pattern of `-2.0`, the factor of every squared-error gradient.
pub const NEG_TWO: u32 = 0xc000_0000;

/// The parameters of the network, each as a pattern: row `i` of `w1` and
/// `b1[i]` feed hidden unit `i`, row `k` of `w2` and `b2[k]` feed output `k`.
#[derive(Clone, Copy, Debug, PartialEq, Eq)]
pub struct MLP {
    pub w1: [[u32; 4]; 4],
    pub b1: [u32; 4],
    pub w2: [[u32; 4]; 3],
    pub b2: [u32; 3],
}

/// The parameters as sequences of patterns.
pub struct Network {
    pub w1: Seq<Seq<u32>>,
    pub b1: Seq<u32>,
    pub w2: Seq<Seq<u32>>,
    pub b2: Seq<u32>,
}

impl View for MLP {
    type V = Network;

    open spec fn view(&self) -> Network {
        Network {
            w1: Seq::new(4, |i: int| self.w1[i]@),
            b1: self.b1@,
            w2: Seq::new(3, |k: int| self.w2[k]@),
            b2: self.b2@,
        }
    }
}

/// Rectification: the scalar itself above zero, `0.0` otherwise.
pub open spec fn relu_bits(n: u32) -> u32 {
    if is_positive(n) {
        n
    } else {
        ZERO
    }
}

/// Rectification of a scalar. A NaN and a negative zero become `0.0`.
pub fn relu(n: Scalar) -> (r: Scalar)
    ensures
        r.bits == relu_bits(n.bits),
{
    if n.is_positive() {
        n
    } else {
        Scalar::from_bits(ZERO)
    }
}

/// Four weighted inputs and a bias, summed from left to right.
pub open spec fn affine4(w: Seq<u32>, x: Seq<u32>, b: u32) -> u32 {
    sum(
        sum(
            sum(sum(product(w[0], x[0]), product(w[1], x[1])), product(w[2], x[2])),
            product(w[3], x[3]),
        ),
        b,
    )
}

/// What reaches hidden unit `i` before rectification.
pub open spec fn hidden_input(net: Network, example: Seq<u32>, i: int) -> u32 {
    affine4(net.w1[i], example, net.b1[i])
}

/// The four hidden activations.
pub open spec fn hidden(net: Network, example: Seq<u32>) -> Seq<u32> {
    Seq::new(4, |i: int| relu_bits(hidden_input(net, example, i)))
}

/// Output `k` of the network, with no activation on it.
pub open spec fn output(net: Network, example: Seq<u32>, k: int) -> u32 {
    affine4(net.w2[k], hidden(net, example), net.b2[k])
}

/// Label `k` minus output `k`.
pub open spec fn residual(net: Network, example: Seq<u32>, k: int) -> u32 {
    difference(example[4 + k], output(net, example, k))
}

/// The three residuals as hidden unit `i` sees them through the second layer.
pub open spec fn backflow(net: Network, example: Seq<u32>, i: int) -> u32 {
    sum(
        sum(
            product(net.w2[0][i], residual(net, example, 0)),
            product(net.w2[1][i], residual(net, example, 1)),
        ),
        product(net.w2[2][i], residual(net, example, 2)),
    )
}

/// `-2.0` times the switch of hidden unit `i`: the threshold activation of
/// the perceptron on what reaches the unit, not the slope of the rectifier.
pub open spec fn hidden_slope(net: Network, example: Seq<u32>, i: int) -> u32 {
    product(NEG_TWO, heaviside_bits(hidden_input(net, example, i)))
}

/// The gradient of the squared error in the weight from input `j` to hidden
/// unit `i`.
pub open spec fn grad_w1(net: Network, example: Seq<u32>, i: int, j: int) -> u32 {
    product(product(hidden_slope(net, example, i), example[j]), backflow(net, example, i))
}

/// The gradient of the squared error in the bias of hidden unit `i`.
pub open spec fn grad_b1(net: Network, example: Seq<u32>, i: int) -> u32 {
    product(hidden_slope(net, example, i), backflow(net, example, i))
}

/// The gradient of the squared error in the weight from hidden unit `i` to
/// output `k`.
pub open spec fn grad_w2(net: Network, example: Seq<u32>, k: int, i: int) -> u32 {
    product(product(NEG_TWO, residual(net, example, k)), hidden(net, example)[i])
}

/// The gradient of the squared error in the bias of output `k`.
pub open spec fn grad_b2(net: Network, example: Seq<u32>, k: int) -> u32 {
    product(NEG_TWO, residual(net, example, k))
}

/// A parameter after its update: the rate times the gradient is added.
pub open spec fn descend(param: u32, rate: u32, grad: u32) -> u32 {
    sum(param, product(rate, grad))
}

/// The network after one example. Every gradient is taken at the parameters
/// as they were before the example.
pub open spec fn mlp_step(net: Network, example: Seq<u32>, rate: u32) -> Network {
    Network {
        w1: Seq::new(
            4,
            |i: int| Seq::new(4, |j: int| descend(net.w1[i][j], rate, grad_w1(net, example, i, j))),
        ),
        b1: Seq::new(4, |i: int| descend(net.b1[i], rate, grad_b1(net, example, i))),
        w2: Seq::new(
            3,
            |k: int| Seq::new(4, |i: int| descend(net.w2[k][i], rate, grad_w2(net, example, k, i))),
        ),
        b2: Seq::new(3, |k: int| descend(net.b2[k], rate, grad_b2(net, example, k))),
    }
}

/// The network after the first `count` rows of the table, taken in order.
pub open spec fn mlp_rows(table: Seq<Seq<u32>>, count: nat, rate: u32, net: Network) -> Network
    decreases count,
{
    if count == 0 {
        net
    } else {
        mlp_step(mlp_rows(table, (count - 1) as nat, rate, net), table[count - 1], rate)
    }
}

/// The network after `epochs` passes over the whole table.
pub open spec fn mlp_epochs(table: Seq<Seq<u32>>, epochs: nat, rate: u32, net: Network) -> Network
    decreases epochs,
{
    if epochs == 0 {
        net
    } else {
        mlp_rows(table, table.len(), rate, mlp_epochs(table, (epochs - 1) as nat, rate, net))
    }
}

/// The network that training returns: `num_epochs` epochs over the one
/// example set, at learning rate `eta`.
pub open spec fn mlp_update(net: Network, num_epochs: u32, eta: u32) -> Network {
    mlp_epochs(mlp_table(MLP_Dataset::MLP_TEST), num_epochs as nat, eta, net)
}

/// The sum of two patterns.
fn plus_bits(a: u32, b: u32) -> (r: u32)
    ensures
        r == sum(a, b),
{
    Scalar::from_bits(a).plus(Scalar::from_bits(b)).to_bits()
}

/// The difference of two patterns.
fn minus_bits(a: u32, b: u32) -> (r: u32)
    ensures
        r == difference(a, b),
{
    Scalar::from_bits(a).minus(Scalar::from_bits(b)).to_bits()
}

/// The product of two patterns.
fn times_bits(a: u32, b: u32) -> (r: u32)
    ensures
        r == product(a, b),
{
    Scalar::from_bits(a).times(Scalar::from_bits(b)).to_bits()
}

/// Four weighted inputs and a bias, summed from left to right.
fn affine(w: &[u32; 4], x: &[u32; 4], b: u32) -> (r: u32)
    ensures
        r == affine4(w@, x@, b),
{
    let s0: u32 = times_bits(w[0], x[0]);
    let s1: u32 = plus_bits(s0, times_bits(w[1], x[1]));
    let s2: u32 = plus_bits(s1, times_bits(w[2], x[2]));
    let s3: u32 = plus_bits(s2, times_bits(w[3], x[3]));
    plus_bits(s3, b)
}

/// A parameter after its update.
fn descend_bits(param: u32, rate: u32, grad: u32) -> (r: u32)
    ensures
        r == descend(param, rate, grad),
{
    plus_bits(param, times_bits(rate, grad))
}

/// The network after one example.
fn train_example(m: &MLP, example: &[Scalar; 7], rate: u32) -> (r: MLP)
    ensures
        r@ == mlp_step(m@, Seq::new(7, |j: int| example[j].bits), rate),
{
    let ghost net = m@;
    let ghost ex = Seq::new(7, |j: int| example[j].bits);
    let x: [u32; 4] = [example[0].bits, example[1].bits, example[2].bits, example[3].bits];
    let y: [u32; 3] = [example[4].bits, example[5].bits, example[6].bits];
    let w1 = &m.w1;
    let w2 = &m.w2;

    proof {
        assert forall|w: Seq<u32>, b: u32| affine4(w, x@, b) == affine4(w, ex, b) by {}
    }
    let z: [u32; 4] = [
        affine(&w1[0], &x, m.b1[0]),
        affine(&w1[1], &x, m.b1[1]),
        affine(&w1[2], &x, m.b1[2]),
        affine(&w1[3], &x, m.b1[3]),
    ];
    assert forall|i: int| 0 <= i < 4 implies z[i] == hidden_input(net, ex, i) by {}
    let h: [u32; 4] = [
        relu(Scalar::from_bits(z[0])).to_bits(),
        relu(Scalar::from_bits(z[1])).to_bits(),
        relu(Scalar::from_bits(z[2])).to_bits(),
        relu(Scalar::from_bits(z[3])).to_bits(),
    ];
    assert(h@ =~= hidden(net, ex));
    let yhat: [u32; 3] = [
        affine(&w2[0], &h, m.b2[0]),
        affine(&w2[1], &h, m.b2[1]),
        affine(&w2[2], &h, m.b2[2]),
    ];
    let res: [u32; 3] = [
        minus_bits(y[0], yhat[0]),
        minus_bits(y[1], yhat[1]),
        minus_bits(y[2], yhat[2]),
    ];
    assert forall|k: int| 0 <= k < 3 implies res[k] == residual(net, ex, k) by {}
    let back: [u32; 4] = [
        plus_bits(plus_bits(times_bits(w2[0][0], res[0]), times_bits(w2[1][0], res[1])), times_bits(w2[2][0], res[2])),
        plus_bits(plus_bits(times_bits(w2[0][1], res[0]), times_bits(w2[1][1], res[1])), times_bits(w2[2][1], res[2])),
        plus_bits(plus_bits(times_bits(w2[0][2], res[0]), times_bits(w2[1][2], res[1])), times_bits(w2[2][2], res[2])),
        plus_bits(plus_bits(times_bits(w2[0][3], res[0]), times_bits(w2[1][3], res[1])), times_bits(w2[2][3], res[2])),
    ];
    assert forall|i: int| 0 <= i < 4 implies back[i] == backflow(net, ex, i) by {}
    let slope: [u32; 4] = [
        times_bits(NEG_TWO, heaviside(Scalar::from_bits(z[0])).to_bits()),
        times_bits(NEG_TWO, heaviside(Scalar::from_bits(z[1])).to_bits()),
        times_bits(NEG_TWO, heaviside(Scalar::from_bits(z[2])).to_bits()),
        times_bits(NEG_TWO, heaviside(Scalar::from_bits(z[3])).to_bits()),
    ];
    assert forall|i: int| 0 <= i < 4 implies slope[i] == hidden_slope(net, ex, i) by {}

    let r = MLP {
        w1: [
            first_layer_row(&w1[0], rate, slope[0], &x, back[0]),
            first_layer_row(&w1[1], rate, slope[1], &x, back[1]),
            first_layer_row(&w1[2], rate, slope[2], &x, back[2]),
            first_layer_row(&w1[3], rate, slope[3], &x, back[3]),
        ],
        b1: [
            descend_bits(m.b1[0], rate, times_bits(slope[0], back[0])),
            descend_bits(m.b1[1], rate, times_bits(slope[1], back[1])),
            descend_bits(m.b1[2], rate, times_bits(slope[2], back[2])),
            descend_bits(m.b1[3], rate, times_bits(slope[3], back[3])),
        ],
        w2: [
            second_layer_row(&w2[0], rate, res[0], &h),
            second_layer_row(&w2[1], rate, res[1], &h),
            second_layer_row(&w2[2], rate, res[2], &h),
        ],
        b2: [
            descend_bits(m.b2[0], rate, times_bits(NEG_TWO, res[0])),
            descend_bits(m.b2[1], rate, times_bits(NEG_TWO, res[1])),
            descend_bits(m.b2[2], rate, times_bits(NEG_TWO, res[2])),
        ],
    };
    proof {
        let want = mlp_step(net, ex, rate);
        assert forall|i: int| 0 <= i < 4 implies #[trigger] r@.w1[i] == want.w1[i] by {
            assert(r@.w1[i] =~= want.w1[i]);
        }
        assert forall|k: int| 0 <= k < 3 implies #[trigger] r@.w2[k] == want.w2[k] by {
            assert(r@.w2[k] =~= want.w2[k]);
        }
        assert(r@.w1 =~= want.w1);
        assert(r@.b1 =~= want.b1);
        assert(r@.w2 =~= want.w2);
        assert(r@.b2 =~= want.b2);
    }
    r
}

/// A row of first-layer weights after its update.
fn first_layer_row(row: &[u32; 4], rate: u32, slope: u32, x: &[u32; 4], back: u32) -> (r: [u32; 4])
    ensures
        forall|j: int|
            0 <= j < 4 ==> r[j] == descend(row[j], rate, product(product(slope, x[j]), back)),
{
    [
        descend_bits(row[0], rate, times_bits(times_bits(slope, x[0]), back)),
        descend_bits(row[1], rate, times_bits(times_bits(slope, x[1]), back)),
        descend_bits(row[2], rate, times_bits(times_bits(slope, x[2]), back)),
        descend_bits(row[3], rate, times_bits(times_bits(slope, x[3]), back)),
    ]
}

/// A row of second-layer weights after its update.
fn second_layer_row(row: &[u32; 4], rate: u32, res: u32, h: &[u32; 4]) -> (r: [u32; 4])
    ensures
        forall|i: int|
            0 <= i < 4 ==> r[i] == descend(row[i], rate, product(product(NEG_TWO, res), h[i])),
{
    [
        descend_bits(row[0], rate, times_bits(times_bits(NEG_TWO, res), h[0])),
        descend_bits(row[1], rate, times_bits(times_bits(NEG_TWO, res), h[1])),
        descend_bits(row[2], rate, times_bits(times_bits(NEG_TWO, res), h[2])),
        descend_bits(row[3], rate, times_bits(times_bits(NEG_TWO, res), h[3])),
    ]
}

/// Without an epoch nothing is learned: every parameter comes back as it
/// went in.
pub proof fn lemma_no_epochs_no_change(net: Network, eta: u32)
    ensures
        mlp_update(net, 0, eta) == net,
{
}

/// Trains `num_epochs` epochs on the example set that `d` selects, at the
/// learning rate whose pattern is `eta`. The index has to select an example
/// set; `try_update_mlp` takes any index.
///
/// The result is a function of the network, the number of epochs and the rate
/// alone: two runs on the same arguments return the same 35 patterns.
pub fn update_mlp(mlp: MLP, d: u32, num_epochs: u32, eta: u32) -> (updated: MLP)
    requires
        is_mlp_index(d),
    ensures
        updated@ == mlp_update(mlp@, num_epochs, eta),
        num_epochs == 0 ==> updated@ == mlp@,
{
    let dataset = get_mlp_dataset(u32_to_mlp_ds(d));
    let ghost table = mlp_table(MLP_Dataset::MLP_TEST);
    let mut model = mlp;

    let mut epoch: u32 = 0;
    while epoch < num_epochs
        invariant
            epoch <= num_epochs,
            table == mlp_table(MLP_Dataset::MLP_TEST),
            table_bits(dataset) == table,
            model@ == mlp_epochs(table, epoch as nat, eta, mlp@),
        decreases num_epochs - epoch,
    {
        let ghost start = model@;
        let mut i: usize = 0;
        while i < 1
            invariant
                i <= 1,
                table.len() == 1,
                table_bits(dataset) == table,
                model@ == mlp_rows(table, i as nat, eta, start),
            decreases 1 - i,
        {
            let example = &dataset[i];
            assert(table[i as int] =~= Seq::new(7, |j: int| example[j].bits)) by {
                assert(table[i as int] == table_bits(dataset)[i as int]);
            }
            model = train_example(&model, example, eta);
            i = i + 1;
        }
        epoch = epoch + 1;
    }
    model
}

/// As `update_mlp`, for any index: one that selects no example set is
/// refused and nothing is trained.
pub fn try_update_mlp(mlp: MLP, d: u32, num_epochs: u32, eta: u32) -> (r: Result<MLP, KernelError>)
    ensures
        is_mlp_index(d) ==> r is Ok && r->Ok_0@ == mlp_update(mlp@, num_epochs, eta),
        !is_mlp_index(d) ==> r == Err::<MLP, KernelError>(KernelError::UnknownDataset),
{
    if d == 0 {
        Ok(update_mlp(mlp, d, num_epochs, eta))
    } else {
        Err(KernelError::UnknownDataset)
    }
}

} // verus!
