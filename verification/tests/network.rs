use zk_training::dataset::{find_mlp_dataset, get_mlp_dataset, u32_to_mlp_ds, MLP_Dataset};
use zk_training::error::KernelError;
use zk_training::mlp::{relu, try_update_mlp, update_mlp, MLP, NEG_TWO};
use zk_training::scalar::Scalar;

fn native_heaviside(n: f32) -> f32 {
    if 0.0 < n {
        0.0
    } else {
        1.0
    }
}

fn native_relu(n: f32) -> f32 {
    if 0.0 < n {
        n
    } else {
        0.0
    }
}

struct Native {
    w1: [[f32; 4]; 4],
    b1: [f32; 4],
    w2: [[f32; 4]; 3],
    b2: [f32; 3],
}

fn native_update(mlp: &MLP, epochs: u32, eta: u32) -> MLP {
    let lr = f32::from_bits(eta);
    let mut m = Native {
        w1: mlp.w1.map(|row| row.map(f32::from_bits)),
        b1: mlp.b1.map(f32::from_bits),
        w2: mlp.w2.map(|row| row.map(f32::from_bits)),
        b2: mlp.b2.map(f32::from_bits),
    };
    let example: [f32; 7] = [1.0, 2.0, 3.0, 4.0, 1.0, 0.0, 0.0];
    for _ in 0..epochs {
        let x = [example[0], example[1], example[2], example[3]];
        let y = [example[4], example[5], example[6]];
        let mut z = [0.0f32; 4];
        let mut h = [0.0f32; 4];
        for i in 0..4 {
            z[i] = (m.w1[i][0] * x[0]) + (m.w1[i][1] * x[1]) + (m.w1[i][2] * x[2]) + (m.w1[i][3] * x[3]) + m.b1[i];
            h[i] = native_relu(z[i]);
        }
        let mut yhat = [0.0f32; 3];
        for k in 0..3 {
            yhat[k] = (m.w2[k][0] * h[0]) + (m.w2[k][1] * h[1]) + (m.w2[k][2] * h[2]) + (m.w2[k][3] * h[3]) + m.b2[k];
        }
        let mut dw1 = [[0.0f32; 4]; 4];
        let mut db1 = [0.0f32; 4];
        for i in 0..4 {
            let back = (m.w2[0][i] * (y[0] - yhat[0])) + (m.w2[1][i] * (y[1] - yhat[1])) + (m.w2[2][i] * (y[2] - yhat[2]));
            for j in 0..4 {
                dw1[i][j] = -2.0 * native_heaviside(z[i]) * x[j] * back;
            }
            db1[i] = -2.0 * native_heaviside(z[i]) * back;
        }
        let mut dw2 = [[0.0f32; 4]; 3];
        let mut db2 = [0.0f32; 3];
        for k in 0..3 {
            for i in 0..4 {
                dw2[k][i] = -2.0 * (y[k] - yhat[k]) * h[i];
            }
            db2[k] = -2.0 * (y[k] - yhat[k]);
        }
        for i in 0..4 {
            for j in 0..4 {
                m.w1[i][j] = m.w1[i][j] + (lr * dw1[i][j]);
            }
            m.b1[i] = m.b1[i] + (lr * db1[i]);
        }
        for k in 0..3 {
            for i in 0..4 {
                m.w2[k][i] = m.w2[k][i] + (lr * dw2[k][i]);
            }
            m.b2[k] = m.b2[k] + (lr * db2[k]);
        }
    }
    MLP {
        w1: m.w1.map(|row| row.map(f32::to_bits)),
        b1: m.b1.map(f32::to_bits),
        w2: m.w2.map(|row| row.map(f32::to_bits)),
        b2: m.b2.map(f32::to_bits),
    }
}

fn patterns(m: &MLP) -> Vec<u32> {
    let mut all = Vec::new();
    for row in m.w1 {
        all.extend(row);
    }
    all.extend(m.b1);
    for row in m.w2 {
        all.extend(row);
    }
    all.extend(m.b2);
    all
}

/// Equal pattern by pattern, except that where the hardware arrives at a NaN
/// any NaN will do: the sign and payload of a NaN that an invalid operation
/// makes differ from one processor to the next.
fn agrees(ours: &MLP, native: &MLP) -> bool {
    patterns(ours).iter().zip(patterns(native)).all(|(&a, b)| {
        if f32::from_bits(b).is_nan() {
            f32::from_bits(a).is_nan()
        } else {
            a == b
        }
    })
}

fn sample() -> MLP {
    MLP {
        w1: [
            [0.1f32, -0.2, 0.3, -0.4].map(f32::to_bits),
            [-0.5f32, 0.25, 0.125, 0.0625].map(f32::to_bits),
            [0.01f32, 0.02, 0.03, 0.04].map(f32::to_bits),
            [-0.1f32, -0.1, 0.1, -0.2].map(f32::to_bits),
        ],
        b1: [0.5f32, -0.25, 0.0, 1.0].map(f32::to_bits),
        w2: [
            [0.3f32, -0.6, 0.9, 0.1].map(f32::to_bits),
            [-0.7f32, 0.2, 0.4, -0.3].map(f32::to_bits),
            [0.05f32, 0.15, -0.25, 0.35].map(f32::to_bits),
        ],
        b2: [0.1f32, -0.1, 0.2].map(f32::to_bits),
    }
}

struct Stream {
    state: u64,
}

impl Stream {
    fn weight(&mut self) -> u32 {
        self.state ^= self.state << 13;
        self.state ^= self.state >> 7;
        self.state ^= self.state << 17;
        let unit = ((self.state >> 40) as f32) / ((1u64 << 24) as f32);
        (unit * 2.0 - 1.0).to_bits()
    }

    fn network(&mut self) -> MLP {
        let mut m = sample();
        for i in 0..4 {
            for j in 0..4 {
                m.w1[i][j] = self.weight();
            }
            m.b1[i] = self.weight();
        }
        for k in 0..3 {
            for i in 0..4 {
                m.w2[k][i] = self.weight();
            }
            m.b2[k] = self.weight();
        }
        m
    }
}

#[test]
fn the_example_set_is_one_row_of_features_and_label() {
    let table = get_mlp_dataset(MLP_Dataset::MLP_TEST);
    let row: Vec<u32> = table[0].iter().map(|s| s.to_bits()).collect();
    let want: Vec<u32> = [1.0f32, 2.0, 3.0, 4.0, 1.0, 0.0, 0.0].iter().map(|v| v.to_bits()).collect();
    assert_eq!(table.len(), 1);
    assert_eq!(row, want);
    assert_eq!(u32_to_mlp_ds(0), MLP_Dataset::MLP_TEST);
}

#[test]
fn only_index_zero_selects_an_example_set() {
    assert_eq!(find_mlp_dataset(0), Ok(MLP_Dataset::MLP_TEST));
    assert_eq!(find_mlp_dataset(1), Err(KernelError::UnknownDataset));
    assert_eq!(find_mlp_dataset(99), Err(KernelError::UnknownDataset));
    assert_eq!(find_mlp_dataset(u32::MAX), Err(KernelError::UnknownDataset));
    assert_eq!(try_update_mlp(sample(), 1, 3, 0x3c23_d70a), Err(KernelError::UnknownDataset));
    assert_eq!(try_update_mlp(sample(), 0, 3, 0x3c23_d70a), Ok(update_mlp(sample(), 0, 3, 0x3c23_d70a)));
}

#[test]
fn rectification_keeps_what_is_above_zero() {
    let kept: [u32; 4] = [0x0000_0001, 0x3f80_0000, 0x3dcc_cccd, 0x7f80_0000];
    for b in kept {
        assert_eq!(relu(Scalar::from_bits(b)).to_bits(), b);
    }
    let dropped: [u32; 6] = [0, 0x8000_0000, 0xbf80_0000, 0xff80_0000, 0x7fc0_0000, 0x8000_0001];
    for b in dropped {
        assert_eq!(relu(Scalar::from_bits(b)).to_bits(), 0);
    }
    assert_eq!(NEG_TWO, (-2.0f32).to_bits());
}

#[test]
fn no_epochs_leave_the_network_alone() {
    assert_eq!(update_mlp(sample(), 0, 0, 0x3c23_d70a), sample());
    let mut odd = sample();
    odd.w1[2][1] = 0x7fc0_0001;
    odd.b2[0] = 0x8000_0000;
    odd.w2[1][3] = 0xff80_0000;
    assert_eq!(update_mlp(odd, 0, 0, 0x7f80_0001), odd);
}

#[test]
fn one_epoch_reaches_the_known_network() {
    let want = MLP {
        w1: [
            [0x3dc2_0cf2, 0xbe57_8ca8, 0x3e91_89b6, 0xbed7_8ca8],
            [0xbf00_0000, 0x3e80_0000, 0x3e00_0000, 0x3d80_0000],
            [0x3c23_d70a, 0x3ca3_d70a, 0x3cf5_c28f, 0x3d23_d70a],
            [0xbdcc_cccd, 0xbdcc_cccd, 0x3dcc_cccd, 0xbe4c_cccd],
        ],
        b1: [0x3efd_5009, 0xbe80_0000, 0x0000_0000, 0x3f80_0000],
        w2: [
            [0x3e99_999a, 0xbf1b_3405, 0x3f65_1e10, 0x3dc5_f5ae],
            [0xbf33_3333, 0x3e4d_119d, 0x3ecc_e853, 0xbe99_8740],
            [0x3d4c_cccd, 0x3e1b_8794, 0xbe7e_74d1, 0x3eb3_b6ed],
        ],
        b2: [0x3daa_9931, 0xbdcb_5dcd, 0x3e51_f213],
    };
    assert_eq!(update_mlp(sample(), 0, 1, 0.01f32.to_bits()), want);
}

#[test]
fn three_epochs_reach_the_known_network() {
    let want = MLP {
        w1: [
            [0x3dab_b9a9, 0xbe6d_dff1, 0x3e80_cb40, 0xbeed_dff1],
            [0xbf00_0000, 0x3e80_0000, 0x3e00_0000, 0x3d80_0000],
            [0x3c23_d70a, 0x3ca3_d70a, 0x3cf5_c28f, 0x3d23_d70a],
            [0xbdcc_cccd, 0xbdcc_cccd, 0x3dcc_cccd, 0xbe4c_cccd],
        ],
        b1: [0x3ef7_bb37, 0xbe80_0000, 0x0000_0000, 0x3f80_0000],
        w2: [
            [0x3e99_999a, 0xbf1e_8869, 0x3f62_7426, 0x3db7_c0ce],
            [0xbf33_3333, 0x3e4d_a088, 0x3ecd_217d, 0xbe99_6124],
            [0x3d4c_cccd, 0x3e1f_8983, 0xbe7b_4012, 0x3eb4_c882],
        ],
        b2: [0x3d47_219f, 0xbdc8_6395, 0x3e5c_a1e6],
    };
    assert_eq!(update_mlp(sample(), 0, 3, 0.01f32.to_bits()), want);
}

#[test]
fn network_training_agrees_with_the_hardware() {
    let mut stream = Stream { state: 0x1357_9bdf_2468_ace0 };
    for epochs in [1, 2, 5, 20] {
        for rate in [0.01f32, 0.001, 0.1] {
            assert_eq!(
                update_mlp(sample(), 0, epochs, rate.to_bits()),
                native_update(&sample(), epochs, rate.to_bits()),
            );
            for _ in 0..20 {
                let m = stream.network();
                let ours = update_mlp(m, 0, epochs, rate.to_bits());
                let native = native_update(&m, epochs, rate.to_bits());
                assert!(agrees(&ours, &native), "{:?} is not {:?}", ours, native);
            }
        }
    }
}

#[test]
fn a_run_that_diverges_reaches_the_default_nan() {
    let mut m = sample();
    m.w2[0][0] = 0x7f00_0000;
    m.w2[1][0] = 0xff00_0000;
    m.w1[0] = [0x3f80_0000; 4];
    let out = update_mlp(m, 0, 4, 0x7f00_0000);
    assert_eq!(patterns(&out).len(), 35);
    assert!(patterns(&out).iter().any(|&b| b == 0x7fc0_0000));
    assert!(agrees(&out, &native_update(&m, 4, 0x7f00_0000)));
}

#[test]
fn two_network_runs_give_the_same_patterns() {
    let first = update_mlp(sample(), 0, 12, 0.02f32.to_bits());
    let second = update_mlp(sample(), 0, 12, 0.02f32.to_bits());
    assert_eq!(first, second);
}
