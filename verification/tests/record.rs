use zk_training::error::KernelError;
use zk_training::parity::{check_published, check_record, publish, run_step};
use zk_training::perceptron::update_perceptron;
use zk_training::record::{PublicRecord, TrainingInput, INPUT_WORDS, RECORD_WIDTH};

fn sample() -> PublicRecord {
    PublicRecord {
        d: 0x0102_0304,
        t: 0x0000_000a,
        w_l: 0x3dcc_cccd,
        w_r: 0xbdcc_cccd,
        r: 0x3e4c_cccd,
        updated_w_l: 0xffff_ffff,
        updated_w_r: 0x8000_0001,
    }
}

fn input() -> TrainingInput {
    TrainingInput { d: 4, t: 10, r: 0.1f32.to_bits(), w_l: 0.1f32.to_bits(), w_r: (-0.1f32).to_bits() }
}

#[test]
fn a_record_is_seven_big_endian_slots() {
    let bytes = sample().encode();
    assert_eq!(RECORD_WIDTH, 7 * 4);
    assert_eq!(bytes.len(), RECORD_WIDTH);
    assert_eq!(
        bytes,
        vec![
            0x01, 0x02, 0x03, 0x04, 0x00, 0x00, 0x00, 0x0a, 0x3d, 0xcc, 0xcc, 0xcd, 0xbd, 0xcc, 0xcc, 0xcd,
            0x3e, 0x4c, 0xcc, 0xcd, 0xff, 0xff, 0xff, 0xff, 0x80, 0x00, 0x00, 0x01,
        ]
    );
    let mut want = Vec::new();
    let r = sample();
    for field in [r.d, r.t, r.w_l, r.w_r, r.r, r.updated_w_l, r.updated_w_r] {
        want.extend(field.to_be_bytes());
    }
    assert_eq!(bytes, want);
}

#[test]
fn decoding_gives_the_record_back() {
    assert_eq!(PublicRecord::decode(&sample().encode()), Ok(sample()));
    let zero = PublicRecord { d: 0, t: 0, w_l: 0, w_r: 0, r: 0, updated_w_l: 0, updated_w_r: 0 };
    assert_eq!(zero.encode(), vec![0u8; 28]);
    assert_eq!(PublicRecord::decode(&[0u8; 28]), Ok(zero));
    let bytes: Vec<u8> = (1..=28).collect();
    let record = PublicRecord::decode(&bytes).unwrap();
    assert_eq!(record.d, 0x0102_0304);
    assert_eq!(record.updated_w_r, 0x191a_1b1c);
    assert_eq!(record.encode(), bytes);
}

#[test]
fn any_other_length_is_refused() {
    let bytes = sample().encode();
    assert_eq!(PublicRecord::decode(&[]), Err(KernelError::RecordLength));
    assert_eq!(PublicRecord::decode(&bytes[..27]), Err(KernelError::RecordLength));
    assert_eq!(PublicRecord::decode(&bytes[..4]), Err(KernelError::RecordLength));
    let mut longer = bytes.clone();
    longer.push(0);
    assert_eq!(PublicRecord::decode(&longer), Err(KernelError::RecordLength));
    assert_eq!(PublicRecord::decode(&[0u8; 224]), Err(KernelError::RecordLength));
    for len in 0..64usize {
        let data = vec![0x5au8; len];
        assert_eq!(PublicRecord::decode(&data).is_ok(), len == 28);
    }
}

#[test]
fn the_input_stream_is_five_words_in_order() {
    let words = input().to_words();
    assert_eq!(INPUT_WORDS, 5);
    assert_eq!(words, vec![4, 10, 0x3dcc_cccd, 0x3dcc_cccd, 0xbdcc_cccd]);
    assert_eq!(TrainingInput::from_words(&words), Ok(input()));
}

#[test]
fn a_stream_of_another_length_is_refused() {
    let words = input().to_words();
    assert_eq!(TrainingInput::from_words(&[]), Err(KernelError::InputLength));
    assert_eq!(TrainingInput::from_words(&words[..4]), Err(KernelError::InputLength));
    assert_eq!(TrainingInput::from_words(&[1, 2, 3, 4, 5, 6]), Err(KernelError::InputLength));
    assert_eq!(publish(&words[..4]), Err(KernelError::InputLength));
    assert_eq!(publish(&[1, 2, 3, 4, 5, 6]), Err(KernelError::InputLength));
}

#[test]
fn a_step_records_its_inputs_and_results() {
    let i = input();
    let record = run_step(&i);
    let (updated_w_l, updated_w_r) = update_perceptron(i.d, i.t, i.r, i.w_l, i.w_r);
    assert_eq!(
        record,
        PublicRecord { d: i.d, t: i.t, w_l: i.w_l, w_r: i.w_r, r: i.r, updated_w_l, updated_w_r }
    );
    assert_eq!((record.updated_w_l, record.updated_w_r), (0x3f8c_ccce, 0x3f66_6668));
    assert_eq!(publish(&i.to_words()), Ok(record.encode()));
}

#[test]
fn the_host_accepts_what_a_step_published() {
    for d in 0..6 {
        for t in [0, 1, 7, 30] {
            let i = TrainingInput { d, t, ..input() };
            let bytes = publish(&i.to_words()).unwrap();
            assert_eq!(check_published(&bytes), Ok(run_step(&i)));
            assert!(check_record(&run_step(&i)));
        }
    }
}

#[test]
fn the_host_rejects_results_that_training_does_not_give() {
    let good = run_step(&input());
    let wrong_left = PublicRecord { updated_w_l: good.updated_w_l ^ 1, ..good };
    let wrong_right = PublicRecord { updated_w_r: good.updated_w_r ^ 0x8000_0000, ..good };
    let other_epochs = PublicRecord { t: good.t + 1, ..good };
    assert!(!check_record(&wrong_left));
    assert!(!check_record(&wrong_right));
    assert!(!check_record(&other_epochs));
    assert_eq!(check_published(&wrong_left.encode()), Err(KernelError::ParityMismatch));
    assert_eq!(check_published(&wrong_right.encode()), Err(KernelError::ParityMismatch));
    assert_eq!(check_published(&other_epochs.encode()), Err(KernelError::ParityMismatch));
    // Equal as numbers is not enough: a zero of the other sign is a mismatch.
    let zero = TrainingInput { d: 0, t: 1, ..input() };
    let record = run_step(&zero);
    assert_eq!(record.updated_w_r, 0x0000_0000);
    let negative_zero = PublicRecord { updated_w_r: 0x8000_0000, ..record };
    assert_eq!(check_published(&negative_zero.encode()), Err(KernelError::ParityMismatch));
}

#[test]
fn the_host_rejects_truncated_bytes() {
    let bytes = publish(&input().to_words()).unwrap();
    assert_eq!(check_published(&bytes[..27]), Err(KernelError::RecordLength));
    assert_eq!(check_published(&[]), Err(KernelError::RecordLength));
}
