use morningstar::{
    count_diff, count_linear, diff_trial, generate_keys, linear_trial, run_diff_trials,
    run_linear_trials, weak_encrypt, Bits,
};

fn sample_plaintexts(n: usize) -> Vec<u64> {
    let mut state: u64 = 0x9e37_79b9_7f4a_7c15;
    let mut out = Vec::with_capacity(n);
    for _ in 0..n {
        state = state.wrapping_mul(6364136223846793005).wrapping_add(1442695040888963407);
        out.push(state);
    }
    out
}

#[test]
fn zero_round_aligned_masks_have_full_correlation() {
    let keys = generate_keys(Bits::new(0xdeadbeefcafebabe));
    let alpha: Bits<64> = Bits::new(0x2104_0080_0000_8000);
    // With no rounds the cipher only moves bits, so the image of the mask
    // under the same map predicts the ciphertext parity exactly.
    let beta = weak_encrypt(alpha, &keys, 0);
    let trials: u64 = 200_000;
    let ones = run_linear_trials(alpha, beta, &keys, 0, trials);
    let p = ones as f64 / trials as f64;
    let correlation = (2.0 * p - 1.0).abs();
    assert!((correlation - 1.0).abs() < 0.01);
    assert_eq!(ones, 0);
}

#[test]
fn zero_masks_never_fire() {
    let keys = generate_keys(Bits::new(0x0123456789abcdef));
    let zero: Bits<64> = Bits::new(0);
    let ones = run_linear_trials(zero, zero, &keys, 3, 10_000);
    assert_eq!(ones, 0);
    let correlation = (2.0 * (ones as f64 / 10_000.0) - 1.0).abs();
    assert!((correlation - 1.0).abs() < 0.01);
}

#[test]
fn zero_difference_always_matches() {
    let keys = generate_keys(Bits::new(0xdeadbeefcafebabe));
    let zero: Bits<64> = Bits::new(0);
    assert_eq!(run_diff_trials(zero, zero, &keys, 5, 5_000), 5_000);
    assert_eq!(count_diff(zero, zero, &keys, 16, &sample_plaintexts(100)), 100);
}

#[test]
fn counts_agree_with_single_trials() {
    let keys = generate_keys(Bits::new(0xdeadbeefcafebabe));
    let alpha: Bits<64> = Bits::new(0x0104_0080_0001_1000);
    let beta: Bits<64> = Bits::new(0x2104_0080_0000_8000);
    let plaintexts = sample_plaintexts(500);
    let mut expected: u64 = 0;
    for p in &plaintexts {
        if linear_trial(alpha, beta, Bits::new(*p), &keys, 3) {
            expected += 1;
        }
    }
    let ones = count_linear(alpha, beta, &keys, 3, &plaintexts);
    assert_eq!(ones, expected);
    assert!(ones > 0 && ones < 500);

    let d_in: Bits<64> = Bits::new(0x0080_8200_6000_0000);
    let d_out: Bits<64> = Bits::new(0x6000_0000_0000_0000);
    let mut expected: u64 = 0;
    for p in &plaintexts {
        if diff_trial(d_in, d_out, Bits::new(*p), &keys, 2) {
            expected += 1;
        }
    }
    assert_eq!(count_diff(d_in, d_out, &keys, 2, &plaintexts), expected);
}

#[test]
fn diff_trial_one_round_by_hand() {
    let keys = generate_keys(Bits::new(0x133457799bbcdff1));
    let d_in: Bits<64> = Bits::new(0x0000_0000_0000_0001);
    let p: Bits<64> = Bits::new(0x0123456789abcdef);
    let c_a = weak_encrypt(p, &keys, 1);
    let c_b = weak_encrypt(p.xor(d_in), &keys, 1);
    let d_out = c_a.xor(c_b);
    assert!(diff_trial(d_in, d_out, p, &keys, 1));
    assert!(!diff_trial(d_in, Bits::new(d_out.as_u64() ^ 1), p, &keys, 1));
}

#[test]
fn empty_plaintext_list_counts_nothing() {
    let keys = generate_keys(Bits::new(1));
    let a: Bits<64> = Bits::new(u64::MAX);
    assert_eq!(count_linear(a, a, &keys, 4, &Vec::new()), 0);
    assert_eq!(count_diff(a, a, &keys, 4, &Vec::new()), 0);
    assert_eq!(run_linear_trials(a, a, &keys, 4, 0), 0);
}
