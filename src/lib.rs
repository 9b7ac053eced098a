//! A DES-shaped Feistel block cipher over width-checked bit vectors, with the
//! pieces that drive differential and linear cryptanalysis experiments.
pub mod bits;
pub mod cipher;
pub mod harness;
pub mod tables;

pub use bits::{Bits, BitsError};
pub use cipher::{encrypt, feistel, generate_keys, substitute, trim_key, weak_encrypt};
pub use harness::{count_diff, count_linear, diff_trial, linear_trial, run_diff_trials, run_linear_trials};
pub use tables::{E, IP, IP_INVERSE, LSHIFT_MAP, P, PC1, PC2, ROUNDS, SBOX};
