//! Trials of differential and linear cryptanalysis experiments, and their
//! counts over many plaintexts.
use crate::bits::{bit_seq, dot, lemma_view_injective, xor_seq, Bits};
use crate::cipher::{encrypt_spec, key_views, keys_wf, lemma_zero_round_parity, weak_encrypt};
use vstd::prelude::*;

verus! {

/// Relies on rand::random: a value from the thread-local generator, of which
/// nothing is known.
pub assume_specification<T>[ rand::random::<T> ]() -> (r: T)
    where
        rand::distributions::Standard: rand::distributions::Distribution<T>,
;

/// The linear predicate `α·p ⊕ β·c` on a plaintext and its ciphertext.
pub open spec fn linear_outcome(
    alpha: Seq<bool>,
    beta: Seq<bool>,
    keys: Seq<Seq<bool>>,
    rounds: nat,
    p: Seq<bool>,
) -> bool {
    dot(alpha, p) != dot(beta, encrypt_spec(p, keys, rounds))
}

/// Whether the ciphertexts of `p` and `p ⊕ Δin` differ by exactly `Δout`.
pub open spec fn diff_outcome(
    d_in: Seq<bool>,
    d_out: Seq<bool>,
    keys: Seq<Seq<bool>>,
    rounds: nat,
    p: Seq<bool>,
) -> bool {
    xor_seq(encrypt_spec(p, keys, rounds), encrypt_spec(xor_seq(p, d_in), keys, rounds)) == d_out
}

/// How many of the plaintexts in `ps` satisfy the linear predicate.
pub open spec fn linear_count(
    alpha: Seq<bool>,
    beta: Seq<bool>,
    keys: Seq<Seq<bool>>,
    rounds: nat,
    ps: Seq<u64>,
) -> nat
    decreases ps.len(),
{
    if ps.len() == 0 {
        0
    } else {
        linear_count(alpha, beta, keys, rounds, ps.drop_last()) + if linear_outcome(
            alpha,
            beta,
            keys,
            rounds,
            bit_seq(ps.last(), 64),
        ) {
            1nat
        } else {
            0nat
        }
    }
}

/// How many of the plaintexts in `ps` show the output difference.
pub open spec fn diff_count(
    d_in: Seq<bool>,
    d_out: Seq<bool>,
    keys: Seq<Seq<bool>>,
    rounds: nat,
    ps: Seq<u64>,
) -> nat
    decreases ps.len(),
{
    if ps.len() == 0 {
        0
    } else {
        diff_count(d_in, d_out, keys, rounds, ps.drop_last()) + if diff_outcome(
            d_in,
            d_out,
            keys,
            rounds,
            bit_seq(ps.last(), 64),
        ) {
            1nat
        } else {
            0nat
        }
    }
}

/// One linear trial: `α·plaintext ⊕ β·ciphertext`.
pub fn linear_trial(
    alpha: Bits<64>,
    beta: Bits<64>,
    plaintext: Bits<64>,
    keys: &Vec<Bits<48>>,
    rounds: usize,
) -> (r: bool)
    requires
        alpha.wf(),
        beta.wf(),
        plaintext.wf(),
        keys_wf(keys@),
        rounds <= keys@.len(),
    ensures
        r == linear_outcome(alpha@, beta@, key_views(keys@), rounds as nat, plaintext@),
{
    let ciphertext = weak_encrypt(plaintext, keys, rounds);
    alpha.dot_product(plaintext) != beta.dot_product(ciphertext)
}

/// One differential trial: whether `plaintext` and `plaintext ⊕ Δin` encrypt
/// to ciphertexts that differ by `Δout`.
pub fn diff_trial(
    d_in: Bits<64>,
    d_out: Bits<64>,
    plaintext: Bits<64>,
    keys: &Vec<Bits<48>>,
    rounds: usize,
) -> (r: bool)
    requires
        d_in.wf(),
        d_out.wf(),
        plaintext.wf(),
        keys_wf(keys@),
        rounds <= keys@.len(),
    ensures
        r == diff_outcome(d_in@, d_out@, key_views(keys@), rounds as nat, plaintext@),
{
    let other = plaintext.xor(d_in);
    let ciphertext_a = weak_encrypt(plaintext, keys, rounds);
    let ciphertext_b = weak_encrypt(other, keys, rounds);
    let cipher_diff = ciphertext_a.xor(ciphertext_b);
    proof {
        if cipher_diff@ == d_out@ {
            lemma_view_injective(cipher_diff, d_out);
        }
    }
    cipher_diff.as_u64() == d_out.as_u64()
}

proof fn lemma_linear_count_bound(
    alpha: Seq<bool>,
    beta: Seq<bool>,
    keys: Seq<Seq<bool>>,
    rounds: nat,
    ps: Seq<u64>,
)
    ensures
        linear_count(alpha, beta, keys, rounds, ps) <= ps.len(),
    decreases ps.len(),
{
    if ps.len() > 0 {
        lemma_linear_count_bound(alpha, beta, keys, rounds, ps.drop_last());
    }
}

proof fn lemma_diff_count_bound(
    d_in: Seq<bool>,
    d_out: Seq<bool>,
    keys: Seq<Seq<bool>>,
    rounds: nat,
    ps: Seq<u64>,
)
    ensures
        diff_count(d_in, d_out, keys, rounds, ps) <= ps.len(),
    decreases ps.len(),
{
    if ps.len() > 0 {
        lemma_diff_count_bound(d_in, d_out, keys, rounds, ps.drop_last());
    }
}

proof fn lemma_fits_64(v: u64)
    ensures
        crate::bits::fits(v, 64),
{
}

/// Counts the plaintexts that satisfy the linear predicate.
pub fn count_linear(
    alpha: Bits<64>,
    beta: Bits<64>,
    keys: &Vec<Bits<48>>,
    rounds: usize,
    plaintexts: &Vec<u64>,
) -> (r: u64)
    requires
        alpha.wf(),
        beta.wf(),
        keys_wf(keys@),
        rounds <= keys@.len(),
    ensures
        r == linear_count(alpha@, beta@, key_views(keys@), rounds as nat, plaintexts@),
{
    let mut ones: u64 = 0;
    let mut i: usize = 0;
    while i < plaintexts.len()
        invariant
            alpha.wf(),
            beta.wf(),
            keys_wf(keys@),
            rounds <= keys@.len(),
            0 <= i <= plaintexts@.len(),
            ones == linear_count(
                alpha@,
                beta@,
                key_views(keys@),
                rounds as nat,
                plaintexts@.subrange(0, i as int),
            ),
        decreases plaintexts@.len() - i,
    {
        proof {
            lemma_linear_count_bound(
                alpha@,
                beta@,
                key_views(keys@),
                rounds as nat,
                plaintexts@.subrange(0, i as int),
            );
            assert(plaintexts@.subrange(0, i + 1).drop_last() =~= plaintexts@.subrange(0, i as int));
        }
        let plaintext: Bits<64> = Bits::new(plaintexts[i]);
        if linear_trial(alpha, beta, plaintext, keys, rounds) {
            ones = ones + 1;
        }
        i = i + 1;
    }
    assert(plaintexts@.subrange(0, i as int) =~= plaintexts@);
    ones
}

/// Counts the plaintexts whose pair under `Δin` shows the output difference `Δout`.
pub fn count_diff(
    d_in: Bits<64>,
    d_out: Bits<64>,
    keys: &Vec<Bits<48>>,
    rounds: usize,
    plaintexts: &Vec<u64>,
) -> (r: u64)
    requires
        d_in.wf(),
        d_out.wf(),
        keys_wf(keys@),
        rounds <= keys@.len(),
    ensures
        r == diff_count(d_in@, d_out@, key_views(keys@), rounds as nat, plaintexts@),
{
    let mut matches: u64 = 0;
    let mut i: usize = 0;
    while i < plaintexts.len()
        invariant
            d_in.wf(),
            d_out.wf(),
            keys_wf(keys@),
            rounds <= keys@.len(),
            0 <= i <= plaintexts@.len(),
            matches == diff_count(
                d_in@,
                d_out@,
                key_views(keys@),
                rounds as nat,
                plaintexts@.subrange(0, i as int),
            ),
        decreases plaintexts@.len() - i,
    {
        proof {
            lemma_diff_count_bound(
                d_in@,
                d_out@,
                key_views(keys@),
                rounds as nat,
                plaintexts@.subrange(0, i as int),
            );
            assert(plaintexts@.subrange(0, i + 1).drop_last() =~= plaintexts@.subrange(0, i as int));
        }
        let plaintext: Bits<64> = Bits::new(plaintexts[i]);
        if diff_trial(d_in, d_out, plaintext, keys, rounds) {
            matches = matches + 1;
        }
        i = i + 1;
    }
    assert(plaintexts@.subrange(0, i as int) =~= plaintexts@);
    matches
}

/// Runs `trials` linear trials on plaintexts drawn at random and counts those
/// that satisfy the predicate. Whatever was drawn, the count is that of some
/// `trials` plaintexts.
pub fn run_linear_trials(
    alpha: Bits<64>,
    beta: Bits<64>,
    keys: &Vec<Bits<48>>,
    rounds: usize,
    trials: u64,
) -> (r: u64)
    requires
        alpha.wf(),
        beta.wf(),
        keys_wf(keys@),
        rounds <= keys@.len(),
    ensures
        r <= trials,
        exists|ps: Seq<u64>|
            ps.len() == trials && r == linear_count(
                alpha@,
                beta@,
                key_views(keys@),
                rounds as nat,
                ps,
            ),
{
    let mut ones: u64 = 0;
    let mut t: u64 = 0;
    let ghost mut drawn: Seq<u64> = Seq::empty();
    while t < trials
        invariant
            alpha.wf(),
            beta.wf(),
            keys_wf(keys@),
            rounds <= keys@.len(),
            0 <= t <= trials,
            drawn.len() == t,
            ones == linear_count(alpha@, beta@, key_views(keys@), rounds as nat, drawn),
        decreases trials - t,
    {
        proof {
            lemma_linear_count_bound(alpha@, beta@, key_views(keys@), rounds as nat, drawn);
        }
        let v: u64 = rand::random::<u64>();
        proof {
            lemma_fits_64(v);
            assert(drawn.push(v).drop_last() =~= drawn);
            drawn = drawn.push(v);
        }
        let plaintext: Bits<64> = Bits::new(v);
        if linear_trial(alpha, beta, plaintext, keys, rounds) {
            ones = ones + 1;
        }
        t = t + 1;
    }
    proof {
        lemma_linear_count_bound(alpha@, beta@, key_views(keys@), rounds as nat, drawn);
    }
    ones
}

/// Runs `trials` differential trials on plaintexts drawn at random and counts
/// the matches. Whatever was drawn, the count is that of some `trials`
/// plaintexts.
pub fn run_diff_trials(
    d_in: Bits<64>,
    d_out: Bits<64>,
    keys: &Vec<Bits<48>>,
    rounds: usize,
    trials: u64,
) -> (r: u64)
    requires
        d_in.wf(),
        d_out.wf(),
        keys_wf(keys@),
        rounds <= keys@.len(),
    ensures
        r <= trials,
        exists|ps: Seq<u64>|
            ps.len() == trials && r == diff_count(d_in@, d_out@, key_views(keys@), rounds as nat, ps),
{
    let mut matches: u64 = 0;
    let mut t: u64 = 0;
    let ghost mut drawn: Seq<u64> = Seq::empty();
    while t < trials
        invariant
            d_in.wf(),
            d_out.wf(),
            keys_wf(keys@),
            rounds <= keys@.len(),
            0 <= t <= trials,
            drawn.len() == t,
            matches == diff_count(d_in@, d_out@, key_views(keys@), rounds as nat, drawn),
        decreases trials - t,
    {
        proof {
            lemma_diff_count_bound(d_in@, d_out@, key_views(keys@), rounds as nat, drawn);
        }
        let v: u64 = rand::random::<u64>();
        proof {
            lemma_fits_64(v);
            assert(drawn.push(v).drop_last() =~= drawn);
            drawn = drawn.push(v);
        }
        let plaintext: Bits<64> = Bits::new(v);
        if diff_trial(d_in, d_out, plaintext, keys, rounds) {
            matches = matches + 1;
        }
        t = t + 1;
    }
    proof {
        lemma_diff_count_bound(d_in@, d_out@, key_views(keys@), rounds as nat, drawn);
    }
    matches
}

/// The 64-bit all-zero string.
pub open spec fn zeros() -> Seq<bool> {
    Seq::new(64, |k: int| false)
}

proof fn lemma_dot_zero_upto(b: Seq<bool>, k: nat)
    requires
        k <= 64,
    ensures
        !crate::bits::dot_upto(zeros(), b, k),
    decreases k,
{
    if k > 0 {
        lemma_dot_zero_upto(b, (k - 1) as nat);
    }
}

/// With both masks zero the linear predicate never holds, whatever the
/// plaintexts: the empirical probability is 0 and the correlation exactly 1.
pub proof fn lemma_zero_masks_count(keys: Seq<Seq<bool>>, rounds: nat, ps: Seq<u64>)
    ensures
        linear_count(zeros(), zeros(), keys, rounds, ps) == 0,
    decreases ps.len(),
{
    if ps.len() > 0 {
        let p = bit_seq(ps.last(), 64);
        lemma_dot_zero_upto(p, 64);
        lemma_dot_zero_upto(encrypt_spec(p, keys, rounds), 64);
        lemma_zero_masks_count(keys, rounds, ps.drop_last());
    }
}

/// With both differences zero every plaintext matches: the empirical
/// probability is exactly 1.
pub proof fn lemma_zero_difference_count(keys: Seq<Seq<bool>>, rounds: nat, ps: Seq<u64>)
    ensures
        diff_count(zeros(), zeros(), keys, rounds, ps) == ps.len(),
    decreases ps.len(),
{
    if ps.len() > 0 {
        let p = bit_seq(ps.last(), 64);
        let c = encrypt_spec(p, keys, rounds);
        assert(xor_seq(p, zeros()) =~= p);
        assert(xor_seq(c, c) =~= zeros());
        lemma_zero_difference_count(keys, rounds, ps.drop_last());
    }
}

/// With no rounds, an input mask `α` and the output mask that is `α`'s own
/// zero-round encryption agree on every plaintext: the predicate never holds,
/// so the empirical correlation is exactly 1.
pub proof fn lemma_zero_round_aligned_masks(alpha: Seq<bool>, keys: Seq<Seq<bool>>, ps: Seq<u64>)
    requires
        alpha.len() == 64,
    ensures
        linear_count(alpha, encrypt_spec(alpha, keys, 0), keys, 0, ps) == 0,
    decreases ps.len(),
{
    if ps.len() > 0 {
        lemma_zero_round_parity(alpha, bit_seq(ps.last(), 64), keys);
        lemma_zero_round_aligned_masks(alpha, keys, ps.drop_last());
    }
}

} // verus!
