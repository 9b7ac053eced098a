//! The key schedule, the round function and the Feistel network.
use crate::bits::{bit_seq, dot, fits, lemma_bit_is_01, lemma_dot_reindex, lemma_view_injective, permuted, rotated, valid_table, xor_seq, Bits};
use crate::tables::{lemma_ip_round_trip, lemma_ip_tables_inverse, lemma_tables_valid, E, IP, IP_INVERSE, LSHIFT_MAP, P, PC1, PC2, ROUNDS, SBOX};
use vstd::prelude::*;

verus! {

/// The number that a bit string spells, most significant bit first.
pub open spec fn bits_num(s: Seq<bool>) -> nat
    decreases s.len(),
{
    if s.len() == 0 {
        0
    } else {
        2 * bits_num(s.drop_last()) + if s.last() {
            1nat
        } else {
            0nat
        }
    }
}

/// What substitution table `j` gives for the `j`-th 6-bit chunk of `x`: the
/// row is spelled by the chunk's outer bits, the column by its middle four.
pub open spec fn sbox_entry(x: Seq<bool>, j: int) -> nat {
    let c = x.subrange(6 * j, 6 * j + 6);
    let row = bits_num(seq![c[0], c[5]]);
    SBOX@[j]@[row as int]@[bits_num(c.subrange(1, 5)) as int] as nat
}

/// The outputs of the first `i` substitution tables on `x`, four bits each,
/// the first in the highest place.
pub open spec fn sbox_acc(x: Seq<bool>, i: nat) -> nat
    decreases i,
{
    if i == 0 {
        0
    } else {
        sbox_acc(x, (i - 1) as nat) * 16 + sbox_entry(x, i - 1)
    }
}

/// The 32-bit output of the substitution stage on a 48-bit string.
pub open spec fn substituted(x: Seq<bool>) -> Seq<bool> {
    bit_seq(sbox_acc(x, 8) as u64, 32)
}

/// The round function: expand, mix in the subkey, substitute, permute.
pub open spec fn round_fn(r: Seq<bool>, k: Seq<bool>) -> Seq<bool> {
    permuted(substituted(xor_seq(permuted(r, E@), k)), P@)
}

proof fn lemma_nibble_value(v: u64)
    by (bit_vector)
    requires
        v >> 4 == 0,
    ensures
        v == ((v >> 3) & 1) * 8 + ((v >> 2) & 1) * 4 + ((v >> 1) & 1) * 2 + ((v >> 0) & 1),
{
}

/// The value of a four-bit array is the number its bits spell.
proof fn lemma_nibble_num(b: Bits<4>)
    requires
        b.wf(),
    ensures
        b.value() == bits_num(b@),
{
    let v = b.value();
    lemma_nibble_value(v);
    lemma_bit_is_01(v, 0);
    lemma_bit_is_01(v, 1);
    lemma_bit_is_01(v, 2);
    lemma_bit_is_01(v, 3);
    let s = b@;
    assert(s.drop_last().drop_last().drop_last().drop_last().len() == 0);
    reveal_with_fuel(bits_num, 5);
}

proof fn lemma_sbox_entries_small()
    ensures
        forall|j: int, r: int, c: int|
            0 <= j < 8 && 0 <= r < 4 && 0 <= c < 16 ==> #[trigger] SBOX@[j]@[r]@[c] < 16,
{
}

proof fn lemma_sbox_acc_bound(x: Seq<bool>, i: nat)
    requires
        i <= 8,
        x.len() == 48,
    ensures
        sbox_acc(x, i) < pow16(i),
        pow16(i) <= pow16(8),
    decreases i,
{
    reveal_with_fuel(pow16, 9);
    if i > 0 {
        lemma_sbox_acc_bound(x, (i - 1) as nat);
        lemma_sbox_entries_small();
        let c = x.subrange(6 * (i - 1), 6 * (i - 1) + 6);
        reveal_with_fuel(bits_num, 5);
        assert(bits_num(seq![c[0], c[5]]) < 4);
        assert(bits_num(c.subrange(1, 5)) < 16);
    }
}

spec fn pow16(i: nat) -> nat
    decreases i,
{
    if i == 0 {
        1
    } else {
        16 * pow16((i - 1) as nat)
    }
}

/// The substitution stage: each 6-bit chunk goes through its table.
pub fn substitute(keyed: Bits<48>) -> (r: Bits<32>)
    requires
        keyed.wf(),
    ensures
        r.wf(),
        r@ == substituted(keyed@),
{
    let mut acc: u64 = 0;
    let mut i: usize = 0;
    proof {
        reveal_with_fuel(pow16, 9);
    }
    while i < 8
        invariant
            keyed.wf(),
            0 <= i <= 8,
            acc == sbox_acc(keyed@, i as nat),
            acc < pow16(i as nat),
            pow16(i as nat) <= pow16(8),
            pow16(8) == 0x1_0000_0000,
        decreases 8 - i,
    {
        let chunk: Bits<6> = keyed.range::<6>(i * 6 + 1, i * 6 + 6);
        let row: usize = 2 * (chunk.get(1) as usize) + (chunk.get(6) as usize);
        let middle: Bits<4> = chunk.const_range::<2, 5, 4>();
        let col = middle.as_u64() as usize;
        proof {
            let c = keyed@.subrange(6 * i, 6 * i + 6);
            assert(chunk@ =~= c);
            lemma_nibble_num(middle);
            assert(middle@ =~= c.subrange(1, 5));
            reveal_with_fuel(bits_num, 5);
            assert(bits_num(middle@) < 16);
            assert(col == bits_num(c.subrange(1, 5)));
            assert(seq![c[0], c[5]].drop_last() =~= seq![c[0]]);
            assert(seq![c[0]].drop_last() =~= Seq::<bool>::empty());
            assert(row == bits_num(seq![c[0], c[5]]));
            lemma_sbox_acc_bound(keyed@, (i + 1) as nat);
            lemma_sbox_entries_small();
            assert(sbox_entry(keyed@, i as int) == SBOX@[i as int]@[row as int]@[col as int]);
        }
        acc = acc * 16 + SBOX[i][row][col] as u64;
        i = i + 1;
    }
    proof {
        assert(fits(acc, 32)) by (bit_vector)
            requires
                acc < 0x1_0000_0000u64,
        ;
    }
    Bits::new(acc)
}

/// The round function on a 32-bit half and a 48-bit subkey.
pub fn feistel(half: Bits<32>, key: Bits<48>) -> (r: Bits<32>)
    requires
        half.wf(),
        key.wf(),
    ensures
        r.wf(),
        r@ == round_fn(half@, key@),
{
    proof {
        lemma_tables_valid();
    }
    let e = half.permute(&E);
    let keyed = e.xor(key);
    let s = substitute(keyed);
    s.permute(&P)
}

/// The key without its parity bits (every eighth bit), in order.
pub open spec fn without_parity(key: Seq<bool>) -> Seq<bool> {
    Seq::new(56, |k: int| key[k + k / 7])
}

/// Drops the parity bits (positions 8, 16, ..., 64) of a 64-bit key.
pub fn trim_key(key: Bits<64>) -> (r: Bits<56>)
    requires
        key.wf(),
    ensures
        r.wf(),
        r@ == without_parity(key@),
{
    let a: Bits<7> = key.const_range::<1, 7, 7>();
    let b: Bits<7> = key.const_range::<9, 15, 7>();
    let c: Bits<7> = key.const_range::<17, 23, 7>();
    let d: Bits<7> = key.const_range::<25, 31, 7>();
    let e: Bits<7> = key.const_range::<33, 39, 7>();
    let f: Bits<7> = key.const_range::<41, 47, 7>();
    let g: Bits<7> = key.const_range::<49, 55, 7>();
    let h: Bits<7> = key.const_range::<57, 63, 7>();
    let r = a.concat::<7, 14>(b).concat::<7, 21>(c).concat::<7, 28>(d).concat::<7, 35>(
        e,
    ).concat::<7, 42>(f).concat::<7, 49>(g).concat::<7, 56>(h);
    assert forall|k: int| 0 <= k < 56 implies #[trigger] r@[k] == without_parity(key@)[k] by {
        assert(0 <= k / 7 < 8);
        assert(k / 7 * 7 <= k < k / 7 * 7 + 7);
    }
    assert(r@ =~= without_parity(key@));
    r
}

/// The 56-bit C‖D register after `i` rounds of the key schedule.
pub open spec fn key_register(key: Seq<bool>, i: nat) -> Seq<bool>
    decreases i,
{
    if i == 0 {
        permuted(key, PC1@)
    } else {
        let cd = key_register(key, (i - 1) as nat);
        let s = LSHIFT_MAP@[i - 1] as nat;
        rotated(cd.subrange(0, 28), s) + rotated(cd.subrange(28, 56), s)
    }
}

/// The 48-bit subkey of round `i` (counted from 0).
pub open spec fn subkey(key: Seq<bool>, i: nat) -> Seq<bool> {
    permuted(key_register(key, i + 1), PC2@)
}

/// The subkeys of all rounds, in round order.
pub open spec fn key_schedule(key: Seq<bool>) -> Seq<Seq<bool>> {
    Seq::new(ROUNDS as nat, |i: int| subkey(key, i as nat))
}

/// The bit strings of a sequence of subkeys.
pub open spec fn key_views(keys: Seq<Bits<48>>) -> Seq<Seq<bool>> {
    Seq::new(keys.len(), |i: int| keys[i]@)
}

/// Every subkey is well formed.
pub open spec fn keys_wf(keys: Seq<Bits<48>>) -> bool {
    forall|i: int| 0 <= i < keys.len() ==> #[trigger] keys[i].wf()
}

/// Derives the round subkeys from a 64-bit master key.
pub fn generate_keys(key: Bits<64>) -> (r: Vec<Bits<48>>)
    requires
        key.wf(),
    ensures
        r@.len() == ROUNDS,
        keys_wf(r@),
        key_views(r@) == key_schedule(key@),
{
    proof {
        lemma_tables_valid();
    }
    let mut cd: Bits<56> = key.permute(&PC1);
    let mut keys: Vec<Bits<48>> = Vec::with_capacity(ROUNDS);
    let mut i: usize = 0;
    while i < ROUNDS
        invariant
            key.wf(),
            valid_table(PC2@, 56),
            0 <= i <= ROUNDS,
            cd.wf(),
            cd@ == key_register(key@, i as nat),
            keys@.len() == i,
            keys_wf(keys@),
            forall|j: int| 0 <= j < i ==> #[trigger] keys@[j]@ == subkey(key@, j as nat),
        decreases ROUNDS - i,
    {
        let shift = LSHIFT_MAP[i] as usize;
        let (c, d) = cd.split::<28, 28>();
        let c = c.rotate_left(shift);
        let d = d.rotate_left(shift);
        cd = c.concat::<28, 56>(d);
        let k = cd.permute(&PC2);
        keys.push(k);
        i = i + 1;
    }
    assert(key_views(keys@) =~= key_schedule(key@));
    keys
}

/// The two halves after `i` Feistel rounds, each of which mixes the round
/// function of the right half into the left half and swaps the halves.
pub open spec fn rounds_state(l: Seq<bool>, r: Seq<bool>, keys: Seq<Seq<bool>>, i: nat) -> (
    Seq<bool>,
    Seq<bool>,
)
    decreases i,
{
    if i == 0 {
        (l, r)
    } else {
        let st = rounds_state(l, r, keys, (i - 1) as nat);
        (st.1, xor_seq(st.0, round_fn(st.1, keys[i - 1])))
    }
}

/// The ciphertext of `p` after `rounds` rounds under the given subkeys.
pub open spec fn encrypt_spec(p: Seq<bool>, keys: Seq<Seq<bool>>, rounds: nat) -> Seq<bool> {
    let x = permuted(p, IP@);
    let st = rounds_state(x.subrange(0, 32), x.subrange(32, 64), keys, rounds);
    permuted(st.1 + st.0, IP_INVERSE@)
}

/// Encrypts with the first `rounds` of the given subkeys.
pub fn weak_encrypt(plaintext: Bits<64>, keys: &Vec<Bits<48>>, rounds: usize) -> (r: Bits<64>)
    requires
        plaintext.wf(),
        keys_wf(keys@),
        rounds <= keys@.len(),
    ensures
        r.wf(),
        r@ == encrypt_spec(plaintext@, key_views(keys@), rounds as nat),
{
    proof {
        lemma_tables_valid();
    }
    let data = plaintext.permute(&IP);
    let (mut u, mut v) = data.split::<32, 32>();
    let ghost l0 = u@;
    let ghost r0 = v@;
    let mut round: usize = 0;
    while round < rounds
        invariant
            keys_wf(keys@),
            rounds <= keys@.len(),
            0 <= round <= rounds,
            u.wf(),
            v.wf(),
            (u@, v@) == rounds_state(l0, r0, key_views(keys@), round as nat),
        decreases rounds - round,
    {
        let f = feistel(v, keys[round]);
        let mixed = u.xor(f);
        u = v;
        v = mixed;
        round = round + 1;
    }
    let data = v.concat::<32, 64>(u);
    data.permute(&IP_INVERSE)
}

/// Encrypts one block with the full sixteen rounds.
pub fn encrypt(plaintext: Bits<64>, key: Bits<64>) -> (r: Bits<64>)
    requires
        plaintext.wf(),
        key.wf(),
    ensures
        r.wf(),
        r@ == encrypt_spec(plaintext@, key_schedule(key@), ROUNDS as nat),
{
    let keys = generate_keys(key);
    weak_encrypt(plaintext, &keys, ROUNDS)
}

/// Encryption is a function of the plaintext, the key and the round count
/// alone: two results that meet `encrypt`'s contract for the same inputs are
/// the same block.
pub proof fn lemma_encrypt_deterministic(
    plaintext: Bits<64>,
    key: Bits<64>,
    first: Bits<64>,
    second: Bits<64>,
)
    requires
        first.wf(),
        second.wf(),
        first@ == encrypt_spec(plaintext@, key_schedule(key@), ROUNDS as nat),
        second@ == encrypt_spec(plaintext@, key_schedule(key@), ROUNDS as nat),
    ensures
        first == second,
{
    lemma_view_injective(first, second);
}

/// Permuting a block through the initial permutation and then its inverse, or
/// the other way round, gives the block back: `y` and `z` stand for the two
/// results of `permute`.
pub proof fn lemma_ip_inverse_blocks(x: Bits<64>, y: Bits<64>, z: Bits<64>)
    requires
        x.wf(),
        y.wf(),
        z.wf(),
        y@ == permuted(permuted(x@, IP@), IP_INVERSE@),
        z@ == permuted(permuted(x@, IP_INVERSE@), IP@),
    ensures
        y == x,
        z == x,
{
    lemma_ip_round_trip(x@);
    lemma_view_injective(x, y);
    lemma_view_injective(x, z);
}

/// With no rounds the cipher only moves bits, so the dot product of a mask
/// with a plaintext equals that of the mask's image with the ciphertext.
pub proof fn lemma_zero_round_parity(alpha: Seq<bool>, p: Seq<bool>, keys: Seq<Seq<bool>>)
    requires
        alpha.len() == 64,
        p.len() == 64,
    ensures
        dot(alpha, p) == dot(encrypt_spec(alpha, keys, 0), encrypt_spec(p, keys, 0)),
{
    lemma_tables_valid();
    lemma_ip_tables_inverse();
    let ip = |k: int| IP@[k] - 1;
    let ipi = |k: int| IP_INVERSE@[k] - 1;
    let sw = |k: int|
        if k < 32 {
            k + 32
        } else {
            k - 32
        };
    let xa = permuted(alpha, IP@);
    let xp = permuted(p, IP@);
    lemma_dot_reindex(alpha, p, xa, xp, ip, ipi);
    let sa = xa.subrange(32, 64) + xa.subrange(0, 32);
    let sp = xp.subrange(32, 64) + xp.subrange(0, 32);
    lemma_dot_reindex(xa, xp, sa, sp, sw, sw);
    lemma_dot_reindex(sa, sp, permuted(sa, IP_INVERSE@), permuted(sp, IP_INVERSE@), ipi, ip);
}

} // verus!
