use morningstar::{encrypt, feistel, generate_keys, substitute, trim_key, weak_encrypt, Bits, ROUNDS};

#[test]
fn test_encrypt_doesnt_panic() {
    let plaintext = 0x4141414141414141;
    encrypt(Bits::<64>::new(plaintext), Bits::new(0));
}

#[test]
fn test_vector() {
    let plaintext: Bits<64> = Bits::new(0x4e6f772069732074);

    let key: Bits<64> = Bits::new(0x0123456789abcdef);
    println!("key  = {:#066b}", key.as_u64());

    assert_eq!(encrypt(plaintext, key).as_u64(), 0x3fa40e8a984d4815);
}

#[test]
fn zero_key() {
    let key: Bits<64> = Bits::new(0);
    let plaintext: Bits<64> = Bits::<64>::new(0);

    let ciphertext = encrypt(plaintext, key);

    assert_eq!(ciphertext.as_u64(), 0x8ca64de9c1b123a7);
}

#[test]
fn keys() {
    let key: Bits<64> = Bits::new(0xFF);
    let keys = generate_keys(key);
    assert_eq!(keys.len(), ROUNDS);
}

#[test]
fn subkeys_of_reference_key() {
    let key: Bits<64> = Bits::new(0x133457799bbcdff1);
    let keys = generate_keys(key);
    assert_eq!(keys[0].as_u64(), 0x1b02effc7072);
    assert_eq!(keys[15].as_u64(), 0xcb3d8b0e17f5);
}

#[test]
fn reference_round_trip_of_known_block() {
    let key: Bits<64> = Bits::new(0x133457799bbcdff1);
    let plaintext: Bits<64> = Bits::new(0x0123456789abcdef);
    assert_eq!(encrypt(plaintext, key).as_u64(), 0x85e813540f0ab405);
}

#[test]
fn encrypt_is_deterministic() {
    let key: Bits<64> = Bits::new(0xdeadbeefcafebabe);
    let plaintext: Bits<64> = Bits::new(0x0011223344556677);
    let first = encrypt(plaintext, key);
    let second = encrypt(plaintext, key);
    let _ = encrypt(Bits::new(0xffff), Bits::new(0x1234));
    let third = encrypt(plaintext, key);
    assert_eq!(first, second);
    assert_eq!(first, third);
}

#[test]
fn weak_encrypt_full_rounds_matches_encrypt() {
    let key: Bits<64> = Bits::new(0x0123456789abcdef);
    let plaintext: Bits<64> = Bits::new(0x4e6f772069732074);
    let keys = generate_keys(key);
    assert_eq!(weak_encrypt(plaintext, &keys, ROUNDS).as_u64(), 0x3fa40e8a984d4815);
}

#[test]
fn zero_rounds_swaps_halves_between_permutations() {
    let key: Bits<64> = Bits::new(0x0123456789abcdef);
    let keys = generate_keys(key);
    let plaintext: Bits<64> = Bits::new(0x4e6f772069732074);
    let (l, r) = plaintext.permute(&morningstar::IP).split::<32, 32>();
    let expected = r.concat::<32, 64>(l).permute(&morningstar::IP_INVERSE);
    assert_eq!(weak_encrypt(plaintext, &keys, 0), expected);
    assert_ne!(weak_encrypt(plaintext, &keys, 1), expected);
}

#[test]
fn trim_key_drops_parity_bits() {
    let key: Bits<64> = Bits::new(0x0101_0101_0101_0101);
    assert_eq!(trim_key(key).as_u64(), 0);
    let key: Bits<64> = Bits::new(0xfefe_fefe_fefe_fefe);
    assert_eq!(trim_key(key).as_u64(), (1u64 << 56) - 1);
    let key: Bits<64> = Bits::new(0x8000_0000_0000_0000);
    assert_eq!(trim_key(key).as_u64(), 1u64 << 55);
}

#[test]
fn substitution_of_zero_block() {
    // Each table's row 0, column 0.
    let zero: Bits<48> = Bits::new(0);
    assert_eq!(substitute(zero).as_u64(), 0xef_a7_2c_4d);
}

#[test]
fn feistel_of_reference_first_round() {
    // First round of the classic worked example: R0 = 0xf0aaf0aa, K1 = 0x1b02effc7072.
    let half: Bits<32> = Bits::new(0xf0aaf0aa);
    let key: Bits<48> = Bits::new(0x1b02effc7072);
    assert_eq!(feistel(half, key).as_u64(), 0x234aa9bb);
}
