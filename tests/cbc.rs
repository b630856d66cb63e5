use nist_crypto::cbc::{decrypt_cbc, encrypt_cbc, CbcError};

fn unhex(s: &str) -> Vec<u8> {
    (0..s.len() / 2).map(|i| u8::from_str_radix(&s[2 * i..2 * i + 2], 16).unwrap()).collect()
}

fn iv_of(s: &str) -> [u8; 16] {
    unhex(s).try_into().unwrap()
}

const SP_PLAIN: &str = "6bc1bee22e409f96e93d7e117393172aae2d8a571e03ac9c9eb76fac45af8e5130c81c46a35ce411e5fbc1191a0a52eff69f2445df4f9b17ad2b417be66c3710";
const SP_IV: &str = "000102030405060708090a0b0c0d0e0f";

#[test]
fn fips197_single_block_vectors() {
    let pt = unhex("00112233445566778899aabbccddeeff");
    let iv = [0u8; 16];
    let cases = [
        (16usize, "69c4e0d86a7b0430d8cdb78070b4c55a"),
        (24, "dda97ca4864cdfe06eaf70a0ec0d7191"),
        (32, "8ea2b7ca516745bfeafc49904b496089"),
    ];
    for (n, expected) in cases {
        let key: Vec<u8> = (0..n as u8).collect();
        let ct = encrypt_cbc(&pt, &key, &iv);
        assert_eq!(ct.len(), 32);
        assert_eq!(ct[..16].to_vec(), unhex(expected));
        assert_eq!(decrypt_cbc(&ct, &key, &iv), Ok(pt.clone()));
    }
}

#[test]
fn sp800_38a_cbc_aes128() {
    let key = unhex("2b7e151628aed2a6abf7158809cf4f3c");
    let ct = encrypt_cbc(&unhex(SP_PLAIN), &key, &iv_of(SP_IV));
    assert_eq!(ct, unhex("7649abac8119b246cee98e9b12e9197d5086cb9b507219ee95db113a917678b273bed6b8e3c1743b7116e69e222295163ff1caa1681fac09120eca307586e1a78cb82807230e1321d3fae00d18cc2012"));
    assert_eq!(decrypt_cbc(&ct, &key, &iv_of(SP_IV)), Ok(unhex(SP_PLAIN)));
}

#[test]
fn sp800_38a_cbc_aes192() {
    let key = unhex("8e73b0f7da0e6452c810f32b809079e562f8ead2522c6b7b");
    let ct = encrypt_cbc(&unhex(SP_PLAIN), &key, &iv_of(SP_IV));
    assert_eq!(ct, unhex("4f021db243bc633d7178183a9fa071e8b4d9ada9ad7dedf4e5e738763f69145a571b242012fb7ae07fa9baac3df102e008b0e27988598881d920a9e64f5615cd612ccd79224b350935d45dd6a98f8176"));
    assert_eq!(decrypt_cbc(&ct, &key, &iv_of(SP_IV)), Ok(unhex(SP_PLAIN)));
}

#[test]
fn sp800_38a_cbc_aes256() {
    let key = unhex("603deb1015ca71be2b73aef0857d77811f352c073b6108d72d9810a30914dff4");
    let ct = encrypt_cbc(&unhex(SP_PLAIN), &key, &iv_of(SP_IV));
    assert_eq!(ct, unhex("f58c4c04d6e5f1ba779eabfb5f7bfbd69cfc4e967edb808d679f777bc6702c7d39f23369a9d9bacfa530e26304231461b2eb05e2c39be9fcda6c19078c6a9d1b3f461796d6b0d6b2e0c2a72b4d80e644"));
    assert_eq!(decrypt_cbc(&ct, &key, &iv_of(SP_IV)), Ok(unhex(SP_PLAIN)));
}

#[test]
fn empty_plaintext_is_one_padding_block() {
    let key = unhex("2b7e151628aed2a6abf7158809cf4f3c");
    let ct = encrypt_cbc(&Vec::new(), &key, &iv_of(SP_IV));
    assert_eq!(ct, unhex("c84af0b613435d5d9182801a9bd9320b"));
    assert_eq!(decrypt_cbc(&ct, &key, &iv_of(SP_IV)), Ok(Vec::new()));
}

#[test]
fn aligned_plaintext_gets_full_padding_block() {
    let key = unhex("2b7e151628aed2a6abf7158809cf4f3c");
    for len in [16usize, 32, 48] {
        let p: Vec<u8> = (0..len).map(|i| i as u8).collect();
        let ct = encrypt_cbc(&p, &key, &iv_of(SP_IV));
        assert_eq!(ct.len(), len + 16);
        assert_eq!(decrypt_cbc(&ct, &key, &iv_of(SP_IV)), Ok(p));
    }
}

#[test]
fn round_trip_various_lengths() {
    let key: Vec<u8> = (100..132).collect();
    let iv = [7u8; 16];
    for len in 0..40usize {
        let p: Vec<u8> = (0..len).map(|i| (i * 31 + 5) as u8).collect();
        let ct = encrypt_cbc(&p, &key, &iv);
        assert_eq!(ct.len(), (len / 16 + 1) * 16);
        assert_eq!(decrypt_cbc(&ct, &key, &iv), Ok(p));
    }
}

#[test]
fn short_plaintext_vector() {
    let key = unhex("2b7e151628aed2a6abf7158809cf4f3c");
    let ct = encrypt_cbc(&b"hello world".to_vec(), &key, &iv_of(SP_IV));
    assert_eq!(ct, unhex("66ee4dfaec56a71cd33cd4c5151d7d88"));
}

#[test]
fn decrypt_rejects_misaligned() {
    let key = vec![0u8; 16];
    assert_eq!(decrypt_cbc(&vec![0u8; 15], &key, &[0u8; 16]), Err(CbcError::Misaligned));
    assert_eq!(decrypt_cbc(&vec![0u8; 33], &key, &[0u8; 16]), Err(CbcError::Misaligned));
}

#[test]
fn decrypt_rejects_bad_padding() {
    let key = unhex("2b7e151628aed2a6abf7158809cf4f3c");
    assert_eq!(decrypt_cbc(&Vec::new(), &key, &[0u8; 16]), Err(CbcError::BadPadding));
    // A full block of SP 800-38A plaintext does not end in valid padding.
    let ct = unhex("7649abac8119b246cee98e9b12e9197d");
    assert_eq!(decrypt_cbc(&ct, &key, &iv_of(SP_IV)), Err(CbcError::BadPadding));
}
