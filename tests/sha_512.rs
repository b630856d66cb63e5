use nist_crypto::sha_512::{hash, hash_384, hash_512, hash_512_224, hash_512_256, ShaMode};

fn unhex(s: &str) -> Vec<u8> {
    (0..s.len() / 2).map(|i| u8::from_str_radix(&s[2 * i..2 * i + 2], 16).unwrap()).collect()
}

#[test]
fn sha512_abc() {
    let d = hash_512(&b"abc".to_vec());
    assert_eq!(d.to_vec(), unhex("ddaf35a193617abacc417349ae20413112e6fa4e89a97ea20a9eeee64b55d39a2192992a274fc1a836ba3c23a3feebbd454d4423643ce80e2a9ac94fa54ca49f"));
}

#[test]
fn sha384_abc() {
    let d = hash_384(&b"abc".to_vec());
    assert_eq!(d.to_vec(), unhex("cb00753f45a35e8bb5a03d699ac65007272c32ab0eded1631a8b605a43ff5bed8086072ba1e7cc2358baeca134c825a7"));
}

#[test]
fn sha512_224_abc() {
    let d = hash_512_224(&b"abc".to_vec());
    assert_eq!(d.to_vec(), unhex("4634270f707b6a54daae7530460842e20e37ed265ceee9a43e8924aa"));
}

#[test]
fn sha512_256_abc() {
    let d = hash_512_256(&b"abc".to_vec());
    assert_eq!(d.to_vec(), unhex("53048e2681941ef99b2e29b76b4c7dabe4c2d0c634fc6d46e0e2f13107e7af23"));
}

#[test]
fn sha512_empty() {
    let d = hash_512(&Vec::new());
    assert_eq!(d.to_vec(), unhex("cf83e1357eefb8bdf1542850d66d8007d620e4050b5715dc83f4a921d36ce9ce47d0d13c5d85f2b0ff8318d2877eec2f63b931bd47417a81a538327af927da3e"));
}

#[test]
fn sha512_two_blocks() {
    let m = b"abcdefghbcdefghicdefghijdefghijkefghijklfghijklmghijklmnhijklmnoijklmnopjklmnopqklmnopqrlmnopqrsmnopqrstnopqrstu".to_vec();
    assert_eq!(hash_512(&m).to_vec(), unhex("8e959b75dae313da8cf4f72814fc143f8f7779c6eb9f7fa17299aeadb6889018501d289e4900f7e4331b99dec4b5433ac7d329eeb6dd26545e96e55b874be909"));
}

#[test]
fn sha512_padding_boundaries() {
    // 111 bytes fit one block; 112 bytes spill the length field into a second one.
    assert_eq!(hash_512(&vec![b'a'; 111]).to_vec(), unhex("fa9121c7b32b9e01733d034cfc78cbf67f926c7ed83e82200ef86818196921760b4beff48404df811b953828274461673c68d04e297b0eb7b2b4d60fc6b566a2"));
    assert_eq!(hash_512(&vec![b'a'; 112]).to_vec(), unhex("c01d080efd492776a1c43bd23dd99d0a2e626d481e16782e75d54c2503b5dc32bd05f0f1ba33e568b88fd2d970929b719ecbb152f58f130a407c8830604b70ca"));
}

#[test]
fn hash_by_mode_matches_variants() {
    let m = b"abc".to_vec();
    assert_eq!(hash(&m, ShaMode::Sha512), hash_512(&m).to_vec());
    assert_eq!(hash(&m, ShaMode::Sha384), hash_384(&m).to_vec());
    assert_eq!(hash(&m, ShaMode::Sha512_224), hash_512_224(&m).to_vec());
    assert_eq!(hash(&m, ShaMode::Sha512_256), hash_512_256(&m).to_vec());
}

#[test]
fn variants_differ() {
    let m = b"the super secret message to cipher".to_vec();
    let a = hash_512(&m).to_vec();
    let b = hash_384(&m).to_vec();
    let c = hash_512_224(&m).to_vec();
    let d = hash_512_256(&m).to_vec();
    // Distinct initial values: no digest is a prefix of another.
    assert_ne!(a[..48], b[..]);
    assert_ne!(a[..28], c[..]);
    assert_ne!(a[..32], d[..]);
    assert_ne!(b[..28], c[..]);
    assert_ne!(b[..32], d[..]);
    assert_ne!(d[..28], c[..]);
}
