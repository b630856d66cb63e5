use nist_crypto::pbkdf2::{pbkdf2, HmacPrf, Pbkdf2Error};
use nist_crypto::sha_512::ShaMode;

fn unhex(s: &str) -> Vec<u8> {
    (0..s.len() / 2).map(|i| u8::from_str_radix(&s[2 * i..2 * i + 2], 16).unwrap()).collect()
}

const PRF: HmacPrf = HmacPrf { mode: ShaMode::Sha512 };

#[test]
fn pbkdf2_one_iteration() {
    let dk = pbkdf2(&PRF, &b"password".to_vec(), &b"salt".to_vec(), 1, 64, 64).unwrap();
    assert_eq!(dk, unhex("867f70cf1ade02cff3752599a3a53dc4af34c7a669815ae5d513554e1c8cf252c02d470a285a0501bad999bfe943c08f050235d7d68b1da55e63f73b60a57fce"));
}

#[test]
fn pbkdf2_two_iterations() {
    let dk = pbkdf2(&PRF, &b"password".to_vec(), &b"salt".to_vec(), 2, 64, 64).unwrap();
    assert_eq!(dk, unhex("e1d9c16aa681708a45f5c7c4e215ceb66e011a2e9f0040713f18aefdb866d53cf76cab2868a39b9f7840edce4fef5a82be67335c77a6068e04112754f27ccf4e"));
}

#[test]
fn pbkdf2_two_blocks_many_iterations() {
    let dk = pbkdf2(
        &PRF,
        &b"passwordPASSWORDpassword".to_vec(),
        &b"saltSALTsaltSALTsaltSALTsaltSALTsalt".to_vec(),
        4096,
        128,
        64,
    )
    .unwrap();
    assert_eq!(dk, unhex("8c0511f4c6e597c6ac6315d8f0362e225f3c501495ba23b868c005174dc4ee71115b59f9e60cd9532fa33e0f75aefe30225c583a186cd82bd4daea9724a3d3b804f75bdd41494fa324cab24bcc680fb3b96a30cf5d21fac3c2875913919f3399b1d9ce7eb54c95ba49118596cf7465719bbe02c4ecab1b1541298c321d13c6f6"));
}

#[test]
fn pbkdf2_demo_arguments() {
    let dk = pbkdf2(&PRF, &b"pass".to_vec(), &b"salt".to_vec(), 1, 64, 64).unwrap();
    assert_eq!(dk, unhex("d88a7654a9d4c3fde76fe6666b63c07ed23f6b4a53effa77537773b1150b9f3069faf4c5ddd0b2e2c3ec7698c2c5d0f33a474ddcfd6ae62c848ace302a2d8eb0"));
}

#[test]
fn pbkdf2_is_deterministic() {
    let a = pbkdf2(&PRF, &b"pass".to_vec(), &b"salt".to_vec(), 3, 128, 64);
    let b = pbkdf2(&PRF, &b"pass".to_vec(), &b"salt".to_vec(), 3, 128, 64);
    assert_eq!(a, b);
    assert_eq!(a.unwrap().len(), 128);
}

#[test]
fn pbkdf2_zero_iterations_gives_zeros() {
    let dk = pbkdf2(&PRF, &b"pass".to_vec(), &b"salt".to_vec(), 0, 64, 64).unwrap();
    assert_eq!(dk, vec![0u8; 64]);
}

#[test]
fn pbkdf2_rejects_bad_lengths() {
    let p = b"pass".to_vec();
    let s = b"salt".to_vec();
    assert_eq!(pbkdf2(&PRF, &p, &s, 1, 100, 64), Err(Pbkdf2Error::BadLengths));
    assert_eq!(pbkdf2(&PRF, &p, &s, 1, 64, 0), Err(Pbkdf2Error::BadLengths));
    assert_eq!(pbkdf2(&PRF, &p, &s, 1, 96, 32), Err(Pbkdf2Error::PrfLengthMismatch));
    assert_eq!(pbkdf2(&PRF, &p, &s, 1, 256, 128), Err(Pbkdf2Error::PrfLengthMismatch));
}

#[test]
fn pbkdf2_with_shorter_prf() {
    let prf = HmacPrf { mode: ShaMode::Sha512_256 };
    let dk = pbkdf2(&prf, &b"pass".to_vec(), &b"salt".to_vec(), 1, 64, 32).unwrap();
    assert_eq!(dk.len(), 64);
}
