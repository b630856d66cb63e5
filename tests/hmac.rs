use nist_crypto::hmac::hmac;
use nist_crypto::sha_512::ShaMode;

fn unhex(s: &str) -> Vec<u8> {
    (0..s.len() / 2).map(|i| u8::from_str_radix(&s[2 * i..2 * i + 2], 16).unwrap()).collect()
}

#[test]
fn hmac_sha512_short_key() {
    let mac = hmac(&vec![0x0b; 20], &b"Hi There".to_vec(), ShaMode::Sha512);
    assert_eq!(mac, unhex("87aa7cdea5ef619d4ff0b4241a1d6cb02379f4e2ce4ec2787ad0b30545e17cdedaa833b7d6b8a702038b274eaea3f4e4be9d914eeb61f1702e696c203a126854"));
}

#[test]
fn hmac_sha512_jefe() {
    let mac = hmac(&b"Jefe".to_vec(), &b"what do ya want for nothing?".to_vec(), ShaMode::Sha512);
    assert_eq!(mac, unhex("164b7a7bfcf819e2e395fbe73b56e0a387bd64222e831fd610270cd7ea2505549758bf75c05a994a6d034f65f8f0e6fdcaeab1a34d4a6b4b636e070a38bce737"));
}

#[test]
fn hmac_sha512_long_key() {
    let mac = hmac(
        &vec![0xaa; 131],
        &b"Test Using Larger Than Block-Size Key - Hash Key First".to_vec(),
        ShaMode::Sha512,
    );
    assert_eq!(mac, unhex("80b24263c7c1a3ebb71493c1dd7be8b49b46d1f41b4aeec1121b013783f8f3526b56d037e05f2598bd0fd2215d6a1e5295e64f73f63f0aec8b915a985d786598"));
}

#[test]
fn hmac_sha384_block_sized_key() {
    let mac = hmac(&vec![b'k'; 128], &b"msg".to_vec(), ShaMode::Sha384);
    assert_eq!(mac, unhex("b8407dea3d822f8388f8fb4d12e82204c1aec220f49332d1d9e7da173f6cfc963504750e9e874bb91eca764df57aeb29"));
}
