//! PBKDF2 (RFC 8018) over an injected pseudorandom function.

use crate::hmac::{hmac, hmac_spec};
use crate::sha_512::{digest_len, ShaMode};
use vstd::prelude::*;

verus! {

/// A pseudorandom function from a key and data to a fixed-length output.
pub trait Prf {
    /// What the function returns.
    spec fn prf_spec(&self, key: Seq<u8>, data: Seq<u8>) -> Seq<u8>;

    /// The length of every output.
    spec fn out_len(&self) -> nat;

    fn apply(&self, key: Vec<u8>, data: Vec<u8>) -> (r: Vec<u8>)
        ensures
            r@ == self.prf_spec(key@, data@),
            r@.len() == self.out_len(),
    ;
}

/// HMAC with a member of the SHA-512 family, as a pseudorandom function.
#[derive(Clone, Copy, Debug)]
pub struct HmacPrf {
    pub mode: ShaMode,
}

impl Prf for HmacPrf {
    open spec fn prf_spec(&self, key: Seq<u8>, data: Seq<u8>) -> Seq<u8> {
        hmac_spec(self.mode, key, data)
    }

    open spec fn out_len(&self) -> nat {
        digest_len(self.mode)
    }

    fn apply(&self, key: Vec<u8>, data: Vec<u8>) -> (r: Vec<u8>) {
        hmac(&key, &data, self.mode)
    }
}

/// Why a derivation was refused.
#[derive(Clone, Copy, Debug, PartialEq, Eq)]
pub enum Pbkdf2Error {
    /// The block length is zero or does not divide the derived-key length.
    BadLengths,
    /// The block length is not the length of the function's output.
    PrfLengthMismatch,
    /// More than 2^32 - 1 blocks are asked for.
    KeyTooLong,
}

/// The four big-endian bytes of `i`.
pub open spec fn be32(i: u32) -> Seq<u8> {
    seq![(i >> 24u32) as u8, (i >> 16u32) as u8, (i >> 8u32) as u8, i as u8]
}

/// Byte-wise XOR of two sequences, as long as the first.
pub open spec fn xor_seq(a: Seq<u8>, b: Seq<u8>) -> Seq<u8> {
    Seq::new(a.len(), |x: int| a[x] ^ b[x])
}

/// `U_j` for block `i`: `U_1 = PRF(P, S || INT(i))`, `U_j = PRF(P, U_{j-1})`.
pub open spec fn u_iter<P: Prf>(prf: P, pw: Seq<u8>, salt: Seq<u8>, i: u32, j: nat) -> Seq<u8>
    decreases j,
{
    if j <= 1 {
        prf.prf_spec(pw, salt + be32(i))
    } else {
        prf.prf_spec(pw, u_iter(prf, pw, salt, i, (j - 1) as nat))
    }
}

/// `U_1 ^ ... ^ U_c`, over the first `h` bytes.
pub open spec fn f_spec<P: Prf>(prf: P, pw: Seq<u8>, salt: Seq<u8>, c: nat, h: nat, i: u32) -> Seq<u8>
    decreases c,
{
    if c == 0 {
        Seq::new(h, |x: int| 0u8)
    } else {
        xor_seq(f_spec(prf, pw, salt, (c - 1) as nat, h, i), u_iter(prf, pw, salt, i, c))
    }
}

/// Blocks `T_1 .. T_n` concatenated.
pub open spec fn blocks_spec<P: Prf>(prf: P, pw: Seq<u8>, salt: Seq<u8>, c: nat, h: nat, n: nat) -> Seq<u8>
    decreases n,
{
    if n == 0 {
        Seq::empty()
    } else {
        blocks_spec(prf, pw, salt, c, h, (n - 1) as nat) + f_spec(prf, pw, salt, c, h, n as u32)
    }
}

/// The derived key of `dk_len` bytes, made of blocks of `h_len` bytes.
pub open spec fn pbkdf2_spec<P: Prf>(
    prf: P,
    pw: Seq<u8>,
    salt: Seq<u8>,
    c: nat,
    dk_len: nat,
    h_len: nat,
) -> Seq<u8> {
    blocks_spec(prf, pw, salt, c, h_len, dk_len / h_len)
}

/// The error, if any, that a derivation with these lengths meets.
pub open spec fn pbkdf2_error(out_len: nat, dk_len: nat, h_len: nat) -> Option<Pbkdf2Error> {
    if h_len == 0 || dk_len % h_len != 0 {
        Some(Pbkdf2Error::BadLengths)
    } else if h_len != out_len {
        Some(Pbkdf2Error::PrfLengthMismatch)
    } else if dk_len / h_len > u32::MAX {
        Some(Pbkdf2Error::KeyTooLong)
    } else {
        None
    }
}

/// What a derivation returns: the error its lengths meet, or the derived key.
pub open spec fn pbkdf2_result<P: Prf>(
    prf: P,
    pw: Seq<u8>,
    salt: Seq<u8>,
    c: nat,
    dk_len: nat,
    h_len: nat,
) -> Result<Seq<u8>, Pbkdf2Error> {
    match pbkdf2_error(prf.out_len(), dk_len, h_len) {
        Some(e) => Err(e),
        None => Ok(pbkdf2_spec(prf, pw, salt, c, dk_len, h_len)),
    }
}

pub open spec fn result_view(r: Result<Vec<u8>, Pbkdf2Error>) -> Result<Seq<u8>, Pbkdf2Error> {
    match r {
        Ok(v) => Ok(v@),
        Err(e) => Err(e),
    }
}

pub proof fn lemma_f_len<P: Prf>(prf: P, pw: Seq<u8>, salt: Seq<u8>, c: nat, h: nat, i: u32)
    ensures
        f_spec(prf, pw, salt, c, h, i).len() == h,
    decreases c,
{
    if c > 0 {
        lemma_f_len(prf, pw, salt, (c - 1) as nat, h, i);
    }
}

/// Block `T_i` of the derived key.
fn pbkdf2_block<P: Prf>(
    prf: &P,
    password: &Vec<u8>,
    salt: &Vec<u8>,
    c: usize,
    h_len_bytes: usize,
    i: u32,
) -> (r: Vec<u8>)
    requires
        h_len_bytes == prf.out_len(),
    ensures
        r@ == f_spec(*prf, password@, salt@, c as nat, h_len_bytes as nat, i),
{
    let mut u: Vec<u8> = salt.clone();
    u.push((i >> 24) as u8);
    u.push((i >> 16) as u8);
    u.push((i >> 8) as u8);
    u.push(i as u8);
    assert(u@ =~= salt@ + be32(i));
    // The XOR of U_1 .. U_j is folded into one accumulator.
    let mut res: Vec<u8> = vec![0u8; h_len_bytes];
    assert(res@ =~= f_spec(*prf, password@, salt@, 0, h_len_bytes as nat, i));
    let mut j: usize = 0;
    while j < c
        invariant
            j <= c,
            h_len_bytes == prf.out_len(),
            res@ == f_spec(*prf, password@, salt@, j as nat, h_len_bytes as nat, i),
            j == 0 ==> u@ == salt@ + be32(i),
            j > 0 ==> u@ == u_iter(*prf, password@, salt@, i, j as nat),
        decreases c - j,
    {
        u = prf.apply(password.clone(), u);
        assert(u@ == u_iter(*prf, password@, salt@, i, (j + 1) as nat));
        let ghost prev = res@;
        proof {
            lemma_f_len(*prf, password@, salt@, j as nat, h_len_bytes as nat, i);
        }
        let mut x: usize = 0;
        while x < h_len_bytes
            invariant
                x <= h_len_bytes,
                h_len_bytes == prf.out_len(),
                u@.len() == h_len_bytes,
                res@.len() == h_len_bytes,
                prev.len() == h_len_bytes,
                forall|y: int| 0 <= y < x ==> res@[y] == prev[y] ^ u@[y],
                forall|y: int| x <= y < h_len_bytes ==> res@[y] == prev[y],
            decreases h_len_bytes - x,
        {
            let v = res[x] ^ u[x];
            res.set(x, v);
            x = x + 1;
        }
        assert(res@ =~= xor_seq(prev, u@));
        assert(res@ == f_spec(*prf, password@, salt@, (j + 1) as nat, h_len_bytes as nat, i));
        j = j + 1;
    }
    res
}

/// Derives `dk_len_bytes` bytes from `password` and `salt` with `c` iterations of `prf`,
/// in blocks of `h_len_bytes`.
pub fn pbkdf2<P: Prf>(
    prf: &P,
    password: &Vec<u8>,
    salt: &Vec<u8>,
    c: usize,
    dk_len_bytes: usize,
    h_len_bytes: usize,
) -> (r: Result<Vec<u8>, Pbkdf2Error>)
    ensures
        result_view(r) == pbkdf2_result(
            *prf,
            password@,
            salt@,
            c as nat,
            dk_len_bytes as nat,
            h_len_bytes as nat,
        ),
{
    // The lengths must agree with each other and with the function.
    let sample = prf.apply(vec![0u8], vec![0u8]);
    if h_len_bytes == 0 || dk_len_bytes % h_len_bytes != 0 {
        return Err(Pbkdf2Error::BadLengths);
    }
    if sample.len() == 0 || h_len_bytes % sample.len() != 0 || h_len_bytes > sample.len() {
        proof {
            if h_len_bytes == prf.out_len() {
                assert(h_len_bytes % h_len_bytes == 0) by (nonlinear_arith)
                    requires
                        h_len_bytes > 0,
                ;
            }
        }
        return Err(Pbkdf2Error::PrfLengthMismatch);
    }
    proof {
        if h_len_bytes < sample@.len() {
            assert((h_len_bytes as int) % (sample@.len() as int) == h_len_bytes as int) by (nonlinear_arith)
                requires
                    0 < h_len_bytes < sample@.len(),
            ;
        }
    }
    let n: usize = dk_len_bytes / h_len_bytes;
    if n > 0xffff_ffff {
        return Err(Pbkdf2Error::KeyTooLong);
    }
    let mut res: Vec<u8> = Vec::new();
    let mut i: usize = 0;
    while i < n
        invariant
            i <= n,
            n <= u32::MAX,
            h_len_bytes == prf.out_len(),
            res@ == blocks_spec(*prf, password@, salt@, c as nat, h_len_bytes as nat, i as nat),
        decreases n - i,
    {
        let t = pbkdf2_block(prf, password, salt, c, h_len_bytes, (i + 1) as u32);
        let mut x: usize = 0;
        let ghost prev = res@;
        while x < t.len()
            invariant
                x <= t@.len(),
                res@ =~= prev + t@.take(x as int),
            decreases t@.len() - x,
        {
            res.push(t[x]);
            x = x + 1;
        }
        assert(t@.take(t@.len() as int) =~= t@);
        i = i + 1;
    }
    Ok(res)
}

/// Deriving twice from the same arguments gives the same outcome: the contract of
/// `pbkdf2` leaves no room for hidden randomness.
pub proof fn lemma_pbkdf2_deterministic<P: Prf>(
    prf: P,
    pw: Seq<u8>,
    salt: Seq<u8>,
    c: nat,
    dk_len: nat,
    h_len: nat,
    r1: Result<Vec<u8>, Pbkdf2Error>,
    r2: Result<Vec<u8>, Pbkdf2Error>,
)
    requires
        result_view(r1) == pbkdf2_result(prf, pw, salt, c, dk_len, h_len),
        result_view(r2) == pbkdf2_result(prf, pw, salt, c, dk_len, h_len),
    ensures
        r1.is_ok() == r2.is_ok(),
        r1.is_ok() ==> r1.unwrap()@ == r2.unwrap()@,
        r1.is_err() ==> r1 == r2,
{
}

} // verus!
