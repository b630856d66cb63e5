//! AES in CBC mode (SP 800-38A, section 6.2) with PKCS#7 padding.

use crate::aes::{
    cipher_spec, cipher_state, inv_cipher_spec, inv_cipher_state, key_expansion, key_len_ok,
    key_schedule, lemma_inv_cipher_cipher, n_rounds, State,
};
use vstd::prelude::*;

verus! {

/// Why a ciphertext was refused.
#[derive(Clone, Copy, Debug, PartialEq, Eq)]
pub enum CbcError {
    /// The ciphertext length is not a multiple of 16.
    Misaligned,
    /// The recovered plaintext does not end in PKCS#7 padding.
    BadPadding,
}

/// PKCS#7: `n` bytes of value `n`, where `n = 16 - len % 16` (so 16 on a full block).
pub open spec fn pkcs7_pad(p: Seq<u8>) -> Seq<u8> {
    let n = 16 - p.len() % 16;
    p + Seq::new(n as nat, |j: int| n as u8)
}

/// Block `i` of a buffer.
pub open spec fn block_at(p: Seq<u8>, i: int) -> Seq<u8> {
    p.subrange(16 * i, 16 * i + 16)
}

pub open spec fn xor16(a: Seq<u8>, b: Seq<u8>) -> Seq<u8> {
    Seq::new(16, |j: int| a[j] ^ b[j])
}

pub open spec fn rounds_of(key: Seq<u8>) -> int {
    (key.len() / 4 + 6) as int
}

/// Ciphertext block `i` of the padded plaintext `pp`: `C_i = E(P_i ^ C_{i-1})`, `C_{-1} = IV`.
pub open spec fn ct_block(pp: Seq<u8>, key: Seq<u8>, iv: Seq<u8>, i: int) -> Seq<u8>
    decreases i,
{
    let chain = if i <= 0 {
        iv
    } else {
        ct_block(pp, key, iv, i - 1)
    };
    cipher_spec(xor16(block_at(pp, i), chain), key_schedule(key), rounds_of(key))
}

/// The ciphertext of `p`: the blocks `C_i` of its padded form, concatenated.
pub open spec fn cbc_encrypt_spec(p: Seq<u8>, key: Seq<u8>, iv: Seq<u8>) -> Seq<u8> {
    let pp = pkcs7_pad(p);
    Seq::new(pp.len(), |j: int| ct_block(pp, key, iv, j / 16)[j % 16])
}

/// Plaintext block `i` of ciphertext `c`: `P_i = D(C_i) ^ C_{i-1}`, `C_{-1} = IV`.
pub open spec fn pt_block(c: Seq<u8>, key: Seq<u8>, iv: Seq<u8>, i: int) -> Seq<u8> {
    let chain = if i <= 0 {
        iv
    } else {
        block_at(c, i - 1)
    };
    xor16(inv_cipher_spec(block_at(c, i), key_schedule(key), rounds_of(key)), chain)
}

/// The deciphered blocks of `c`, padding included.
pub open spec fn cbc_decrypt_raw(c: Seq<u8>, key: Seq<u8>, iv: Seq<u8>) -> Seq<u8> {
    Seq::new(c.len(), |j: int| pt_block(c, key, iv, j / 16)[j % 16])
}

/// `d` ends in `n` bytes of value `n`, for some `n` in `1..=16`.
pub open spec fn padding_ok(d: Seq<u8>) -> bool {
    &&& d.len() > 0
    &&& 1 <= d.last() <= 16
    &&& d.last() <= d.len()
    &&& forall|j: int| d.len() - d.last() <= j < d.len() ==> d[j] == d.last()
}

/// `d` without its padding, if it has one.
pub open spec fn unpad_spec(d: Seq<u8>) -> Result<Seq<u8>, CbcError> {
    if padding_ok(d) {
        Ok(d.take(d.len() - d.last()))
    } else {
        Err(CbcError::BadPadding)
    }
}

pub open spec fn cbc_decrypt_spec(c: Seq<u8>, key: Seq<u8>, iv: Seq<u8>) -> Result<Seq<u8>, CbcError> {
    if c.len() % 16 != 0 {
        Err(CbcError::Misaligned)
    } else {
        unpad_spec(cbc_decrypt_raw(c, key, iv))
    }
}

pub open spec fn result_view(r: Result<Vec<u8>, CbcError>) -> Result<Seq<u8>, CbcError> {
    match r {
        Ok(v) => Ok(v@),
        Err(e) => Err(e),
    }
}

/// The 16 bytes of `b` from `off` on, as a state.
fn io_to_state(b: &Vec<u8>, off: usize) -> (r: State)
    requires
        off + 16 <= b@.len(),
    ensures
        r@ == b@.subrange(off as int, off + 16),
{
    let mut r: State = [0u8; 16];
    let bl = b.len();
    let mut i: usize = 0;
    while i < 16
        invariant
            i <= 16,
            bl == b@.len(),
            off + 16 <= b@.len(),
            forall|j: int| 0 <= j < i ==> r@[j] == b@[off + j],
        decreases 16 - i,
    {
        r[i] = b[off + i];
        i = i + 1;
    }
    assert(r@ =~= b@.subrange(off as int, off + 16));
    r
}

/// Appends the bytes of a state, column by column.
fn state_to_io(out: &mut Vec<u8>, s: &State)
    ensures
        final(out)@ == old(out)@ + s@,
{
    let mut i: usize = 0;
    while i < 16
        invariant
            i <= 16,
            out@ =~= old(out)@ + s@.take(i as int),
        decreases 16 - i,
    {
        out.push(s[i]);
        i = i + 1;
    }
    assert(s@.take(16) =~= s@);
}

fn xor_state(a: &State, b: &State) -> (r: State)
    ensures
        r@ == xor16(a@, b@),
{
    let mut r: State = [0u8; 16];
    let mut i: usize = 0;
    while i < 16
        invariant
            i <= 16,
            forall|j: int| 0 <= j < i ==> r@[j] == a@[j] ^ b@[j],
        decreases 16 - i,
    {
        r[i] = a[i] ^ b[i];
        i = i + 1;
    }
    assert(r@ =~= xor16(a@, b@));
    r
}

proof fn lemma_block_bytes(i: int, j: int)
    requires
        16 * i <= j < 16 * i + 16,
    ensures
        j / 16 == i,
        j % 16 == j - 16 * i,
{
}

/// Encrypts `plain` under a key of 16, 24 or 32 bytes with initialization vector `iv`.
pub fn encrypt_cbc(plain: &Vec<u8>, k: &Vec<u8>, iv: &State) -> (r: Vec<u8>)
    requires
        key_len_ok(k@.len()),
    ensures
        r@ == cbc_encrypt_spec(plain@, k@, iv@),
        r@.len() == plain@.len() + 16 - plain@.len() % 16,
{
    // PKCS#7 padding
    let n_padding: u8 = (16 - plain.len() % 16) as u8;
    let mut pp: Vec<u8> = plain.clone();
    let mut x: u8 = 0;
    while x < n_padding
        invariant
            x <= n_padding,
            n_padding == 16 - plain@.len() % 16,
            pp@ =~= plain@ + Seq::new(x as nat, |j: int| n_padding),
        decreases n_padding - x,
    {
        pp.push(n_padding);
        x = x + 1;
    }
    assert(pp@ =~= pkcs7_pad(plain@));
    let nr = n_rounds(k.len() / 4);
    let w = key_expansion(k);
    let nb: usize = pp.len() / 16;
    assert(pp@.len() == 16 * nb);
    let mut out: Vec<u8> = Vec::new();
    let mut prev: State = *iv;
    let mut i: usize = 0;
    while i < nb
        invariant
            i <= nb,
            pp@ == pkcs7_pad(plain@),
            pp@.len() == 16 * nb,
            pp@.len() <= usize::MAX,
            key_len_ok(k@.len()),
            nr == rounds_of(k@),
            w@ == key_schedule(k@),
            out@.len() == 16 * i,
            forall|j: int| 0 <= j < 16 * i ==> out@[j] == ct_block(pp@, k@, iv@, j / 16)[j % 16],
            i == 0 ==> prev@ == iv@,
            i > 0 ==> prev@ == ct_block(pp@, k@, iv@, i - 1),
        decreases nb - i,
    {
        let p = io_to_state(&pp, 16 * i);
        let mut s = xor_state(&p, &prev);
        cipher_state(&mut s, &w, nr);
        assert(s@ == ct_block(pp@, k@, iv@, i as int));
        let ghost before = out@;
        state_to_io(&mut out, &s);
        assert forall|j: int| 0 <= j < 16 * (i + 1) implies out@[j] == ct_block(
            pp@,
            k@,
            iv@,
            j / 16,
        )[j % 16] by {
            if j >= 16 * i {
                lemma_block_bytes(i as int, j);
            }
        }
        prev = s;
        i = i + 1;
    }
    assert(out@ =~= cbc_encrypt_spec(plain@, k@, iv@));
    out
}

/// Strips PKCS#7 padding, refusing a buffer that does not end in it.
fn unpad(plain: &Vec<u8>) -> (r: Result<Vec<u8>, CbcError>)
    ensures
        result_view(r) == unpad_spec(plain@),
{
    let len = plain.len();
    if len == 0 {
        return Err(CbcError::BadPadding);
    }
    let n = plain[len - 1];
    if n == 0 || n > 16 || n as usize > len {
        return Err(CbcError::BadPadding);
    }
    let start: usize = len - n as usize;
    let mut j: usize = start;
    while j < len
        invariant
            len == plain@.len(),
            len > 0,
            n == plain@[len - 1],
            start == len - n,
            start <= j <= len,
            forall|y: int| start <= y < j ==> plain@[y] == n,
        decreases len - j,
    {
        if plain[j] != n {
            return Err(CbcError::BadPadding);
        }
        j = j + 1;
    }
    let mut out: Vec<u8> = Vec::new();
    let mut y: usize = 0;
    while y < start
        invariant
            start <= plain@.len(),
            y <= start,
            out@ =~= plain@.take(y as int),
        decreases start - y,
    {
        out.push(plain[y]);
        y = y + 1;
    }
    Ok(out)
}

/// Decrypts `ciphertext` and strips its PKCS#7 padding.
pub fn decrypt_cbc(ciphertext: &Vec<u8>, k: &Vec<u8>, iv: &State) -> (r: Result<Vec<u8>, CbcError>)
    requires
        key_len_ok(k@.len()),
    ensures
        result_view(r) == cbc_decrypt_spec(ciphertext@, k@, iv@),
{
    if ciphertext.len() % 16 != 0 {
        return Err(CbcError::Misaligned);
    }
    let nr = n_rounds(k.len() / 4);
    let w = key_expansion(k);
    let nb: usize = ciphertext.len() / 16;
    let mut plain: Vec<u8> = Vec::new();
    let mut previous_cipher_block: State = *iv;
    let mut i: usize = 0;
    while i < nb
        invariant
            i <= nb,
            ciphertext@.len() == 16 * nb,
            ciphertext@.len() <= usize::MAX,
            key_len_ok(k@.len()),
            nr == rounds_of(k@),
            w@ == key_schedule(k@),
            plain@.len() == 16 * i,
            forall|j: int|
                0 <= j < 16 * i ==> plain@[j] == pt_block(ciphertext@, k@, iv@, j / 16)[j % 16],
            i == 0 ==> previous_cipher_block@ == iv@,
            i > 0 ==> previous_cipher_block@ == block_at(ciphertext@, i - 1),
        decreases nb - i,
    {
        let mut s = io_to_state(ciphertext, 16 * i);
        let current_cipher_block = s;
        inv_cipher_state(&mut s, &w, nr);
        let s = xor_state(&s, &previous_cipher_block);
        assert(s@ == pt_block(ciphertext@, k@, iv@, i as int));
        state_to_io(&mut plain, &s);
        assert forall|j: int| 0 <= j < 16 * (i + 1) implies plain@[j] == pt_block(
            ciphertext@,
            k@,
            iv@,
            j / 16,
        )[j % 16] by {
            if j >= 16 * i {
                lemma_block_bytes(i as int, j);
            }
        }
        previous_cipher_block = current_cipher_block;
        i = i + 1;
    }
    assert(plain@ =~= cbc_decrypt_raw(ciphertext@, k@, iv@));
    unpad(&plain)
}

proof fn lemma_xor16_twice(a: Seq<u8>, b: Seq<u8>)
    requires
        a.len() == 16,
    ensures
        xor16(xor16(a, b), b) == a,
{
    assert forall|j: int| 0 <= j < 16 implies #[trigger] xor16(xor16(a, b), b)[j] == a[j] by {
        let x = a[j];
        let y = b[j];
        assert((x ^ y) ^ y == x) by (bit_vector);
    }
    assert(xor16(xor16(a, b), b) =~= a);
}

/// Block `i` of the ciphertext is `C_i`.
proof fn lemma_ct_block_at(p: Seq<u8>, key: Seq<u8>, iv: Seq<u8>, i: int)
    requires
        0 <= i < pkcs7_pad(p).len() / 16,
        pkcs7_pad(p).len() % 16 == 0,
    ensures
        block_at(cbc_encrypt_spec(p, key, iv), i) == ct_block(pkcs7_pad(p), key, iv, i),
{
    let pp = pkcs7_pad(p);
    let c = cbc_encrypt_spec(p, key, iv);
    assert(16 * i + 16 <= pp.len());
    assert forall|j: int| 0 <= j < 16 implies #[trigger] block_at(c, i)[j] == ct_block(
        pp,
        key,
        iv,
        i,
    )[j] by {
        lemma_block_bytes(i, 16 * i + j);
    }
    assert(block_at(c, i) =~= ct_block(pp, key, iv, i));
}

/// Deciphering the ciphertext block by block gives the padded plaintext back.
proof fn lemma_decrypt_raw_encrypt(p: Seq<u8>, key: Seq<u8>, iv: Seq<u8>)
    requires
        key_len_ok(key.len()),
        iv.len() == 16,
    ensures
        cbc_decrypt_raw(cbc_encrypt_spec(p, key, iv), key, iv) == pkcs7_pad(p),
{
    let pp = pkcs7_pad(p);
    let c = cbc_encrypt_spec(p, key, iv);
    let w = key_schedule(key);
    let nr = rounds_of(key);
    assert(pp.len() % 16 == 0);
    assert forall|i: int| 0 <= i < pp.len() / 16 implies #[trigger] pt_block(c, key, iv, i)
        == block_at(pp, i) by {
        lemma_ct_block_at(p, key, iv, i);
        let chain = if i <= 0 {
            iv
        } else {
            lemma_ct_block_at(p, key, iv, i - 1);
            ct_block(pp, key, iv, i - 1)
        };
        let x = xor16(block_at(pp, i), chain);
        lemma_inv_cipher_cipher(x, w, nr);
        assert(16 * i + 16 <= pp.len());
        lemma_xor16_twice(block_at(pp, i), chain);
    }
    assert forall|j: int| 0 <= j < pp.len() implies #[trigger] cbc_decrypt_raw(c, key, iv)[j]
        == pp[j] by {
        let i = j / 16;
        assert(0 <= i < pp.len() / 16);
        assert(pt_block(c, key, iv, i) == block_at(pp, i));
        assert(16 * i <= j < 16 * i + 16);
    }
    assert(cbc_decrypt_raw(c, key, iv) =~= pp);
}

/// For every key of a valid length, every IV and every plaintext, decryption undoes
/// encryption.
pub proof fn lemma_cbc_round_trip(p: Seq<u8>, key: Seq<u8>, iv: Seq<u8>)
    requires
        key_len_ok(key.len()),
        iv.len() == 16,
    ensures
        cbc_decrypt_spec(cbc_encrypt_spec(p, key, iv), key, iv) == Ok::<Seq<u8>, CbcError>(p),
{
    let pp = pkcs7_pad(p);
    lemma_decrypt_raw_encrypt(p, key, iv);
    let n = 16 - p.len() % 16;
    assert(pp.last() == n);
    assert(padding_ok(pp));
    assert(pp.take(pp.len() - pp.last()) =~= p);
}

/// A plaintext of whole blocks still gets a full block of padding: the ciphertext is
/// exactly 16 bytes longer.
pub proof fn lemma_aligned_padding(p: Seq<u8>, key: Seq<u8>, iv: Seq<u8>)
    requires
        p.len() % 16 == 0,
    ensures
        pkcs7_pad(p) == p + Seq::new(16, |j: int| 16u8),
        cbc_encrypt_spec(p, key, iv).len() == p.len() + 16,
{
    assert(pkcs7_pad(p) =~= p + Seq::new(16, |j: int| 16u8));
}

} // verus!
