//! The AES block cipher (FIPS 197) on one 16-byte state.
//!
//! A state holds its 4x4 byte matrix column by column: row `r` of column `c`
//! is byte `4 * c + r`. Key schedule words are big-endian `u32`s.

use vstd::prelude::*;

verus! {

/// The substitution table of SubBytes (section 5.1.1).
pub const SBOX: [u8; 256] = [
    0x63, 0x7c, 0x77, 0x7b, 0xf2, 0x6b, 0x6f, 0xc5, 0x30, 0x01, 0x67, 0x2b, 0xfe, 0xd7, 0xab, 0x76,
    0xca, 0x82, 0xc9, 0x7d, 0xfa, 0x59, 0x47, 0xf0, 0xad, 0xd4, 0xa2, 0xaf, 0x9c, 0xa4, 0x72, 0xc0,
    0xb7, 0xfd, 0x93, 0x26, 0x36, 0x3f, 0xf7, 0xcc, 0x34, 0xa5, 0xe5, 0xf1, 0x71, 0xd8, 0x31, 0x15,
    0x04, 0xc7, 0x23, 0xc3, 0x18, 0x96, 0x05, 0x9a, 0x07, 0x12, 0x80, 0xe2, 0xeb, 0x27, 0xb2, 0x75,
    0x09, 0x83, 0x2c, 0x1a, 0x1b, 0x6e, 0x5a, 0xa0, 0x52, 0x3b, 0xd6, 0xb3, 0x29, 0xe3, 0x2f, 0x84,
    0x53, 0xd1, 0x00, 0xed, 0x20, 0xfc, 0xb1, 0x5b, 0x6a, 0xcb, 0xbe, 0x39, 0x4a, 0x4c, 0x58, 0xcf,
    0xd0, 0xef, 0xaa, 0xfb, 0x43, 0x4d, 0x33, 0x85, 0x45, 0xf9, 0x02, 0x7f, 0x50, 0x3c, 0x9f, 0xa8,
    0x51, 0xa3, 0x40, 0x8f, 0x92, 0x9d, 0x38, 0xf5, 0xbc, 0xb6, 0xda, 0x21, 0x10, 0xff, 0xf3, 0xd2,
    0xcd, 0x0c, 0x13, 0xec, 0x5f, 0x97, 0x44, 0x17, 0xc4, 0xa7, 0x7e, 0x3d, 0x64, 0x5d, 0x19, 0x73,
    0x60, 0x81, 0x4f, 0xdc, 0x22, 0x2a, 0x90, 0x88, 0x46, 0xee, 0xb8, 0x14, 0xde, 0x5e, 0x0b, 0xdb,
    0xe0, 0x32, 0x3a, 0x0a, 0x49, 0x06, 0x24, 0x5c, 0xc2, 0xd3, 0xac, 0x62, 0x91, 0x95, 0xe4, 0x79,
    0xe7, 0xc8, 0x37, 0x6d, 0x8d, 0xd5, 0x4e, 0xa9, 0x6c, 0x56, 0xf4, 0xea, 0x65, 0x7a, 0xae, 0x08,
    0xba, 0x78, 0x25, 0x2e, 0x1c, 0xa6, 0xb4, 0xc6, 0xe8, 0xdd, 0x74, 0x1f, 0x4b, 0xbd, 0x8b, 0x8a,
    0x70, 0x3e, 0xb5, 0x66, 0x48, 0x03, 0xf6, 0x0e, 0x61, 0x35, 0x57, 0xb9, 0x86, 0xc1, 0x1d, 0x9e,
    0xe1, 0xf8, 0x98, 0x11, 0x69, 0xd9, 0x8e, 0x94, 0x9b, 0x1e, 0x87, 0xe9, 0xce, 0x55, 0x28, 0xdf,
    0x8c, 0xa1, 0x89, 0x0d, 0xbf, 0xe6, 0x42, 0x68, 0x41, 0x99, 0x2d, 0x0f, 0xb0, 0x54, 0xbb, 0x16,
];

/// The substitution table of InvSubBytes (section 5.3.2).
pub const INV_SBOX: [u8; 256] = [
    0x52, 0x09, 0x6a, 0xd5, 0x30, 0x36, 0xa5, 0x38, 0xbf, 0x40, 0xa3, 0x9e, 0x81, 0xf3, 0xd7, 0xfb,
    0x7c, 0xe3, 0x39, 0x82, 0x9b, 0x2f, 0xff, 0x87, 0x34, 0x8e, 0x43, 0x44, 0xc4, 0xde, 0xe9, 0xcb,
    0x54, 0x7b, 0x94, 0x32, 0xa6, 0xc2, 0x23, 0x3d, 0xee, 0x4c, 0x95, 0x0b, 0x42, 0xfa, 0xc3, 0x4e,
    0x08, 0x2e, 0xa1, 0x66, 0x28, 0xd9, 0x24, 0xb2, 0x76, 0x5b, 0xa2, 0x49, 0x6d, 0x8b, 0xd1, 0x25,
    0x72, 0xf8, 0xf6, 0x64, 0x86, 0x68, 0x98, 0x16, 0xd4, 0xa4, 0x5c, 0xcc, 0x5d, 0x65, 0xb6, 0x92,
    0x6c, 0x70, 0x48, 0x50, 0xfd, 0xed, 0xb9, 0xda, 0x5e, 0x15, 0x46, 0x57, 0xa7, 0x8d, 0x9d, 0x84,
    0x90, 0xd8, 0xab, 0x00, 0x8c, 0xbc, 0xd3, 0x0a, 0xf7, 0xe4, 0x58, 0x05, 0xb8, 0xb3, 0x45, 0x06,
    0xd0, 0x2c, 0x1e, 0x8f, 0xca, 0x3f, 0x0f, 0x02, 0xc1, 0xaf, 0xbd, 0x03, 0x01, 0x13, 0x8a, 0x6b,
    0x3a, 0x91, 0x11, 0x41, 0x4f, 0x67, 0xdc, 0xea, 0x97, 0xf2, 0xcf, 0xce, 0xf0, 0xb4, 0xe6, 0x73,
    0x96, 0xac, 0x74, 0x22, 0xe7, 0xad, 0x35, 0x85, 0xe2, 0xf9, 0x37, 0xe8, 0x1c, 0x75, 0xdf, 0x6e,
    0x47, 0xf1, 0x1a, 0x71, 0x1d, 0x29, 0xc5, 0x89, 0x6f, 0xb7, 0x62, 0x0e, 0xaa, 0x18, 0xbe, 0x1b,
    0xfc, 0x56, 0x3e, 0x4b, 0xc6, 0xd2, 0x79, 0x20, 0x9a, 0xdb, 0xc0, 0xfe, 0x78, 0xcd, 0x5a, 0xf4,
    0x1f, 0xdd, 0xa8, 0x33, 0x88, 0x07, 0xc7, 0x31, 0xb1, 0x12, 0x10, 0x59, 0x27, 0x80, 0xec, 0x5f,
    0x60, 0x51, 0x7f, 0xa9, 0x19, 0xb5, 0x4a, 0x0d, 0x2d, 0xe5, 0x7a, 0x9f, 0x93, 0xc9, 0x9c, 0xef,
    0xa0, 0xe0, 0x3b, 0x4d, 0xae, 0x2a, 0xf5, 0xb0, 0xc8, 0xeb, 0xbb, 0x3c, 0x83, 0x53, 0x99, 0x61,
    0x17, 0x2b, 0x04, 0x7e, 0xba, 0x77, 0xd6, 0x26, 0xe1, 0x69, 0x14, 0x63, 0x55, 0x21, 0x0c, 0x7d,
];

/// Round constants of the key schedule; entry `j` is `x^(j-1)` in GF(2^8).
pub const RCON: [u8; 11] = [0x00, 0x01, 0x02, 0x04, 0x08, 0x10, 0x20, 0x40, 0x80, 0x1b, 0x36];

/// A 16-byte block as a 4x4 byte matrix, column by column.
pub type State = [u8; 16];

/// Key lengths in bytes that AES accepts.
pub open spec fn key_len_ok(n: nat) -> bool {
    n == 16 || n == 24 || n == 32
}

/// Number of rounds for a key of `nk` words.
pub open spec fn spec_n_rounds(nk: nat) -> nat {
    nk + 6
}

// ---------------------------------------------------------------------------
// Key expansion (section 5.2)
// ---------------------------------------------------------------------------

/// Byte `j` of a word, most significant first.
pub open spec fn word_byte(w: u32, j: int) -> u8 {
    (w >> ((24 - 8 * j) as u32)) as u8
}

pub open spec fn be_u32(b0: u8, b1: u8, b2: u8, b3: u8) -> u32 {
    (b0 as u32) << 24u32 | (b1 as u32) << 16u32 | (b2 as u32) << 8u32 | (b3 as u32)
}

pub open spec fn spec_sub_word(w: u32) -> u32 {
    be_u32(
        SBOX[word_byte(w, 0) as int],
        SBOX[word_byte(w, 1) as int],
        SBOX[word_byte(w, 2) as int],
        SBOX[word_byte(w, 3) as int],
    )
}

pub open spec fn spec_rot_word(w: u32) -> u32 {
    (w << 8u32) | (w >> 24u32)
}

/// Word `i` of the key schedule of `key`, a key of `nk` words.
pub open spec fn key_word(key: Seq<u8>, nk: int, i: int) -> u32
    decreases i,
{
    if nk <= 0 || i < nk {
        be_u32(key[4 * i], key[4 * i + 1], key[4 * i + 2], key[4 * i + 3])
    } else {
        let temp = key_word(key, nk, i - 1);
        let t = if i % nk == 0 {
            spec_sub_word(spec_rot_word(temp)) ^ ((RCON[i / nk] as u32) << 24u32)
        } else if nk > 6 && i % nk == 4 {
            spec_sub_word(temp)
        } else {
            temp
        };
        key_word(key, nk, i - nk) ^ t
    }
}

/// The whole key schedule: `4 * (Nr + 1)` words.
pub open spec fn key_schedule(key: Seq<u8>) -> Seq<u32> {
    let nk = key.len() / 4;
    Seq::new(4 * (spec_n_rounds(nk) + 1), |i: int| key_word(key, nk as int, i))
}

pub fn n_rounds(nk: usize) -> (r: usize)
    requires
        nk <= 8,
    ensures
        r == spec_n_rounds(nk as nat),
{
    nk + 6
}

fn sub_word(w: u32) -> (r: u32)
    ensures
        r == spec_sub_word(w),
{
    let b0 = SBOX[(w >> 24) as u8 as usize];
    let b1 = SBOX[(w >> 16) as u8 as usize];
    let b2 = SBOX[(w >> 8) as u8 as usize];
    let b3 = SBOX[w as u8 as usize];
    assert(word_byte(w, 0) == (w >> 24u32) as u8);
    assert(word_byte(w, 1) == (w >> 16u32) as u8);
    assert(word_byte(w, 2) == (w >> 8u32) as u8);
    assert(w >> 0u32 == w) by (bit_vector);
    assert(word_byte(w, 3) == w as u8);
    (b0 as u32) << 24 | (b1 as u32) << 16 | (b2 as u32) << 8 | (b3 as u32)
}

/// Expands a key of 16, 24 or 32 bytes into its schedule.
pub fn key_expansion(key: &Vec<u8>) -> (w: Vec<u32>)
    requires
        key_len_ok(key@.len()),
    ensures
        w@ == key_schedule(key@),
{
    let nk: usize = key.len() / 4;
    let total: usize = 4 * (n_rounds(nk) + 1);
    let mut w: Vec<u32> = Vec::new();
    let mut i: usize = 0;
    while i < total
        invariant
            nk == key@.len() / 4,
            key_len_ok(key@.len()),
            total == 4 * (spec_n_rounds(nk as nat) + 1),
            i <= total,
            w@.len() == i,
            forall|j: int| 0 <= j < i ==> w@[j] == key_word(key@, nk as int, j),
        decreases total - i,
    {
        if i < nk {
            let v = (key[4 * i] as u32) << 24 | (key[4 * i + 1] as u32) << 16 | (key[4 * i + 2]
                as u32) << 8 | (key[4 * i + 3] as u32);
            w.push(v);
        } else {
            let temp = w[i - 1];
            let t = if i % nk == 0 {
                assert(i / nk <= 10) by (nonlinear_arith)
                    requires
                        i < 4 * (nk + 7),
                        nk >= 4,
                ;
                sub_word((temp << 8) | (temp >> 24)) ^ ((RCON[i / nk] as u32) << 24)
            } else if nk > 6 && i % nk == 4 {
                sub_word(temp)
            } else {
                temp
            };
            w.push(w[i - nk] ^ t);
        }
        i = i + 1;
    }
    assert(w@ =~= key_schedule(key@));
    w
}


// ---------------------------------------------------------------------------
// Round transforms (sections 5.1 and 5.3)
// ---------------------------------------------------------------------------

pub open spec fn sub_bytes_spec(s: Seq<u8>) -> Seq<u8> {
    Seq::new(16, |i: int| SBOX[s[i] as int])
}

pub open spec fn inv_sub_bytes_spec(s: Seq<u8>) -> Seq<u8> {
    Seq::new(16, |i: int| INV_SBOX[s[i] as int])
}

/// Row `r` moves left by `r` columns.
pub open spec fn shift_rows_spec(s: Seq<u8>) -> Seq<u8> {
    Seq::new(16, |i: int| s[i % 4 + 4 * ((i / 4 + i % 4) % 4)])
}

/// Row `r` moves right by `r` columns.
pub open spec fn inv_shift_rows_spec(s: Seq<u8>) -> Seq<u8> {
    Seq::new(16, |i: int| s[i % 4 + 4 * ((i / 4 + 4 - i % 4) % 4)])
}

/// Multiplication by `x` in GF(2^8).
pub open spec fn spec_xtime(b: u8) -> u8 {
    if b & 0x80u8 == 0u8 {
        b << 1u8
    } else {
        (b << 1u8) ^ 0x1bu8
    }
}

pub open spec fn mul3(b: u8) -> u8 {
    spec_xtime(b) ^ b
}

pub open spec fn mul9(b: u8) -> u8 {
    spec_xtime(spec_xtime(spec_xtime(b))) ^ b
}

pub open spec fn mul11(b: u8) -> u8 {
    spec_xtime(spec_xtime(spec_xtime(b))) ^ spec_xtime(b) ^ b
}

pub open spec fn mul13(b: u8) -> u8 {
    spec_xtime(spec_xtime(spec_xtime(b))) ^ spec_xtime(spec_xtime(b)) ^ b
}

pub open spec fn mul14(b: u8) -> u8 {
    spec_xtime(spec_xtime(spec_xtime(b))) ^ spec_xtime(spec_xtime(b)) ^ spec_xtime(b)
}

/// Byte `i` of the state with `k` added to its row index, within its column.
pub open spec fn below(s: Seq<u8>, i: int, k: int) -> u8 {
    s[4 * (i / 4) + (i % 4 + k) % 4]
}

/// Each column times `{03}x^3 + {01}x^2 + {01}x + {02}` modulo `x^4 + 1`.
pub open spec fn mix_columns_spec(s: Seq<u8>) -> Seq<u8> {
    Seq::new(
        16,
        |i: int| spec_xtime(s[i]) ^ mul3(below(s, i, 1)) ^ below(s, i, 2) ^ below(s, i, 3),
    )
}

/// Each column times `{0b}x^3 + {0d}x^2 + {09}x + {0e}` modulo `x^4 + 1`.
pub open spec fn inv_mix_columns_spec(s: Seq<u8>) -> Seq<u8> {
    Seq::new(
        16,
        |i: int| mul14(s[i]) ^ mul11(below(s, i, 1)) ^ mul13(below(s, i, 2)) ^ mul9(below(s, i, 3)),
    )
}

/// XOR with the four schedule words of `round`, one per column.
pub open spec fn add_round_key_spec(s: Seq<u8>, w: Seq<u32>, round: int) -> Seq<u8> {
    Seq::new(16, |i: int| s[i] ^ word_byte(w[4 * round + i / 4], i % 4))
}

/// The state after the initial key addition and `r` full rounds.
pub open spec fn enc_rounds(s: Seq<u8>, w: Seq<u32>, r: int) -> Seq<u8>
    decreases r,
{
    if r <= 0 {
        add_round_key_spec(s, w, 0)
    } else {
        add_round_key_spec(
            mix_columns_spec(shift_rows_spec(sub_bytes_spec(enc_rounds(s, w, r - 1)))),
            w,
            r,
        )
    }
}

/// Cipher (section 5.1) with `nr` rounds.
pub open spec fn cipher_spec(s: Seq<u8>, w: Seq<u32>, nr: int) -> Seq<u8> {
    add_round_key_spec(shift_rows_spec(sub_bytes_spec(enc_rounds(s, w, nr - 1))), w, nr)
}

/// The state after the initial key addition and `k` full inverse rounds.
pub open spec fn dec_rounds(s: Seq<u8>, w: Seq<u32>, nr: int, k: int) -> Seq<u8>
    decreases k,
{
    if k <= 0 {
        add_round_key_spec(s, w, nr)
    } else {
        inv_mix_columns_spec(
            add_round_key_spec(
                inv_sub_bytes_spec(inv_shift_rows_spec(dec_rounds(s, w, nr, k - 1))),
                w,
                nr - k,
            ),
        )
    }
}

/// InvCipher (section 5.3) with `nr` rounds.
pub open spec fn inv_cipher_spec(s: Seq<u8>, w: Seq<u32>, nr: int) -> Seq<u8> {
    add_round_key_spec(inv_sub_bytes_spec(inv_shift_rows_spec(dec_rounds(s, w, nr, nr - 1))), w, 0)
}

fn xtime(b: u8) -> (r: u8)
    ensures
        r == spec_xtime(b),
{
    if b & 0x80u8 == 0 {
        b << 1u8
    } else {
        (b << 1u8) ^ 0x1bu8
    }
}

fn sub_bytes(s: &State) -> (r: State)
    ensures
        r@ == sub_bytes_spec(s@),
{
    let mut r: State = [0u8; 16];
    let mut i: usize = 0;
    while i < 16
        invariant
            i <= 16,
            forall|j: int| 0 <= j < i ==> r@[j] == sub_bytes_spec(s@)[j],
        decreases 16 - i,
    {
        r[i] = SBOX[s[i] as usize];
        i = i + 1;
    }
    assert(r@ =~= sub_bytes_spec(s@));
    r
}

fn inv_sub_bytes(s: &State) -> (r: State)
    ensures
        r@ == inv_sub_bytes_spec(s@),
{
    let mut r: State = [0u8; 16];
    let mut i: usize = 0;
    while i < 16
        invariant
            i <= 16,
            forall|j: int| 0 <= j < i ==> r@[j] == inv_sub_bytes_spec(s@)[j],
        decreases 16 - i,
    {
        r[i] = INV_SBOX[s[i] as usize];
        i = i + 1;
    }
    assert(r@ =~= inv_sub_bytes_spec(s@));
    r
}

fn shift_rows(s: &State) -> (r: State)
    ensures
        r@ == shift_rows_spec(s@),
{
    let mut r: State = [0u8; 16];
    let mut i: usize = 0;
    while i < 16
        invariant
            i <= 16,
            forall|j: int| 0 <= j < i ==> r@[j] == shift_rows_spec(s@)[j],
        decreases 16 - i,
    {
        r[i] = s[i % 4 + 4 * ((i / 4 + i % 4) % 4)];
        i = i + 1;
    }
    assert(r@ =~= shift_rows_spec(s@));
    r
}

fn inv_shift_rows(s: &State) -> (r: State)
    ensures
        r@ == inv_shift_rows_spec(s@),
{
    let mut r: State = [0u8; 16];
    let mut i: usize = 0;
    while i < 16
        invariant
            i <= 16,
            forall|j: int| 0 <= j < i ==> r@[j] == inv_shift_rows_spec(s@)[j],
        decreases 16 - i,
    {
        r[i] = s[i % 4 + 4 * ((i / 4 + 4 - i % 4) % 4)];
        i = i + 1;
    }
    assert(r@ =~= inv_shift_rows_spec(s@));
    r
}

fn mix_columns(s: &State) -> (r: State)
    ensures
        r@ == mix_columns_spec(s@),
{
    let mut r: State = [0u8; 16];
    let mut i: usize = 0;
    while i < 16
        invariant
            i <= 16,
            forall|j: int| 0 <= j < i ==> r@[j] == mix_columns_spec(s@)[j],
        decreases 16 - i,
    {
        let base: usize = 4 * (i / 4);
        let a1 = s[base + (i % 4 + 1) % 4];
        let a2 = s[base + (i % 4 + 2) % 4];
        let a3 = s[base + (i % 4 + 3) % 4];
        r[i] = xtime(s[i]) ^ (xtime(a1) ^ a1) ^ a2 ^ a3;
        i = i + 1;
    }
    assert(r@ =~= mix_columns_spec(s@));
    r
}

fn inv_mix_columns(s: &State) -> (r: State)
    ensures
        r@ == inv_mix_columns_spec(s@),
{
    let mut r: State = [0u8; 16];
    let mut i: usize = 0;
    while i < 16
        invariant
            i <= 16,
            forall|j: int| 0 <= j < i ==> r@[j] == inv_mix_columns_spec(s@)[j],
        decreases 16 - i,
    {
        let base: usize = 4 * (i / 4);
        let a0 = s[i];
        let a1 = s[base + (i % 4 + 1) % 4];
        let a2 = s[base + (i % 4 + 2) % 4];
        let a3 = s[base + (i % 4 + 3) % 4];
        let x0 = xtime(a0);
        let y0 = xtime(x0);
        let z0 = xtime(y0);
        let x1 = xtime(a1);
        let z1 = xtime(xtime(x1));
        let y2 = xtime(xtime(a2));
        let z2 = xtime(y2);
        let z3 = xtime(xtime(xtime(a3)));
        r[i] = (z0 ^ y0 ^ x0) ^ (z1 ^ x1 ^ a1) ^ (z2 ^ y2 ^ a2) ^ (z3 ^ a3);
        i = i + 1;
    }
    assert(r@ =~= inv_mix_columns_spec(s@));
    r
}

fn add_round_key(s: &State, w: &Vec<u32>, round: usize) -> (r: State)
    requires
        4 * round + 4 <= w@.len(),
    ensures
        r@ == add_round_key_spec(s@, w@, round as int),
{
    let mut r: State = [0u8; 16];
    let wl = w.len();
    let mut i: usize = 0;
    while i < 16
        invariant
            i <= 16,
            wl == w@.len(),
            4 * round + 4 <= w@.len(),
            forall|j: int| 0 <= j < i ==> r@[j] == add_round_key_spec(s@, w@, round as int)[j],
        decreases 16 - i,
    {
        let word = w[4 * round + i / 4];
        let b = (word >> (24 - 8 * (i % 4) as u32)) as u8;
        r[i] = s[i] ^ b;
        i = i + 1;
    }
    assert(r@ =~= add_round_key_spec(s@, w@, round as int));
    r
}

/// Enciphers the state in place with the schedule `w` of `nr` rounds.
pub fn cipher_state(state: &mut State, w: &Vec<u32>, nr: usize)
    requires
        1 <= nr <= 14,
        w@.len() == 4 * (nr + 1),
    ensures
        final(state)@ == cipher_spec(old(state)@, w@, nr as int),
{
    let ghost s0 = state@;
    let mut s = add_round_key(state, w, 0);
    let mut round: usize = 1;
    while round < nr
        invariant
            1 <= round <= nr,
            nr <= 14,
            w@.len() == 4 * (nr + 1),
            s@ == enc_rounds(s0, w@, round - 1),
        decreases nr - round,
    {
        let t = sub_bytes(&s);
        let t = shift_rows(&t);
        let t = mix_columns(&t);
        s = add_round_key(&t, w, round);
        round = round + 1;
    }
    let t = sub_bytes(&s);
    let t = shift_rows(&t);
    *state = add_round_key(&t, w, nr);
}

/// Deciphers the state in place with the schedule `w` of `nr` rounds.
pub fn inv_cipher_state(state: &mut State, w: &Vec<u32>, nr: usize)
    requires
        1 <= nr <= 14,
        w@.len() == 4 * (nr + 1),
    ensures
        final(state)@ == inv_cipher_spec(old(state)@, w@, nr as int),
{
    let ghost s0 = state@;
    let mut s = add_round_key(state, w, nr);
    let mut k: usize = 1;
    while k < nr
        invariant
            1 <= k <= nr,
            nr <= 14,
            w@.len() == 4 * (nr + 1),
            s@ == dec_rounds(s0, w@, nr as int, k - 1),
        decreases nr - k,
    {
        let t = inv_shift_rows(&s);
        let t = inv_sub_bytes(&t);
        let t = add_round_key(&t, w, nr - k);
        s = inv_mix_columns(&t);
        k = k + 1;
    }
    let t = inv_shift_rows(&s);
    let t = inv_sub_bytes(&t);
    *state = add_round_key(&t, w, 0);
}

// ---------------------------------------------------------------------------
// InvCipher undoes Cipher
// ---------------------------------------------------------------------------

/// Row 0 of a column after MixColumns, the column being `a0, a1, a2, a3` from row 0.
pub open spec fn mix_byte(a0: u8, a1: u8, a2: u8, a3: u8) -> u8 {
    spec_xtime(a0) ^ mul3(a1) ^ a2 ^ a3
}

proof fn lemma_xtime_form(a: u8)
    ensures
        spec_xtime(a) == ((a << 1u8) ^ (if a & 0x80u8 == 0u8 { 0u8 } else { 0x1bu8 })),
{
    assert((if a & 0x80u8 == 0u8 { a << 1u8 } else { (a << 1u8) ^ 0x1bu8 }) == ((a << 1u8) ^ (
    if a & 0x80u8 == 0u8 { 0u8 } else { 0x1bu8 }))) by (bit_vector);
}

#[verifier::rlimit(100)]
proof fn lemma_inv_mix_byte(a0: u8, a1: u8, a2: u8, a3: u8)
    ensures
        mul14(mix_byte(a0, a1, a2, a3)) ^ mul11(mix_byte(a1, a2, a3, a0)) ^ mul13(
            mix_byte(a2, a3, a0, a1),
        ) ^ mul9(mix_byte(a3, a0, a1, a2)) == a0,
{
    let x0 = spec_xtime(a0);
    let x1 = spec_xtime(a1);
    let x2 = spec_xtime(a2);
    let x3 = spec_xtime(a3);
    let b0 = mix_byte(a0, a1, a2, a3);
    let b1 = mix_byte(a1, a2, a3, a0);
    let b2 = mix_byte(a2, a3, a0, a1);
    let b3 = mix_byte(a3, a0, a1, a2);
    let c0 = spec_xtime(b0);
    let d0 = spec_xtime(c0);
    let e0 = spec_xtime(d0);
    let c1 = spec_xtime(b1);
    let d1 = spec_xtime(c1);
    let e1 = spec_xtime(d1);
    let c2 = spec_xtime(b2);
    let d2 = spec_xtime(c2);
    let e2 = spec_xtime(d2);
    let c3 = spec_xtime(b3);
    let d3 = spec_xtime(c3);
    let e3 = spec_xtime(d3);
    lemma_xtime_form(a0);
    lemma_xtime_form(a1);
    lemma_xtime_form(a2);
    lemma_xtime_form(a3);
    lemma_xtime_form(b0);
    lemma_xtime_form(c0);
    lemma_xtime_form(d0);
    lemma_xtime_form(b1);
    lemma_xtime_form(c1);
    lemma_xtime_form(d1);
    lemma_xtime_form(b2);
    lemma_xtime_form(c2);
    lemma_xtime_form(d2);
    lemma_xtime_form(b3);
    lemma_xtime_form(c3);
    lemma_xtime_form(d3);
    assert((e0 ^ d0 ^ c0) ^ (e1 ^ c1 ^ b1) ^ (e2 ^ d2 ^ b2) ^ (e3 ^ b3) == a0) by (bit_vector)
        requires
            x0 == ((a0 << 1u8) ^ (if a0 & 0x80u8 == 0u8 { 0u8 } else { 0x1bu8 })),
            x1 == ((a1 << 1u8) ^ (if a1 & 0x80u8 == 0u8 { 0u8 } else { 0x1bu8 })),
            x2 == ((a2 << 1u8) ^ (if a2 & 0x80u8 == 0u8 { 0u8 } else { 0x1bu8 })),
            x3 == ((a3 << 1u8) ^ (if a3 & 0x80u8 == 0u8 { 0u8 } else { 0x1bu8 })),
            b0 == x0 ^ (x1 ^ a1) ^ a2 ^ a3,
            b1 == x1 ^ (x2 ^ a2) ^ a3 ^ a0,
            b2 == x2 ^ (x3 ^ a3) ^ a0 ^ a1,
            b3 == x3 ^ (x0 ^ a0) ^ a1 ^ a2,
            c0 == ((b0 << 1u8) ^ (if b0 & 0x80u8 == 0u8 { 0u8 } else { 0x1bu8 })),
            d0 == ((c0 << 1u8) ^ (if c0 & 0x80u8 == 0u8 { 0u8 } else { 0x1bu8 })),
            e0 == ((d0 << 1u8) ^ (if d0 & 0x80u8 == 0u8 { 0u8 } else { 0x1bu8 })),
            c1 == ((b1 << 1u8) ^ (if b1 & 0x80u8 == 0u8 { 0u8 } else { 0x1bu8 })),
            d1 == ((c1 << 1u8) ^ (if c1 & 0x80u8 == 0u8 { 0u8 } else { 0x1bu8 })),
            e1 == ((d1 << 1u8) ^ (if d1 & 0x80u8 == 0u8 { 0u8 } else { 0x1bu8 })),
            c2 == ((b2 << 1u8) ^ (if b2 & 0x80u8 == 0u8 { 0u8 } else { 0x1bu8 })),
            d2 == ((c2 << 1u8) ^ (if c2 & 0x80u8 == 0u8 { 0u8 } else { 0x1bu8 })),
            e2 == ((d2 << 1u8) ^ (if d2 & 0x80u8 == 0u8 { 0u8 } else { 0x1bu8 })),
            c3 == ((b3 << 1u8) ^ (if b3 & 0x80u8 == 0u8 { 0u8 } else { 0x1bu8 })),
            d3 == ((c3 << 1u8) ^ (if c3 & 0x80u8 == 0u8 { 0u8 } else { 0x1bu8 })),
            e3 == ((d3 << 1u8) ^ (if d3 & 0x80u8 == 0u8 { 0u8 } else { 0x1bu8 })),
    ;
}

proof fn lemma_inv_sbox(x: u8)
    ensures
        INV_SBOX[SBOX[x as int] as int] == x,
{
    match x {
        0 => {},
        1 => {},
        2 => {},
        3 => {},
        4 => {},
        5 => {},
        6 => {},
        7 => {},
        8 => {},
        9 => {},
        10 => {},
        11 => {},
        12 => {},
        13 => {},
        14 => {},
        15 => {},
        16 => {},
        17 => {},
        18 => {},
        19 => {},
        20 => {},
        21 => {},
        22 => {},
        23 => {},
        24 => {},
        25 => {},
        26 => {},
        27 => {},
        28 => {},
        29 => {},
        30 => {},
        31 => {},
        32 => {},
        33 => {},
        34 => {},
        35 => {},
        36 => {},
        37 => {},
        38 => {},
        39 => {},
        40 => {},
        41 => {},
        42 => {},
        43 => {},
        44 => {},
        45 => {},
        46 => {},
        47 => {},
        48 => {},
        49 => {},
        50 => {},
        51 => {},
        52 => {},
        53 => {},
        54 => {},
        55 => {},
        56 => {},
        57 => {},
        58 => {},
        59 => {},
        60 => {},
        61 => {},
        62 => {},
        63 => {},
        64 => {},
        65 => {},
        66 => {},
        67 => {},
        68 => {},
        69 => {},
        70 => {},
        71 => {},
        72 => {},
        73 => {},
        74 => {},
        75 => {},
        76 => {},
        77 => {},
        78 => {},
        79 => {},
        80 => {},
        81 => {},
        82 => {},
        83 => {},
        84 => {},
        85 => {},
        86 => {},
        87 => {},
        88 => {},
        89 => {},
        90 => {},
        91 => {},
        92 => {},
        93 => {},
        94 => {},
        95 => {},
        96 => {},
        97 => {},
        98 => {},
        99 => {},
        100 => {},
        101 => {},
        102 => {},
        103 => {},
        104 => {},
        105 => {},
        106 => {},
        107 => {},
        108 => {},
        109 => {},
        110 => {},
        111 => {},
        112 => {},
        113 => {},
        114 => {},
        115 => {},
        116 => {},
        117 => {},
        118 => {},
        119 => {},
        120 => {},
        121 => {},
        122 => {},
        123 => {},
        124 => {},
        125 => {},
        126 => {},
        127 => {},
        128 => {},
        129 => {},
        130 => {},
        131 => {},
        132 => {},
        133 => {},
        134 => {},
        135 => {},
        136 => {},
        137 => {},
        138 => {},
        139 => {},
        140 => {},
        141 => {},
        142 => {},
        143 => {},
        144 => {},
        145 => {},
        146 => {},
        147 => {},
        148 => {},
        149 => {},
        150 => {},
        151 => {},
        152 => {},
        153 => {},
        154 => {},
        155 => {},
        156 => {},
        157 => {},
        158 => {},
        159 => {},
        160 => {},
        161 => {},
        162 => {},
        163 => {},
        164 => {},
        165 => {},
        166 => {},
        167 => {},
        168 => {},
        169 => {},
        170 => {},
        171 => {},
        172 => {},
        173 => {},
        174 => {},
        175 => {},
        176 => {},
        177 => {},
        178 => {},
        179 => {},
        180 => {},
        181 => {},
        182 => {},
        183 => {},
        184 => {},
        185 => {},
        186 => {},
        187 => {},
        188 => {},
        189 => {},
        190 => {},
        191 => {},
        192 => {},
        193 => {},
        194 => {},
        195 => {},
        196 => {},
        197 => {},
        198 => {},
        199 => {},
        200 => {},
        201 => {},
        202 => {},
        203 => {},
        204 => {},
        205 => {},
        206 => {},
        207 => {},
        208 => {},
        209 => {},
        210 => {},
        211 => {},
        212 => {},
        213 => {},
        214 => {},
        215 => {},
        216 => {},
        217 => {},
        218 => {},
        219 => {},
        220 => {},
        221 => {},
        222 => {},
        223 => {},
        224 => {},
        225 => {},
        226 => {},
        227 => {},
        228 => {},
        229 => {},
        230 => {},
        231 => {},
        232 => {},
        233 => {},
        234 => {},
        235 => {},
        236 => {},
        237 => {},
        238 => {},
        239 => {},
        240 => {},
        241 => {},
        242 => {},
        243 => {},
        244 => {},
        245 => {},
        246 => {},
        247 => {},
        248 => {},
        249 => {},
        250 => {},
        251 => {},
        252 => {},
        253 => {},
        254 => {},
        255 => {},
    }
}

proof fn lemma_xor_twice(a: u8, k: u8)
    ensures
        (a ^ k) ^ k == a,
{
    assert((a ^ k) ^ k == a) by (bit_vector);
}

proof fn lemma_inv_mix_columns(s: Seq<u8>)
    requires
        s.len() == 16,
    ensures
        inv_mix_columns_spec(mix_columns_spec(s)) == s,
{
    let m = mix_columns_spec(s);
    assert forall|i: int| 0 <= i < 16 implies #[trigger] inv_mix_columns_spec(m)[i] == s[i] by {
        if i == 0 {
            lemma_inv_mix_byte(s[0], s[1], s[2], s[3]);
        } else if i == 1 {
            lemma_inv_mix_byte(s[1], s[2], s[3], s[0]);
        } else if i == 2 {
            lemma_inv_mix_byte(s[2], s[3], s[0], s[1]);
        } else if i == 3 {
            lemma_inv_mix_byte(s[3], s[0], s[1], s[2]);
        } else if i == 4 {
            lemma_inv_mix_byte(s[4], s[5], s[6], s[7]);
        } else if i == 5 {
            lemma_inv_mix_byte(s[5], s[6], s[7], s[4]);
        } else if i == 6 {
            lemma_inv_mix_byte(s[6], s[7], s[4], s[5]);
        } else if i == 7 {
            lemma_inv_mix_byte(s[7], s[4], s[5], s[6]);
        } else if i == 8 {
            lemma_inv_mix_byte(s[8], s[9], s[10], s[11]);
        } else if i == 9 {
            lemma_inv_mix_byte(s[9], s[10], s[11], s[8]);
        } else if i == 10 {
            lemma_inv_mix_byte(s[10], s[11], s[8], s[9]);
        } else if i == 11 {
            lemma_inv_mix_byte(s[11], s[8], s[9], s[10]);
        } else if i == 12 {
            lemma_inv_mix_byte(s[12], s[13], s[14], s[15]);
        } else if i == 13 {
            lemma_inv_mix_byte(s[13], s[14], s[15], s[12]);
        } else if i == 14 {
            lemma_inv_mix_byte(s[14], s[15], s[12], s[13]);
        } else if i == 15 {
            lemma_inv_mix_byte(s[15], s[12], s[13], s[14]);
        }
    }
    assert(inv_mix_columns_spec(m) =~= s);
}

proof fn lemma_inv_shift_rows(s: Seq<u8>)
    requires
        s.len() == 16,
    ensures
        inv_shift_rows_spec(shift_rows_spec(s)) == s,
{
    assert(inv_shift_rows_spec(shift_rows_spec(s)) =~= s);
}

proof fn lemma_inv_sub_bytes(s: Seq<u8>)
    requires
        s.len() == 16,
    ensures
        inv_sub_bytes_spec(sub_bytes_spec(s)) == s,
{
    assert forall|i: int| 0 <= i < 16 implies #[trigger] inv_sub_bytes_spec(sub_bytes_spec(s))[i]
        == s[i] by {
        lemma_inv_sbox(s[i]);
    }
    assert(inv_sub_bytes_spec(sub_bytes_spec(s)) =~= s);
}

proof fn lemma_add_round_key_twice(s: Seq<u8>, w: Seq<u32>, round: int)
    requires
        s.len() == 16,
    ensures
        add_round_key_spec(add_round_key_spec(s, w, round), w, round) == s,
{
    assert forall|i: int| 0 <= i < 16 implies #[trigger] add_round_key_spec(
        add_round_key_spec(s, w, round),
        w,
        round,
    )[i] == s[i] by {
        lemma_xor_twice(s[i], word_byte(w[4 * round + i / 4], i % 4));
    }
    assert(add_round_key_spec(add_round_key_spec(s, w, round), w, round) =~= s);
}

proof fn lemma_dec_rounds(s: Seq<u8>, w: Seq<u32>, nr: int, k: int)
    requires
        s.len() == 16,
        1 <= nr,
        0 <= k <= nr - 1,
    ensures
        dec_rounds(cipher_spec(s, w, nr), w, nr, k) == shift_rows_spec(
            sub_bytes_spec(enc_rounds(s, w, nr - 1 - k)),
        ),
    decreases k,
{
    let e = enc_rounds(s, w, nr - 1 - k);
    let x = shift_rows_spec(sub_bytes_spec(e));
    if k == 0 {
        lemma_add_round_key_twice(x, w, nr);
    } else {
        lemma_dec_rounds(s, w, nr, k - 1);
        let e1 = enc_rounds(s, w, nr - k);
        let y = mix_columns_spec(x);
        assert(e1 == add_round_key_spec(y, w, nr - k));
        lemma_inv_shift_rows(sub_bytes_spec(e1));
        lemma_inv_sub_bytes(e1);
        assert(inv_sub_bytes_spec(inv_shift_rows_spec(dec_rounds(cipher_spec(s, w, nr), w, nr, k - 1)))
            == e1);
        lemma_add_round_key_twice(y, w, nr - k);
        lemma_inv_mix_columns(x);
    }
}

/// Deciphering a block that was enciphered with the same schedule gives it back.
pub proof fn lemma_inv_cipher_cipher(s: Seq<u8>, w: Seq<u32>, nr: int)
    requires
        s.len() == 16,
        1 <= nr,
    ensures
        inv_cipher_spec(cipher_spec(s, w, nr), w, nr) == s,
{
    lemma_dec_rounds(s, w, nr, nr - 1);
    let e0 = enc_rounds(s, w, 0);
    lemma_inv_shift_rows(sub_bytes_spec(e0));
    lemma_inv_sub_bytes(e0);
    lemma_add_round_key_twice(s, w, 0);
}

} // verus!
