//! SHA-512 and its truncated variants (FIPS 180-4).

use vstd::prelude::*;

verus! {

/// Round constants (section 4.2.3).
pub const K: [u64; 80] = [
    0x428a2f98d728ae22, 0x7137449123ef65cd, 0xb5c0fbcfec4d3b2f, 0xe9b5dba58189dbbc,
    0x3956c25bf348b538, 0x59f111f1b605d019, 0x923f82a4af194f9b, 0xab1c5ed5da6d8118,
    0xd807aa98a3030242, 0x12835b0145706fbe, 0x243185be4ee4b28c, 0x550c7dc3d5ffb4e2,
    0x72be5d74f27b896f, 0x80deb1fe3b1696b1, 0x9bdc06a725c71235, 0xc19bf174cf692694,
    0xe49b69c19ef14ad2, 0xefbe4786384f25e3, 0x0fc19dc68b8cd5b5, 0x240ca1cc77ac9c65,
    0x2de92c6f592b0275, 0x4a7484aa6ea6e483, 0x5cb0a9dcbd41fbd4, 0x76f988da831153b5,
    0x983e5152ee66dfab, 0xa831c66d2db43210, 0xb00327c898fb213f, 0xbf597fc7beef0ee4,
    0xc6e00bf33da88fc2, 0xd5a79147930aa725, 0x06ca6351e003826f, 0x142929670a0e6e70,
    0x27b70a8546d22ffc, 0x2e1b21385c26c926, 0x4d2c6dfc5ac42aed, 0x53380d139d95b3df,
    0x650a73548baf63de, 0x766a0abb3c77b2a8, 0x81c2c92e47edaee6, 0x92722c851482353b,
    0xa2bfe8a14cf10364, 0xa81a664bbc423001, 0xc24b8b70d0f89791, 0xc76c51a30654be30,
    0xd192e819d6ef5218, 0xd69906245565a910, 0xf40e35855771202a, 0x106aa07032bbd1b8,
    0x19a4c116b8d2d0c8, 0x1e376c085141ab53, 0x2748774cdf8eeb99, 0x34b0bcb5e19b48a8,
    0x391c0cb3c5c95a63, 0x4ed8aa4ae3418acb, 0x5b9cca4f7763e373, 0x682e6ff3d6b2b8a3,
    0x748f82ee5defb2fc, 0x78a5636f43172f60, 0x84c87814a1f0ab72, 0x8cc702081a6439ec,
    0x90befffa23631e28, 0xa4506cebde82bde9, 0xbef9a3f7b2c67915, 0xc67178f2e372532b,
    0xca273eceea26619c, 0xd186b8c721c0c207, 0xeada7dd6cde0eb1e, 0xf57d4f7fee6ed178,
    0x06f067aa72176fba, 0x0a637dc5a2c898a6, 0x113f9804bef90dae, 0x1b710b35131c471b,
    0x28db77f523047d84, 0x32caab7b40c72493, 0x3c9ebe0a15c9bebc, 0x431d67c49c100d4c,
    0x4cc5d4becb3e42b6, 0x597f299cfc657e2a, 0x5fcb6fab3ad6faec, 0x6c44198c4a475817,
];

/// Initial hash value of SHA-512 (section 5.3.5).
pub const IV_512: [u64; 8] = [
    0x6a09e667f3bcc908, 0xbb67ae8584caa73b, 0x3c6ef372fe94f82b, 0xa54ff53a5f1d36f1,
    0x510e527fade682d1, 0x9b05688c2b3e6c1f, 0x1f83d9abfb41bd6b, 0x5be0cd19137e2179,
];

/// Initial hash value of SHA-384 (section 5.3.4).
pub const IV_384: [u64; 8] = [
    0xcbbb9d5dc1059ed8, 0x629a292a367cd507, 0x9159015a3070dd17, 0x152fecd8f70e5939,
    0x67332667ffc00b31, 0x8eb44a8768581511, 0xdb0c2e0d64f98fa7, 0x47b5481dbefa4fa4,
];

/// Initial hash value of SHA-512/224 (section 5.3.6.1).
pub const IV_512_224: [u64; 8] = [
    0x8C3D37C819544DA2, 0x73E1996689DCD4D6, 0x1DFAB7AE32FF9C82, 0x679DD514582F9FCF,
    0x0F6D2B697BD44DA8, 0x77E36F7304C48942, 0x3F9D85A86A1D36C8, 0x1112E6AD91D692A1,
];

/// Initial hash value of SHA-512/256 (section 5.3.6.2).
pub const IV_512_256: [u64; 8] = [
    0x22312194FC2BF72C, 0x9F555FA3C84C64C2, 0x2393B86B6F53B151, 0x963877195940EABD,
    0x96283EE2A88EFFE3, 0xBE5E1E2553863992, 0x2B0199FC2C85B8AA, 0x0EB72DDC81C52CA2,
];

// ---------------------------------------------------------------------------
// Logical functions (section 4.1.3)
// ---------------------------------------------------------------------------

pub open spec fn spec_rotr(x: u64, n: u32) -> u64 {
    (x >> n) | (x << ((64 - n) as u32))
}

pub open spec fn spec_ch(x: u64, y: u64, z: u64) -> u64 {
    (x & y) ^ (!x & z)
}

pub open spec fn spec_maj(x: u64, y: u64, z: u64) -> u64 {
    (x & y) ^ (x & z) ^ (y & z)
}

pub open spec fn spec_big_sigma0(x: u64) -> u64 {
    spec_rotr(x, 28) ^ spec_rotr(x, 34) ^ spec_rotr(x, 39)
}

pub open spec fn spec_big_sigma1(x: u64) -> u64 {
    spec_rotr(x, 14) ^ spec_rotr(x, 18) ^ spec_rotr(x, 41)
}

pub open spec fn spec_small_sigma0(x: u64) -> u64 {
    spec_rotr(x, 1) ^ spec_rotr(x, 8) ^ (x >> 7u32)
}

pub open spec fn spec_small_sigma1(x: u64) -> u64 {
    spec_rotr(x, 19) ^ spec_rotr(x, 61) ^ (x >> 6u32)
}

fn rotr(x: u64, n: u32) -> (r: u64)
    requires
        0 < n < 64,
    ensures
        r == spec_rotr(x, n),
{
    (x >> n) | (x << (64 - n))
}

fn ch(x: u64, y: u64, z: u64) -> (r: u64)
    ensures
        r == spec_ch(x, y, z),
{
    (x & y) ^ (!x & z)
}

fn maj(x: u64, y: u64, z: u64) -> (r: u64)
    ensures
        r == spec_maj(x, y, z),
{
    (x & y) ^ (x & z) ^ (y & z)
}

fn sigma_cap_0(x: u64) -> (r: u64)
    ensures
        r == spec_big_sigma0(x),
{
    rotr(x, 28) ^ rotr(x, 34) ^ rotr(x, 39)
}

fn sigma_cap_1(x: u64) -> (r: u64)
    ensures
        r == spec_big_sigma1(x),
{
    rotr(x, 14) ^ rotr(x, 18) ^ rotr(x, 41)
}

fn sigma_0(x: u64) -> (r: u64)
    ensures
        r == spec_small_sigma0(x),
{
    rotr(x, 1) ^ rotr(x, 8) ^ (x >> 7)
}

fn sigma_1(x: u64) -> (r: u64)
    ensures
        r == spec_small_sigma1(x),
{
    rotr(x, 19) ^ rotr(x, 61) ^ (x >> 6)
}


// ---------------------------------------------------------------------------
// Padding (section 5.1.2) and parsing (section 5.2.2)
// ---------------------------------------------------------------------------

/// Number of zero bits `k` placed after the `1` bit, for a message of `l` bits:
/// the least `k >= 0` with `l + 1 + k == 896 (mod 1024)`.
pub open spec fn zero_bits(l: nat) -> int {
    if l % 1024 <= 895 {
        895 - l % 1024
    } else {
        1919 - l % 1024
    }
}

/// The 16 big-endian bytes of `x`.
pub open spec fn be_bytes_u128(x: u128) -> Seq<u8> {
    Seq::new(16, |i: int| (x >> ((8 * (15 - i)) as u128)) as u8)
}

/// The padded message: the bytes, `0x80`, zero bytes, and the bit length.
pub open spec fn pad_spec(m: Seq<u8>) -> Seq<u8> {
    m + seq![0x80u8] + Seq::new((zero_bits(8 * m.len()) / 8) as nat, |i: int| 0u8)
        + be_bytes_u128((8 * m.len()) as u128)
}

/// The big-endian 64-bit word held by the eight bytes of `p` from `o` on.
pub open spec fn be_word(p: Seq<u8>, o: int) -> u64 {
    (p[o] as u64) << 56u64 | (p[o + 1] as u64) << 48u64 | (p[o + 2] as u64) << 40u64 | (p[o
        + 3] as u64) << 32u64 | (p[o + 4] as u64) << 24u64 | (p[o + 5] as u64) << 16u64 | (p[o
        + 6] as u64) << 8u64 | (p[o + 7] as u64)
}

/// A padded message as a sequence of blocks of sixteen words.
pub open spec fn blocks_of(p: Seq<u8>) -> Seq<Seq<u64>> {
    Seq::new(p.len() / 128, |i: int| Seq::new(16, |j: int| be_word(p, 128 * i + 8 * j)))
}

pub open spec fn blocks_view(b: Seq<[u64; 16]>) -> Seq<Seq<u64>> {
    b.map_values(|a: [u64; 16]| a@)
}

pub proof fn lemma_pad_len(n: nat)
    ensures
        (n + 1 + zero_bits(8 * n) / 8 + 16) % 128 == 0,
        zero_bits(8 * n) >= 0,
{
    let l = 8 * n;
    assert(l % 1024 == 8 * (n % 128)) by (nonlinear_arith)
        requires
            l == 8 * n,
    ;
    let r = n % 128;
    if r <= 111 {
        assert(zero_bits(l) / 8 == 111 - r);
    } else {
        assert(zero_bits(l) / 8 == 239 - r);
    }
    assert(n == 128 * (n / 128) + r) by (nonlinear_arith)
        requires
            r == n % 128,
    ;
}

fn pad(m: &Vec<u8>) -> (r: Vec<u8>)
    ensures
        r@ == pad_spec(m@),
        r@.len() % 128 == 0,
{
    let mut p = m.clone();
    let l: u128 = 8 * (m.len() as u128);
    let l_: u128 = l % 1024;
    let k: u128 = if l_ <= 895 {
        896 - 1 - l_
    } else {
        1024 - l_ - 1 + 896
    };
    assert(k == zero_bits(8 * m@.len()));
    p.push(0x80u8);
    let zeros: usize = (k / 8) as usize;
    let ghost base = p@;
    let mut i: usize = 0;
    while i < zeros
        invariant
            i <= zeros,
            p@ == base + Seq::new(i as nat, |j: int| 0u8),
        decreases zeros - i,
    {
        p.push(0u8);
        i = i + 1;
        assert(p@ =~= base + Seq::new(i as nat, |j: int| 0u8));
    }
    let ghost base2 = p@;
    let mut j: usize = 0;
    while j < 16
        invariant
            j <= 16,
            p@ == base2 + be_bytes_u128(l).take(j as int),
        decreases 16 - j,
    {
        p.push((l >> (8 * (15 - j as u128))) as u8);
        j = j + 1;
        assert(p@ =~= base2 + be_bytes_u128(l).take(j as int));
    }
    assert(be_bytes_u128(l).take(16) =~= be_bytes_u128(l));
    assert(p@ =~= pad_spec(m@));
    proof {
        lemma_pad_len(m@.len());
    }
    p
}

proof fn lemma_block_index(i: int, j: int, n: int)
    requires
        0 <= i < n / 128,
        0 <= j < 16,
        n >= 0,
    ensures
        128 * i + 8 * j + 7 < n,
{
    assert(128 * (i + 1) <= 128 * (n / 128)) by (nonlinear_arith)
        requires
            i + 1 <= n / 128,
    ;
    assert(128 * (n / 128) <= n) by (nonlinear_arith)
        requires
            n >= 0,
    ;
}

fn io_to_blocks(m: &Vec<u8>) -> (r: Vec<[u64; 16]>)
    requires
        m@.len() % 128 == 0,
    ensures
        blocks_view(r@) == blocks_of(m@),
{
    let nb: usize = m.len() / 128;
    let mut b: Vec<[u64; 16]> = Vec::new();
    let mut i: usize = 0;
    while i < nb
        invariant
            i <= nb,
            nb == m@.len() / 128,
            m@.len() <= usize::MAX,
            b@.len() == i,
            forall|x: int| 0 <= x < i ==> (#[trigger] b@[x])@ == blocks_of(m@)[x],
        decreases nb - i,
    {
        let mut block: [u64; 16] = [0u64; 16];
        let mut j: usize = 0;
        while j < 16
            invariant
                i < nb,
                nb == m@.len() / 128,
                m@.len() <= usize::MAX,
                j <= 16,
                forall|y: int| 0 <= y < j ==> block@[y] == be_word(m@, 128 * i + 8 * y),
            decreases 16 - j,
        {
            proof {
                lemma_block_index(i as int, j as int, m@.len() as int);
                assert(128 * i + 8 * j + 7 < m@.len());
                assert(128 * i <= 128 * i + 8 * j);
            }
            let o: usize = 128 * i + 8 * j;
            let w: u64 = (m[o] as u64) << 56u64 | (m[o + 1] as u64) << 48u64 | (m[o + 2] as u64)
                << 40u64 | (m[o + 3] as u64) << 32u64 | (m[o + 4] as u64) << 24u64 | (m[o + 5]
                as u64) << 16u64 | (m[o + 6] as u64) << 8u64 | (m[o + 7] as u64);
            block[j] = w;
            j = j + 1;
        }
        assert(block@ =~= blocks_of(m@)[i as int]);
        b.push(block);
        i = i + 1;
    }
    assert(blocks_view(b@) =~= blocks_of(m@));
    b
}


// ---------------------------------------------------------------------------
// Hash computation (section 6.4.2)
// ---------------------------------------------------------------------------

/// Word `t` of the message schedule of a block.
pub open spec fn schedule(blk: Seq<u64>, t: int) -> u64
    decreases t,
{
    if t < 16 {
        blk[t]
    } else {
        spec_small_sigma1(schedule(blk, t - 2)).wrapping_add(schedule(blk, t - 7)).wrapping_add(
            spec_small_sigma0(schedule(blk, t - 15)),
        ).wrapping_add(schedule(blk, t - 16))
    }
}

/// The eight working variables a, b, c, d, e, f, g, h.
pub type Vars = (u64, u64, u64, u64, u64, u64, u64, u64);

/// One round of the compression function with constant `kt` and schedule word `wt`.
pub open spec fn round_step(v: Vars, kt: u64, wt: u64) -> Vars {
    let t1 = v.7.wrapping_add(spec_big_sigma1(v.4)).wrapping_add(spec_ch(v.4, v.5, v.6)).wrapping_add(
        kt,
    ).wrapping_add(wt);
    let t2 = spec_big_sigma0(v.0).wrapping_add(spec_maj(v.0, v.1, v.2));
    (t1.wrapping_add(t2), v.0, v.1, v.2, v.3.wrapping_add(t1), v.4, v.5, v.6)
}

/// The working variables after the first `t` rounds on a block.
pub open spec fn rounds(v: Vars, blk: Seq<u64>, t: int) -> Vars
    decreases t,
{
    if t <= 0 {
        v
    } else {
        round_step(rounds(v, blk, t - 1), K[t - 1], schedule(blk, t - 1))
    }
}

/// The hash value after processing one block from hash value `h`.
pub open spec fn compress(h: Seq<u64>, blk: Seq<u64>) -> Seq<u64> {
    let v = rounds((h[0], h[1], h[2], h[3], h[4], h[5], h[6], h[7]), blk, 80);
    seq![
        v.0.wrapping_add(h[0]),
        v.1.wrapping_add(h[1]),
        v.2.wrapping_add(h[2]),
        v.3.wrapping_add(h[3]),
        v.4.wrapping_add(h[4]),
        v.5.wrapping_add(h[5]),
        v.6.wrapping_add(h[6]),
        v.7.wrapping_add(h[7]),
    ]
}

/// The hash value after processing the blocks in order from hash value `h`.
pub open spec fn hash_blocks_spec(h: Seq<u64>, bs: Seq<Seq<u64>>) -> Seq<u64>
    decreases bs.len(),
{
    if bs.len() == 0 {
        h
    } else {
        compress(hash_blocks_spec(h, bs.drop_last()), bs.last())
    }
}

fn hash_blocks(b: &Vec<[u64; 16]>, hash: [u64; 8]) -> (r: [u64; 8])
    ensures
        r@ == hash_blocks_spec(hash@, blocks_view(b@)),
{
    let mut hash = hash;
    let ghost h0 = hash@;
    let n = b.len();
    let mut i: usize = 0;
    assert(blocks_view(b@).take(0) =~= Seq::<Seq<u64>>::empty());
    while i < n
        invariant
            i <= n,
            n == b@.len(),
            hash@ == hash_blocks_spec(h0, blocks_view(b@).take(i as int)),
        decreases n - i,
    {
        let blk: [u64; 16] = b[i];
        // 1 - message schedule
        let mut w: Vec<u64> = Vec::new();
        let mut t: usize = 0;
        while t < 80
            invariant
                t <= 80,
                w@.len() == t,
                forall|x: int| 0 <= x < t ==> w@[x] == schedule(blk@, x),
            decreases 80 - t,
        {
            if t < 16 {
                w.push(blk[t]);
            } else {
                w.push(
                    sigma_1(w[t - 2]).wrapping_add(w[t - 7]).wrapping_add(
                        sigma_0(w[t - 15]),
                    ).wrapping_add(w[t - 16]),
                );
            }
            t = t + 1;
        }
        // 2 - working variables
        let ghost init: Vars = (
            hash@[0],
            hash@[1],
            hash@[2],
            hash@[3],
            hash@[4],
            hash@[5],
            hash@[6],
            hash@[7],
        );
        let mut a = hash[0];
        let mut bb = hash[1];
        let mut c = hash[2];
        let mut d = hash[3];
        let mut e = hash[4];
        let mut f = hash[5];
        let mut g = hash[6];
        let mut h = hash[7];
        // 3 - the eighty rounds
        let mut t: usize = 0;
        while t < 80
            invariant
                t <= 80,
                w@.len() == 80,
                forall|x: int| 0 <= x < 80 ==> w@[x] == schedule(blk@, x),
                (a, bb, c, d, e, f, g, h) == rounds(init, blk@, t as int),
            decreases 80 - t,
        {
            let t1 = h.wrapping_add(sigma_cap_1(e)).wrapping_add(ch(e, f, g)).wrapping_add(
                K[t],
            ).wrapping_add(w[t]);
            let t2 = sigma_cap_0(a).wrapping_add(maj(a, bb, c));
            h = g;
            g = f;
            f = e;
            e = d.wrapping_add(t1);
            d = c;
            c = bb;
            bb = a;
            a = t1.wrapping_add(t2);
            t = t + 1;
        }
        // 4 - intermediate hash value
        hash = [
            a.wrapping_add(hash[0]),
            bb.wrapping_add(hash[1]),
            c.wrapping_add(hash[2]),
            d.wrapping_add(hash[3]),
            e.wrapping_add(hash[4]),
            f.wrapping_add(hash[5]),
            g.wrapping_add(hash[6]),
            h.wrapping_add(hash[7]),
        ];
        proof {
            let bv = blocks_view(b@);
            assert(bv.take(i + 1).drop_last() =~= bv.take(i as int));
            assert(bv.take(i + 1).last() == blk@);
            assert(hash@ =~= compress(hash_blocks_spec(h0, bv.take(i as int)), blk@));
        }
        i = i + 1;
    }
    assert(blocks_view(b@).take(n as int) =~= blocks_view(b@));
    hash
}


// ---------------------------------------------------------------------------
// Digests
// ---------------------------------------------------------------------------

/// The big-endian serialization of a sequence of words.
pub open spec fn words_to_bytes(ws: Seq<u64>) -> Seq<u8> {
    Seq::new(8 * ws.len(), |i: int| (ws[i / 8] >> ((8 * (7 - i % 8)) as u64)) as u8)
}

/// The untruncated final hash value of a message, from initial value `iv`.
pub open spec fn full_digest(iv: Seq<u64>, m: Seq<u8>) -> Seq<u8> {
    words_to_bytes(hash_blocks_spec(iv, blocks_of(pad_spec(m))))
}

/// A member of the SHA-512 family.
#[derive(Clone, Copy, Debug, PartialEq, Eq)]
pub enum ShaMode {
    Sha512,
    Sha384,
    Sha512_224,
    Sha512_256,
}

pub open spec fn mode_iv(mode: ShaMode) -> Seq<u64> {
    match mode {
        ShaMode::Sha512 => IV_512@,
        ShaMode::Sha384 => IV_384@,
        ShaMode::Sha512_224 => IV_512_224@,
        ShaMode::Sha512_256 => IV_512_256@,
    }
}

/// Digest length in bytes.
pub open spec fn digest_len(mode: ShaMode) -> nat {
    match mode {
        ShaMode::Sha512 => 64,
        ShaMode::Sha384 => 48,
        ShaMode::Sha512_224 => 28,
        ShaMode::Sha512_256 => 32,
    }
}

/// The digest of `m` under `mode`: the first bytes of the final hash value.
pub open spec fn digest_spec(mode: ShaMode, m: Seq<u8>) -> Seq<u8> {
    full_digest(mode_iv(mode), m).take(digest_len(mode) as int)
}

pub proof fn lemma_hash_blocks_len(h: Seq<u64>, bs: Seq<Seq<u64>>)
    requires
        h.len() == 8,
    ensures
        hash_blocks_spec(h, bs).len() == 8,
    decreases bs.len(),
{
    if bs.len() > 0 {
        lemma_hash_blocks_len(h, bs.drop_last());
    }
}

/// Every digest has its mode's length.
pub proof fn lemma_digest_len(mode: ShaMode, m: Seq<u8>)
    ensures
        digest_spec(mode, m).len() == digest_len(mode),
{
    lemma_hash_blocks_len(mode_iv(mode), blocks_of(pad_spec(m)));
}

fn hash_to_u8(h: [u64; 8]) -> (r: Vec<u8>)
    ensures
        r@ == words_to_bytes(h@),
{
    let mut out: Vec<u8> = Vec::new();
    let mut i: usize = 0;
    while i < 8
        invariant
            i <= 8,
            out@ =~= words_to_bytes(h@).take(8 * i),
        decreases 8 - i,
    {
        let x = h[i];
        let mut j: u64 = 0;
        while j < 8
            invariant
                i < 8,
                j <= 8,
                x == h@[i as int],
                out@ =~= words_to_bytes(h@).take(8 * i + j),
            decreases 8 - j,
        {
            out.push((x >> (8 * (7 - j))) as u8);
            j = j + 1;
        }
        i = i + 1;
    }
    out
}

/// The first `N` bytes of `t`.
fn truncate<const N: usize>(t: &Vec<u8>) -> (r: [u8; N])
    requires
        N <= t@.len(),
    ensures
        r@ == t@.take(N as int),
{
    let mut r: [u8; N] = [0u8; N];
    let mut i: usize = 0;
    while i < N
        invariant
            i <= N,
            N <= t@.len(),
            r@.len() == N,
            forall|x: int| 0 <= x < i ==> r@[x] == t@[x],
        decreases N - i,
    {
        r[i] = t[i];
        i = i + 1;
    }
    assert(r@ =~= t@.take(N as int));
    r
}

fn hash_blocks_512(b: &Vec<[u64; 16]>) -> (r: [u8; 64])
    ensures
        r@ == words_to_bytes(hash_blocks_spec(IV_512@, blocks_view(b@))).take(64),
{
    let h = hash_blocks(b, IV_512);
    let t = hash_to_u8(h);
    truncate(&t)
}

/// SHA-512 digest of `m`.
pub fn hash_512(m: &Vec<u8>) -> (r: [u8; 64])
    ensures
        r@ == digest_spec(ShaMode::Sha512, m@),
{
    let m = pad(m);
    let b = io_to_blocks(&m);
    hash_blocks_512(&b)
}

fn hash_blocks_384(b: &Vec<[u64; 16]>) -> (r: [u8; 48])
    ensures
        r@ == words_to_bytes(hash_blocks_spec(IV_384@, blocks_view(b@))).take(48),
{
    let h = hash_blocks(b, IV_384);
    let t = hash_to_u8(h);
    truncate(&t)
}

/// SHA-384 digest of `m`.
pub fn hash_384(m: &Vec<u8>) -> (r: [u8; 48])
    ensures
        r@ == digest_spec(ShaMode::Sha384, m@),
{
    let m = pad(m);
    let b = io_to_blocks(&m);
    hash_blocks_384(&b)
}

fn hash_blocks_512_224(b: &Vec<[u64; 16]>) -> (r: [u8; 28])
    ensures
        r@ == words_to_bytes(hash_blocks_spec(IV_512_224@, blocks_view(b@))).take(28),
{
    let h = hash_blocks(b, IV_512_224);
    let t = hash_to_u8(h);
    truncate(&t)
}

/// SHA-512/224 digest of `m`.
pub fn hash_512_224(m: &Vec<u8>) -> (r: [u8; 28])
    ensures
        r@ == digest_spec(ShaMode::Sha512_224, m@),
{
    let m = pad(m);
    let b = io_to_blocks(&m);
    hash_blocks_512_224(&b)
}

fn hash_blocks_512_256(b: &Vec<[u64; 16]>) -> (r: [u8; 32])
    ensures
        r@ == words_to_bytes(hash_blocks_spec(IV_512_256@, blocks_view(b@))).take(32),
{
    let h = hash_blocks(b, IV_512_256);
    let t = hash_to_u8(h);
    truncate(&t)
}

/// SHA-512/256 digest of `m`.
pub fn hash_512_256(m: &Vec<u8>) -> (r: [u8; 32])
    ensures
        r@ == digest_spec(ShaMode::Sha512_256, m@),
{
    let m = pad(m);
    let b = io_to_blocks(&m);
    hash_blocks_512_256(&b)
}

/// The digest of `m` under `mode`, as a byte buffer.
pub fn hash(m: &Vec<u8>, mode: ShaMode) -> (r: Vec<u8>)
    ensures
        r@ == digest_spec(mode, m@),
        r@.len() == digest_len(mode),
{
    proof {
        lemma_digest_len(mode, m@);
    }
    let p = pad(m);
    let b = io_to_blocks(&p);
    let iv = match mode {
        ShaMode::Sha512 => IV_512,
        ShaMode::Sha384 => IV_384,
        ShaMode::Sha512_224 => IV_512_224,
        ShaMode::Sha512_256 => IV_512_256,
    };
    let n: usize = match mode {
        ShaMode::Sha512 => 64,
        ShaMode::Sha384 => 48,
        ShaMode::Sha512_224 => 28,
        ShaMode::Sha512_256 => 32,
    };
    let t = hash_to_u8(hash_blocks(&b, iv));
    let mut out: Vec<u8> = Vec::new();
    let mut i: usize = 0;
    while i < n
        invariant
            i <= n,
            n == digest_len(mode),
            t@ == full_digest(mode_iv(mode), m@),
            t@.len() >= n,
            out@ =~= t@.take(i as int),
        decreases n - i,
    {
        out.push(t[i]);
        i = i + 1;
    }
    out
}

/// The four members of the family give different digests of every message.
pub proof fn lemma_variants_differ(m: Seq<u8>)
    ensures
        digest_spec(ShaMode::Sha512, m) != digest_spec(ShaMode::Sha384, m),
        digest_spec(ShaMode::Sha512, m) != digest_spec(ShaMode::Sha512_224, m),
        digest_spec(ShaMode::Sha512, m) != digest_spec(ShaMode::Sha512_256, m),
        digest_spec(ShaMode::Sha384, m) != digest_spec(ShaMode::Sha512_224, m),
        digest_spec(ShaMode::Sha384, m) != digest_spec(ShaMode::Sha512_256, m),
        digest_spec(ShaMode::Sha512_224, m) != digest_spec(ShaMode::Sha512_256, m),
{
    lemma_digest_len(ShaMode::Sha512, m);
    lemma_digest_len(ShaMode::Sha384, m);
    lemma_digest_len(ShaMode::Sha512_224, m);
    lemma_digest_len(ShaMode::Sha512_256, m);
}

} // verus!
