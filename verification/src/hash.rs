//! The two Pedersen hashes over the embedded Edwards curve.
//!
//! Each hash is a windowed Pedersen sum: the input bytes, zero-padded to
//! 128 bytes, select generator points out of a fixed table of 1024 (256
//! windows of 4 successive doublings), and the selected points are added
//! up.  The generator tables are protocol constants handed in as byte
//! blobs; a `Hash` value holds them as plain bytes, one 128-byte extended
//! coordinate record per generator, so the whole sum is verified code
//! around a single wrapped curve addition.
//!
//! `h1` hashes one byte string.  `h2` hashes two byte strings by first
//! hashing each with `h1` and compressing the two resulting points with
//! the second parameter table.  `h2c` runs the same compression on two
//! already-encoded points.

use vstd::prelude::*;
use crate::bits::{
    code_of_coord_bits, coord_bits_of_code, decode_to_coord_bits, encode_coord_bits,
    lemma_code_round_trip, unpack_bits, unpack_byte_vec,
};
use ark_ec::CurveGroup;
use ark_ff::{BigInteger, PrimeField};

verus! {

/// Number of 4-bit windows of each Pedersen hash.
pub const PEDERSEN_NUM_WINDOWS: usize = 256;

/// Bits per Pedersen window.
pub const PEDERSEN_WINDOW_SIZE: usize = 4;

/// Window shape marker of the two Pedersen hashes: 256 windows of 4 bits,
/// so inputs of up to 1024 bits (128 bytes) are accepted.
pub struct Window4x256;

/// Byte length of a generator record: the four extended coordinates
/// (x, y, t, z) of a curve point, 32 little-endian bytes each.
pub const RAW_POINT_LEN: usize = 128;

/// Byte length of a generator table blob: 1024 generator records.
pub const PARAMS_BLOB_LEN: usize = 131072;

/// Sum of two curve points, both sides carried as the 128 little-endian
/// bytes of their extended coordinates.  The value is fixed by the curve
/// alone, so it gets a name rather than a definition.
pub uninterp spec fn te_add(a: Seq<u8>, b: Seq<u8>) -> Seq<u8>;

/// The 512 little-endian affine coordinate bits (256 of x, then 256 of y)
/// of a point given in extended coordinates.
pub uninterp spec fn te_affine_bits(p: Seq<u8>) -> Seq<bool>;

/// Forces the shape every affine coordinate string has: 512 bits with the
/// top bit of each 256-bit half clear, the field modulus being below
/// 2^255.
pub open spec fn shape512(s: Seq<bool>) -> Seq<bool> {
    Seq::new(512, |i: int| i != 255 && i != 511 && s[i])
}

/// The affine coordinate bits of a point in extended coordinates, in the
/// shape the codec expects.
pub open spec fn affine_bits_of(p: Seq<u8>) -> Seq<bool> {
    shape512(te_affine_bits(p))
}

/// Relies on the twisted Edwards `+` of ark-ec: adds two points carried
/// as extended coordinate bytes.  The formulas are complete, so the call
/// is total.
#[verifier::external_body]
fn point_add_raw(a: &Vec<u8>, b: &Vec<u8>) -> (out: Vec<u8>)
    requires
        a@.len() == 128,
        b@.len() == 128,
    ensures
        out@ == te_add(a@, b@),
        out@.len() == 128,
{
    let f = |v: &Vec<u8>, i: usize| ark_ed_on_bls12_381::Fq::from_le_bytes_mod_order(&v[32 * i..32 * i + 32]);
    let p = ark_ed_on_bls12_381::EdwardsProjective::new_unchecked(f(a, 0), f(a, 1), f(a, 2), f(a, 3));
    let q = ark_ed_on_bls12_381::EdwardsProjective::new_unchecked(f(b, 0), f(b, 1), f(b, 2), f(b, 3));
    let s = p + q;
    let mut out = s.x.into_bigint().to_bytes_le();
    out.extend(s.y.into_bigint().to_bytes_le());
    out.extend(s.t.into_bigint().to_bytes_le());
    out.extend(s.z.into_bigint().to_bytes_le());
    out
}

/// Relies on `into_affine` of ark-ec (normalization by the z coordinate)
/// and the little-endian bit decomposition of ark-ff: turns a point in
/// extended coordinates into its 512 affine coordinate bits.  A record
/// with z = 0 would make the normalization invert zero, so it is mapped
/// to the affine zero point instead: the call is total on all 128-byte
/// records, which honest curve points (whose z stays nonzero under the
/// complete formulas) never reach.
#[verifier::external_body]
fn raw_to_affine_bits(p: &Vec<u8>) -> (out: Vec<bool>)
    requires
        p@.len() == 128,
    ensures
        out@ == shape512(te_affine_bits(p@)),
{
    let f = |i: usize| ark_ed_on_bls12_381::Fq::from_le_bytes_mod_order(&p[32 * i..32 * i + 32]);
    let q = ark_ed_on_bls12_381::EdwardsProjective::new_unchecked(f(0), f(1), f(2), f(3));
    let a = if ark_ff::Zero::is_zero(&q.z) {
        <ark_ed_on_bls12_381::EdwardsAffine as ark_ec::AffineRepr>::zero()
    } else {
        q.into_affine()
    };
    let mut bits = a.x.into_bigint().to_bits_le();
    bits.extend(a.y.into_bigint().to_bits_le());
    bits
}

/// Extended coordinates of the identity point (0, 1, 0, 1).
pub open spec fn raw_identity() -> Seq<u8> {
    Seq::new(128, |i: int| if i == 32 || i == 96 { 1u8 } else { 0u8 })
}

fn make_raw_identity() -> (out: Vec<u8>)
    ensures
        out@ == raw_identity(),
{
    let mut out: Vec<u8> = Vec::new();
    let mut i: usize = 0;
    while i < 128
        invariant
            i <= 128,
            out@.len() == i,
            forall|t: int| 0 <= t < i ==> out@[t] == raw_identity()[t],
        decreases 128 - i,
    {
        if i == 32 || i == 96 {
            out.push(1u8);
        } else {
            out.push(0u8);
        }
        i += 1;
    }
    proof {
        assert(out@ =~= raw_identity());
    }
    out
}

/// The Pedersen sum after the first `k` bits: each set bit adds the
/// generator of its position.
pub open spec fn msm_fold(gens: Seq<Seq<u8>>, bs: Seq<bool>, k: int) -> Seq<u8>
    decreases k,
{
    if k <= 0 {
        raw_identity()
    } else if bs[k - 1] {
        te_add(msm_fold(gens, bs, k - 1), gens[k - 1])
    } else {
        msm_fold(gens, bs, k - 1)
    }
}

/// A well-formed generator table: 1024 records of 128 bytes.
pub open spec fn wf_gens(gens: Seq<Seq<u8>>) -> bool {
    &&& gens.len() == 1024
    &&& forall|i: int| 0 <= i < 1024 ==> (#[trigger] gens[i]).len() == 128
}

/// The generator records cut out of a parameter blob.
pub open spec fn gens_of_blob(blob: Seq<u8>) -> Seq<Seq<u8>> {
    Seq::new(1024, |w: int| blob.subrange(128 * w, 128 * w + 128))
}

spec fn vecs_view(g: Seq<Vec<u8>>) -> Seq<Seq<u8>> {
    Seq::new(g.len(), |i: int| g[i]@)
}

/// Runs the Pedersen sum over all 1024 selection bits.
fn msm(gens: &Vec<Vec<u8>>, bs: &Vec<bool>) -> (out: Vec<u8>)
    requires
        wf_gens(vecs_view(gens@)),
        bs@.len() == 1024,
    ensures
        out@ == msm_fold(vecs_view(gens@), bs@, 1024),
        out@.len() == 128,
{
    let mut acc: Vec<u8> = make_raw_identity();
    let mut k: usize = 0;
    while k < 1024
        invariant
            k <= 1024,
            wf_gens(vecs_view(gens@)),
            bs@.len() == 1024,
            acc@ == msm_fold(vecs_view(gens@), bs@, k as int),
            acc@.len() == 128,
        decreases 1024 - k,
    {
        if bs[k] {
            assert(vecs_view(gens@)[k as int] == gens@[k as int]@);
            acc = point_add_raw(&acc, &gens[k]);
        }
        k += 1;
    }
    acc
}

/// A byte string zero-padded to the 128-byte Pedersen input size.
pub open spec fn pad128(input: Seq<u8>) -> Seq<u8> {
    input + Seq::new((128 - input.len()) as nat, |i: int| 0u8)
}

/// The affine coordinate bits of the Pedersen hash of a byte string.
pub open spec fn pedersen_bits(gens: Seq<Seq<u8>>, input: Seq<u8>) -> Seq<bool> {
    affine_bits_of(msm_fold(gens, unpack_bits(pad128(input)), 1024))
}

/// The canonical 64-byte code of the Pedersen hash of a byte string.
pub open spec fn pedersen_code(gens: Seq<Seq<u8>>, input: Seq<u8>) -> Seq<u8> {
    code_of_coord_bits(pedersen_bits(gens, input))
}

/// The affine coordinate bits of the two-to-one compression of two
/// points, each given as affine coordinate bits: their 1024 concatenated
/// bits select from the second generator table.
pub open spec fn compress_bits(g2: Seq<Seq<u8>>, l: Seq<bool>, r: Seq<bool>) -> Seq<bool> {
    affine_bits_of(msm_fold(g2, l + r, 1024))
}

/// The canonical 64-byte code of the two-to-one compression.
pub open spec fn compress_code(g2: Seq<Seq<u8>>, l: Seq<bool>, r: Seq<bool>) -> Seq<u8> {
    code_of_coord_bits(compress_bits(g2, l, r))
}

/// What `h2` returns: both operands hashed with the first table, the two
/// points compressed with the second.
pub open spec fn h2_code(g1: Seq<Seq<u8>>, g2: Seq<Seq<u8>>, a: Seq<u8>, b: Seq<u8>) -> Seq<u8> {
    compress_code(g2, pedersen_bits(g1, a), pedersen_bits(g1, b))
}

/// What `h2c` returns: two encoded points decoded and compressed with the
/// second table.
pub open spec fn h2c_code(g2: Seq<Seq<u8>>, l: Seq<u8>, r: Seq<u8>) -> Seq<u8> {
    compress_code(g2, coord_bits_of_code(l), coord_bits_of_code(r))
}

/// The two fixed-parameter hashes.  Holds both generator tables as plain
/// bytes.
pub struct Hash {
    h1_gens: Vec<Vec<u8>>,
    h2_gens: Vec<Vec<u8>>,
}

impl Hash {
    /// The first generator table, as read by the contracts.
    pub closed spec fn g1(&self) -> Seq<Seq<u8>> {
        vecs_view(self.h1_gens@)
    }

    /// The second generator table.
    pub closed spec fn g2(&self) -> Seq<Seq<u8>> {
        vecs_view(self.h2_gens@)
    }

    /// Both tables have their 1024 records of 128 bytes.
    pub open spec fn wf(&self) -> bool {
        wf_gens(self.g1()) && wf_gens(self.g2())
    }

    /// Builds the hashes from the two parameter blobs.  Fails exactly
    /// when a blob does not hold 1024 records of 128 bytes.
    pub fn from_params(h1_blob: &[u8], h2_blob: &[u8]) -> (out: Option<Hash>)
        ensures
            out is Some <==> (h1_blob@.len() == PARAMS_BLOB_LEN && h2_blob@.len()
                == PARAMS_BLOB_LEN),
            out is Some ==> out->0.wf() && out->0.g1() == gens_of_blob(h1_blob@) && out->0.g2()
                == gens_of_blob(h2_blob@),
    {
        if h1_blob.len() != PARAMS_BLOB_LEN || h2_blob.len() != PARAMS_BLOB_LEN {
            return None;
        }
        let h1_gens = cut_blob(h1_blob);
        let h2_gens = cut_blob(h2_blob);
        let h = Hash { h1_gens, h2_gens };
        proof {
            assert(h.g1() =~= gens_of_blob(h1_blob@));
            assert(h.g2() =~= gens_of_blob(h2_blob@));
            assert(wf_gens(h.g1())) by {
                assert forall|i: int| 0 <= i < 1024 implies (#[trigger] h.g1()[i]).len() == 128 by {
                    assert(h.g1()[i] == h1_blob@.subrange(128 * i, 128 * i + 128));
                }
            }
            assert(wf_gens(h.g2())) by {
                assert forall|i: int| 0 <= i < 1024 implies (#[trigger] h.g2()[i]).len() == 128 by {
                    assert(h.g2()[i] == h2_blob@.subrange(128 * i, 128 * i + 128));
                }
            }
        }
        Some(h)
    }

    /// Hashes a byte string of at most 128 bytes to an encoded point.
    pub fn h1(&self, input: &[u8]) -> (out: Vec<u8>)
        requires
            self.wf(),
            input@.len() <= 128,
        ensures
            out@ == pedersen_code(self.g1(), input@),
            out@.len() == 64,
    {
        let cb = self.h1_bits(input);
        encode_coord_bits(&cb)
    }

    /// Hashes a byte string to the affine coordinate bits of its point.
    pub(crate) fn h1_bits(&self, input: &[u8]) -> (out: Vec<bool>)
        requires
            self.wf(),
            input@.len() <= 128,
        ensures
            out@ == pedersen_bits(self.g1(), input@),
            out@.len() == 512,
    {
        let mut padded: Vec<u8> = Vec::new();
        let mut i: usize = 0;
        while i < input.len()
            invariant
                i <= input@.len(),
                padded@ =~= input@.subrange(0, i as int),
            decreases input@.len() - i,
        {
            padded.push(input[i]);
            i += 1;
        }
        while padded.len() < 128
            invariant
                input@.len() <= padded@.len() <= 128,
                padded@ =~= pad128(input@).subrange(0, padded@.len() as int),
            decreases 128 - padded@.len(),
        {
            padded.push(0u8);
        }
        proof {
            assert(padded@ =~= pad128(input@));
        }
        let bs = unpack_byte_vec(&padded);
        let p = msm(&self.h1_gens, &bs);
        raw_to_affine_bits(&p)
    }

    /// Compresses two points, given as affine coordinate bits, with the
    /// second table.
    pub(crate) fn compress(&self, l: &Vec<bool>, r: &Vec<bool>) -> (out: Vec<u8>)
        requires
            self.wf(),
            l@.len() == 512,
            r@.len() == 512,
        ensures
            out@ == compress_code(self.g2(), l@, r@),
            out@.len() == 64,
    {
        let cb = self.compress_to_bits(l, r);
        encode_coord_bits(&cb)
    }

    /// Compresses two points, given as affine coordinate bits, with the
    /// second table, keeping the result as coordinate bits.
    pub(crate) fn compress_to_bits(&self, l: &Vec<bool>, r: &Vec<bool>) -> (out: Vec<bool>)
        requires
            self.wf(),
            l@.len() == 512,
            r@.len() == 512,
        ensures
            out@ == compress_bits(self.g2(), l@, r@),
            out@.len() == 512,
    {
        let mut bs: Vec<bool> = Vec::new();
        let mut i: usize = 0;
        while i < 512
            invariant
                i <= 512,
                l@.len() == 512,
                bs@ =~= l@.subrange(0, i as int),
            decreases 512 - i,
        {
            bs.push(l[i]);
            i += 1;
        }
        let mut i: usize = 0;
        while i < 512
            invariant
                i <= 512,
                l@.len() == 512,
                r@.len() == 512,
                bs@ =~= l@ + r@.subrange(0, i as int),
            decreases 512 - i,
        {
            bs.push(r[i]);
            i += 1;
        }
        proof {
            assert(bs@ =~= l@ + r@);
        }
        let p = msm(&self.h2_gens, &bs);
        raw_to_affine_bits(&p)
    }

    /// Hashes two byte strings of at most 128 bytes each to an encoded
    /// point: each is hashed with `h1`, the two points are compressed.
    pub fn h2(&self, left: &[u8], right: &[u8]) -> (out: Vec<u8>)
        requires
            self.wf(),
            left@.len() <= 128,
            right@.len() <= 128,
        ensures
            out@ == h2_code(self.g1(), self.g2(), left@, right@),
            out@.len() == 64,
    {
        let lb = self.h1_bits(left);
        let rb = self.h1_bits(right);
        self.compress(&lb, &rb)
    }

    /// Compresses two already-encoded points.
    pub fn h2c(&self, left: &[u8], right: &[u8]) -> (out: Vec<u8>)
        requires
            self.wf(),
            left@.len() == 64,
            right@.len() == 64,
        ensures
            out@ == h2c_code(self.g2(), left@, right@),
            out@.len() == 64,
    {
        let lv = slice_to_vec64(left);
        let rv = slice_to_vec64(right);
        let lb = decode_to_coord_bits(&lv);
        let rb = decode_to_coord_bits(&rv);
        self.compress(&lb, &rb)
    }
}

fn slice_to_vec64(s: &[u8]) -> (out: Vec<u8>)
    requires
        s@.len() == 64,
    ensures
        out@ == s@,
{
    let mut out: Vec<u8> = Vec::new();
    let mut i: usize = 0;
    while i < 64
        invariant
            i <= 64,
            s@.len() == 64,
            out@ =~= s@.subrange(0, i as int),
        decreases 64 - i,
    {
        out.push(s[i]);
        i += 1;
    }
    proof {
        assert(out@ =~= s@);
    }
    out
}

fn cut_blob(blob: &[u8]) -> (out: Vec<Vec<u8>>)
    requires
        blob@.len() == PARAMS_BLOB_LEN,
    ensures
        vecs_view(out@) =~= gens_of_blob(blob@),
{
    let mut out: Vec<Vec<u8>> = Vec::new();
    let mut w: usize = 0;
    while w < 1024
        invariant
            w <= 1024,
            blob@.len() == PARAMS_BLOB_LEN,
            out@.len() == w,
            forall|t: int| 0 <= t < w ==> #[trigger] out@[t]@ =~= blob@.subrange(
                128 * t,
                128 * t + 128,
            ),
        decreases 1024 - w,
    {
        let mut rec: Vec<u8> = Vec::new();
        let mut i: usize = 0;
        while i < 128
            invariant
                i <= 128,
                w < 1024,
                blob@.len() == PARAMS_BLOB_LEN,
                rec@ =~= blob@.subrange(128 * (w as int), 128 * (w as int) + i as int),
            decreases 128 - i,
        {
            rec.push(blob[128 * w + i]);
            i += 1;
        }
        out.push(rec);
        w += 1;
    }
    out
}

/// Decoding the encoding of any point the hashes produce gives the
/// point back: the codec round trip, stated for hash outputs.
pub proof fn lemma_hash_code_round_trip(gens: Seq<Seq<u8>>, input: Seq<u8>)
    ensures
        coord_bits_of_code(pedersen_code(gens, input)) == pedersen_bits(gens, input),
{
    lemma_code_round_trip(pedersen_bits(gens, input));
}

/// Hashing two byte strings with `h2` and compressing their two `h1`
/// points with `h2c` agree: the compressor sees the same coordinate bits
/// either way, because decoding an encoded point gives its bits back.
pub proof fn lemma_h2_composes(g1: Seq<Seq<u8>>, g2: Seq<Seq<u8>>, a: Seq<u8>, b: Seq<u8>)
    ensures
        h2_code(g1, g2, a, b) == h2c_code(g2, pedersen_code(g1, a), pedersen_code(g1, b)),
{
    lemma_code_round_trip(pedersen_bits(g1, a));
    lemma_code_round_trip(pedersen_bits(g1, b));
}

} // verus!
