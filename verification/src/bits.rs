//! Little-endian bit packing and the canonical 64-byte point code.
//!
//! A curve point is carried through the protocol as the 512 little-endian
//! bits of its two affine coordinates (256 bits each, the top bit of each
//! half always clear because the field modulus is below 2^255).  Its wire
//! form drops the two clear top bits and packs the remaining 510 bits,
//! padded with two zero bits, into 64 bytes, least significant bit of each
//! byte first.

use vstd::prelude::*;

verus! {

/// Bit `i` of a byte string, taking bytes in order and the least
/// significant bit of each byte first.
pub open spec fn bit_of_bytes(b: Seq<u8>, i: int) -> bool {
    (b[i / 8] >> ((i % 8) as u8)) & 1 == 1
}

/// All bits of a byte string, least significant bit of each byte first.
pub open spec fn unpack_bits(b: Seq<u8>) -> Seq<bool> {
    Seq::new((b.len() * 8) as nat, |i: int| bit_of_bytes(b, i))
}

/// The contribution of one bit to a byte: `1 << k` if the bit is set.
pub open spec fn bit1(b: bool, k: u8) -> u8 {
    if b {
        1u8 << k
    } else {
        0u8
    }
}

/// The byte whose little-endian bits are `s[8j .. 8j + 8]`.
pub open spec fn byte_of_bits(s: Seq<bool>, j: int) -> u8 {
    bit1(s[8 * j + 0], 0) | bit1(s[8 * j + 1], 1) | bit1(s[8 * j + 2], 2) | bit1(
        s[8 * j + 3],
        3,
    ) | bit1(s[8 * j + 4], 4) | bit1(s[8 * j + 5], 5) | bit1(s[8 * j + 6], 6) | bit1(
        s[8 * j + 7],
        7,
    )
}

/// A bit string of length `8 n` packed into `n` bytes.
pub open spec fn pack_bits(s: Seq<bool>) -> Seq<u8> {
    Seq::new((s.len() / 8) as nat, |j: int| byte_of_bits(s, j))
}

/// Each bit of a packed byte is the bit it was packed from.
pub proof fn lemma_byte_of_bits(s: Seq<bool>, j: int)
    requires
        0 <= j,
        8 * j + 8 <= s.len(),
    ensures
        forall|k: int|
            0 <= k < 8 ==> (#[trigger] ((byte_of_bits(s, j) >> (k as u8)) & 1) == 1) == s[8 * j
                + k],
{
    let c0: u8 = if s[8 * j + 0] {
        1
    } else {
        0
    };
    let c1: u8 = if s[8 * j + 1] {
        1
    } else {
        0
    };
    let c2: u8 = if s[8 * j + 2] {
        1
    } else {
        0
    };
    let c3: u8 = if s[8 * j + 3] {
        1
    } else {
        0
    };
    let c4: u8 = if s[8 * j + 4] {
        1
    } else {
        0
    };
    let c5: u8 = if s[8 * j + 5] {
        1
    } else {
        0
    };
    let c6: u8 = if s[8 * j + 6] {
        1
    } else {
        0
    };
    let c7: u8 = if s[8 * j + 7] {
        1
    } else {
        0
    };
    let x: u8 = byte_of_bits(s, j);
    assert(x == c0 | (c1 << 1) | (c2 << 2) | (c3 << 3) | (c4 << 4) | (c5 << 5) | (c6 << 6) | (c7
        << 7)) by {
        assert((1u8 << 0) == 1 && (1u8 << 1) == 2 && (1u8 << 2) == 4 && (1u8 << 3) == 8 && (1u8
            << 4) == 16 && (1u8 << 5) == 32 && (1u8 << 6) == 64 && (1u8 << 7) == 128) by (bit_vector);
        assert(((0u8) << 1) == 0 && ((0u8) << 2) == 0 && ((0u8) << 3) == 0 && ((0u8) << 4) == 0 && (
        (0u8) << 5) == 0 && ((0u8) << 6) == 0 && ((0u8) << 7) == 0 && ((1u8) << 1) == 2 && ((1u8)
            << 2) == 4 && ((1u8) << 3) == 8 && ((1u8) << 4) == 16 && ((1u8) << 5) == 32 && ((1u8)
            << 6) == 64 && ((1u8) << 7) == 128) by (bit_vector);
    };
    assert(((x >> 0) & 1 == 1) == (c0 == 1) && ((x >> 1) & 1 == 1) == (c1 == 1) && ((x >> 2) & 1
        == 1) == (c2 == 1) && ((x >> 3) & 1 == 1) == (c3 == 1) && ((x >> 4) & 1 == 1) == (c4 == 1)
        && ((x >> 5) & 1 == 1) == (c5 == 1) && ((x >> 6) & 1 == 1) == (c6 == 1) && ((x >> 7) & 1
        == 1) == (c7 == 1)) by (bit_vector)
        requires
            x == c0 | (c1 << 1) | (c2 << 2) | (c3 << 3) | (c4 << 4) | (c5 << 5) | (c6 << 6) | (c7
                << 7),
            c0 <= 1 && c1 <= 1 && c2 <= 1 && c3 <= 1 && c4 <= 1 && c5 <= 1 && c6 <= 1 && c7 <= 1,
    ;
    assert forall|k: int| 0 <= k < 8 implies (#[trigger] ((byte_of_bits(s, j) >> (k as u8)) & 1)
        == 1) == s[8 * j + k] by {
        if k == 0 {
        } else if k == 1 {
        } else if k == 2 {
        } else if k == 3 {
        } else if k == 4 {
        } else if k == 5 {
        } else if k == 6 {
        } else {
            assert(k == 7);
        }
    };
}

/// Unpacking after packing gives back the bit string.
pub proof fn lemma_unpack_pack(s: Seq<bool>)
    requires
        s.len() % 8 == 0,
    ensures
        unpack_bits(pack_bits(s)) =~= s,
{
    let p = pack_bits(s);
    assert(p.len() * 8 == s.len()) by (nonlinear_arith)
        requires
            p.len() == s.len() / 8,
            s.len() % 8 == 0,
    ;
    assert forall|i: int| 0 <= i < s.len() implies unpack_bits(p)[i] == s[i] by {
        let j = i / 8;
        let k = i % 8;
        assert(0 <= k < 8 && i == 8 * j + k) by (nonlinear_arith)
            requires
                j == i / 8,
                k == i % 8,
                0 <= i,
        ;
        assert(8 * j + 8 <= s.len());
        lemma_byte_of_bits(s, j);
        assert(bit_of_bytes(p, i) == ((p[j] >> (k as u8)) & 1 == 1));
    };
}

/// Packing after unpacking gives back the byte string.
pub proof fn lemma_pack_unpack(b: Seq<u8>)
    ensures
        pack_bits(unpack_bits(b)) =~= b,
{
    let s = unpack_bits(b);
    assert(s.len() == b.len() * 8);
    assert(s.len() / 8 == b.len()) by (nonlinear_arith)
        requires
            s.len() == b.len() * 8,
    ;
    assert forall|j: int| 0 <= j < b.len() implies byte_of_bits(s, j) == b[j] by {
        let x: u8 = b[j];
        assert forall|k: int| 0 <= k < 8 implies s[8 * j + k] == (#[trigger] ((x >> (k as u8)) & 1)
            == 1) by {
            let i = 8 * j + k;
            assert(i / 8 == j && i % 8 == k) by (nonlinear_arith)
                requires
                    i == 8 * j + k,
                    0 <= k < 8,
            ;
        };
        let c0: u8 = if s[8 * j + 0] {
            1
        } else {
            0
        };
        let c1: u8 = if s[8 * j + 1] {
            1
        } else {
            0
        };
        let c2: u8 = if s[8 * j + 2] {
            1
        } else {
            0
        };
        let c3: u8 = if s[8 * j + 3] {
            1
        } else {
            0
        };
        let c4: u8 = if s[8 * j + 4] {
            1
        } else {
            0
        };
        let c5: u8 = if s[8 * j + 5] {
            1
        } else {
            0
        };
        let c6: u8 = if s[8 * j + 6] {
            1
        } else {
            0
        };
        let c7: u8 = if s[8 * j + 7] {
            1
        } else {
            0
        };
        assert(byte_of_bits(s, j) == c0 | (c1 << 1) | (c2 << 2) | (c3 << 3) | (c4 << 4) | (c5 << 5)
            | (c6 << 6) | (c7 << 7)) by {
            assert((1u8 << 0) == 1 && (0u8 << 1) == 0 && (0u8 << 2) == 0 && (0u8 << 3) == 0 && (0u8
                << 4) == 0 && (0u8 << 5) == 0 && (0u8 << 6) == 0 && (0u8 << 7) == 0) by (bit_vector);
        };
        assert(c0 | (c1 << 1) | (c2 << 2) | (c3 << 3) | (c4 << 4) | (c5 << 5) | (c6 << 6) | (c7
            << 7) == x) by (bit_vector)
            requires
                c0 == (if (x >> 0) & 1 == 1 {
                    1u8
                } else {
                    0u8
                }),
                c1 == (if (x >> 1) & 1 == 1 {
                    1u8
                } else {
                    0u8
                }),
                c2 == (if (x >> 2) & 1 == 1 {
                    1u8
                } else {
                    0u8
                }),
                c3 == (if (x >> 3) & 1 == 1 {
                    1u8
                } else {
                    0u8
                }),
                c4 == (if (x >> 4) & 1 == 1 {
                    1u8
                } else {
                    0u8
                }),
                c5 == (if (x >> 5) & 1 == 1 {
                    1u8
                } else {
                    0u8
                }),
                c6 == (if (x >> 6) & 1 == 1 {
                    1u8
                } else {
                    0u8
                }),
                c7 == (if (x >> 7) & 1 == 1 {
                    1u8
                } else {
                    0u8
                }),
        ;
    };
}

/// Packs a bit string whose length is a multiple of eight.
pub fn pack_bit_vec(bits: &Vec<bool>) -> (out: Vec<u8>)
    requires
        bits@.len() % 8 == 0,
    ensures
        out@ == pack_bits(bits@),
{
    let len: usize = bits.len();
    let n: usize = len / 8;
    proof {
        assert(8 * n <= len) by (nonlinear_arith)
            requires
                n == len / 8,
        ;
    }
    let mut out: Vec<u8> = Vec::new();
    let mut j: usize = 0;
    while j < n
        invariant
            j <= n,
            n == bits@.len() / 8,
            8 * n <= bits@.len(),
            8 * n <= usize::MAX,
            out@.len() == j,
            forall|t: int| 0 <= t < j ==> out@[t] == byte_of_bits(bits@, t),
        decreases n - j,
    {
        let base: usize = 8 * j;
        let byte: u8 = (if bits[base] {
            1u8 << 0
        } else {
            0u8
        }) | (if bits[base + 1] {
            1u8 << 1
        } else {
            0u8
        }) | (if bits[base + 2] {
            1u8 << 2
        } else {
            0u8
        }) | (if bits[base + 3] {
            1u8 << 3
        } else {
            0u8
        }) | (if bits[base + 4] {
            1u8 << 4
        } else {
            0u8
        }) | (if bits[base + 5] {
            1u8 << 5
        } else {
            0u8
        }) | (if bits[base + 6] {
            1u8 << 6
        } else {
            0u8
        }) | (if bits[base + 7] {
            1u8 << 7
        } else {
            0u8
        });
        assert(byte == byte_of_bits(bits@, j as int));
        out.push(byte);
        j += 1;
    }
    proof {
        assert(out@ =~= pack_bits(bits@));
    }
    out
}

/// Unpacks a byte string into its bits, least significant bit of each
/// byte first.
pub fn unpack_byte_vec(bytes: &Vec<u8>) -> (out: Vec<bool>)
    requires
        bytes@.len() <= usize::MAX / 8,
    ensures
        out@ == unpack_bits(bytes@),
{
    let mut out: Vec<bool> = Vec::new();
    let mut i: usize = 0;
    while i < bytes.len()
        invariant
            i <= bytes@.len(),
            bytes@.len() <= usize::MAX / 8,
            out@.len() == 8 * i,
            forall|t: int| 0 <= t < 8 * i ==> out@[t] == bit_of_bytes(bytes@, t),
        decreases bytes@.len() - i,
    {
        let x: u8 = bytes[i];
        let mut k: usize = 0;
        while k < 8
            invariant
                k <= 8,
                i < bytes@.len(),
                bytes@.len() <= usize::MAX / 8,
                x == bytes@[i as int],
                out@.len() == 8 * i + k,
                forall|t: int| 0 <= t < 8 * i + k ==> out@[t] == bit_of_bytes(bytes@, t),
            decreases 8 - k,
        {
            out.push((x >> (k as u8)) & 1 == 1);
            proof {
                let t = 8 * (i as int) + k;
                assert(t / 8 == i as int && t % 8 == k as int) by (nonlinear_arith)
                    requires
                        t == 8 * (i as int) + k,
                        0 <= k < 8,
                        0 <= i,
                ;
            }
            k += 1;
        }
        i += 1;
    }
    proof {
        assert(out@ =~= unpack_bits(bytes@));
    }
    out
}

/// The 512-bit stream of a point code: both 255-bit coordinate halves,
/// then two zero pad bits.
pub open spec fn code_stream(cb: Seq<bool>) -> Seq<bool> {
    cb.subrange(0, 255) + cb.subrange(256, 511) + seq![false, false]
}

/// The canonical 64-byte code of a point given as 512 coordinate bits.
pub open spec fn code_of_coord_bits(cb: Seq<bool>) -> Seq<u8> {
    pack_bits(code_stream(cb))
}

/// The 512 coordinate bits read back from a 64-byte point code, with the
/// dropped top bit of each half restored as zero.
pub open spec fn coord_bits_of_code(code: Seq<u8>) -> Seq<bool> {
    let s = unpack_bits(code);
    s.subrange(0, 255) + seq![false] + s.subrange(255, 510) + seq![false]
}

/// Decoding an encoded point gives back its coordinate bits: the heart of
/// the codec round trip.  The two top bits are clear for every point the
/// hashes produce, since the field modulus is below 2^255.
pub proof fn lemma_code_round_trip(cb: Seq<bool>)
    requires
        cb.len() == 512,
        !cb[255],
        !cb[511],
    ensures
        coord_bits_of_code(code_of_coord_bits(cb)) =~= cb,
{
    let stream = code_stream(cb);
    assert(stream.len() == 512);
    lemma_unpack_pack(stream);
    let s = unpack_bits(pack_bits(stream));
    let r = coord_bits_of_code(code_of_coord_bits(cb));
    assert(r.len() == 512);
    assert forall|i: int| 0 <= i < 512 implies r[i] == cb[i] by {
        if i < 255 {
            assert(r[i] == s[i]);
            assert(s[i] == stream[i]);
            assert(stream[i] == cb[i]);
        } else if i == 255 {
            assert(r[i] == false);
        } else if i < 511 {
            assert(r[i] == s[i - 1]);
            assert(s[i - 1] == stream[i - 1]);
            assert(stream[i - 1] == cb[i]);
        } else {
            assert(r[i] == false);
        }
    };
    assert(r =~= cb);
}

/// Encodes 512 coordinate bits as the canonical 64-byte point code.
pub fn encode_coord_bits(cb: &Vec<bool>) -> (out: Vec<u8>)
    requires
        cb@.len() == 512,
    ensures
        out@ == code_of_coord_bits(cb@),
        out@.len() == 64,
{
    let mut stream: Vec<bool> = Vec::new();
    let mut i: usize = 0;
    while i < 255
        invariant
            i <= 255,
            cb@.len() == 512,
            stream@ =~= cb@.subrange(0, i as int),
        decreases 255 - i,
    {
        stream.push(cb[i]);
        i += 1;
    }
    let mut i: usize = 256;
    while i < 511
        invariant
            256 <= i <= 511,
            cb@.len() == 512,
            stream@ =~= cb@.subrange(0, 255) + cb@.subrange(256, i as int),
        decreases 511 - i,
    {
        stream.push(cb[i]);
        i += 1;
    }
    stream.push(false);
    stream.push(false);
    proof {
        assert(stream@ =~= code_stream(cb@));
    }
    let out = pack_bit_vec(&stream);
    assert(out@.len() == 64);
    out
}

/// Reads the 512 coordinate bits back out of a 64-byte point code.
pub fn decode_to_coord_bits(code: &Vec<u8>) -> (out: Vec<bool>)
    requires
        code@.len() == 64,
    ensures
        out@ == coord_bits_of_code(code@),
        out@.len() == 512,
{
    let s = unpack_byte_vec(code);
    let mut out: Vec<bool> = Vec::new();
    let mut i: usize = 0;
    while i < 255
        invariant
            i <= 255,
            s@.len() == 512,
            s@ == unpack_bits(code@),
            out@ =~= s@.subrange(0, i as int),
        decreases 255 - i,
    {
        out.push(s[i]);
        i += 1;
    }
    out.push(false);
    let mut i: usize = 255;
    while i < 510
        invariant
            255 <= i <= 510,
            s@.len() == 512,
            s@ == unpack_bits(code@),
            out@ =~= s@.subrange(0, 255) + seq![false] + s@.subrange(255, i as int),
        decreases 510 - i,
    {
        out.push(s[i]);
        i += 1;
    }
    out.push(false);
    proof {
        assert(out@ =~= coord_bits_of_code(code@));
    }
    out
}

/// Copies a byte vector.
pub fn clone_bytes(v: &Vec<u8>) -> (out: Vec<u8>)
    ensures
        out@ == v@,
{
    let mut out: Vec<u8> = Vec::new();
    let mut i: usize = 0;
    while i < v.len()
        invariant
            i <= v@.len(),
            out@ =~= v@.subrange(0, i as int),
        decreases v@.len() - i,
    {
        out.push(v[i]);
        i += 1;
    }
    proof {
        assert(out@ =~= v@);
    }
    out
}

} // verus!
