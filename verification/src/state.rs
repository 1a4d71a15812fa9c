//! The store codec for lists of 64-byte fields.
//!
//! The store keeps each list (leaves, nullifiers, unclaimed and
//! revealed keys) as the plain concatenation of its 64-byte entries,
//! with no length prefix: the count is the byte length divided by 64.

use vstd::prelude::*;

verus! {

/// The byte strings a vector of 64-byte arrays holds.
pub open spec fn arrays_view(v: Seq<[u8; 64]>) -> Seq<Seq<u8>> {
    Seq::new(v.len(), |i: int| v[i]@)
}

/// A byte string cut into its 64-byte entries.
pub open spec fn chunks64(b: Seq<u8>) -> Seq<Seq<u8>> {
    Seq::new(b.len() / 64, |k: int| b.subrange(64 * k, 64 * k + 64))
}

/// Concatenates a list of 64-byte entries, no length prefix.
pub fn encode(v: &Vec<[u8; 64]>) -> (out: Vec<u8>)
    ensures
        out@.len() == 64 * v@.len(),
        chunks64(out@) == arrays_view(v@),
{
    let mut out: Vec<u8> = Vec::new();
    let mut i: usize = 0;
    while i < v.len()
        invariant
            i <= v@.len(),
            out@.len() == 64 * i,
            forall|k: int|
                0 <= k < i ==> out@.subrange(64 * k, 64 * k + 64) =~= (#[trigger] v@[k])@,
        decreases v@.len() - i,
    {
        let entry = &v[i];
        let mut t: usize = 0;
        while t < 64
            invariant
                t <= 64,
                i < v@.len(),
                entry@ == v@[i as int]@,
                out@.len() == 64 * i + t,
                out@.subrange(64 * (i as int), out@.len() as int) =~= entry@.subrange(
                    0,
                    t as int,
                ),
                forall|k: int|
                    0 <= k < i ==> out@.subrange(64 * k, 64 * k + 64) =~= (#[trigger] v@[k])@,
            decreases 64 - t,
        {
            out.push(entry[t]);
            t += 1;
        }
        i += 1;
    }
    proof {
        assert(chunks64(out@).len() == v@.len()) by {
            assert(out@.len() / 64 == v@.len()) by (nonlinear_arith)
                requires
                    out@.len() == 64 * v@.len(),
            ;
        }
        assert forall|k: int| 0 <= k < v@.len() implies chunks64(out@)[k] == arrays_view(v@)[k] by {
            assert(out@.subrange(64 * k, 64 * k + 64) =~= v@[k]@);
        }
        assert(chunks64(out@) =~= arrays_view(v@));
    }
    out
}

/// Splits a concatenation back into its 64-byte entries.  The byte
/// length must be a whole number of entries.
pub fn decode(d: &[u8]) -> (out: Vec<[u8; 64]>)
    requires
        d@.len() % 64 == 0,
    ensures
        out@.len() == d@.len() / 64,
        arrays_view(out@) == chunks64(d@),
{
    let len = d.len();
    let n = len / 64;
    proof {
        assert(64 * n == len) by (nonlinear_arith)
            requires
                n == len / 64,
                len % 64 == 0,
        ;
    }
    let mut out: Vec<[u8; 64]> = Vec::new();
    let mut k: usize = 0;
    while k < n
        invariant
            k <= n,
            64 * n == d@.len(),
            d@.len() <= usize::MAX,
            out@.len() == k,
            forall|t: int|
                0 <= t < k ==> (#[trigger] out@[t])@ =~= d@.subrange(64 * t, 64 * t + 64),
        decreases n - k,
    {
        let mut entry = [0u8; 64];
        let mut t: usize = 0;
        while t < 64
            invariant
                t <= 64,
                k < n,
                64 * n == d@.len(),
                d@.len() <= usize::MAX,
                entry@.len() == 64,
                forall|w: int| 0 <= w < t ==> entry@[w] == d@[64 * (k as int) + w],
            decreases 64 - t,
        {
            entry[t] = d[64 * k + t];
            t += 1;
        }
        proof {
            assert(entry@ =~= d@.subrange(64 * (k as int), 64 * (k as int) + 64));
        }
        out.push(entry);
        k += 1;
    }
    proof {
        assert forall|t: int| 0 <= t < n implies arrays_view(out@)[t] == chunks64(d@)[t] by {
            assert(out@[t]@ =~= d@.subrange(64 * t, 64 * t + 64));
        }
        assert(arrays_view(out@) =~= chunks64(d@));
    }
    out
}

/// Decoding an encoding gives the entries back.
pub proof fn lemma_codec_round_trip(v: Seq<[u8; 64]>, b: Seq<u8>)
    requires
        b.len() == 64 * v.len(),
        chunks64(b) == arrays_view(v),
    ensures
        b.len() % 64 == 0,
        forall|k: int| 0 <= k < v.len() ==> b.subrange(64 * k, 64 * k + 64) == (#[trigger] v[k])@,
{
    assert(b.len() % 64 == 0) by (nonlinear_arith)
        requires
            b.len() == 64 * v.len(),
    ;
    assert(b.len() / 64 == v.len()) by (nonlinear_arith)
        requires
            b.len() == 64 * v.len(),
    ;
    assert forall|k: int| 0 <= k < v.len() implies b.subrange(64 * k, 64 * k + 64) == (
    #[trigger] v[k])@ by {
        assert(chunks64(b)[k] == arrays_view(v)[k]);
    }
}

} // verus!
