//! Fixed-depth binary Merkle tree over the two Pedersen hashes.
//!
//! Leaves are byte strings of at most 128 bytes; unused slots are filled
//! with the 64-byte zero leaf.  A leaf's digest is its `h1` point; an
//! inner node is the two-to-one compression of its children.  The tree
//! keeps every node as affine coordinate bits; the root and the
//! membership proofs carry nodes in the canonical 64-byte point code.
//!
//! A membership proof is the leaf's sibling digest, then the inner
//! siblings from the level just under the root down to the leaf's
//! parent level, each encoded in 64 bytes, followed by the leaf index as
//! four little-endian bytes.

use vstd::prelude::*;
use crate::bits::{
    clone_bytes, code_of_coord_bits, coord_bits_of_code, decode_to_coord_bits, encode_coord_bits,
    lemma_code_round_trip,
};
use crate::hash::{compress_bits, pedersen_bits, wf_gens};
use vstd::pervasive::VecAdditionalExecFns;

verus! {

/// Two to the given power.
pub open spec fn two_pow(k: nat) -> nat
    decreases k,
{
    if k == 0 {
        1
    } else {
        2 * two_pow((k - 1) as nat)
    }
}

/// The 64-byte zero leaf that pads a tree.
pub open spec fn zero_leaf() -> Seq<u8> {
    Seq::new(64, |i: int| 0u8)
}

/// The given leaves padded with zero leaves to the full width of a tree
/// of depth `d`.
pub open spec fn pad_leaves(leaves: Seq<Seq<u8>>, d: nat) -> Seq<Seq<u8>> {
    leaves + Seq::new((two_pow(d) - leaves.len()) as nat, |i: int| zero_leaf())
}

/// The affine coordinate bits of the node at height `h` and position `j`
/// of the tree over the given (padded) leaves: at height 0 the digest of
/// leaf `j`, above that the compression of the two children.
pub open spec fn node_bits(
    g1: Seq<Seq<u8>>,
    g2: Seq<Seq<u8>>,
    leaves: Seq<Seq<u8>>,
    h: nat,
    j: int,
) -> Seq<bool>
    decreases h,
{
    if h == 0 {
        pedersen_bits(g1, leaves[j])
    } else {
        compress_bits(
            g2,
            node_bits(g1, g2, leaves, (h - 1) as nat, 2 * j),
            node_bits(g1, g2, leaves, (h - 1) as nat, 2 * j + 1),
        )
    }
}

/// The encoded root of a depth-`d` tree over the given leaves, zero
/// padded to full width.
pub open spec fn merkle_root_code(
    g1: Seq<Seq<u8>>,
    g2: Seq<Seq<u8>>,
    leaves: Seq<Seq<u8>>,
    d: nat,
) -> Seq<u8> {
    code_of_coord_bits(node_bits(g1, g2, pad_leaves(leaves, d), d, 0))
}

/// Every leaf short enough for `h1`.
pub open spec fn leaves_ok(leaves: Seq<Seq<u8>>) -> bool {
    forall|i: int| 0 <= i < leaves.len() ==> (#[trigger] leaves[i]).len() <= 128
}

/// The byte strings a vector of vectors holds.
pub open spec fn leaves_view(l: Seq<Vec<u8>>) -> Seq<Seq<u8>> {
    Seq::new(l.len(), |i: int| l[i]@)
}

/// The fixed-depth Merkle tree: the padded leaves and every node of
/// every level, bottom (leaf digests) to top (the root alone).
pub struct MerkleTree {
    depth: usize,
    leaves: Vec<Vec<u8>>,
    levels: Vec<Vec<Vec<bool>>>,
    g1: Ghost<Seq<Seq<u8>>>,
    g2: Ghost<Seq<Seq<u8>>>,
}

impl MerkleTree {
    /// The tree's depth.
    pub closed spec fn depth_spec(&self) -> nat {
        self.depth as nat
    }

    /// The padded leaves the tree stands over.
    pub closed spec fn leaves_spec(&self) -> Seq<Seq<u8>> {
        leaves_view(self.leaves@)
    }

    /// The first parameter table the tree was built with.
    pub closed spec fn g1_spec(&self) -> Seq<Seq<u8>> {
        self.g1@
    }

    /// The second parameter table.
    pub closed spec fn g2_spec(&self) -> Seq<Seq<u8>> {
        self.g2@
    }

    /// The tree is fully built: the right width, every leaf in range,
    /// and every stored node the hash the model assigns it.
    pub closed spec fn wf(&self) -> bool {
        &&& self.depth <= 16
        &&& wf_gens(self.g1@)
        &&& wf_gens(self.g2@)
        &&& self.leaves@.len() == two_pow(self.depth as nat)
        &&& leaves_ok(self.leaves_spec())
        &&& self.levels@.len() == self.depth + 1
        &&& forall|h: int|
            0 <= h <= self.depth ==> (#[trigger] self.levels@[h])@.len() == two_pow(
                (self.depth - h) as nat,
            )
        &&& forall|h: int, j: int|
            0 <= h <= self.depth && 0 <= j < two_pow((self.depth - h) as nat)
                ==> (#[trigger] self.levels@[h]@[j])@ == node_bits(
                self.g1@,
                self.g2@,
                self.leaves_spec(),
                h as nat,
                j,
            )
    }

    /// The tree's parameter tables are the given hash's.
    pub open spec fn uses(&self, hash: &crate::hash::Hash) -> bool {
        self.g1_spec() == hash.g1() && self.g2_spec() == hash.g2()
    }

    /// Builds the tree of the given depth over the given leaves, zero
    /// padded to full width.
    pub fn new(hash: &crate::hash::Hash, depth: usize, leaves: &Vec<Vec<u8>>) -> (out: MerkleTree)
        requires
            hash.wf(),
            depth <= 16,
            leaves@.len() <= two_pow(depth as nat),
            leaves_ok(leaves_view(leaves@)),
        ensures
            out.wf(),
            out.uses(hash),
            out.depth_spec() == depth,
            out.leaves_spec() == pad_leaves(leaves_view(leaves@), depth as nat),
    {
        let width = two_pow_exec(depth);
        let mut padded: Vec<Vec<u8>> = Vec::new();
        let mut i: usize = 0;
        while i < leaves.len()
            invariant
                i <= leaves@.len(),
                padded@.len() == i,
                forall|k: int| 0 <= k < i ==> (#[trigger] padded@[k])@ == leaves@[k]@,
            decreases leaves@.len() - i,
        {
            padded.push(clone_bytes(&leaves[i]));
            i += 1;
        }
        while padded.len() < width
            invariant
                leaves@.len() <= padded@.len() <= width,
                width == two_pow(depth as nat),
                forall|k: int| 0 <= k < leaves@.len() ==> (#[trigger] padded@[k])@ == leaves@[k]@,
                forall|k: int|
                    leaves@.len() <= k < padded@.len() ==> (#[trigger] padded@[k])@ == zero_leaf(),
            decreases width - padded@.len(),
        {
            padded.push(make_zero_leaf());
        }
        proof {
            let pl = pad_leaves(leaves_view(leaves@), depth as nat);
            assert forall|t: int| 0 <= t < width implies leaves_view(padded@)[t] == pl[t] by {
                if t < leaves@.len() {
                    assert(pl[t] == leaves_view(leaves@)[t]);
                } else {
                    assert(pl[t] == zero_leaf());
                }
            }
            assert(leaves_view(padded@) =~= pl);
            assert(leaves_ok(leaves_view(padded@))) by {
                assert forall|t: int| 0 <= t < width implies (#[trigger] leaves_view(padded@)[t]).len()
                    <= 128 by {
                    if t < leaves@.len() {
                        assert(leaves_view(padded@)[t] == leaves_view(leaves@)[t]);
                    } else {
                        assert(leaves_view(padded@)[t] == zero_leaf());
                    }
                }
            }
        }
        let levels = build_levels(hash, depth, &padded);
        MerkleTree {
            depth,
            leaves: padded,
            levels,
            g1: Ghost(hash.g1()),
            g2: Ghost(hash.g2()),
        }
    }

    /// The encoded root point.
    pub fn root(&self) -> (out: Vec<u8>)
        requires
            self.wf(),
        ensures
            out@ == code_of_coord_bits(
                node_bits(
                    self.g1_spec(),
                    self.g2_spec(),
                    self.leaves_spec(),
                    self.depth_spec(),
                    0,
                ),
            ),
            out@.len() == 64,
    {
        let top = self.levels.len() - 1;
        let cb = clone_bits(&self.levels[top][0]);
        encode_coord_bits(&cb)
    }

    /// Replaces the leaf at the given index and rebuilds the affected
    /// hashes.
    pub fn update(&mut self, hash: &crate::hash::Hash, leaf_index: usize, leaf: &[u8])
        requires
            old(self).wf(),
            old(self).uses(hash),
            hash.wf(),
            leaf_index < two_pow(old(self).depth_spec()),
            leaf@.len() <= 128,
        ensures
            final(self).wf(),
            final(self).uses(hash),
            final(self).depth_spec() == old(self).depth_spec(),
            final(self).leaves_spec() == old(self).leaves_spec().update(
                leaf_index as int,
                leaf@,
            ),
    {
        let mut lv: Vec<u8> = Vec::new();
        let mut i: usize = 0;
        while i < leaf.len()
            invariant
                i <= leaf@.len(),
                lv@ =~= leaf@.subrange(0, i as int),
            decreases leaf@.len() - i,
        {
            lv.push(leaf[i]);
            i += 1;
        }
        proof {
            assert(lv@ =~= leaf@);
        }
        self.leaves[leaf_index] = lv;
        let ghost nl = leaves_view(self.leaves@);
        let ghost ol = old(self).leaves_spec();
        proof {
            assert(nl =~= ol.update(leaf_index as int, leaf@));
            assert(leaves_ok(nl));
        }
        // rehash the leaf and the nodes along its path; every node off
        // the path keeps its value, its leaves being untouched
        let d0 = hash.h1_bits(self.leaves[leaf_index].as_slice());
        let ghost g1 = self.g1@;
        let ghost g2 = self.g2@;
        replace_node(&mut self.levels, 0, leaf_index, d0);
        proof {
            assert(two_pow(0) == 1);
            assert((leaf_index as int) / 1int == leaf_index as int);
            lemma_off_path_nodes_keep(g1, g2, ol, nl, self.depth as nat, leaf_index as int, 0);
            assert forall|t: int|
                0 <= t < two_pow((self.depth - 0) as nat) implies (#[trigger] self.levels@[0]@[t])@
                == node_bits(g1, g2, nl, 0, t) by {
                if t != leaf_index as int {
                    assert(self.levels@[0]@[t]@ == node_bits(g1, g2, ol, 0, t));
                }
            }
        }
        let mut j: usize = leaf_index;
        let mut h: usize = 1;
        while h <= self.depth
            invariant
                1 <= h <= self.depth + 1,
                hash.wf(),
                self.depth <= 16,
                self.depth == old(self).depth_spec(),
                g1 == self.g1@,
                g1 == hash.g1(),
                g2 == self.g2@,
                g2 == hash.g2(),
                nl == leaves_view(self.leaves@),
                ol == old(self).leaves_spec(),
                ol.len() == two_pow(self.depth as nat),
                nl == ol.update(leaf_index as int, leaf@),
                self.leaves@.len() == two_pow(self.depth as nat),
                leaves_ok(nl),
                leaf_index < two_pow(self.depth as nat),
                j == (leaf_index as int) / (two_pow((h - 1) as nat) as int),
                self.levels@.len() == self.depth + 1,
                forall|g: int|
                    0 <= g <= self.depth ==> (#[trigger] self.levels@[g])@.len() == two_pow(
                        (self.depth - g) as nat,
                    ),
                forall|g: int, t: int|
                    0 <= g < h && 0 <= t < two_pow((self.depth - g) as nat) ==> (
                    #[trigger] self.levels@[g]@[t])@ == node_bits(g1, g2, nl, g as nat, t),
                forall|g: int, t: int|
                    h <= g <= self.depth && 0 <= t < two_pow((self.depth - g) as nat) ==> (
                    #[trigger] self.levels@[g]@[t])@ == node_bits(g1, g2, ol, g as nat, t),
            decreases self.depth + 1 - h,
        {
            proof {
                lemma_two_pow_pos((h - 1) as nat);
                lemma_two_pow_split(self.depth as nat, (h - 1) as nat);
                vstd::arithmetic::div_mod::lemma_multiply_divide_lt(
                    leaf_index as int,
                    two_pow((h - 1) as nat) as int,
                    two_pow((self.depth - (h - 1)) as nat) as int,
                );
                assert(j < two_pow((self.depth - (h - 1)) as nat));
                assert(two_pow((self.depth - (h - 1)) as nat) == 2 * two_pow(
                    (self.depth - h) as nat,
                ));
            }
            let jp: usize = j / 2;
            proof {
                vstd::arithmetic::div_mod::lemma_div_denominator(
                    leaf_index as int,
                    two_pow((h - 1) as nat) as int,
                    2,
                );
                assert(two_pow(h as nat) == 2 * two_pow((h - 1) as nat));
                assert(jp == (leaf_index as int) / (two_pow(h as nat) as int));
                vstd::arithmetic::div_mod::lemma_fundamental_div_mod(j as int, 2);
                vstd::arithmetic::div_mod::lemma_mod_bound(j as int, 2);
                assert(2 * jp + 1 < two_pow((self.depth - (h - 1)) as nat));
            }
            let prev = &self.levels[h - 1];
            let node = hash.compress_to_bits(&prev[2 * jp], &prev[2 * jp + 1]);
            proof {
                assert(node@ == node_bits(g1, g2, nl, h as nat, jp as int));
            }
            replace_node(&mut self.levels, h, jp, node);
            proof {
                lemma_off_path_nodes_keep(
                    g1,
                    g2,
                    ol,
                    nl,
                    self.depth as nat,
                    leaf_index as int,
                    h as nat,
                );
                assert forall|t: int|
                    0 <= t < two_pow((self.depth - h) as nat) implies (
                #[trigger] self.levels@[h as int]@[t])@ == node_bits(g1, g2, nl, h as nat, t) by {
                    if t != jp as int {
                        assert(self.levels@[h as int]@[t]@ == node_bits(g1, g2, ol, h as nat, t));
                    }
                }
            }
            j = jp;
            h += 1;
        }
    }
}

/// Replaces one node of one level.
fn replace_node(levels: &mut Vec<Vec<Vec<bool>>>, h: usize, j: usize, node: Vec<bool>)
    requires
        h < old(levels)@.len(),
        j < old(levels)@[h as int]@.len(),
    ensures
        final(levels)@.len() == old(levels)@.len(),
        forall|g: int| 0 <= g < old(levels)@.len() && g != h ==> final(levels)@[g] == old(levels)@[g],
        final(levels)@[h as int]@.len() == old(levels)@[h as int]@.len(),
        final(levels)@[h as int]@[j as int] == node,
        forall|t: int|
            0 <= t < old(levels)@[h as int]@.len() && t != j ==> final(levels)@[h as int]@[t]
                == old(levels)@[h as int]@[t],
{
    let mut row: Vec<Vec<bool>> = Vec::new();
    levels.set_and_swap(h, &mut row);
    row.set(j, node);
    levels.set_and_swap(h, &mut row);
}

/// Nodes whose leaves are untouched keep their hash: only the path of
/// the changed leaf can change.
proof fn lemma_off_path_nodes_keep(
    g1: Seq<Seq<u8>>,
    g2: Seq<Seq<u8>>,
    ol: Seq<Seq<u8>>,
    nl: Seq<Seq<u8>>,
    d: nat,
    i: int,
    h: nat,
)
    requires
        ol.len() == two_pow(d),
        nl.len() == two_pow(d),
        0 <= i < two_pow(d),
        forall|k: int| 0 <= k < two_pow(d) && k != i ==> ol[k] == nl[k],
        h <= d,
    ensures
        forall|t: int|
            0 <= t < two_pow((d - h) as nat) && t != i / two_pow(h) as int ==> node_bits(
                g1,
                g2,
                ol,
                h,
                t,
            ) == node_bits(g1, g2, nl, h, t),
{
    assert forall|t: int|
        0 <= t < two_pow((d - h) as nat) && t != i / two_pow(h) as int implies node_bits(
        g1,
        g2,
        ol,
        h,
        t,
    ) == node_bits(g1, g2, nl, h, t) by {
        lemma_two_pow_pos(h);
        lemma_two_pow_split(d, h);
        assert forall|k: int|
            t * two_pow(h) <= k < (t + 1) * two_pow(h) implies ol[k] == nl[k] && 0 <= k < ol.len()
            && 0 <= k < nl.len() by {
            assert(0 <= t * two_pow(h)) by (nonlinear_arith)
                requires
                    0 <= t,
                    0 < two_pow(h),
            ;
            assert((t + 1) * two_pow(h) <= two_pow((d - h) as nat) * two_pow(h)) by (nonlinear_arith)
                requires
                    t + 1 <= two_pow((d - h) as nat),
                    0 < two_pow(h),
            ;
            assert(two_pow((d - h) as nat) * two_pow(h) == two_pow(d)) by (nonlinear_arith)
                requires
                    two_pow(d) == two_pow(h) * two_pow((d - h) as nat),
            ;
            assert(k != i) by {
                if k == i {
                    assert((t + 1) * two_pow(h) == t * two_pow(h) + two_pow(h)) by (nonlinear_arith);
                    vstd::arithmetic::div_mod::lemma_fundamental_div_mod_converse(
                        k,
                        two_pow(h) as int,
                        t,
                        k - t * two_pow(h),
                    );
                }
            }
        }
        lemma_node_bits_frame(g1, g2, ol, nl, h, t);
    }
}

/// A node's hash reads only the leaves below it.
proof fn lemma_node_bits_frame(
    g1: Seq<Seq<u8>>,
    g2: Seq<Seq<u8>>,
    l1: Seq<Seq<u8>>,
    l2: Seq<Seq<u8>>,
    h: nat,
    j: int,
)
    requires
        0 <= j,
        forall|k: int| j * two_pow(h) <= k < (j + 1) * two_pow(h) ==> l1[k] == l2[k],
    ensures
        node_bits(g1, g2, l1, h, j) == node_bits(g1, g2, l2, h, j),
    decreases h,
{
    lemma_two_pow_pos(h);
    if h == 0 {
        assert(j * 1 <= j < (j + 1) * 1);
        assert(l1[j] == l2[j]);
    } else {
        let e = two_pow((h - 1) as nat);
        assert(two_pow(h) == 2 * e);
        assert((2 * j) * e == j * (2 * e) && (2 * j + 2) * e == (j + 1) * (2 * e) && (2 * j + 1) * e
            + e == (2 * j + 2) * e) by (nonlinear_arith);
        assert forall|k: int| (2 * j) * e <= k < (2 * j + 1) * e implies l1[k] == l2[k] by {
            assert((2 * j + 1) * e <= (2 * j + 2) * e) by (nonlinear_arith)
                requires
                    0 < e,
            ;
        }
        assert forall|k: int| (2 * j + 1) * e <= k < (2 * j + 2) * e implies l1[k] == l2[k] by {
            assert((2 * j) * e <= (2 * j + 1) * e) by (nonlinear_arith)
                requires
                    0 < e,
            ;
        }
        lemma_node_bits_frame(g1, g2, l1, l2, (h - 1) as nat, 2 * j);
        lemma_node_bits_frame(g1, g2, l1, l2, (h - 1) as nat, 2 * j + 1);
    }
}

fn clone_bits(v: &Vec<bool>) -> (out: Vec<bool>)
    ensures
        out@ == v@,
{
    let mut out: Vec<bool> = Vec::new();
    let mut i: usize = 0;
    while i < v.len()
        invariant
            i <= v@.len(),
            out@ =~= v@.subrange(0, i as int),
        decreases v@.len() - i,
    {
        out.push(v[i]);
        i += 1;
    }
    proof {
        assert(out@ =~= v@);
    }
    out
}

fn make_zero_leaf() -> (out: Vec<u8>)
    ensures
        out@ == zero_leaf(),
{
    let mut out: Vec<u8> = Vec::new();
    let mut i: usize = 0;
    while i < 64
        invariant
            i <= 64,
            out@.len() == i,
            forall|t: int| 0 <= t < i ==> out@[t] == 0u8,
        decreases 64 - i,
    {
        out.push(0u8);
        i += 1;
    }
    proof {
        assert(out@ =~= zero_leaf());
    }
    out
}

/// Two to a small power, executable.
pub fn two_pow_exec(k: usize) -> (out: usize)
    requires
        k <= 16,
    ensures
        out == two_pow(k as nat),
        1 <= out <= 65536,
{
    let mut r: usize = 1;
    let mut i: usize = 0;
    while i < k
        invariant
            i <= k <= 16,
            r == two_pow(i as nat),
            1 <= r <= 65536,
        decreases k - i,
    {
        proof {
            lemma_two_pow_bound(i as nat + 1, 16);
            lemma_two_pow_16();
        }
        r = r * 2;
        i += 1;
        assert(r == two_pow(i as nat));
    }
    proof {
        lemma_two_pow_bound(k as nat, 16);
        lemma_two_pow_16();
    }
    r
}

proof fn lemma_two_pow_16()
    ensures
        two_pow(16) == 65536,
{
    reveal_with_fuel(two_pow, 18);
}

proof fn lemma_two_pow_bound(k: nat, m: nat)
    requires
        k <= m,
    ensures
        two_pow(k) <= two_pow(m),
    decreases m,
{
    if k < m {
        lemma_two_pow_bound(k, (m - 1) as nat);
    }
}

fn build_levels(hash: &crate::hash::Hash, depth: usize, padded: &Vec<Vec<u8>>) -> (out: Vec<
    Vec<Vec<bool>>,
>)
    requires
        hash.wf(),
        depth <= 16,
        padded@.len() == two_pow(depth as nat),
        leaves_ok(leaves_view(padded@)),
    ensures
        out@.len() == depth + 1,
        forall|h: int|
            0 <= h <= depth ==> (#[trigger] out@[h])@.len() == two_pow((depth - h) as nat),
        forall|h: int, j: int|
            0 <= h <= depth && 0 <= j < two_pow((depth - h) as nat) ==> (#[trigger] out@[h]@[j])@
                == node_bits(hash.g1(), hash.g2(), leaves_view(padded@), h as nat, j),
{
    let width = two_pow_exec(depth);
    let pl = Ghost(leaves_view(padded@));
    let mut level0: Vec<Vec<bool>> = Vec::new();
    let mut j: usize = 0;
    while j < width
        invariant
            j <= width,
            hash.wf(),
            width == two_pow(depth as nat),
            padded@.len() == width,
            leaves_ok(leaves_view(padded@)),
            pl@ == leaves_view(padded@),
            level0@.len() == j,
            forall|t: int|
                0 <= t < j ==> (#[trigger] level0@[t])@ == node_bits(
                    hash.g1(),
                    hash.g2(),
                    pl@,
                    0,
                    t,
                ),
        decreases width - j,
    {
        assert(pl@[j as int] == padded@[j as int]@);
        assert(pl@[j as int].len() <= 128);
        let d = hash.h1_bits(padded[j].as_slice());
        level0.push(d);
        j += 1;
    }
    let mut levels: Vec<Vec<Vec<bool>>> = Vec::new();
    levels.push(level0);
    let mut h: usize = 1;
    while h <= depth
        invariant
            1 <= h <= depth + 1,
            hash.wf(),
            depth <= 16,
            padded@.len() == two_pow(depth as nat),
            pl@ == leaves_view(padded@),
            levels@.len() == h,
            forall|g: int|
                0 <= g < h ==> (#[trigger] levels@[g])@.len() == two_pow((depth - g) as nat),
            forall|g: int, t: int|
                0 <= g < h && 0 <= t < two_pow((depth - g) as nat) ==> (#[trigger] levels@[g]@[t])@
                    == node_bits(hash.g1(), hash.g2(), pl@, g as nat, t),
        decreases depth + 1 - h,
    {
        let w = two_pow_exec(depth - h);
        proof {
            assert(two_pow((depth - h + 1) as nat) == 2 * two_pow((depth - h) as nat));
        }
        let mut level: Vec<Vec<bool>> = Vec::new();
        let mut t: usize = 0;
        while t < w
            invariant
                t <= w,
                hash.wf(),
                1 <= h <= depth,
                w == two_pow((depth - h) as nat),
                w <= 65536,
                levels@.len() == h,
                pl@ == leaves_view(padded@),
                (#[trigger] levels@[h - 1])@.len() == two_pow((depth - h + 1) as nat),
                two_pow((depth - h + 1) as nat) == 2 * w,
                forall|tt: int|
                    0 <= tt < 2 * w ==> (#[trigger] levels@[h - 1]@[tt])@ == node_bits(
                        hash.g1(),
                        hash.g2(),
                        pl@,
                        (h - 1) as nat,
                        tt,
                    ),
                level@.len() == t,
                forall|tt: int|
                    0 <= tt < t ==> (#[trigger] level@[tt])@ == node_bits(
                        hash.g1(),
                        hash.g2(),
                        pl@,
                        h as nat,
                        tt,
                    ),
            decreases w - t,
        {
            let prev = &levels[h - 1];
            let lb = &prev[2 * t];
            let rb = &prev[2 * t + 1];
            assert(lb@ == node_bits(hash.g1(), hash.g2(), pl@, (h - 1) as nat, 2 * (t as int)));
            assert(rb@ == node_bits(hash.g1(), hash.g2(), pl@, (h - 1) as nat, 2 * (t as int) + 1));
            let node = hash.compress_to_bits(lb, rb);
            level.push(node);
            t += 1;
        }
        levels.push(level);
        h += 1;
    }
    levels
}

/// The four little-endian bytes of a leaf index.
pub open spec fn index_bytes(i: int) -> Seq<u8> {
    seq![
        (i % 256) as u8,
        ((i / 256) % 256) as u8,
        ((i / 65536) % 256) as u8,
        ((i / 16777216) % 256) as u8,
    ]
}

/// The index read back from the last four bytes of a proof.
pub open spec fn parsed_index(b: Seq<u8>) -> int {
    let n = b.len() as int;
    b[n - 4] + 256 * b[n - 3] + 65536 * b[n - 2] + 16777216 * b[n - 1]
}

/// The position of the sibling of the path node at height `h` on the
/// path of leaf `i`.
pub open spec fn sibling_of(i: int, h: nat) -> int {
    let j = i / two_pow(h) as int;
    if j % 2 == 0 {
        j + 1
    } else {
        j - 1
    }
}

/// The encoded sibling at height `h` on the path of leaf `i`.
pub open spec fn sibling_code(
    g1: Seq<Seq<u8>>,
    g2: Seq<Seq<u8>>,
    leaves: Seq<Seq<u8>>,
    i: int,
    h: nat,
) -> Seq<u8> {
    code_of_coord_bits(node_bits(g1, g2, leaves, h, sibling_of(i, h)))
}

/// The encoded siblings at heights `hi` down to `lo`, concatenated.
pub open spec fn sibling_run(
    g1: Seq<Seq<u8>>,
    g2: Seq<Seq<u8>>,
    leaves: Seq<Seq<u8>>,
    i: int,
    hi: int,
    lo: int,
) -> Seq<u8>
    decreases hi + 1 - lo,
{
    if hi < lo {
        Seq::empty()
    } else {
        sibling_code(g1, g2, leaves, i, hi as nat) + sibling_run(g1, g2, leaves, i, hi - 1, lo)
    }
}

/// A serialized membership proof: the leaf sibling, the inner siblings
/// from just under the root down to height one, and the index.
pub open spec fn proof_bytes(
    g1: Seq<Seq<u8>>,
    g2: Seq<Seq<u8>>,
    leaves: Seq<Seq<u8>>,
    d: nat,
    i: int,
) -> Seq<u8> {
    sibling_code(g1, g2, leaves, i, 0) + sibling_run(g1, g2, leaves, i, d as int - 1, 1)
        + index_bytes(i)
}

/// One 64-byte chunk of a proof.
pub open spec fn chunk64(b: Seq<u8>, k: int) -> Seq<u8> {
    b.subrange(64 * k, 64 * k + 64)
}

/// The root bits recomputed from a proof: starting from the digest
/// `cur` at height `h`, each step absorbs the chunk that carries the
/// sibling of that height, on the side the index bit picks.
pub open spec fn climb(
    g2: Seq<Seq<u8>>,
    b: Seq<u8>,
    d: int,
    i: int,
    cur: Seq<bool>,
    h: int,
) -> Seq<bool>
    decreases d - h,
{
    if h >= d {
        cur
    } else {
        let sib = coord_bits_of_code(
            chunk64(
                b,
                if h == 0 {
                    0
                } else {
                    d - h
                },
            ),
        );
        let nxt = if (i / two_pow(h as nat) as int) % 2 == 1 {
            compress_bits(g2, sib, cur)
        } else {
            compress_bits(g2, cur, sib)
        };
        climb(g2, b, d, i, nxt, h + 1)
    }
}

/// When a proof convinces the verifier: it has the right shape, its
/// index is in range, and climbing it from the leaf's digest lands on
/// the given root.
pub open spec fn proof_checks(
    g1: Seq<Seq<u8>>,
    g2: Seq<Seq<u8>>,
    root: Seq<u8>,
    leaf: Seq<u8>,
    b: Seq<u8>,
) -> bool {
    let n = b.len() as int;
    &&& n >= 68
    &&& (n - 4) % 64 == 0
    &&& parsed_index(b) < two_pow(((n - 4) / 64) as nat)
    &&& root == code_of_coord_bits(
        climb(g2, b, (n - 4) / 64, parsed_index(b), pedersen_bits(g1, leaf), 0),
    )
}

impl MerkleTree {
    /// Serializes the membership proof of the leaf at the given index,
    /// or nothing when the index is out of range.
    pub fn generate_proof(&self, leaf_index: usize) -> (out: Option<Vec<u8>>)
        requires
            self.wf(),
            1 <= self.depth_spec(),
        ensures
            out is Some <==> leaf_index < two_pow(self.depth_spec()),
            out is Some ==> out->0@ == proof_bytes(
                self.g1_spec(),
                self.g2_spec(),
                self.leaves_spec(),
                self.depth_spec(),
                leaf_index as int,
            ),
    {
        let width = two_pow_exec(self.depth);
        if leaf_index >= width {
            return None;
        }
        let ghost g1 = self.g1_spec();
        let ghost g2 = self.g2_spec();
        let ghost pl = self.leaves_spec();
        let ghost d = self.depth as int;
        let ghost i = leaf_index as int;
        let mut bytes: Vec<u8> = Vec::new();
        let sib0: usize = if leaf_index % 2 == 0 {
            leaf_index + 1
        } else {
            leaf_index - 1
        };
        proof {
            assert(two_pow(0) == 1);
            assert(i / 1int == i);
            assert(sib0 as int == sibling_of(i, 0));
            assert(two_pow(self.depth_spec()) == 2 * two_pow((self.depth - 1) as nat));
        }
        let mut code = encode_coord_bits(&self.levels[0][sib0]);
        bytes.append(&mut code);
        proof {
            assert(bytes@ =~= sibling_code(g1, g2, pl, i, 0) + sibling_run(g1, g2, pl, i, d - 1, d));
        }
        let mut step: usize = 1;
        while step < self.depth
            invariant
                1 <= step <= self.depth,
                self.wf(),
                g1 == self.g1_spec(),
                g2 == self.g2_spec(),
                pl == self.leaves_spec(),
                d == self.depth as int,
                i == leaf_index as int,
                leaf_index < two_pow(self.depth_spec()),
                bytes@ == sibling_code(g1, g2, pl, i, 0) + sibling_run(
                    g1,
                    g2,
                    pl,
                    i,
                    d - 1,
                    d - step + 1,
                ),
            decreases self.depth - step,
        {
            let h: usize = self.depth - step;
            let p = two_pow_exec(h);
            let j: usize = leaf_index / p;
            let sib: usize = if j % 2 == 0 {
                j + 1
            } else {
                j - 1
            };
            proof {
                assert(j as int == i / two_pow(h as nat) as int);
                assert(sib as int == sibling_of(i, h as nat));
                lemma_two_pow_split(self.depth_spec(), h as nat);
                vstd::arithmetic::div_mod::lemma_multiply_divide_lt(
                    i,
                    two_pow(h as nat) as int,
                    two_pow((self.depth - h) as nat) as int,
                );
                assert(j < two_pow((self.depth - h) as nat));
                assert(two_pow((self.depth - h) as nat) == 2 * two_pow(
                    (self.depth - h - 1) as nat,
                ));
                vstd::arithmetic::div_mod::lemma_fundamental_div_mod(j as int, 2);
                assert(sib < two_pow((self.depth - h) as nat));
            }
            let mut code = encode_coord_bits(&self.levels[h][sib]);
            bytes.append(&mut code);
            proof {
                lemma_sibling_run_snoc(g1, g2, pl, i, d - 1, h as int);
                assert(bytes@ =~= sibling_code(g1, g2, pl, i, 0) + sibling_run(
                    g1,
                    g2,
                    pl,
                    i,
                    d - 1,
                    h as int,
                ));
            }
            step += 1;
        }
        bytes.push((leaf_index % 256) as u8);
        bytes.push(((leaf_index / 256) % 256) as u8);
        bytes.push(((leaf_index / 65536) % 256) as u8);
        bytes.push(((leaf_index / 16777216) % 256) as u8);
        proof {
            assert(bytes@ =~= proof_bytes(g1, g2, pl, self.depth_spec(), i));
        }
        Some(bytes)
    }
}

/// Appending one more sibling below a run extends it on the right.
proof fn lemma_sibling_run_snoc(
    g1: Seq<Seq<u8>>,
    g2: Seq<Seq<u8>>,
    leaves: Seq<Seq<u8>>,
    i: int,
    hi: int,
    lo: int,
)
    requires
        0 <= lo <= hi,
    ensures
        sibling_run(g1, g2, leaves, i, hi, lo) =~= sibling_run(g1, g2, leaves, i, hi, lo + 1)
            + sibling_code(g1, g2, leaves, i, lo as nat),
    decreases hi - lo,
{
    let a = sibling_code(g1, g2, leaves, i, hi as nat);
    let c = sibling_code(g1, g2, leaves, i, lo as nat);
    if lo < hi {
        lemma_sibling_run_snoc(g1, g2, leaves, i, hi - 1, lo);
        let b = sibling_run(g1, g2, leaves, i, hi - 1, lo + 1);
        assert(sibling_run(g1, g2, leaves, i, hi, lo) =~= a + (b + c));
        assert(a + (b + c) =~= (a + b) + c);
        assert(sibling_run(g1, g2, leaves, i, hi, lo + 1) == a + b);
    } else {
        assert(sibling_run(g1, g2, leaves, i, hi - 1, lo) =~= Seq::<u8>::empty());
        assert(sibling_run(g1, g2, leaves, i, hi, lo) =~= a + Seq::<u8>::empty());
        assert(sibling_run(g1, g2, leaves, i, hi, lo + 1) =~= Seq::<u8>::empty());
        assert(sibling_run(g1, g2, leaves, i, hi, lo + 1) + c =~= c);
        assert(a + Seq::<u8>::empty() =~= a);
    }
}

/// Powers of two are positive.
proof fn lemma_two_pow_pos(k: nat)
    ensures
        two_pow(k) >= 1,
    decreases k,
{
    if k > 0 {
        lemma_two_pow_pos((k - 1) as nat);
    }
}

proof fn lemma_two_pow_32()
    ensures
        two_pow(32) == 4294967296,
{
    reveal_with_fuel(two_pow, 34);
}

/// Two to a power below 32, executable.
fn two_pow_u64(k: usize) -> (out: u64)
    requires
        k <= 31,
    ensures
        out == two_pow(k as nat),
{
    let mut r: u64 = 1;
    let mut i: usize = 0;
    while i < k
        invariant
            i <= k <= 31,
            r == two_pow(i as nat),
        decreases k - i,
    {
        proof {
            lemma_two_pow_bound(i as nat + 1, 32);
            lemma_two_pow_32();
        }
        r = r * 2;
        i += 1;
        assert(r == two_pow(i as nat));
    }
    r
}

/// Checks a serialized membership proof against a root and a leaf.
pub fn verify_proof(hash: &crate::hash::Hash, root: &[u8], leaf: &[u8], proof: &[u8]) -> (r: bool)
    requires
        hash.wf(),
        leaf@.len() <= 128,
    ensures
        r == proof_checks(hash.g1(), hash.g2(), root@, leaf@, proof@),
{
    let n = proof.len();
    if n < 68 {
        return false;
    }
    if (n - 4) % 64 != 0 {
        return false;
    }
    let d: usize = (n - 4) / 64;
    proof {
        vstd::arithmetic::div_mod::lemma_fundamental_div_mod(n as int - 4, 64);
    }
    let i: u64 = (proof[n - 4] as u64) + 256 * (proof[n - 3] as u64) + 65536 * (proof[n
        - 2] as u64) + 16777216 * (proof[n - 1] as u64);
    proof {
        assert(i as int == parsed_index(proof@));
    }
    if d <= 31 {
        let bound = two_pow_u64(d);
        if i >= bound {
            return false;
        }
    } else {
        proof {
            lemma_two_pow_bound(32, d as nat);
            lemma_two_pow_32();
        }
    }
    let ghost g2 = hash.g2();
    let ghost start = pedersen_bits(hash.g1(), leaf@);
    let mut cur = hash.h1_bits(leaf);
    let mut ii: u64 = i;
    let mut h: usize = 0;
    proof {
        assert(two_pow(0) == 1);
        assert((i as int) / 1int == i as int);
    }
    while h < d
        invariant
            h <= d,
            hash.wf(),
            g2 == hash.g2(),
            n == proof@.len(),
            n >= 68,
            64 * d == n - 4,
            i as int == parsed_index(proof@),
            ii as int == (i as int) / (two_pow(h as nat) as int),
            cur@.len() == 512,
            climb(g2, proof@, d as int, i as int, start, 0) == climb(
                g2,
                proof@,
                d as int,
                i as int,
                cur@,
                h as int,
            ),
        decreases d - h,
    {
        let cidx: usize = if h == 0 {
            0
        } else {
            d - h
        };
        assert(64 * cidx + 64 <= n - 4);
        let mut chunk: Vec<u8> = Vec::new();
        let mut t: usize = 0;
        while t < 64
            invariant
                t <= 64,
                n == proof@.len(),
                64 * cidx + 64 <= n,
                chunk@ =~= proof@.subrange(64 * cidx, 64 * cidx + t),
            decreases 64 - t,
        {
            chunk.push(proof[64 * cidx + t]);
            t += 1;
        }
        proof {
            assert(chunk@ =~= chunk64(proof@, cidx as int));
        }
        let sib = decode_to_coord_bits(&chunk);
        proof {
            assert((ii as int) % 2 == ((i as int) / (two_pow(h as nat) as int)) % 2);
        }
        let nxt = if ii % 2 == 1 {
            hash.compress_to_bits(&sib, &cur)
        } else {
            hash.compress_to_bits(&cur, &sib)
        };
        proof {
            assert(climb(g2, proof@, d as int, i as int, cur@, h as int) == climb(
                g2,
                proof@,
                d as int,
                i as int,
                nxt@,
                h as int + 1,
            ));
            lemma_two_pow_pos(h as nat);
            vstd::arithmetic::div_mod::lemma_div_denominator(
                i as int,
                two_pow(h as nat) as int,
                2,
            );
            assert(two_pow((h + 1) as nat) == 2 * two_pow(h as nat));
            assert((ii as int) / 2 == (i as int) / (two_pow((h + 1) as nat) as int));
        }
        cur = nxt;
        ii = ii / 2;
        h += 1;
    }
    let code = encode_coord_bits(&cur);
    if root.len() != 64 {
        return false;
    }
    let mut t: usize = 0;
    let mut same = true;
    while t < 64
        invariant
            t <= 64,
            root@.len() == 64,
            code@.len() == 64,
            same == (forall|k: int| 0 <= k < t ==> root@[k] == code@[k]),
        decreases 64 - t,
    {
        if root[t] != code[t] {
            same = false;
        }
        t += 1;
    }
    proof {
        if same {
            assert(root@ =~= code@);
        }
    }
    same
}

/// Every tree node has the codec's shape: 512 bits with the two top
/// bits clear.
proof fn lemma_node_bits_shape(g1: Seq<Seq<u8>>, g2: Seq<Seq<u8>>, leaves: Seq<Seq<u8>>, h: nat, j: int)
    ensures
        node_bits(g1, g2, leaves, h, j).len() == 512,
        !node_bits(g1, g2, leaves, h, j)[255],
        !node_bits(g1, g2, leaves, h, j)[511],
{
}

/// A run's length: 64 bytes per height it covers.
proof fn lemma_sibling_run_len(
    g1: Seq<Seq<u8>>,
    g2: Seq<Seq<u8>>,
    leaves: Seq<Seq<u8>>,
    i: int,
    hi: int,
    lo: int,
)
    requires
        lo <= hi + 1,
    ensures
        sibling_run(g1, g2, leaves, i, hi, lo).len() == 64 * (hi + 1 - lo),
    decreases hi + 1 - lo,
{
    if lo <= hi {
        lemma_sibling_run_len(g1, g2, leaves, i, hi - 1, lo);
        lemma_node_bits_shape(g1, g2, leaves, hi as nat, sibling_of(i, hi as nat));
    }
}

/// Where each sibling sits inside a run.
proof fn lemma_sibling_run_at(
    g1: Seq<Seq<u8>>,
    g2: Seq<Seq<u8>>,
    leaves: Seq<Seq<u8>>,
    i: int,
    hi: int,
    lo: int,
    h: int,
)
    requires
        0 <= lo <= h <= hi,
    ensures
        sibling_run(g1, g2, leaves, i, hi, lo).subrange(64 * (hi - h), 64 * (hi - h) + 64)
            =~= sibling_code(g1, g2, leaves, i, h as nat),
    decreases hi - h,
{
    let run = sibling_run(g1, g2, leaves, i, hi, lo);
    let top = sibling_code(g1, g2, leaves, i, hi as nat);
    let rest = sibling_run(g1, g2, leaves, i, hi - 1, lo);
    lemma_node_bits_shape(g1, g2, leaves, hi as nat, sibling_of(i, hi as nat));
    assert(top.len() == 64);
    if h == hi {
        assert(run.subrange(0, 64) =~= top);
    } else {
        lemma_sibling_run_at(g1, g2, leaves, i, hi - 1, lo, h);
        lemma_sibling_run_len(g1, g2, leaves, i, hi - 1, lo);
        assert(run.subrange(64 * (hi - h), 64 * (hi - h) + 64) =~= rest.subrange(
            64 * (hi - 1 - h),
            64 * (hi - 1 - h) + 64,
        ));
    }
}

/// Reading the four little-endian index bytes back gives the index.
proof fn lemma_index_bytes_round_trip(i: int)
    requires
        0 <= i < 4294967296,
    ensures
        index_bytes(i)[0] + 256 * index_bytes(i)[1] + 65536 * index_bytes(i)[2] + 16777216
            * index_bytes(i)[3] == i,
{
    let q1 = i / 256;
    let q2 = i / 65536;
    let q3 = i / 16777216;
    vstd::arithmetic::div_mod::lemma_fundamental_div_mod(i, 256);
    vstd::arithmetic::div_mod::lemma_div_denominator(i, 256, 256);
    vstd::arithmetic::div_mod::lemma_fundamental_div_mod(q1, 256);
    vstd::arithmetic::div_mod::lemma_div_denominator(i, 65536, 256);
    vstd::arithmetic::div_mod::lemma_fundamental_div_mod(q2, 256);
    vstd::arithmetic::div_mod::lemma_multiply_divide_lt(i, 16777216, 256);
    vstd::arithmetic::div_mod::lemma_small_mod(q3 as nat, 256);
    assert(i % 256 < 256 && q1 % 256 < 256 && q2 % 256 < 256) by {
        vstd::arithmetic::div_mod::lemma_mod_bound(i, 256);
        vstd::arithmetic::div_mod::lemma_mod_bound(q1, 256);
        vstd::arithmetic::div_mod::lemma_mod_bound(q2, 256);
    }
}

/// Climbing a generated proof from the path node at height `h` reaches
/// the root.
proof fn lemma_climb_reaches_root(
    g1: Seq<Seq<u8>>,
    g2: Seq<Seq<u8>>,
    leaves: Seq<Seq<u8>>,
    d: nat,
    i: int,
    h: nat,
)
    requires
        1 <= d <= 16,
        0 <= i < two_pow(d),
        h <= d,
    ensures
        climb(
            g2,
            proof_bytes(g1, g2, leaves, d, i),
            d as int,
            i,
            node_bits(g1, g2, leaves, h, i / two_pow(h) as int),
            h as int,
        ) == node_bits(g1, g2, leaves, d, 0),
    decreases d - h,
{
    let pb = proof_bytes(g1, g2, leaves, d, i);
    let j = i / two_pow(h) as int;
    lemma_two_pow_pos(h);
    if h == d {
        vstd::arithmetic::div_mod::lemma_basic_div(i, two_pow(d) as int);
        assert(j == 0);
    } else {
        let cur = node_bits(g1, g2, leaves, h, j);
        // the chunk the climb reads is the sibling at height h
        lemma_proof_chunk(g1, g2, leaves, d, i, h);
        let sibx = sibling_of(i, h);
        let sib_bits = node_bits(g1, g2, leaves, h, sibx);
        lemma_node_bits_shape(g1, g2, leaves, h, sibx);
        lemma_code_round_trip(sib_bits);
        assert(coord_bits_of_code(
            chunk64(
                pb,
                if h == 0 {
                    0int
                } else {
                    d as int - h
                },
            ),
        ) == sib_bits);
        // the next node up is the compression on the side the index
        // bit picks
        let jp = i / two_pow((h + 1) as nat) as int;
        vstd::arithmetic::div_mod::lemma_div_denominator(i, two_pow(h) as int, 2);
        assert(two_pow((h + 1) as nat) == 2 * two_pow(h));
        assert(jp == j / 2);
        vstd::arithmetic::div_mod::lemma_fundamental_div_mod(j, 2);
        vstd::arithmetic::div_mod::lemma_mod_bound(j, 2);
        let nxt = node_bits(g1, g2, leaves, (h + 1) as nat, jp);
        if j % 2 == 0 {
            assert(2 * jp == j);
            assert(nxt == compress_bits(g2, cur, sib_bits));
        } else {
            assert(2 * jp + 1 == j);
            assert(nxt == compress_bits(g2, sib_bits, cur));
        }
        lemma_climb_reaches_root(g1, g2, leaves, d, i, (h + 1) as nat);
        assert(climb(g2, pb, d as int, i, cur, h as int) == climb(
            g2,
            pb,
            d as int,
            i,
            nxt,
            h as int + 1,
        ));
    }
}

/// The chunk the verifier reads at height `h` of a generated proof is
/// the encoded sibling of that height.
proof fn lemma_proof_chunk(
    g1: Seq<Seq<u8>>,
    g2: Seq<Seq<u8>>,
    leaves: Seq<Seq<u8>>,
    d: nat,
    i: int,
    h: nat,
)
    requires
        1 <= d,
        h < d,
    ensures
        chunk64(
            proof_bytes(g1, g2, leaves, d, i),
            if h == 0 {
                0int
            } else {
                d as int - h
            },
        ) =~= sibling_code(g1, g2, leaves, i, h),
{
    let pb = proof_bytes(g1, g2, leaves, d, i);
    let first = sibling_code(g1, g2, leaves, i, 0);
    let run = sibling_run(g1, g2, leaves, i, d as int - 1, 1);
    lemma_node_bits_shape(g1, g2, leaves, 0, sibling_of(i, 0));
    assert(first.len() == 64);
    lemma_sibling_run_len(g1, g2, leaves, i, d as int - 1, 1);
    if h == 0 {
        assert(chunk64(pb, 0) =~= first);
    } else {
        lemma_sibling_run_at(g1, g2, leaves, i, d as int - 1, 1, h as int);
        let k = d as int - h;
        assert(64 * k + 64 <= 64 + run.len());
        assert(chunk64(pb, k) =~= run.subrange(64 * (k - 1), 64 * (k - 1) + 64));
        assert(64 * ((d as int - 1) - h) == 64 * (k - 1));
    }
}

/// A proof generated for a leaf of the tree convinces the verifier:
/// climbing it from that leaf's digest recomputes the root.
pub proof fn lemma_membership_proof_verifies(
    g1: Seq<Seq<u8>>,
    g2: Seq<Seq<u8>>,
    leaves: Seq<Seq<u8>>,
    d: nat,
    i: int,
)
    requires
        1 <= d <= 16,
        leaves.len() == two_pow(d),
        0 <= i < two_pow(d),
    ensures
        proof_checks(
            g1,
            g2,
            code_of_coord_bits(node_bits(g1, g2, leaves, d, 0)),
            leaves[i],
            proof_bytes(g1, g2, leaves, d, i),
        ),
{
    let pb = proof_bytes(g1, g2, leaves, d, i);
    let n = pb.len() as int;
    lemma_node_bits_shape(g1, g2, leaves, 0, sibling_of(i, 0));
    lemma_sibling_run_len(g1, g2, leaves, i, d as int - 1, 1);
    assert(n == 64 * d + 4);
    assert((n - 4) % 64 == 0 && (n - 4) / 64 == d as int) by {
        vstd::arithmetic::div_mod::lemma_fundamental_div_mod_converse(
            n - 4,
            64,
            d as int,
            0,
        );
    }
    // the last four bytes carry the index
    lemma_two_pow_bound(d, 16);
    lemma_two_pow_16();
    assert(pb[n - 4] == index_bytes(i)[0] && pb[n - 3] == index_bytes(i)[1] && pb[n - 2]
        == index_bytes(i)[2] && pb[n - 1] == index_bytes(i)[3]);
    lemma_index_bytes_round_trip(i);
    assert(parsed_index(pb) == i);
    // the climb starts at the leaf digest and ends at the root
    assert(two_pow(0) == 1);
    assert(i / 1int == i);
    assert(node_bits(g1, g2, leaves, 0, i) == pedersen_bits(g1, leaves[i]));
    lemma_climb_reaches_root(g1, g2, leaves, d, i, 0);
}

/// Two powers multiply by adding their exponents.
proof fn lemma_two_pow_split(d: nat, h: nat)
    requires
        h <= d,
    ensures
        two_pow(d) == two_pow(h) * two_pow((d - h) as nat),
    decreases h,
{
    if h > 0 {
        lemma_two_pow_split((d - 1) as nat, (h - 1) as nat);
        let a = two_pow((h - 1) as nat);
        let b = two_pow((d - h) as nat);
        assert(((d - 1) - (h - 1)) as nat == (d - h) as nat);
        assert(two_pow((d - 1) as nat) == a * b);
        assert(two_pow(d) == 2 * (a * b));
        assert(2 * (a * b) == (2 * a) * b) by (nonlinear_arith);
        assert(two_pow(h) == 2 * a);
    } else {
        assert(two_pow(0) == 1);
        assert((d - 0) as nat == d);
        assert(1 * two_pow(d) == two_pow(d)) by (nonlinear_arith);
    }
}

} // verus!
