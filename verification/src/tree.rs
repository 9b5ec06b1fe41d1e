//! Amortized incremental Merkle accumulator: an append-only, fixed-arity,
//! fixed-depth Merkle tree. Insertion caches completed subtree hashes per
//! level and rehashes only one spine node per carry, so it runs in time
//! proportional to the depth. An explicit merge step pads the unfilled slots
//! with empty-subtree hashes and produces the canonical root, exactly once.
use vstd::prelude::*;
use vstd::arithmetic::power::{pow, lemma_pow_positive, lemma_pow_increases};
use vstd::arithmetic::mul::{lemma_mul_inequality, lemma_mul_is_associative};
use crate::hash::{HashBytes, poseidon_digest, poseidon_hash};

verus! {

broadcast use vstd::arithmetic::mul::group_mul_basics, vstd::arithmetic::mul::lemma_mul_nonnegative;

/// How an accumulator operation fails.
#[derive(Clone, Copy, PartialEq, Eq, Structural, Debug)]
pub enum MerkleTreeError {
    /// No hash sponge exists for the requested arity.
    HashUnavailable,
    /// The accumulator already holds as many leaves as it has slots.
    CapacityExceeded,
    /// The accumulator was merged; no further leaves may be inserted.
    AlreadyFinalized,
    /// Merging could not produce a root.
    MergeFailed,
}

/// The all-zero 32-byte leaf.
pub open spec fn zero_leaf() -> Seq<u8> {
    Seq::new(32, |i: int| 0u8)
}

/// The leaf value that pads an interaction accumulator: the arity-5 digest
/// of five all-zero leaves (an empty ballot).
pub open spec fn empty_ballot_leaf() -> Seq<u8> {
    poseidon_digest(empty_children(5, zero_leaf(), 0))
}

/// The padding leaf a merge selects: interactions pad with the empty ballot
/// value, registrations with the all-zero leaf.
pub open spec fn pad_base(pad_with_ballot: bool) -> Seq<u8> {
    if pad_with_ballot {
        empty_ballot_leaf()
    } else {
        zero_leaf()
    }
}

/// Root of an all-empty subtree of the given height: the padding leaf
/// hashed up level by level, `arity` copies at a time.
pub open spec fn empty_subtree(arity: nat, base: Seq<u8>, level: nat) -> Seq<u8>
    decreases level, 0int,
{
    if level == 0 {
        base
    } else {
        poseidon_digest(empty_children(arity, base, (level - 1) as nat))
    }
}

/// `arity` copies of the empty subtree of the given height.
pub open spec fn empty_children(arity: nat, base: Seq<u8>, level: nat) -> Seq<Seq<u8>>
    decreases level, 1int,
{
    Seq::new(arity, |j: int| empty_subtree(arity, base, level))
}

/// The value of node `index` at height `level` of a tree over `leaves`,
/// where every slot past the last leaf reads as `base`.
pub open spec fn tree_node(
    arity: nat,
    leaves: Seq<Seq<u8>>,
    base: Seq<u8>,
    level: nat,
    index: nat,
) -> Seq<u8>
    decreases level, 0int,
{
    if level == 0 {
        if index < leaves.len() {
            leaves[index as int]
        } else {
            base
        }
    } else {
        poseidon_digest(tree_children(arity, leaves, base, (level - 1) as nat, index))
    }
}

/// The `arity` children, at height `level`, of node `index` one level up.
pub open spec fn tree_children(
    arity: nat,
    leaves: Seq<Seq<u8>>,
    base: Seq<u8>,
    level: nat,
    index: nat,
) -> Seq<Seq<u8>>
    decreases level, 1int,
{
    Seq::new(arity, |j: int| tree_node(arity, leaves, base, level, (index * arity + j) as nat))
}

/// The definitional facts about a node above the leaf level, restated so
/// callers can apply them pointwise.
proof fn lemma_node_unfold(arity: nat, leaves: Seq<Seq<u8>>, base: Seq<u8>, level: nat, index: nat)
    requires
        level > 0,
    ensures
        tree_node(arity, leaves, base, level, index)
            == poseidon_digest(tree_children(arity, leaves, base, (level - 1) as nat, index)),
        tree_children(arity, leaves, base, (level - 1) as nat, index).len() == arity,
{
}

/// One entry of a node's child sequence.
proof fn lemma_children_index(
    arity: nat,
    leaves: Seq<Seq<u8>>,
    base: Seq<u8>,
    level: nat,
    index: nat,
    j: int,
)
    requires
        0 <= j < arity,
    ensures
        tree_children(arity, leaves, base, level, index).len() == arity,
        tree_children(arity, leaves, base, level, index)[j]
            == tree_node(arity, leaves, base, level, (index * arity + j) as nat),
{
}

/// The definitional facts about an empty subtree above the leaf level.
proof fn lemma_empty_unfold(arity: nat, base: Seq<u8>, level: nat)
    requires
        level > 0,
    ensures
        empty_subtree(arity, base, level)
            == poseidon_digest(empty_children(arity, base, (level - 1) as nat)),
        empty_children(arity, base, (level - 1) as nat).len() == arity,
{
}

/// One entry of an empty subtree's child sequence.
proof fn lemma_empty_children_index(arity: nat, base: Seq<u8>, level: nat, j: int)
    requires
        0 <= j < arity,
    ensures
        empty_children(arity, base, level).len() == arity,
        empty_children(arity, base, level)[j] == empty_subtree(arity, base, level),
{
}

/// The canonical root of an accumulator of the given shape over `leaves`,
/// padded according to the merge flag.
pub open spec fn merkle_root(arity: nat, depth: nat, leaves: Seq<Seq<u8>>, pad_with_ballot: bool) -> Seq<u8> {
    tree_node(arity, leaves, pad_base(pad_with_ballot), depth, 0)
}

/// Index of the first pending (not yet merged upward) node at `level`:
/// every pending node at a higher level `j` stands for `arity^(j - level)`
/// nodes of this level, all of them to its left.
spec fn first_pending(levels: Seq<Vec<HashBytes>>, arity: nat, level: nat) -> nat
    decreases levels.len() - level,
{
    if level + 1 >= levels.len() {
        0
    } else {
        arity * (first_pending(levels, arity, level + 1) + levels[(level + 1) as int]@.len())
    }
}

/// Leaves accounted for by pending nodes strictly below `level`.
spec fn low_sum(levels: Seq<Vec<HashBytes>>, arity: nat, level: nat) -> int
    decreases level,
{
    if level == 0 {
        0
    } else {
        low_sum(levels, arity, (level - 1) as nat)
            + levels[level - 1]@.len() * pow(arity as int, (level - 1) as nat)
    }
}

/// The total leaf count decomposes, at any level, into the leaves covered at
/// or above that level plus the leaves pending below it.
proof fn lemma_decompose(levels: Seq<Vec<HashBytes>>, arity: nat, level: nat)
    requires
        level < levels.len(),
    ensures
        first_pending(levels, arity, 0) + levels[0]@.len()
            == (first_pending(levels, arity, level) + levels[level as int]@.len())
                * pow(arity as int, level) + low_sum(levels, arity, level),
    decreases level,
{
    reveal(pow);
    if level == 0 {
    } else {
        let prev = (level - 1) as nat;
        lemma_decompose(levels, arity, prev);
        let fp_l = first_pending(levels, arity, level) as int;
        let len_l = levels[level as int]@.len() as int;
        let len_prev = levels[prev as int]@.len() as int;
        let a = arity as int;
        let p_prev = pow(a, prev);
        assert(first_pending(levels, arity, prev)
            == arity * (first_pending(levels, arity, level) + levels[level as int]@.len()));
        assert(pow(a, level) == a * p_prev);
        assert((a * (fp_l + len_l) + len_prev) * p_prev
            == (fp_l + len_l) * (a * p_prev) + len_prev * p_prev) by (nonlinear_arith);
    }
}

/// If every level below `level` is empty, nothing is pending below it.
proof fn lemma_low_sum_zero(levels: Seq<Vec<HashBytes>>, arity: nat, level: nat)
    requires
        forall|j: int| 0 <= j < level ==> levels[j]@.len() == 0,
    ensures
        low_sum(levels, arity, level) == 0,
    decreases level,
{
    if level == 0 {
    } else {
        lemma_low_sum_zero(levels, arity, (level - 1) as nat);
    }
}

/// With every level below `level` holding fewer than `arity` pending nodes,
/// the leaves pending below `level` cannot fill a subtree of that height.
proof fn lemma_low_sum_bound(levels: Seq<Vec<HashBytes>>, arity: nat, level: nat)
    requires
        1 <= arity,
        level <= levels.len(),
        forall|j: int| 0 <= j < level ==> levels[j]@.len() < arity,
    ensures
        0 <= low_sum(levels, arity, level) < pow(arity as int, level),
    decreases level,
{
    reveal(pow);
    if level == 0 {
    } else {
        let prev = (level - 1) as nat;
        lemma_low_sum_bound(levels, arity, prev);
        let a = arity as int;
        let p_prev = pow(a, prev);
        let len_prev = levels[prev as int]@.len() as int;
        lemma_pow_positive(a, prev);
        lemma_mul_inequality(len_prev, a - 1, p_prev);
        assert(pow(a, level) == a * p_prev);
        assert((a - 1) * p_prev == a * p_prev - p_prev) by (nonlinear_arith);
    }
}

/// Replacing the nodes of one level does not move the pending-node indices
/// at that level or above.
proof fn lemma_fp_update(levels: Seq<Vec<HashBytes>>, arity: nat, at: nat, x: Vec<HashBytes>, level: nat)
    requires
        at < levels.len(),
        at <= level,
    ensures
        first_pending(levels.update(at as int, x), arity, level) == first_pending(levels, arity, level),
    decreases levels.len() - level,
{
    if level + 1 >= levels.len() {
    } else {
        lemma_fp_update(levels, arity, at, x, level + 1);
    }
}

/// With no pending node at `level` or above, the first pending index is zero.
proof fn lemma_fp_all_empty(levels: Seq<Vec<HashBytes>>, arity: nat, level: nat)
    requires
        forall|j: int| level < j < levels.len() ==> levels[j]@.len() == 0,
    ensures
        first_pending(levels, arity, level) == 0,
    decreases levels.len() - level,
{
    if level + 1 >= levels.len() {
        assert(first_pending(levels, arity, level) == 0);
    } else {
        lemma_fp_all_empty(levels, arity, level + 1);
        assert(levels[(level + 1) as int]@.len() == 0);
        assert(first_pending(levels, arity, level + 1) == 0);
        assert(first_pending(levels, arity, level)
            == arity * (first_pending(levels, arity, level + 1) + levels[(level + 1) as int]@.len()));
    }
}

/// The definitional equation of the first pending index, one level up.
proof fn lemma_fp_unfold(levels: Seq<Vec<HashBytes>>, arity: nat, level: nat)
    requires
        level + 1 < levels.len(),
    ensures
        first_pending(levels, arity, level)
            == arity * (first_pending(levels, arity, level + 1) + levels[(level + 1) as int]@.len()),
{
}

/// The definitional value of a node at the leaf level.
proof fn lemma_node_base(arity: nat, leaves: Seq<Seq<u8>>, base: Seq<u8>, index: nat)
    ensures
        tree_node(arity, leaves, base, 0, index) == (if index < leaves.len() {
            leaves[index as int]
        } else {
            base
        }),
{
}

/// An empty subtree of height zero is the padding leaf itself.
proof fn lemma_empty_base(arity: nat, base: Seq<u8>)
    ensures
        empty_subtree(arity, base, 0) == base,
{
}

/// A node whose subtree lies entirely within the leaves has the same value
/// over any extension of the leaves and any padding value.
proof fn lemma_node_agrees(
    arity: nat,
    leaves1: Seq<Seq<u8>>,
    base1: Seq<u8>,
    leaves2: Seq<Seq<u8>>,
    base2: Seq<u8>,
    level: nat,
    index: nat,
)
    requires
        1 <= arity,
        (index + 1) * pow(arity as int, level) <= leaves1.len(),
        leaves1.len() <= leaves2.len(),
        forall|i: int| 0 <= i < leaves1.len() ==> leaves1[i] == leaves2[i],
    ensures
        tree_node(arity, leaves1, base1, level, index) == tree_node(arity, leaves2, base2, level, index),
    decreases level,
{
    reveal(pow);
    lemma_pow_positive(arity as int, level);
    if level == 0 {
        assert(index < leaves1.len()) by (nonlinear_arith)
            requires
                (index + 1) * pow(arity as int, level) <= leaves1.len(),
                pow(arity as int, level) == 1,
        ;
    } else {
        let prev = (level - 1) as nat;
        let a = arity as int;
        let p_prev = pow(a, prev);
        lemma_pow_positive(a, prev);
        assert(pow(a, level) == a * p_prev);
        assert forall|j: int| 0 <= j < a implies tree_children(arity, leaves1, base1, prev, index)[j]
            == tree_children(arity, leaves2, base2, prev, index)[j] by {
            lemma_children_index(arity, leaves1, base1, prev, index, j);
            lemma_children_index(arity, leaves2, base2, prev, index, j);
            let child = (index * arity + j) as nat;
            assert((child + 1) * p_prev <= (index + 1) * (a * p_prev)) by (nonlinear_arith)
                requires
                    0 <= j < a,
                    child == index * arity + j,
                    a == arity,
                    p_prev > 0,
            ;
            lemma_mul_is_associative(index as int + 1, a, p_prev);
            lemma_node_agrees(arity, leaves1, base1, leaves2, base2, prev, child);
        }
        lemma_node_unfold(arity, leaves1, base1, level, index);
        lemma_node_unfold(arity, leaves2, base2, level, index);
        assert(tree_children(arity, leaves1, base1, prev, index)
            =~= tree_children(arity, leaves2, base2, prev, index));
    }
}

/// A node whose subtree lies entirely past the leaves is an empty subtree.
proof fn lemma_node_past_leaves(
    arity: nat,
    leaves: Seq<Seq<u8>>,
    base: Seq<u8>,
    level: nat,
    index: nat,
)
    requires
        1 <= arity,
        index * pow(arity as int, level) >= leaves.len(),
    ensures
        tree_node(arity, leaves, base, level, index) == empty_subtree(arity, base, level),
    decreases level,
{
    reveal(pow);
    lemma_pow_positive(arity as int, level);
    if level == 0 {
        assert(index >= leaves.len()) by (nonlinear_arith)
            requires
                index * pow(arity as int, level) >= leaves.len(),
                pow(arity as int, level) == 1,
                index >= 0,
        ;
    } else {
        let prev = (level - 1) as nat;
        let a = arity as int;
        let p_prev = pow(a, prev);
        lemma_pow_positive(a, prev);
        assert(pow(a, level) == a * p_prev);
        assert forall|j: int| 0 <= j < a implies tree_children(arity, leaves, base, prev, index)[j]
            == empty_children(arity, base, prev)[j] by {
            lemma_children_index(arity, leaves, base, prev, index, j);
            lemma_empty_children_index(arity, base, prev, j);
            let child = (index * arity + j) as nat;
            assert(child * p_prev >= index * (a * p_prev)) by (nonlinear_arith)
                requires
                    0 <= j,
                    child == index * arity + j,
                    a == arity,
                    p_prev > 0,
            ;
            lemma_mul_is_associative(index as int, a, p_prev);
            lemma_node_past_leaves(arity, leaves, base, prev, child);
        }
        lemma_node_unfold(arity, leaves, base, level, index);
        lemma_empty_unfold(arity, base, level);
        assert(tree_children(arity, leaves, base, prev, index) =~= empty_children(arity, base, prev));
    }
}

/// A base of at least two grows faster than the exponent.
proof fn lemma_pow_exceeds_exp(b: int, e: nat)
    requires
        2 <= b,
    ensures
        pow(b, e) > e,
    decreases e,
{
    reveal(pow);
    if e > 0 {
        lemma_pow_exceeds_exp(b, (e - 1) as nat);
        lemma_pow_positive(b, (e - 1) as nat);
        assert(pow(b, e) == b * pow(b, (e - 1) as nat));
        assert(b * pow(b, (e - 1) as nat) >= 2 * pow(b, (e - 1) as nat)) by (nonlinear_arith)
            requires
                b >= 2,
                pow(b, (e - 1) as nat) > 0,
        ;
    }
}

/// Raises `base` to the power `exp` in `u32` arithmetic.
pub fn pow_u32(base: u32, exp: u32) -> (r: u32)
    requires
        1 <= base,
        pow(base as int, exp as nat) <= u32::MAX,
    ensures
        r == pow(base as int, exp as nat),
{
    proof {
        reveal(pow);
    }
    let mut acc: u32 = 1;
    let mut i: u32 = 0;
    while i < exp
        invariant
            i <= exp,
            1 <= base,
            acc == pow(base as int, i as nat),
            pow(base as int, exp as nat) <= u32::MAX,
        decreases exp - i,
    {
        proof {
            reveal(pow);
            lemma_pow_increases(base as nat, (i + 1) as nat, exp as nat);
            assert(pow(base as int, (i + 1) as nat) == base * pow(base as int, i as nat));
        }
        acc = acc * base;
        i = i + 1;
    }
    acc
}

/// A 32-byte value of all zeroes: the encoding of the zero field element.
pub fn zero32() -> (r: HashBytes)
    ensures
        r@ == zero_leaf(),
{
    let out = [0u8; 32];
    proof {
        assert(out@ =~= zero_leaf());
    }
    out
}

/// The empty-ballot padding leaf as bytes: the arity-5 digest of five
/// all-zero leaves.
pub fn empty_ballot_leaf_bytes() -> (r: HashBytes)
    ensures
        r@ == empty_ballot_leaf(),
{
    let mut zeroes: Vec<HashBytes> = Vec::new();
    let mut i: usize = 0;
    while i < 5
        invariant
            i <= 5,
            zeroes@.len() == i,
            forall|j: int| 0 <= j < i ==> zeroes@[j]@ == zero_leaf(),
        decreases 5 - i,
    {
        zeroes.push(zero32());
        i = i + 1;
    }
    match poseidon_hash(&zeroes) {
        Some(h) => {
            proof {
                assert(zeroes.deep_view() =~~= Seq::new(5, |j: int| zero_leaf()));
            }
            h
        },
        None => {
            proof {
                assert(false);
            }
            zero32()
        },
    }
}

/// An append-only, fixed-arity, fixed-depth Merkle accumulator.
///
/// While open, `insert` appends a leaf in time proportional to the depth;
/// `merge` pads the remaining slots and fixes the canonical root, after
/// which the accumulator is immutable.
pub struct MerkleTree {
    arity: u32,
    depth: u32,
    count: u32,
    root: Option<HashBytes>,
    levels: Vec<Vec<HashBytes>>,
    leaves: Ghost<Seq<Seq<u8>>>,
}

impl MerkleTree {
    /// The branching factor.
    pub closed spec fn spec_arity(self) -> u32 {
        self.arity
    }

    /// The number of levels between the leaves and the root.
    pub closed spec fn spec_depth(self) -> u32 {
        self.depth
    }

    /// How many leaves have been inserted.
    pub closed spec fn spec_count(self) -> u32 {
        self.count
    }

    /// The canonical root: absent until the accumulator is merged.
    pub closed spec fn spec_root(self) -> Option<HashBytes> {
        self.root
    }

    /// The sequence of leaves inserted so far.
    pub closed spec fn leaves(self) -> Seq<Seq<u8>> {
        self.leaves@
    }

    /// The number of leaf slots: `arity ^ depth`.
    pub open spec fn capacity(self) -> int {
        pow(self.spec_arity() as int, self.spec_depth() as nat)
    }

    #[verifier::type_invariant]
    spec fn inv(self) -> bool {
        let a = self.arity as nat;
        let d = self.depth as int;
        &&& 2 <= self.arity <= 12
        &&& pow(self.arity as int, self.depth as nat) < u32::MAX
        &&& self.count == self.leaves@.len()
        &&& self.count <= pow(self.arity as int, self.depth as nat)
        &&& self.levels@.len() == d + 1
        &&& (forall|l: int| 0 <= l < d ==> self.levels@[l]@.len() < a)
        &&& self.levels@[d]@.len() <= 1
        &&& self.count == first_pending(self.levels@, a, 0) + self.levels@[0]@.len()
        &&& (forall|l: int, k: int|
            0 <= l <= d && 0 <= k < self.levels@[l]@.len()
                ==> #[trigger] self.levels@[l]@[k]@ == tree_node(
                    a,
                    self.leaves@,
                    zero_leaf(),
                    l as nat,
                    (first_pending(self.levels@, a, l as nat) + k) as nat,
                ))
    }

    /// Creates an open accumulator with the given branching factor and depth.
    /// Fails with `HashUnavailable` exactly when no sponge exists for the
    /// requested arity.
    pub fn new(arity: u32, depth: u32) -> (r: Result<MerkleTree, MerkleTreeError>)
        requires
            2 <= arity <= 12 ==> pow(arity as int, depth as nat) < u32::MAX,
        ensures
            r is Ok <==> 2 <= arity <= 12,
            r matches Err(e) ==> e == MerkleTreeError::HashUnavailable,
            r matches Ok(t) ==> {
                &&& t.spec_arity() == arity
                &&& t.spec_depth() == depth
                &&& t.spec_count() == 0
                &&& t.spec_root() is None
                &&& t.leaves() == Seq::<Seq<u8>>::empty()
            },
    {
        if arity < 2 || arity > 12 {
            return Err(MerkleTreeError::HashUnavailable);
        }
        proof {
            lemma_pow_exceeds_exp(arity as int, depth as nat);
            lemma_pow_positive(arity as int, depth as nat);
        }
        let mut levels: Vec<Vec<HashBytes>> = Vec::new();
        let mut l: u32 = 0;
        while l < depth + 1
            invariant
                l <= depth + 1,
                depth < u32::MAX,
                levels@.len() == l,
                forall|j: int| 0 <= j < l ==> levels@[j]@.len() == 0,
            decreases depth + 1 - l,
        {
            levels.push(Vec::new());
            l = l + 1;
        }
        proof {
            lemma_fp_all_empty(levels@, arity as nat, 0);
        }
        Ok(MerkleTree {
            arity,
            depth,
            count: 0,
            root: None,
            levels,
            leaves: Ghost(Seq::empty()),
        })
    }

    /// How many leaves have been inserted: always the number of leaves, and
    /// never more than the capacity, which itself fits `u32`.
    pub fn count(&self) -> (r: u32)
        ensures
            r == self.spec_count(),
            r == self.leaves().len(),
            r <= self.capacity() < u32::MAX,
    {
        proof {
            use_type_invariant(self);
        }
        self.count
    }

    /// The branching factor: always one a hash sponge exists for.
    pub fn arity(&self) -> (r: u32)
        ensures
            r == self.spec_arity(),
            2 <= r <= 12,
    {
        proof {
            use_type_invariant(self);
        }
        self.arity
    }

    /// The number of levels between the leaves and the root.
    pub fn depth(&self) -> (r: u32)
        ensures
            r == self.spec_depth(),
    {
        self.depth
    }

    /// The canonical root: absent until the accumulator is merged.
    pub fn root(&self) -> (r: Option<HashBytes>)
        ensures
            r == self.spec_root(),
    {
        self.root
    }

    /// Appends `leaf` at position `count`, rehashing only the completed
    /// spine. Fails with `AlreadyFinalized` once merged and with
    /// `CapacityExceeded` once every slot is filled.
    #[verifier::loop_isolation(false)]
    pub fn insert(self, leaf: HashBytes) -> (r: Result<MerkleTree, MerkleTreeError>)
        ensures
            r is Ok <==> (self.spec_root() is None && self.spec_count() < self.capacity()),
            r matches Ok(t) ==> {
                &&& t.spec_arity() == self.spec_arity()
                &&& t.spec_depth() == self.spec_depth()
                &&& t.spec_count() == self.spec_count() + 1
                &&& t.spec_root() is None
                &&& t.leaves() == self.leaves().push(leaf@)
            },
            r matches Err(e) ==> e == (if self.spec_root() is Some {
                MerkleTreeError::AlreadyFinalized
            } else {
                MerkleTreeError::CapacityExceeded
            }),
    {
        proof {
            use_type_invariant(&self);
        }
        if self.root.is_some() {
            return Err(MerkleTreeError::AlreadyFinalized);
        }
        let capacity = pow_u32(self.arity, self.depth);
        if self.count >= capacity {
            return Err(MerkleTreeError::CapacityExceeded);
        }
        let MerkleTree { arity, depth, count, root: _, mut levels, leaves } = self;
        let ghost a = arity as nat;
        let ghost new_leaves = leaves@.push(leaf@);
        proof {
            reveal(pow);
            assert forall|l: int, k: int|
                0 <= l <= depth && 0 <= k < levels@[l]@.len()
                    implies #[trigger] levels@[l]@[k]@ == tree_node(
                        a,
                        new_leaves,
                        zero_leaf(),
                        l as nat,
                        (first_pending(levels@, a, l as nat) + k) as nat,
                    ) by {
                let fp_l = first_pending(levels@, a, l as nat) as int;
                let len_l = levels@[l]@.len() as int;
                lemma_decompose(levels@, a, l as nat);
                lemma_low_sum_bound(levels@, a, l as nat);
                lemma_pow_positive(arity as int, l as nat);
                assert((fp_l + k + 1) * pow(arity as int, l as nat)
                    <= (fp_l + len_l) * pow(arity as int, l as nat)) by (nonlinear_arith)
                    requires
                        k + 1 <= len_l,
                        pow(arity as int, l as nat) > 0,
                        fp_l >= 0,
                ;
                lemma_node_agrees(
                    a,
                    leaves@,
                    zero_leaf(),
                    new_leaves,
                    zero_leaf(),
                    l as nat,
                    (fp_l + k) as nat,
                );
            }
        }
        proof {
            vstd::arithmetic::power::lemma_pow0(arity as int);
            lemma_node_base(a, new_leaves, zero_leaf(), count as nat);
            let fp0 = first_pending(levels@, a, 0) as int;
            let len0 = levels@[0]@.len() as int;
            assert((fp0 + len0 + 1) * pow(arity as int, 0) == count + 1) by (nonlinear_arith)
                requires
                    fp0 + len0 == count,
                    pow(arity as int, 0) == 1,
            ;
        }
        let mut node: HashBytes = leaf;
        let mut l: usize = 0;
        loop
            invariant
                l <= depth,
                levels@.len() == depth + 1,
                forall|j: int| 0 <= j < l ==> levels@[j]@.len() == 0,
                forall|j: int| 0 <= j < depth ==> levels@[j]@.len() < a,
                levels@[depth as int]@.len() <= 1,
                node@ == tree_node(
                    a,
                    new_leaves,
                    zero_leaf(),
                    l as nat,
                    (first_pending(levels@, a, l as nat) + levels@[l as int]@.len()) as nat,
                ),
                (first_pending(levels@, a, l as nat) + levels@[l as int]@.len() + 1)
                    * pow(arity as int, l as nat) == count + 1,
                forall|j: int, k: int|
                    0 <= j <= depth && 0 <= k < levels@[j]@.len()
                        ==> #[trigger] levels@[j]@[k]@ == tree_node(
                            a,
                            new_leaves,
                            zero_leaf(),
                            j as nat,
                            (first_pending(levels@, a, j as nat) + k) as nat,
                        ),
            decreases depth - l,
        {
            let ghost old_levels = levels@;
            let ghost fp_l = first_pending(levels@, a, l as nat) as int;
            let ghost len_l = levels@[l as int]@.len() as int;
            let mut inner = levels.remove(l);
            inner.push(node);
            let filled = inner.len();
            if filled < arity as usize || l == depth as usize {
                levels.insert(l, inner);
                proof {
                    assert(levels@ =~= old_levels.update(l as int, inner));
                    assert forall|j: nat| l <= j <= depth implies first_pending(levels@, a, j)
                        == first_pending(old_levels, a, j) by {
                        lemma_fp_update(old_levels, a, l as nat, inner, j);
                    }
                    if l == depth {
                        lemma_pow_positive(arity as int, depth as nat);
                        assert(fp_l + len_l + 1 <= 1) by (nonlinear_arith)
                            requires
                                (fp_l + len_l + 1) * pow(arity as int, depth as nat) == count + 1,
                                count + 1 <= pow(arity as int, depth as nat),
                                pow(arity as int, depth as nat) > 0,
                                fp_l >= 0,
                                len_l >= 0,
                        ;
                    }
                    lemma_decompose(levels@, a, l as nat);
                    lemma_low_sum_zero(levels@, a, l as nat);
                    assert forall|j: int, k: int|
                        0 <= j <= depth && 0 <= k < levels@[j]@.len()
                            implies #[trigger] levels@[j]@[k]@ == tree_node(
                                a,
                                new_leaves,
                                zero_leaf(),
                                j as nat,
                                (first_pending(levels@, a, j as nat) + k) as nat,
                            ) by {
                        if j < l {
                            assert(old_levels[j]@.len() == 0);
                        } else {
                            lemma_fp_update(old_levels, a, l as nat, inner, j as nat);
                            if j != l {
                                assert(levels@[j] == old_levels[j]);
                            }
                        }
                    }
                }
                return Ok(MerkleTree {
                    arity,
                    depth,
                    count: count + 1,
                    root: None,
                    levels,
                    leaves: Ghost(new_leaves),
                });
            }
            let hashed = poseidon_hash(&inner);
            let carried = match hashed {
                Some(h) => h,
                None => {
                    proof {
                        assert(false);
                    }
                    return Err(MerkleTreeError::MergeFailed);
                },
            };
            let empty_level: Vec<HashBytes> = Vec::new();
            levels.insert(l, empty_level);
            proof {
                vstd::arithmetic::power::lemma_pow_adds(arity as int, l as nat, 1);
                vstd::arithmetic::power::lemma_pow1(arity as int);
                assert(levels@ =~= old_levels.update(l as int, empty_level));
                assert forall|j: nat| l <= j <= depth implies first_pending(levels@, a, j)
                    == first_pending(old_levels, a, j) by {
                    lemma_fp_update(old_levels, a, l as nat, empty_level, j);
                }
                lemma_fp_unfold(levels@, a, l as nat);
                let parent = first_pending(levels@, a, (l + 1) as nat) + levels@[(l + 1) as int]@.len();
                assert(fp_l == a * parent);
                assert forall|j: int| 0 <= j < a implies tree_children(
                    a,
                    new_leaves,
                    zero_leaf(),
                    l as nat,
                    parent,
                )[j] == inner.deep_view()[j] by {
                    lemma_children_index(a, new_leaves, zero_leaf(), l as nat, parent, j);
                    assert(parent * a + j == fp_l + j) by (nonlinear_arith)
                        requires
                            fp_l == a * parent,
                    ;
                    if j < len_l {
                        assert(inner@[j] == old_levels[l as int]@[j]);
                    } else {
                        assert(inner@[j] == node);
                    }
                    assert(inner.deep_view()[j] =~= inner@[j]@);
                }
                lemma_node_unfold(a, new_leaves, zero_leaf(), (l + 1) as nat, parent);
                assert(inner.deep_view() =~= tree_children(a, new_leaves, zero_leaf(), l as nat, parent));
                assert(carried@ == tree_node(a, new_leaves, zero_leaf(), (l + 1) as nat, parent));
                assert((parent + 1) * pow(arity as int, (l + 1) as nat) == count + 1) by (nonlinear_arith)
                    requires
                        (fp_l + len_l + 1) * pow(arity as int, l as nat) == count + 1,
                        len_l + 1 == a,
                        fp_l == a * parent,
                        pow(arity as int, (l + 1) as nat) == pow(arity as int, l as nat) * arity,
                        a == arity,
                ;
                assert forall|j: int, k: int|
                    0 <= j <= depth && 0 <= k < levels@[j]@.len()
                        implies #[trigger] levels@[j]@[k]@ == tree_node(
                            a,
                            new_leaves,
                            zero_leaf(),
                            j as nat,
                            (first_pending(levels@, a, j as nat) + k) as nat,
                        ) by {
                    if j <= l {
                        assert(levels@[j]@.len() == 0);
                    } else {
                        assert(levels@[j] == old_levels[j]);
                        lemma_fp_update(old_levels, a, l as nat, empty_level, j as nat);
                    }
                }
            }
            node = carried;
            l = l + 1;
        }
    }

    /// Merges the accumulator: pads every unfilled slot with the empty
    /// subtree selected by `pad_with_ballot` and fixes the canonical root.
    /// Once a root exists, further merges return the accumulator unchanged.
    #[verifier::loop_isolation(false)]
    pub fn merge(self, pad_with_ballot: bool) -> (r: Result<MerkleTree, MerkleTreeError>)
        ensures
            r is Ok,
            r matches Ok(t) ==> {
                &&& (self.spec_root() is Some ==> t == self)
                &&& t.spec_arity() == self.spec_arity()
                &&& t.spec_depth() == self.spec_depth()
                &&& t.spec_count() == self.spec_count()
                &&& t.leaves() == self.leaves()
                &&& t.spec_root() is Some
                &&& (self.spec_root() is None ==> t.spec_root().unwrap()@ == merkle_root(
                    self.spec_arity() as nat,
                    self.spec_depth() as nat,
                    self.leaves(),
                    pad_with_ballot,
                ))
            },
    {
        proof {
            use_type_invariant(&self);
        }
        if self.root.is_some() {
            return Ok(self);
        }
        let ghost a = self.arity as nat;
        let ghost base_spec = pad_base(pad_with_ballot);
        let base: HashBytes = if pad_with_ballot {
            empty_ballot_leaf_bytes()
        } else {
            zero32()
        };
        assert(base@ == base_spec);
        let capacity = pow_u32(self.arity, self.depth);
        let MerkleTree { arity, depth, count, root: _, levels, leaves } = self;
        if count == capacity {
            proof {
                lemma_decompose(levels@, a, depth as nat);
                lemma_low_sum_bound(levels@, a, depth as nat);
                lemma_pow_positive(arity as int, depth as nat);
                let fp_d = first_pending(levels@, a, depth as nat) as int;
                let len_d = levels@[depth as int]@.len() as int;
                assert(fp_d + len_d == 1) by (nonlinear_arith)
                    requires
                        (fp_d + len_d) * pow(arity as int, depth as nat)
                            + low_sum(levels@, a, depth as nat) == count,
                        count == pow(arity as int, depth as nat),
                        0 <= low_sum(levels@, a, depth as nat) < pow(arity as int, depth as nat),
                        pow(arity as int, depth as nat) > 0,
                        fp_d >= 0,
                        len_d >= 0,
                ;
                assert(len_d == 1);
                lemma_node_agrees(a, leaves@, zero_leaf(), leaves@, base_spec, depth as nat, 0);
            }
            let rt = levels[depth as usize][0];
            return Ok(MerkleTree { arity, depth, count, root: Some(rt), levels, leaves });
        }
        let mut carry: HashBytes = base;
        let mut zpad: HashBytes = base;
        let mut l: usize = 0;
        proof {
            vstd::arithmetic::power::lemma_pow0(arity as int);
            let idx0 = (first_pending(levels@, a, 0) + levels@[0]@.len()) as int;
            assert(idx0 * pow(arity as int, 0) >= leaves@.len()) by (nonlinear_arith)
                requires
                    idx0 == leaves@.len(),
                    pow(arity as int, 0) == 1,
            ;
            lemma_node_past_leaves(a, leaves@, base_spec, 0, idx0 as nat);
            lemma_empty_base(a, base_spec);
        }
        while l < depth as usize
            invariant
                l <= depth,
                zpad@ == empty_subtree(a, base_spec, l as nat),
                carry@ == tree_node(
                    a,
                    leaves@,
                    base_spec,
                    l as nat,
                    (first_pending(levels@, a, l as nat) + levels@[l as int]@.len()) as nat,
                ),
            decreases depth - l,
        {
            let ghost fp_l = first_pending(levels@, a, l as nat) as int;
            let ghost len_l = levels@[l as int]@.len() as int;
            proof {
                lemma_decompose(levels@, a, l as nat);
                lemma_low_sum_bound(levels@, a, l as nat);
                lemma_pow_positive(arity as int, l as nat);
            }
            let mut nodes: Vec<HashBytes> = Vec::new();
            let mut k: usize = 0;
            let pend = levels[l].len();
            while k < pend
                invariant
                    k <= pend,
                    nodes@.len() == k,
                    forall|j: int| 0 <= j < k ==> nodes@[j] == levels@[l as int]@[j],
                decreases pend - k,
            {
                let entry = levels[l][k];
                nodes.push(entry);
                k = k + 1;
            }
            nodes.push(carry);
            while nodes.len() < arity as usize
                invariant
                    len_l + 1 <= nodes@.len() <= arity,
                    forall|j: int| 0 <= j < len_l ==> nodes@[j] == levels@[l as int]@[j],
                    nodes@[len_l] == carry,
                    forall|j: int| len_l < j < nodes@.len() ==> nodes@[j] == zpad,
                decreases arity - nodes@.len(),
            {
                nodes.push(zpad);
            }
            proof {
                lemma_fp_unfold(levels@, a, l as nat);
                let parent = first_pending(levels@, a, (l + 1) as nat) + levels@[(l + 1) as int]@.len();
                assert(fp_l == a * parent);
                assert forall|j: int| 0 <= j < a implies tree_children(
                    a,
                    leaves@,
                    base_spec,
                    l as nat,
                    parent,
                )[j] == nodes.deep_view()[j] by {
                    lemma_children_index(a, leaves@, base_spec, l as nat, parent, j);
                    assert(parent * a + j == fp_l + j) by (nonlinear_arith)
                        requires
                            fp_l == a * parent,
                    ;
                    assert(nodes.deep_view()[j] =~= nodes@[j]@);
                    if j < len_l {
                        assert((fp_l + j + 1) * pow(arity as int, l as nat)
                            <= (fp_l + len_l) * pow(arity as int, l as nat)) by (nonlinear_arith)
                            requires
                                j + 1 <= len_l,
                                pow(arity as int, l as nat) > 0,
                                fp_l >= 0,
                        ;
                        lemma_node_agrees(
                            a,
                            leaves@,
                            zero_leaf(),
                            leaves@,
                            base_spec,
                            l as nat,
                            (fp_l + j) as nat,
                        );
                    } else if j == len_l {
                    } else {
                        assert((fp_l + j) * pow(arity as int, l as nat) >= count) by (nonlinear_arith)
                            requires
                                j >= len_l + 1,
                                (fp_l + len_l) * pow(arity as int, l as nat)
                                    + low_sum(levels@, a, l as nat) == count,
                                low_sum(levels@, a, l as nat) < pow(arity as int, l as nat),
                                pow(arity as int, l as nat) > 0,
                        ;
                        lemma_node_past_leaves(a, leaves@, base_spec, l as nat, (fp_l + j) as nat);
                    }
                }
                assert(nodes.deep_view() =~= tree_children(a, leaves@, base_spec, l as nat, parent));
            }
            let hashed = poseidon_hash(&nodes);
            carry = match hashed {
                Some(h) => h,
                None => {
                    proof {
                        assert(false);
                    }
                    return Err(MerkleTreeError::MergeFailed);
                },
            };
            proof {
                let parent = first_pending(levels@, a, (l + 1) as nat) + levels@[(l + 1) as int]@.len();
                lemma_node_unfold(a, leaves@, base_spec, (l + 1) as nat, parent);
                assert(carry@ == tree_node(a, leaves@, base_spec, (l + 1) as nat, parent));
            }
            let mut zvec: Vec<HashBytes> = Vec::new();
            let mut z: usize = 0;
            while z < arity as usize
                invariant
                    z <= arity,
                    zvec@.len() == z,
                    forall|j: int| 0 <= j < z ==> zvec@[j] == zpad,
                decreases arity - z,
            {
                zvec.push(zpad);
                z = z + 1;
            }
            proof {
                assert forall|j: int| 0 <= j < a implies zvec.deep_view()[j] == empty_children(
                    a,
                    base_spec,
                    l as nat,
                )[j] by {
                    lemma_empty_children_index(a, base_spec, l as nat, j);
                    assert(zvec.deep_view()[j] =~= zvec@[j]@);
                }
                assert(zvec.deep_view() =~= empty_children(a, base_spec, l as nat));
            }
            let hz = poseidon_hash(&zvec);
            zpad = match hz {
                Some(h) => h,
                None => {
                    proof {
                        assert(false);
                    }
                    return Err(MerkleTreeError::MergeFailed);
                },
            };
            proof {
                lemma_empty_unfold(a, base_spec, (l + 1) as nat);
                assert(zpad@ == empty_subtree(a, base_spec, (l + 1) as nat));
            }
            l = l + 1;
        }
        proof {
            lemma_decompose(levels@, a, depth as nat);
            lemma_low_sum_bound(levels@, a, depth as nat);
            lemma_pow_positive(arity as int, depth as nat);
            let fp_d = first_pending(levels@, a, depth as nat) as int;
            let len_d = levels@[depth as int]@.len() as int;
            assert(fp_d + len_d == 0) by (nonlinear_arith)
                requires
                    (fp_d + len_d) * pow(arity as int, depth as nat)
                        + low_sum(levels@, a, depth as nat) == count,
                    count < pow(arity as int, depth as nat),
                    0 <= low_sum(levels@, a, depth as nat) < pow(arity as int, depth as nat),
                    pow(arity as int, depth as nat) > 0,
                    fp_d >= 0,
                    len_d >= 0,
            ;
        }
        Ok(MerkleTree { arity, depth, count, root: Some(carry), levels, leaves })
    }
}

} // verus!
