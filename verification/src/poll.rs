//! Poll lifecycle, batch accounting and outcome verification.
//!
//! A poll owns two Merkle accumulators (registrations and interactions), a
//! commitment ledger binding the coordinator's sequential batch proofs, an
//! optional verified outcome and a tombstone flag. Block heights come from
//! the host as plain values; every operation is a pure state transition.
use vstd::prelude::*;
use vstd::arithmetic::power::{pow, lemma_pow_positive};
use crate::hash::{HashBytes, poseidon_digest, poseidon_hash, u64_be32, u64_to_be32, hash_bytes_eq};
use crate::tree::{MerkleTree, MerkleTreeError, merkle_root, empty_ballot_leaf, zero_leaf, zero32, pow_u32};

verus! {

/// Block heights and durations, in blocks.
pub type BlockNumber = u64;

/// The index of the winning vote option.
pub type OutcomeIndex = u32;

/// A circuit verifying key, opaque to the poll logic.
pub type VerifyKey = Vec<u8>;

/// The ten field elements of one obfuscated poll interaction.
pub type PollInteractionData = [HashBytes; 10];

/// A coordinator's public key: an affine curve point, both coordinates
/// big-endian encoded.
#[derive(Clone, Copy)]
pub struct PublicKey {
    pub x: HashBytes,
    pub y: HashBytes,
}

/// The coordinator's verifying keys, one per circuit.
#[derive(Clone)]
pub struct VerifyingKeys {
    pub process: VerifyKey,
    pub tally: VerifyKey,
}

/// A registered coordinator: a public key and two verifying keys.
#[derive(Clone)]
pub struct Coordinator {
    pub public_key: PublicKey,
    pub verify_key: VerifyingKeys,
}

/// The commitment ledger: per circuit, the index of the next proof batch and
/// the last accepted commitment, plus the expected batch counts fixed when
/// the accumulators are merged.
#[derive(Clone, Copy)]
pub struct Commitment {
    pub process: (u32, HashBytes),
    pub tally: (u32, HashBytes),
    pub expected_process: u32,
    pub expected_tally: u32,
}

/// A claimed poll result, consumed once by outcome verification.
#[derive(Clone)]
pub struct PollOutcome {
    /// Per-option tally values.
    pub tally_results: Vec<u32>,
    /// Per-option arity-5 inclusion proofs into the tally result tree.
    pub tally_result_proofs: Vec<Vec<Vec<HashBytes>>>,
    /// Salt of the result commitment.
    pub tally_result_salt: HashBytes,
    /// The claimed new results commitment.
    pub new_results_commitment: HashBytes,
    /// Commitment to the spent votes.
    pub spent_votes_hash: HashBytes,
    /// Total spent voice credits, big-endian encoded.
    pub total_spent: HashBytes,
    /// Salt of the total-spent commitment.
    pub total_spent_salt: HashBytes,
}

/// The immutable parameters a poll is created with.
#[derive(Clone)]
pub struct PollConfig {
    /// Blocks during which participants may register.
    pub signup_period: u64,
    /// Blocks, after signup, during which participants may vote.
    pub voting_period: u64,
    /// Ceiling on registrations.
    pub max_registrations: u32,
    /// Ceiling on interactions.
    pub max_interactions: u32,
    /// Metadata of the vote options, in order.
    pub vote_options: Vec<u128>,
    /// Branching factor of both accumulators.
    pub tree_arity: u32,
    /// Depth of the registration accumulator.
    pub registration_tree_depth: u32,
    /// Depth of the interaction accumulator.
    pub interaction_tree_depth: u32,
    /// Depth of the vote option tally tree.
    pub vote_option_tree_depth: u32,
    /// Subtree depth of one process-circuit batch.
    pub process_subtree_depth: u32,
    /// Subtree depth of one tally-circuit batch.
    pub tally_subtree_depth: u32,
}

/// The mutable state of a poll.
pub struct PollState {
    /// Accumulator of registration leaves.
    pub registrations: MerkleTree,
    /// Accumulator of interaction leaves.
    pub interactions: MerkleTree,
    /// The commitment ledger.
    pub commitment: Commitment,
    /// The verified outcome, set at most once.
    pub outcome: Option<OutcomeIndex>,
    /// True once the poll is declared dead; terminal.
    pub tombstone: bool,
}

/// One coordinator-initiated voting round.
pub struct Poll {
    /// Sequentially assigned identifier.
    pub index: u32,
    /// Identifier of the owning coordinator's account.
    pub coordinator: u64,
    /// Block height at creation.
    pub created_at: u64,
    /// Immutable configuration.
    pub config: PollConfig,
    /// Mutable state.
    pub state: PollState,
}

/// True while `now` lies in the signup window.
pub open spec fn in_registration_period(now: u64, created_at: u64, signup_period: u64) -> bool {
    created_at <= now < created_at + signup_period
}

/// True while `now` lies in the voting window.
pub open spec fn in_voting_period(now: u64, created_at: u64, signup_period: u64, voting_period: u64) -> bool {
    created_at + signup_period <= now < created_at + signup_period + voting_period
}

/// True once `now` lies strictly past the end of the voting window.
pub open spec fn past_voting_period(now: u64, created_at: u64, signup_period: u64, voting_period: u64) -> bool {
    now > created_at + signup_period + voting_period
}

/// True exactly when both circuits have delivered every expected batch proof.
pub open spec fn commitment_proven(c: Commitment) -> bool {
    c.process.0 == c.expected_process && c.tally.0 == c.expected_tally
}

/// The registration leaf: the arity-4 digest of the participant's public key
/// coordinates, the constant one, and the registration timestamp.
pub open spec fn registration_leaf(public_key: PublicKey, timestamp: u64) -> Seq<u8> {
    poseidon_digest(seq![public_key.x@, public_key.y@, u64_be32(1), u64_be32(timestamp)])
}

/// The interaction leaf: the first and last five payload elements are each
/// sealed with an arity-5 digest, then combined with the sender's public key
/// under an arity-4 digest.
pub open spec fn interaction_leaf(public_key: PublicKey, data: PollInteractionData) -> Seq<u8> {
    let left = poseidon_digest(seq![data@[0]@, data@[1]@, data@[2]@, data@[3]@, data@[4]@]);
    let right = poseidon_digest(seq![data@[5]@, data@[6]@, data@[7]@, data@[8]@, data@[9]@]);
    poseidon_digest(seq![left, right, public_key.x@, public_key.y@])
}

/// The commitment sealed when registrations merge: the digest of the
/// registration root, the depth-one empty ballot root, and a zero word.
pub open spec fn registration_seal(root: Seq<u8>) -> Seq<u8> {
    poseidon_digest(seq![root, empty_ballot_leaf(), zero_leaf()])
}

/// How many process-circuit batches a merged interaction set demands: one
/// per full batch, plus one for a trailing partial batch.
pub open spec fn expected_process_batches(count: int, batch: int) -> int {
    count / batch + if count % batch > 0 { 1int } else { 0int }
}

/// How many tally-circuit batches a merged registration set demands: a
/// mandatory zeroth batch, plus one per full batch of registrations.
pub open spec fn expected_tally_batches(count: int, batch: int) -> int {
    1 + count / batch
}

/// The last completed interaction batch boundary: the count rounded down to
/// a multiple of the batch size, an exact multiple counting as complete.
pub open spec fn last_completed_batch(count: int, batch: int) -> int {
    if count == 0 {
        0
    } else if count % batch == 0 {
        count - batch
    } else {
        count - count % batch
    }
}

/// True while `now` is at most the end of the poll's voting window: the
/// window during which a coordinator may not open a second poll.
pub fn poll_is_ongoing(now: u64, poll: Option<&Poll>) -> (r: bool)
    requires
        poll matches Some(p) ==> p.well_formed(),
    ensures
        r <==> (poll matches Some(p)
            && now <= p.created_at + p.config.signup_period + p.config.voting_period),
{
    match poll {
        Some(p) => now <= p.created_at + p.config.signup_period + p.config.voting_period,
        None => false,
    }
}

impl Poll {
    /// The numeric side conditions every poll operation relies on: the
    /// voting window fits the block-height type, the batch sizes fit `u32`,
    /// and the option list and registration ceiling admit index arithmetic.
    pub open spec fn well_formed(self) -> bool {
        &&& self.created_at + self.config.signup_period + self.config.voting_period <= u64::MAX
        &&& self.config.max_registrations >= 1
        &&& self.config.vote_options@.len() <= u32::MAX
        &&& pow(self.state.interactions.spec_arity() as int, self.config.process_subtree_depth as nat) <= u32::MAX
        &&& pow(self.state.registrations.spec_arity() as int, self.config.tally_subtree_depth as nat) <= u32::MAX
    }

    /// The size, in interactions, of one process-circuit batch.
    pub open spec fn process_batch_size(self) -> int {
        pow(self.state.interactions.spec_arity() as int, self.config.process_subtree_depth as nat)
    }

    /// The size, in registrations, of one tally-circuit batch.
    pub open spec fn tally_batch_size(self) -> int {
        pow(self.state.registrations.spec_arity() as int, self.config.tally_subtree_depth as nat)
    }

    /// True while the process circuit still owes proofs for completed
    /// interaction batches: the next public inputs are then for it. An empty
    /// interaction set has no batches, so it never selects the process
    /// circuit.
    pub open spec fn emits_process_inputs(self) -> bool {
        &&& self.state.interactions.spec_count() > 0
        &&& self.state.commitment.process.0 * self.process_batch_size()
            <= last_completed_batch(self.state.interactions.spec_count() as int, self.process_batch_size())
    }

    /// Creates a poll. Fails with `HashUnavailable` exactly when no hash
    /// sponge exists for the configured tree arity.
    pub fn new(index: u32, coordinator: u64, created_at: u64, config: PollConfig)
        -> (r: Result<Poll, MerkleTreeError>)
        requires
            created_at + config.signup_period + config.voting_period <= u64::MAX,
            config.max_registrations >= 1,
            config.vote_options@.len() <= u32::MAX,
            2 <= config.tree_arity <= 12 ==> {
                &&& pow(config.tree_arity as int, config.registration_tree_depth as nat) < u32::MAX
                &&& pow(config.tree_arity as int, config.interaction_tree_depth as nat) < u32::MAX
                &&& pow(config.tree_arity as int, config.process_subtree_depth as nat) <= u32::MAX
                &&& pow(config.tree_arity as int, config.tally_subtree_depth as nat) <= u32::MAX
            },
        ensures
            r is Ok <==> 2 <= config.tree_arity <= 12,
            r matches Err(e) ==> e == MerkleTreeError::HashUnavailable,
            r matches Ok(p) ==> {
                &&& p.well_formed()
                &&& p.index == index
                &&& p.coordinator == coordinator
                &&& p.created_at == created_at
                &&& p.config == config
                &&& p.state.registrations.spec_arity() == config.tree_arity
                &&& p.state.registrations.spec_depth() == config.registration_tree_depth
                &&& p.state.registrations.spec_count() == 0
                &&& p.state.registrations.spec_root() is None
                &&& p.state.registrations.leaves() == Seq::<Seq<u8>>::empty()
                &&& p.state.interactions.spec_arity() == config.tree_arity
                &&& p.state.interactions.spec_depth() == config.interaction_tree_depth
                &&& p.state.interactions.spec_count() == 0
                &&& p.state.interactions.spec_root() is None
                &&& p.state.interactions.leaves() == Seq::<Seq<u8>>::empty()
                &&& p.state.commitment.process.0 == 0
                &&& p.state.commitment.process.1@ == zero_leaf()
                &&& p.state.commitment.tally.0 == 0
                &&& p.state.commitment.tally.1@ == zero_leaf()
                &&& p.state.commitment.expected_process == 0
                &&& p.state.commitment.expected_tally == 0
                &&& p.state.outcome is None
                &&& !p.state.tombstone
            },
    {
        let registrations = match MerkleTree::new(config.tree_arity, config.registration_tree_depth) {
            Ok(t) => t,
            Err(e) => {
                return Err(e);
            },
        };
        let interactions = match MerkleTree::new(config.tree_arity, config.interaction_tree_depth) {
            Ok(t) => t,
            Err(e) => {
                return Err(e);
            },
        };
        let zero = zero32();
        Ok(Poll {
            index,
            coordinator,
            created_at,
            config,
            state: PollState {
                registrations,
                interactions,
                commitment: Commitment {
                    process: (0, zero),
                    tally: (0, zero),
                    expected_process: 0,
                    expected_tally: 0,
                },
                outcome: None,
                tombstone: false,
            },
        })
    }

    /// Appends the participant's registration leaf, derived from their
    /// public key and registration timestamp.
    pub fn register_participant(self, public_key: PublicKey, timestamp: u64)
        -> (r: Result<(u32, Poll), MerkleTreeError>)
        requires
            self.well_formed(),
        ensures
            r is Ok <==> (self.state.registrations.spec_root() is None
                && self.state.registrations.spec_count() < self.state.registrations.capacity()),
            r matches Ok((n, p)) ==> {
                &&& p.well_formed()
                &&& n == self.state.registrations.spec_count() + 1
                &&& p.state.registrations.spec_count() == n
                &&& p.state.registrations.spec_arity() == self.state.registrations.spec_arity()
                &&& p.state.registrations.spec_depth() == self.state.registrations.spec_depth()
                &&& p.state.registrations.spec_root() is None
                &&& p.state.registrations.leaves() == self.state.registrations.leaves().push(
                    registration_leaf(public_key, timestamp),
                )
                &&& p.state.interactions == self.state.interactions
                &&& p.state.commitment == self.state.commitment
                &&& p.state.outcome == self.state.outcome
                &&& p.state.tombstone == self.state.tombstone
                &&& p.index == self.index
                &&& p.coordinator == self.coordinator
                &&& p.created_at == self.created_at
                &&& p.config == self.config
            },
            r matches Err(e) ==> e == (if self.state.registrations.spec_root() is Some {
                MerkleTreeError::AlreadyFinalized
            } else {
                MerkleTreeError::CapacityExceeded
            }),
    {
        let mut inputs: Vec<HashBytes> = Vec::new();
        inputs.push(public_key.x);
        inputs.push(public_key.y);
        inputs.push(u64_to_be32(1));
        inputs.push(u64_to_be32(timestamp));
        let leaf = match poseidon_hash(&inputs) {
            Some(h) => h,
            None => {
                proof {
                    assert(false);
                }
                return Err(MerkleTreeError::HashUnavailable);
            },
        };
        proof {
            assert(inputs.deep_view() =~~= seq![
                public_key.x@,
                public_key.y@,
                u64_be32(1),
                u64_be32(timestamp),
            ]);
        }
        let Poll { index, coordinator, created_at, config, state } = self;
        let PollState { registrations, interactions, commitment, outcome, tombstone } = state;
        let registrations = match registrations.insert(leaf) {
            Ok(t) => t,
            Err(e) => {
                return Err(e);
            },
        };
        let n = registrations.count();
        Ok((n, Poll {
            index,
            coordinator,
            created_at,
            config,
            state: PollState { registrations, interactions, commitment, outcome, tombstone },
        }))
    }

    /// Appends an interaction leaf, derived from the ten payload elements
    /// and the sender's public key.
    pub fn consume_interaction(self, public_key: PublicKey, data: PollInteractionData)
        -> (r: Result<(u32, Poll), MerkleTreeError>)
        requires
            self.well_formed(),
        ensures
            r is Ok <==> (self.state.interactions.spec_root() is None
                && self.state.interactions.spec_count() < self.state.interactions.capacity()),
            r matches Ok((n, p)) ==> {
                &&& p.well_formed()
                &&& n == self.state.interactions.spec_count() + 1
                &&& p.state.interactions.spec_count() == n
                &&& p.state.interactions.spec_arity() == self.state.interactions.spec_arity()
                &&& p.state.interactions.spec_depth() == self.state.interactions.spec_depth()
                &&& p.state.interactions.spec_root() is None
                &&& p.state.interactions.leaves() == self.state.interactions.leaves().push(
                    interaction_leaf(public_key, data),
                )
                &&& p.state.registrations == self.state.registrations
                &&& p.state.commitment == self.state.commitment
                &&& p.state.outcome == self.state.outcome
                &&& p.state.tombstone == self.state.tombstone
                &&& p.index == self.index
                &&& p.coordinator == self.coordinator
                &&& p.created_at == self.created_at
                &&& p.config == self.config
            },
            r matches Err(e) ==> e == (if self.state.interactions.spec_root() is Some {
                MerkleTreeError::AlreadyFinalized
            } else {
                MerkleTreeError::CapacityExceeded
            }),
    {
        let mut left_inputs: Vec<HashBytes> = Vec::new();
        left_inputs.push(data[0]);
        left_inputs.push(data[1]);
        left_inputs.push(data[2]);
        left_inputs.push(data[3]);
        left_inputs.push(data[4]);
        let left = match poseidon_hash(&left_inputs) {
            Some(h) => h,
            None => {
                proof {
                    assert(false);
                }
                return Err(MerkleTreeError::HashUnavailable);
            },
        };
        let mut right_inputs: Vec<HashBytes> = Vec::new();
        right_inputs.push(data[5]);
        right_inputs.push(data[6]);
        right_inputs.push(data[7]);
        right_inputs.push(data[8]);
        right_inputs.push(data[9]);
        let right = match poseidon_hash(&right_inputs) {
            Some(h) => h,
            None => {
                proof {
                    assert(false);
                }
                return Err(MerkleTreeError::HashUnavailable);
            },
        };
        let mut inputs: Vec<HashBytes> = Vec::new();
        inputs.push(left);
        inputs.push(right);
        inputs.push(public_key.x);
        inputs.push(public_key.y);
        let leaf = match poseidon_hash(&inputs) {
            Some(h) => h,
            None => {
                proof {
                    assert(false);
                }
                return Err(MerkleTreeError::HashUnavailable);
            },
        };
        proof {
            assert(left_inputs.deep_view() =~~= seq![data@[0]@, data@[1]@, data@[2]@, data@[3]@, data@[4]@]);
            assert(right_inputs.deep_view() =~~= seq![data@[5]@, data@[6]@, data@[7]@, data@[8]@, data@[9]@]);
            assert(inputs.deep_view() =~~= seq![left@, right@, public_key.x@, public_key.y@]);
        }
        let Poll { index, coordinator, created_at, config, state } = self;
        let PollState { registrations, interactions, commitment, outcome, tombstone } = state;
        let interactions = match interactions.insert(leaf) {
            Ok(t) => t,
            Err(e) => {
                return Err(e);
            },
        };
        let n = interactions.count();
        Ok((n, Poll {
            index,
            coordinator,
            created_at,
            config,
            state: PollState { registrations, interactions, commitment, outcome, tombstone },
        }))
    }

    /// Finalizes the registration accumulator, padding with the all-zero
    /// leaf, and seals the initial process commitment over its root. Only
    /// the first call finalizes: once the root exists, later calls return
    /// the poll unchanged and leave the batch accounting untouched.
    pub fn merge_registrations(self) -> (r: Result<Poll, MerkleTreeError>)
        requires
            self.well_formed(),
        ensures
            r is Ok,
            r matches Ok(p) ==> {
                &&& (self.state.registrations.spec_root() is Some ==> p == self)
                &&& p.well_formed()
                &&& p.state.registrations.spec_root() is Some
                &&& (self.state.registrations.spec_root() is None ==> {
                    &&& p.state.registrations.spec_root().unwrap()@ == merkle_root(
                        self.state.registrations.spec_arity() as nat,
                        self.state.registrations.spec_depth() as nat,
                        self.state.registrations.leaves(),
                        false,
                    )
                    &&& p.state.registrations.leaves() == self.state.registrations.leaves()
                    &&& p.state.registrations.spec_count() == self.state.registrations.spec_count()
                    &&& p.state.registrations.spec_arity() == self.state.registrations.spec_arity()
                    &&& p.state.registrations.spec_depth() == self.state.registrations.spec_depth()
                    &&& p.state.commitment.process.0 == 0
                    &&& p.state.commitment.process.1@ == registration_seal(
                        p.state.registrations.spec_root().unwrap()@,
                    )
                    &&& p.state.commitment.tally == self.state.commitment.tally
                    &&& p.state.commitment.expected_process == self.state.commitment.expected_process
                    &&& p.state.commitment.expected_tally == self.state.commitment.expected_tally
                    &&& p.state.interactions == self.state.interactions
                    &&& p.state.outcome == self.state.outcome
                    &&& p.state.tombstone == self.state.tombstone
                    &&& p.index == self.index
                    &&& p.coordinator == self.coordinator
                    &&& p.created_at == self.created_at
                    &&& p.config == self.config
                })
            },
    {
        if self.state.registrations.root().is_some() {
            return Ok(self);
        }
        let Poll { index, coordinator, created_at, config, state } = self;
        let PollState { registrations, interactions, commitment, outcome, tombstone } = state;
        let registrations = match registrations.merge(false) {
            Ok(t) => t,
            Err(_) => {
                proof {
                    assert(false);
                }
                return Err(MerkleTreeError::MergeFailed);
            },
        };
        let root = match registrations.root() {
            Some(x) => x,
            None => {
                proof {
                    assert(false);
                }
                return Err(MerkleTreeError::MergeFailed);
            },
        };
        let mut inputs: Vec<HashBytes> = Vec::new();
        inputs.push(root);
        inputs.push(crate::tree::empty_ballot_leaf_bytes());
        inputs.push(zero32());
        let sealed = match poseidon_hash(&inputs) {
            Some(h) => h,
            None => {
                proof {
                    assert(false);
                }
                return Err(MerkleTreeError::HashUnavailable);
            },
        };
        proof {
            assert(inputs.deep_view() =~~= seq![root@, empty_ballot_leaf(), zero_leaf()]);
        }
        let commitment = Commitment {
            process: (0, sealed),
            tally: commitment.tally,
            expected_process: commitment.expected_process,
            expected_tally: commitment.expected_tally,
        };
        Ok(Poll {
            index,
            coordinator,
            created_at,
            config,
            state: PollState { registrations, interactions, commitment, outcome, tombstone },
        })
    }

    /// Finalizes the interaction accumulator, padding with the empty-ballot
    /// leaf, and fixes the expected batch counts of both circuits. Only the
    /// first call finalizes: once the root exists, later calls return the
    /// poll unchanged and leave the expected counts untouched.
    pub fn merge_interactions(self) -> (r: Result<Poll, MerkleTreeError>)
        requires
            self.well_formed(),
        ensures
            r is Ok,
            r matches Ok(p) ==> {
                &&& (self.state.interactions.spec_root() is Some ==> p == self)
                &&& p.well_formed()
                &&& p.state.interactions.spec_root() is Some
                &&& (self.state.interactions.spec_root() is None ==> {
                    &&& p.state.interactions.spec_root().unwrap()@ == merkle_root(
                        self.state.interactions.spec_arity() as nat,
                        self.state.interactions.spec_depth() as nat,
                        self.state.interactions.leaves(),
                        true,
                    )
                    &&& p.state.interactions.leaves() == self.state.interactions.leaves()
                    &&& p.state.interactions.spec_count() == self.state.interactions.spec_count()
                    &&& p.state.interactions.spec_arity() == self.state.interactions.spec_arity()
                    &&& p.state.interactions.spec_depth() == self.state.interactions.spec_depth()
                    &&& p.state.commitment.expected_process == expected_process_batches(
                        self.state.interactions.spec_count() as int,
                        self.process_batch_size(),
                    )
                    &&& p.state.commitment.expected_tally == expected_tally_batches(
                        self.state.registrations.spec_count() as int,
                        self.tally_batch_size(),
                    )
                    &&& p.state.commitment.process == self.state.commitment.process
                    &&& p.state.commitment.tally == self.state.commitment.tally
                    &&& p.state.registrations == self.state.registrations
                    &&& p.state.outcome == self.state.outcome
                    &&& p.state.tombstone == self.state.tombstone
                    &&& p.index == self.index
                    &&& p.coordinator == self.coordinator
                    &&& p.created_at == self.created_at
                    &&& p.config == self.config
                })
            },
    {
        if self.state.interactions.root().is_some() {
            return Ok(self);
        }
        let Poll { index, coordinator, created_at, config, state } = self;
        let PollState { registrations, interactions, commitment, outcome, tombstone } = state;
        let interactions = match interactions.merge(true) {
            Ok(t) => t,
            Err(_) => {
                proof {
                    assert(false);
                }
                return Err(MerkleTreeError::MergeFailed);
            },
        };
        let process_batch_size = pow_u32(interactions.arity(), config.process_subtree_depth);
        proof {
            lemma_pow_positive(interactions.spec_arity() as int, config.process_subtree_depth as nat);
        }
        let icount = interactions.count();
        proof {
            assert(icount / process_batch_size <= icount) by (nonlinear_arith)
                requires
                    process_batch_size >= 1,
                    icount >= 0,
            ;
        }
        let process_extra: u32 = if icount % process_batch_size > 0 {
            1
        } else {
            0
        };
        let expected_process = icount / process_batch_size + process_extra;
        let tally_batch_size = pow_u32(registrations.arity(), config.tally_subtree_depth);
        proof {
            lemma_pow_positive(registrations.spec_arity() as int, config.tally_subtree_depth as nat);
        }
        let rcount = registrations.count();
        proof {
            assert(rcount / tally_batch_size <= rcount) by (nonlinear_arith)
                requires
                    tally_batch_size >= 1,
                    rcount >= 0,
            ;
        }
        let expected_tally = 1 + rcount / tally_batch_size;
        let commitment = Commitment {
            process: commitment.process,
            tally: commitment.tally,
            expected_process,
            expected_tally,
        };
        Ok(Poll {
            index,
            coordinator,
            created_at,
            config,
            state: PollState { registrations, interactions, commitment, outcome, tombstone },
        })
    }

    /// The block height at which the voting period ends.
    pub fn get_voting_period_end(&self) -> (r: BlockNumber)
        requires
            self.well_formed(),
        ensures
            r == self.created_at + self.config.signup_period + self.config.voting_period,
    {
        self.created_at + self.config.signup_period + self.config.voting_period
    }

    /// True while `now` lies in the signup window.
    pub fn is_registration_period(&self, now: BlockNumber) -> (r: bool)
        requires
            self.well_formed(),
        ensures
            r == in_registration_period(now, self.created_at, self.config.signup_period),
    {
        now >= self.created_at && now < self.created_at + self.config.signup_period
    }

    /// True while `now` lies in the voting window.
    pub fn is_voting_period(&self, now: BlockNumber) -> (r: bool)
        requires
            self.well_formed(),
        ensures
            r == in_voting_period(now, self.created_at, self.config.signup_period, self.config.voting_period),
    {
        let start = self.created_at + self.config.signup_period;
        now >= start && now < start + self.config.voting_period
    }

    /// True once `now` lies strictly past the end of the voting window.
    pub fn is_over(&self, now: BlockNumber) -> (r: bool)
        requires
            self.well_formed(),
        ensures
            r == past_voting_period(now, self.created_at, self.config.signup_period, self.config.voting_period),
    {
        now > self.get_voting_period_end()
    }

    /// True once both accumulators have a canonical root.
    pub fn is_merged(&self) -> (r: bool)
        ensures
            r == (self.state.registrations.spec_root() is Some
                && self.state.interactions.spec_root() is Some),
    {
        self.state.registrations.root().is_some() && self.state.interactions.root().is_some()
    }

    /// True exactly when both circuits have delivered every expected batch.
    pub fn is_proven(&self) -> (r: bool)
        ensures
            r == commitment_proven(self.state.commitment),
    {
        self.state.commitment.process.0 == self.state.commitment.expected_process
            && self.state.commitment.tally.0 == self.state.commitment.expected_tally
    }

    /// True once the poll has been declared dead.
    pub fn is_nullified(&self) -> (r: bool)
        ensures
            r == self.state.tombstone,
    {
        self.state.tombstone
    }

    /// True once a verified outcome was recorded or the poll was nullified.
    pub fn is_fulfilled(&self) -> (r: bool)
        ensures
            r == (self.state.outcome is Some || self.state.tombstone),
    {
        self.state.outcome.is_some() || self.is_nullified()
    }

    /// True once one more registration would reach the configured ceiling.
    pub fn registration_limit_reached(&self) -> (r: bool)
        requires
            self.well_formed(),
        ensures
            r == (self.state.registrations.spec_count() >= self.config.max_registrations - 1),
    {
        self.state.registrations.count() >= self.config.max_registrations - 1
    }

    /// True once the interaction ceiling is reached.
    pub fn interaction_limit_reached(&self) -> (r: bool)
        ensures
            r == (self.state.interactions.spec_count() >= self.config.max_interactions),
    {
        self.state.interactions.count() >= self.config.max_interactions
    }

    /// Declares the poll dead. Terminal, legal in any state, and makes the
    /// poll permanently fulfilled.
    pub fn nullify(self) -> (p: Poll)
        ensures
            p.state.tombstone,
            p.state.registrations == self.state.registrations,
            p.state.interactions == self.state.interactions,
            p.state.commitment == self.state.commitment,
            p.state.outcome == self.state.outcome,
            p.index == self.index,
            p.coordinator == self.coordinator,
            p.created_at == self.created_at,
            p.config == self.config,
            self.well_formed() ==> p.well_formed(),
    {
        let Poll { index, coordinator, created_at, config, state } = self;
        let PollState { registrations, interactions, commitment, outcome, tombstone: _ } = state;
        Poll {
            index,
            coordinator,
            created_at,
            config,
            state: PollState { registrations, interactions, commitment, outcome, tombstone: true },
        }
    }

    /// Prepares the public inputs of the next unproven batch: process-circuit
    /// inputs while completed interaction batches are unproven, tally-circuit
    /// inputs afterwards, and nothing once the tally batches are exhausted or
    /// the interaction root is missing. The returned ledger records the
    /// claimed commitment optimistically; the caller persists it only once
    /// the proof verifies externally, and discards it otherwise.
    pub fn prepare_public_inputs(&self, coordinator: Coordinator, new_commitment: HashBytes)
        -> (r: Option<(VerifyKey, Vec<HashBytes>, Commitment)>)
        requires
            self.well_formed(),
        ensures
            r is Some <==> (if self.emits_process_inputs() {
                self.state.interactions.spec_root() is Some
            } else {
                self.state.commitment.tally.0 * self.tally_batch_size()
                    < self.state.registrations.spec_count() + 1
            }),
            r matches Some((vk, inputs, c)) ==> (self.emits_process_inputs() ==> {
                let boundary = last_completed_batch(
                    self.state.interactions.spec_count() as int,
                    self.process_batch_size(),
                );
                let start = boundary - self.state.commitment.process.0 * self.process_batch_size();
                let stop = if start + self.process_batch_size() > self.state.interactions.spec_count() {
                    self.state.interactions.spec_count() as int
                } else {
                    start + self.process_batch_size()
                };
                &&& vk == coordinator.verify_key.process
                &&& inputs.deep_view() == seq![
                    u64_be32((self.state.registrations.spec_count() + 1) as u64),
                    u64_be32((self.created_at + self.config.signup_period + self.config.voting_period) as u64),
                    self.state.interactions.spec_root().unwrap()@,
                    u64_be32(self.state.registrations.spec_depth() as u64),
                    u64_be32(stop as u64),
                    u64_be32(start as u64),
                    poseidon_digest(seq![coordinator.public_key.x@, coordinator.public_key.y@]),
                    self.state.commitment.process.1@,
                    new_commitment@,
                ]
                &&& c.process.0 == self.state.commitment.process.0 + 1
                &&& c.process.1 == new_commitment
                &&& c.tally == self.state.commitment.tally
                &&& c.expected_process == self.state.commitment.expected_process
                &&& c.expected_tally == self.state.commitment.expected_tally
            }),
            r matches Some((vk, inputs, c)) ==> (!self.emits_process_inputs() ==> {
                &&& vk == coordinator.verify_key.tally
                &&& inputs.deep_view() == seq![
                    self.state.commitment.process.1@,
                    self.state.commitment.tally.1@,
                    new_commitment@,
                    u64_be32((self.state.commitment.tally.0 * self.tally_batch_size()) as u64),
                    u64_be32((self.state.registrations.spec_count() + 1) as u64),
                ]
                &&& c.tally.0 == self.state.commitment.tally.0 + 1
                &&& c.tally.1 == new_commitment
                &&& c.process == self.state.commitment.process
                &&& c.expected_process == self.state.commitment.expected_process
                &&& c.expected_tally == self.state.commitment.expected_tally
            }),
    {
        let message_batch_size = pow_u32(self.state.interactions.arity(), self.config.process_subtree_depth);
        proof {
            lemma_pow_positive(self.state.interactions.spec_arity() as int, self.config.process_subtree_depth as nat);
        }
        let icount = self.state.interactions.count();
        let mut current_batch_index: u64 = icount as u64;
        if current_batch_index > 0 {
            proof {
                assert(icount as int % message_batch_size as int <= icount) by (nonlinear_arith)
                    requires
                        message_batch_size >= 1,
                        icount >= 0,
                ;
            }
            let remainder = icount % message_batch_size;
            if remainder == 0 {
                proof {
                    assert(icount >= message_batch_size) by (nonlinear_arith)
                        requires
                            icount as int % message_batch_size as int == 0,
                            icount > 0,
                            message_batch_size >= 1,
                    ;
                }
                current_batch_index = current_batch_index - message_batch_size as u64;
            } else {
                current_batch_index = current_batch_index - remainder as u64;
            }
        }
        let proof_index = self.state.commitment.process.0;
        proof {
            assert(proof_index as int * message_batch_size as int <= u64::MAX) by (nonlinear_arith)
                requires
                    0 <= proof_index <= u32::MAX,
                    0 <= message_batch_size <= u32::MAX,
            ;
        }
        let index_offset: u64 = (proof_index as u64) * (message_batch_size as u64);
        if icount > 0 && index_offset <= current_batch_index {
            proof {
                assert(proof_index <= index_offset) by (nonlinear_arith)
                    requires
                        index_offset == proof_index as int * message_batch_size as int,
                        message_batch_size >= 1,
                        proof_index >= 0,
                ;
            }
            let root = match self.state.interactions.root() {
                Some(x) => x,
                None => {
                    return None;
                },
            };
            let mut key_inputs: Vec<HashBytes> = Vec::new();
            key_inputs.push(coordinator.public_key.x);
            key_inputs.push(coordinator.public_key.y);
            let key_hash = match poseidon_hash(&key_inputs) {
                Some(h) => h,
                None => {
                    proof {
                        assert(false);
                    }
                    return None;
                },
            };
            proof {
                assert(key_inputs.deep_view() =~~= seq![
                    coordinator.public_key.x@,
                    coordinator.public_key.y@,
                ]);
            }
            let start = current_batch_index - index_offset;
            let mut stop = start + message_batch_size as u64;
            if stop > icount as u64 {
                stop = icount as u64;
            }
            let rcount = self.state.registrations.count();
            let mut inputs: Vec<HashBytes> = Vec::new();
            inputs.push(u64_to_be32(rcount as u64 + 1));
            inputs.push(u64_to_be32(self.get_voting_period_end()));
            inputs.push(root);
            inputs.push(u64_to_be32(self.state.registrations.depth() as u64));
            inputs.push(u64_to_be32(stop));
            inputs.push(u64_to_be32(start));
            inputs.push(key_hash);
            inputs.push(self.state.commitment.process.1);
            inputs.push(new_commitment);
            let updated = Commitment {
                process: (proof_index + 1, new_commitment),
                tally: self.state.commitment.tally,
                expected_process: self.state.commitment.expected_process,
                expected_tally: self.state.commitment.expected_tally,
            };
            proof {
                assert(inputs.deep_view() =~~= seq![
                    u64_be32((self.state.registrations.spec_count() + 1) as u64),
                    u64_be32((self.created_at + self.config.signup_period + self.config.voting_period) as u64),
                    self.state.interactions.spec_root().unwrap()@,
                    u64_be32(self.state.registrations.spec_depth() as u64),
                    u64_be32(stop as u64),
                    u64_be32(start as u64),
                    poseidon_digest(seq![coordinator.public_key.x@, coordinator.public_key.y@]),
                    self.state.commitment.process.1@,
                    new_commitment@,
                ]);
            }
            Some((coordinator.verify_key.process, inputs, updated))
        } else {
            let tally_index = self.state.commitment.tally.0;
            let batch_size = pow_u32(self.state.registrations.arity(), self.config.tally_subtree_depth);
            proof {
                lemma_pow_positive(
                    self.state.registrations.spec_arity() as int,
                    self.config.tally_subtree_depth as nat,
                );
                assert(tally_index as int * batch_size as int <= u64::MAX) by (nonlinear_arith)
                    requires
                        0 <= tally_index <= u32::MAX,
                        0 <= batch_size <= u32::MAX,
                ;
            }
            let current: u64 = (tally_index as u64) * (batch_size as u64);
            let rcount = self.state.registrations.count();
            if current >= rcount as u64 + 1 {
                return None;
            }
            proof {
                assert(tally_index <= current) by (nonlinear_arith)
                    requires
                        current == tally_index as int * batch_size as int,
                        batch_size >= 1,
                        tally_index >= 0,
                ;
            }
            let mut inputs: Vec<HashBytes> = Vec::new();
            inputs.push(self.state.commitment.process.1);
            inputs.push(self.state.commitment.tally.1);
            inputs.push(new_commitment);
            inputs.push(u64_to_be32(current));
            inputs.push(u64_to_be32(rcount as u64 + 1));
            let updated = Commitment {
                process: self.state.commitment.process,
                tally: (tally_index + 1, new_commitment),
                expected_process: self.state.commitment.expected_process,
                expected_tally: self.state.commitment.expected_tally,
            };
            proof {
                assert(inputs.deep_view() =~~= seq![
                    self.state.commitment.process.1@,
                    self.state.commitment.tally.1@,
                    new_commitment@,
                    u64_be32((self.state.commitment.tally.0 * self.tally_batch_size()) as u64),
                    u64_be32((self.state.registrations.spec_count() + 1) as u64),
                ]);
            }
            Some((coordinator.verify_key.tally, inputs, updated))
        }
    }

    /// True when option `i`'s claimed tally, inclusion proof, and the tally
    /// commitment on record agree.
    pub open spec fn option_passes(self, outcome: PollOutcome, i: int) -> bool {
        let leaf = u64_be32(outcome.tally_results@[i] as u64);
        let proof_levels = outcome.tally_result_proofs@[i].deep_view();
        let root = merkle_path_root(proof_levels, self.config.vote_option_tree_depth as nat, i as nat, leaf);
        let sealed = poseidon_digest(seq![root, outcome.tally_result_salt@]);
        let chained = poseidon_digest(seq![sealed, outcome.spent_votes_hash@]);
        &&& path_well_formed(proof_levels, self.config.vote_option_tree_depth as nat)
        &&& chained == self.state.commitment.tally.1@
    }

    /// True when the claimed totals chain to the tally commitment on record.
    pub open spec fn totals_pass(self, outcome: PollOutcome) -> bool {
        let sealed = poseidon_digest(seq![outcome.total_spent@, outcome.total_spent_salt@]);
        let chained = poseidon_digest(seq![outcome.new_results_commitment@, sealed]);
        chained == self.state.commitment.tally.1@
    }

    /// True when outcome verification accepts the claim: the poll is proven,
    /// the claim covers every vote option, every option's recomputed
    /// commitment chain matches the tally commitment on record, and so does
    /// the totals chain.
    pub open spec fn outcome_accepted(self, outcome: PollOutcome) -> bool {
        let n = self.config.vote_options@.len() as int;
        &&& commitment_proven(self.state.commitment)
        &&& outcome.tally_results@.len() >= n
        &&& outcome.tally_result_proofs@.len() >= n
        &&& (forall|i: int| 0 <= i < n ==> self.option_passes(outcome, i))
        &&& self.totals_pass(outcome)
    }

    /// Verifies a claimed outcome against the tally commitment on record and
    /// selects the winner: the earliest option with the strictly largest
    /// tally. Yields nothing unless the poll is proven and every per-option
    /// and totals check passes; a single mismatch rejects the whole claim.
    #[verifier::loop_isolation(false)]
    pub fn verify_outcome(&self, outcome: Option<PollOutcome>) -> (r: Option<OutcomeIndex>)
        requires
            self.well_formed(),
        ensures
            r is Some <==> (outcome matches Some(o) && self.outcome_accepted(o)),
            r matches Some(w) ==> w == leading_option(
                outcome.unwrap().tally_results@,
                self.config.vote_options@.len() as nat,
            ),
    {
        if !self.is_proven() {
            return None;
        }
        let outcome = match outcome {
            Some(o) => o,
            None => {
                return None;
            },
        };
        let total = self.config.vote_options.len();
        let mut winner: u32 = 0;
        let mut max_tally: u32 = 0;
        let mut i: usize = 0;
        while i < total
            invariant
                i <= total,
                outcome.tally_results@.len() >= i,
                outcome.tally_result_proofs@.len() >= i,
                forall|m: int| 0 <= m < i ==> self.option_passes(outcome, m),
                max_tally == leading_tally(outcome.tally_results@, i as nat),
                winner == leading_option(outcome.tally_results@, i as nat),
            decreases total - i,
        {
            if i >= outcome.tally_results.len() {
                return None;
            }
            if i >= outcome.tally_result_proofs.len() {
                return None;
            }
            let tally_result = outcome.tally_results[i];
            let leaf = u64_to_be32(tally_result as u64);
            let root = match compute_merkle_root_from_path(
                self.config.vote_option_tree_depth,
                i as u32,
                leaf,
                &outcome.tally_result_proofs[i],
            ) {
                Some(x) => x,
                None => {
                    proof {
                        assert(!self.option_passes(outcome, i as int));
                    }
                    return None;
                },
            };
            let mut first_inputs: Vec<HashBytes> = Vec::new();
            first_inputs.push(root);
            first_inputs.push(outcome.tally_result_salt);
            let sealed = match poseidon_hash(&first_inputs) {
                Some(h) => h,
                None => {
                    proof {
                        assert(false);
                    }
                    return None;
                },
            };
            let mut second_inputs: Vec<HashBytes> = Vec::new();
            second_inputs.push(sealed);
            second_inputs.push(outcome.spent_votes_hash);
            let chained = match poseidon_hash(&second_inputs) {
                Some(h) => h,
                None => {
                    proof {
                        assert(false);
                    }
                    return None;
                },
            };
            proof {
                assert(first_inputs.deep_view() =~~= seq![root@, outcome.tally_result_salt@]);
                assert(second_inputs.deep_view() =~~= seq![sealed@, outcome.spent_votes_hash@]);
            }
            if !hash_bytes_eq(&chained, &self.state.commitment.tally.1) {
                proof {
                    assert(!self.option_passes(outcome, i as int));
                }
                return None;
            }
            if tally_result > max_tally {
                winner = i as u32;
                max_tally = tally_result;
            }
            i = i + 1;
        }
        let mut totals_inputs: Vec<HashBytes> = Vec::new();
        totals_inputs.push(outcome.total_spent);
        totals_inputs.push(outcome.total_spent_salt);
        let sealed = match poseidon_hash(&totals_inputs) {
            Some(h) => h,
            None => {
                proof {
                    assert(false);
                }
                return None;
            },
        };
        let mut chain_inputs: Vec<HashBytes> = Vec::new();
        chain_inputs.push(outcome.new_results_commitment);
        chain_inputs.push(sealed);
        let chained = match poseidon_hash(&chain_inputs) {
            Some(h) => h,
            None => {
                proof {
                    assert(false);
                }
                return None;
            },
        };
        proof {
            assert(totals_inputs.deep_view() =~~= seq![outcome.total_spent@, outcome.total_spent_salt@]);
            assert(chain_inputs.deep_view() =~~= seq![outcome.new_results_commitment@, sealed@]);
        }
        if !hash_bytes_eq(&chained, &self.state.commitment.tally.1) {
            return None;
        }
        Some(winner)
    }
}

/// The registration window, the voting window, and the closed period cover
/// every block height from the poll's creation onward, with no overlap. The
/// single boundary height at which the poll ends, and heights before
/// creation, belong to none of the three.
pub proof fn lemma_periods_partition(now: u64, created_at: u64, signup_period: u64, voting_period: u64)
    requires
        signup_period > 0,
        voting_period > 0,
        created_at + signup_period + voting_period <= u64::MAX,
        created_at <= now,
        now != created_at + signup_period + voting_period,
    ensures
        in_registration_period(now, created_at, signup_period)
            || in_voting_period(now, created_at, signup_period, voting_period)
            || past_voting_period(now, created_at, signup_period, voting_period),
        !(in_registration_period(now, created_at, signup_period)
            && in_voting_period(now, created_at, signup_period, voting_period)),
        !(in_registration_period(now, created_at, signup_period)
            && past_voting_period(now, created_at, signup_period, voting_period)),
        !(in_voting_period(now, created_at, signup_period, voting_period)
            && past_voting_period(now, created_at, signup_period, voting_period)),
{
}

/// A poll is proven exactly when both proof indices meet their expected
/// counts; lowering either index by one breaks it.
pub proof fn lemma_proven_needs_both(c: Commitment, d: Commitment)
    requires
        commitment_proven(c),
        d.expected_process == c.expected_process,
        d.expected_tally == c.expected_tally,
        (d.process.0 + 1 == c.process.0 && d.tally.0 == c.tally.0)
            || (d.process.0 == c.process.0 && d.tally.0 + 1 == c.tally.0),
    ensures
        !commitment_proven(d),
{
}

/// Once the interactions are merged, the next public inputs target the
/// process circuit exactly while its proof index is below the expected batch
/// count: never the tally circuit while unproven interaction batches remain,
/// and never the process circuit once every interaction batch is proven —
/// in particular never for an empty interaction set, which has no batches.
pub proof fn lemma_prepare_selects_circuit(p: Poll)
    requires
        p.process_batch_size() >= 1,
        p.state.commitment.expected_process == expected_process_batches(
            p.state.interactions.spec_count() as int,
            p.process_batch_size(),
        ),
    ensures
        p.emits_process_inputs() <==> (p.state.commitment.process.0 as int)
            < p.state.commitment.expected_process,
{
    let c = p.state.interactions.spec_count() as int;
    let b = p.process_batch_size();
    let n = p.state.commitment.process.0 as int;
    let q = c / b;
    vstd::arithmetic::div_mod::lemma_fundamental_div_mod(c, b);
    if c == 0 {
        vstd::arithmetic::div_mod::lemma_div_of0(b);
        vstd::arithmetic::div_mod::lemma_small_mod(0, b as nat);
        return;
    }
    assert(q >= 0) by (nonlinear_arith)
        requires
            c == b * q + c % b,
            0 <= c % b < b,
            c >= 1,
            b >= 1,
    ;
    if c % b == 0 {
        assert(q >= 1) by (nonlinear_arith)
            requires
                c == b * q,
                c >= 1,
                b >= 1,
                q >= 0,
        ;
        assert(last_completed_batch(c, b) == (q - 1) * b) by (nonlinear_arith)
            requires
                c == b * q,
                c % b == 0,
                c >= 1,
        ;
        assert(n * b <= (q - 1) * b <==> n <= q - 1) by (nonlinear_arith)
            requires
                b >= 1,
        ;
    } else {
        assert(last_completed_batch(c, b) == q * b) by (nonlinear_arith)
            requires
                c == b * q + c % b,
                c % b != 0,
                c >= 1,
        ;
        assert(n * b <= q * b <==> n <= q) by (nonlinear_arith)
            requires
                b >= 1,
        ;
    }
}

/// Once the registrations are merged, the tally circuit accepts one more
/// batch exactly while its proof index is below the expected batch count:
/// public-input preparation yields nothing afterwards.
pub proof fn lemma_tally_batches_exhaust(p: Poll)
    requires
        p.tally_batch_size() >= 1,
        p.state.commitment.expected_tally == expected_tally_batches(
            p.state.registrations.spec_count() as int,
            p.tally_batch_size(),
        ),
    ensures
        (p.state.commitment.tally.0 * p.tally_batch_size()
            < p.state.registrations.spec_count() + 1)
            <==> (p.state.commitment.tally.0 as int) < p.state.commitment.expected_tally,
{
    let r = p.state.registrations.spec_count() as int;
    let b = p.tally_batch_size();
    let t = p.state.commitment.tally.0 as int;
    vstd::arithmetic::div_mod::lemma_fundamental_div_mod(r, b);
    assert(t * b <= r <==> t <= r / b) by (nonlinear_arith)
        requires
            r == b * (r / b) + r % b,
            0 <= r % b < b,
            b >= 1,
            t >= 0,
    ;
}

/// An inclusion proof is usable when it offers one level per tree level,
/// with the four sibling values each level needs.
pub open spec fn path_well_formed(path: Seq<Seq<Seq<u8>>>, depth: nat) -> bool {
    &&& path.len() >= depth
    &&& (forall|i: int| 0 <= i < depth ==> path[i].len() >= 4)
}

/// The root an arity-5 inclusion proof recomputes from `current`, walking
/// levels `from` up to `depth`; the leaf's slot at each level is the index
/// modulo five, and the four siblings come from the proof.
pub open spec fn path_root_from(path: Seq<Seq<Seq<u8>>>, from: nat, depth: nat, index: nat, current: Seq<u8>) -> Seq<u8>
    decreases depth - from,
{
    if from >= depth {
        current
    } else {
        path_root_from(path, from + 1, depth, index / 5, poseidon_digest(path_level(path, from, index, current)))
    }
}

/// One rebuilt level of an arity-5 inclusion proof: the running value in the
/// slot the index selects, the proof's siblings in the others.
pub open spec fn path_level(path: Seq<Seq<Seq<u8>>>, from: nat, index: nat, current: Seq<u8>) -> Seq<Seq<u8>> {
    Seq::new(5, |j: int| if j == index % 5 {
        current
    } else if j > index % 5 {
        path[from as int][j - 1]
    } else {
        path[from as int][j]
    })
}

/// The root an arity-5 inclusion proof of the given depth recomputes for a
/// leaf at `index`.
pub open spec fn merkle_path_root(path: Seq<Seq<Seq<u8>>>, depth: nat, index: nat, leaf: Seq<u8>) -> Seq<u8> {
    path_root_from(path, 0, depth, index, leaf)
}

/// The running maximum over the first `n` claimed tallies, zero at the start.
pub open spec fn leading_tally(results: Seq<u32>, n: nat) -> u32
    decreases n,
{
    if n == 0 {
        0u32
    } else if results[n - 1] > leading_tally(results, (n - 1) as nat) {
        results[n - 1]
    } else {
        leading_tally(results, (n - 1) as nat)
    }
}

/// The earliest index holding the strictly largest tally among the first
/// `n`, or zero when no tally exceeds zero.
pub open spec fn leading_option(results: Seq<u32>, n: nat) -> u32
    decreases n,
{
    if n == 0 {
        0u32
    } else if results[n - 1] > leading_tally(results, (n - 1) as nat) {
        (n - 1) as u32
    } else {
        leading_option(results, (n - 1) as nat)
    }
}

/// Recomputes the root of an arity-5 Merkle inclusion proof of the given
/// depth for the leaf standing at `index`. Yields nothing exactly when the
/// proof offers fewer levels or siblings than the depth demands.
#[verifier::loop_isolation(false)]
pub fn compute_merkle_root_from_path(depth: u32, index: u32, leaf: HashBytes, path: &Vec<Vec<HashBytes>>)
    -> (r: Option<HashBytes>)
    ensures
        r is Some <==> path_well_formed(path.deep_view(), depth as nat),
        r matches Some(h) ==> h@ == merkle_path_root(path.deep_view(), depth as nat, index as nat, leaf@),
{
    if path.len() < depth as usize {
        return None;
    }
    let mut current = leaf;
    let mut idx = index;
    let mut i: usize = 0;
    while i < depth as usize
        invariant
            i <= depth,
            forall|m: int| 0 <= m < i ==> path.deep_view()[m].len() >= 4,
            merkle_path_root(path.deep_view(), depth as nat, index as nat, leaf@)
                == path_root_from(path.deep_view(), i as nat, depth as nat, idx as nat, current@),
        decreases depth - i,
    {
        if path[i].len() < 4 {
            proof {
                assert(path.deep_view()[i as int].len() == path@[i as int]@.len());
            }
            return None;
        }
        let pos = idx % 5;
        let mut level: Vec<HashBytes> = Vec::new();
        let mut j: u32 = 0;
        while j < 5
            invariant
                j <= 5,
                level@.len() == j,
                forall|q: int| 0 <= q < j ==> level@[q]@ == path_level(
                    path.deep_view(),
                    i as nat,
                    idx as nat,
                    current@,
                )[q],
            decreases 5 - j,
        {
            if j == pos {
                level.push(current);
            } else if j > pos {
                let sibling = path[i][(j - 1) as usize];
                level.push(sibling);
            } else {
                let sibling = path[i][j as usize];
                level.push(sibling);
            }
            proof {
                assert(path_level(path.deep_view(), i as nat, idx as nat, current@)[j as int]
                    =~= level@[j as int]@);
            }
            j = j + 1;
        }
        let hashed = match poseidon_hash(&level) {
            Some(h) => h,
            None => {
                proof {
                    assert(false);
                }
                return None;
            },
        };
        proof {
            assert(level.deep_view() =~~= path_level(path.deep_view(), i as nat, idx as nat, current@));
        }
        current = hashed;
        idx = idx / 5;
        i = i + 1;
    }
    Some(current)
}

} // verus!
