use infimum::poll::{Poll, PollConfig, PollOutcome, PublicKey, Coordinator, VerifyingKeys, poll_is_ongoing};
use infimum::tree::MerkleTreeError;

fn word(n: u8) -> [u8; 32] {
    let mut out = [0u8; 32];
    out[31] = n;
    out
}

fn poseidon(inputs: &[[u8; 32]]) -> [u8; 32] {
    let mut hasher =
        light_poseidon::Poseidon::<ark_bn254::Fr>::new_circom(inputs.len()).unwrap();
    let elements: Vec<ark_bn254::Fr> = inputs
        .iter()
        .map(|b| <ark_bn254::Fr as ark_ff::PrimeField>::from_be_bytes_mod_order(b))
        .collect();
    let f = light_poseidon::PoseidonHasher::hash(&mut hasher, &elements).unwrap();
    let bytes = ark_ff::BigInteger::to_bytes_be(&ark_ff::PrimeField::into_bigint(f));
    let mut out = [0u8; 32];
    out.copy_from_slice(&bytes);
    out
}

fn config(options: usize) -> PollConfig {
    PollConfig {
        signup_period: 50,
        voting_period: 200,
        max_registrations: 20,
        max_interactions: 100,
        vote_options: vec![0u128; options],
        tree_arity: 5,
        registration_tree_depth: 2,
        interaction_tree_depth: 2,
        vote_option_tree_depth: 0,
        process_subtree_depth: 0,
        tally_subtree_depth: 1,
    }
}

fn coordinator() -> Coordinator {
    Coordinator {
        public_key: PublicKey { x: word(11), y: word(12) },
        verify_key: VerifyingKeys { process: vec![1u8], tally: vec![2u8] },
    }
}

fn be_u64(n: u64) -> [u8; 32] {
    let mut out = [0u8; 32];
    out[24..].copy_from_slice(&n.to_be_bytes());
    out
}

#[test]
fn lifecycle_periods_match_the_example() {
    let poll = Poll::new(1, 42, 100, config(1)).unwrap();
    assert!(poll.is_registration_period(140));
    assert!(!poll.is_voting_period(140));
    assert!(!poll.is_over(140));
    assert!(poll.is_voting_period(160));
    assert!(!poll.is_registration_period(160));
    assert!(poll.is_over(360));
    assert!(!poll.is_voting_period(360));
    assert_eq!(poll.get_voting_period_end(), 350);
    assert!(poll_is_ongoing(350, Some(&poll)));
    assert!(!poll_is_ongoing(351, Some(&poll)));
    assert!(!poll_is_ongoing(10, None));
}

#[test]
fn registration_leaf_changes_the_root() {
    // Two registrations with different timestamps must seal different roots:
    // the leaf really depends on the hashed payload.
    let a = Poll::new(1, 42, 100, config(1)).unwrap();
    let (n, a) = a.register_participant(PublicKey { x: word(1), y: word(2) }, 5).unwrap();
    assert_eq!(n, 1);
    let a = a.merge_registrations().unwrap();
    let b = Poll::new(2, 42, 100, config(1)).unwrap();
    let (_, b) = b.register_participant(PublicKey { x: word(1), y: word(2) }, 6).unwrap();
    let b = b.merge_registrations().unwrap();
    let root_a = a.state.registrations.root().unwrap();
    let root_b = b.state.registrations.root().unwrap();
    assert_ne!(root_a, root_b);
    // The registration leaf is the arity-4 sponge of key, one, timestamp.
    let leaf = poseidon(&[word(1), word(2), be_u64(1), be_u64(5)]);
    let empty_ballot = poseidon(&[[0u8; 32]; 5]);
    let sealed = poseidon(&[root_a, empty_ballot, [0u8; 32]]);
    assert_eq!(a.state.commitment.process.1, sealed);
    assert_eq!(a.state.commitment.process.0, 0);
    // And the root itself chains that leaf up the padded tree.
    let zero1 = poseidon(&[[0u8; 32]; 5]);
    let level1 = poseidon(&[leaf, [0u8; 32], [0u8; 32], [0u8; 32], [0u8; 32]]);
    let expected_root = poseidon(&[level1, zero1, zero1, zero1, zero1]);
    assert_eq!(root_a, expected_root);
}

#[test]
fn registration_limits_follow_the_ceilings() {
    let poll = Poll::new(1, 42, 100, config(1)).unwrap();
    assert!(!poll.registration_limit_reached());
    assert!(!poll.interaction_limit_reached());
}

#[test]
fn expected_batches_cover_the_partial_tail() {
    // Seven interactions with a batch size of five demand two process
    // batches: one full and one partial. Three registrations with a tally
    // batch size of five demand the mandatory zeroth batch only.
    let mut poll = Poll::new(1, 42, 100, config(1)).unwrap();
    let key = PublicKey { x: word(1), y: word(2) };
    for t in 0..3u64 {
        let (_, next) = poll.register_participant(key, t).unwrap();
        poll = next;
    }
    let mut cfg = config(1);
    cfg.process_subtree_depth = 1;
    let mut poll = Poll { config: cfg, ..poll };
    for v in 0..7u8 {
        let (_, next) = poll.consume_interaction(key, [word(v); 10]).unwrap();
        poll = next;
    }
    let poll = poll.merge_registrations().unwrap();
    let poll = poll.merge_interactions().unwrap();
    assert_eq!(poll.state.commitment.expected_process, 2);
    assert_eq!(poll.state.commitment.expected_tally, 1);
}

#[test]
fn expected_batches_exact_multiple_needs_no_extra() {
    let mut cfg = config(1);
    cfg.process_subtree_depth = 1;
    let mut poll = Poll::new(1, 42, 100, cfg).unwrap();
    let key = PublicKey { x: word(1), y: word(2) };
    for v in 0..10u8 {
        let (_, next) = poll.consume_interaction(key, [word(v); 10]).unwrap();
        poll = next;
    }
    let poll = poll.merge_registrations().unwrap();
    let poll = poll.merge_interactions().unwrap();
    assert_eq!(poll.state.commitment.expected_process, 2);
}

#[test]
fn prepare_walks_process_batches_then_tally_then_stops() {
    let mut poll = Poll::new(1, 42, 100, config(1)).unwrap();
    let key = PublicKey { x: word(1), y: word(2) };
    for t in 0..2u64 {
        let (_, next) = poll.register_participant(key, t).unwrap();
        poll = next;
    }
    for v in 0..3u8 {
        let (_, next) = poll.consume_interaction(key, [word(v); 10]).unwrap();
        poll = next;
    }
    let poll = poll.merge_registrations().unwrap();
    let mut poll = poll.merge_interactions().unwrap();
    // Batch size one: three process batches, then one tally batch.
    assert_eq!(poll.state.commitment.expected_process, 3);
    assert_eq!(poll.state.commitment.expected_tally, 1);
    for round in 0..3u8 {
        assert!(!poll.is_proven());
        let (vk, inputs, ledger) = poll
            .prepare_public_inputs(coordinator(), word(100 + round))
            .unwrap();
        assert_eq!(vk, vec![1u8], "round {round} must target the process circuit");
        assert_eq!(inputs.len(), 9);
        // Batches are proven from the last completed boundary backwards.
        assert_eq!(inputs[5], be_u64((2 - round) as u64));
        poll.state.commitment = ledger;
    }
    let (vk, inputs, ledger) = poll.prepare_public_inputs(coordinator(), word(200)).unwrap();
    assert_eq!(vk, vec![2u8], "after the process batches comes the tally circuit");
    assert_eq!(inputs.len(), 5);
    assert_eq!(inputs[3], be_u64(0));
    assert_eq!(inputs[4], be_u64(3));
    poll.state.commitment = ledger;
    assert!(poll.is_proven());
    assert!(poll.prepare_public_inputs(coordinator(), word(201)).is_none());
}

#[test]
fn repeated_registration_merge_keeps_the_ledger() {
    // Once the registration root exists, a stray second merge must not
    // rewind the process-proof ledger.
    let poll = Poll::new(1, 42, 100, config(1)).unwrap();
    let key = PublicKey { x: word(1), y: word(2) };
    let (_, poll) = poll.register_participant(key, 5).unwrap();
    let mut poll = poll.merge_registrations().unwrap();
    let sealed = poll.state.commitment.process.1;
    poll.state.commitment.process.0 = 3;
    poll.state.commitment.process.1 = word(99);
    let poll = poll.merge_registrations().unwrap();
    assert_eq!(poll.state.commitment.process.0, 3);
    assert_eq!(poll.state.commitment.process.1, word(99));
    assert_ne!(sealed, word(99));
    assert_eq!(
        poll.state.registrations.root(),
        poll.merge_registrations().unwrap().state.registrations.root()
    );
}

#[test]
fn repeated_interaction_merge_keeps_the_expected_counts() {
    // Once the interaction root exists, a stray second merge must not
    // recompute the expected batch counts, even if registrations grew
    // in between.
    let mut poll = Poll::new(1, 42, 100, config(1)).unwrap();
    let key = PublicKey { x: word(1), y: word(2) };
    for v in 0..3u8 {
        let (_, next) = poll.consume_interaction(key, [word(v); 10]).unwrap();
        poll = next;
    }
    let mut poll = poll.merge_interactions().unwrap();
    assert_eq!(poll.state.commitment.expected_process, 3);
    assert_eq!(poll.state.commitment.expected_tally, 1);
    for t in 0..5u64 {
        let (_, next) = poll.register_participant(key, t).unwrap();
        poll = next;
    }
    let poll = poll.merge_interactions().unwrap();
    assert_eq!(poll.state.commitment.expected_process, 3);
    assert_eq!(poll.state.commitment.expected_tally, 1);
}

#[test]
fn empty_interaction_set_goes_straight_to_the_tally_circuit() {
    // With zero interactions there are no process batches: preparation
    // must select the tally circuit at once, and the poll can still
    // become proven.
    let poll = Poll::new(1, 42, 100, config(1)).unwrap();
    let key = PublicKey { x: word(1), y: word(2) };
    let (_, poll) = poll.register_participant(key, 5).unwrap();
    let poll = poll.merge_registrations().unwrap();
    let mut poll = poll.merge_interactions().unwrap();
    assert_eq!(poll.state.commitment.expected_process, 0);
    assert_eq!(poll.state.commitment.expected_tally, 1);
    let (vk, inputs, ledger) = poll.prepare_public_inputs(coordinator(), word(50)).unwrap();
    assert_eq!(vk, vec![2u8], "an empty interaction set selects the tally circuit");
    assert_eq!(inputs.len(), 5);
    poll.state.commitment = ledger;
    assert!(poll.is_proven());
    assert!(poll.prepare_public_inputs(coordinator(), word(51)).is_none());
}

#[test]
fn proven_needs_both_exact_counts() {
    let mut poll = Poll::new(1, 42, 100, config(1)).unwrap();
    poll.state.commitment.expected_process = 3;
    poll.state.commitment.expected_tally = 2;
    poll.state.commitment.process.0 = 3;
    poll.state.commitment.tally.0 = 2;
    assert!(poll.is_proven());
    poll.state.commitment.process.0 = 2;
    assert!(!poll.is_proven());
    poll.state.commitment.process.0 = 3;
    poll.state.commitment.tally.0 = 1;
    assert!(!poll.is_proven());
}

#[test]
fn nullify_fulfills_immediately() {
    let poll = Poll::new(1, 42, 100, config(1)).unwrap();
    assert!(!poll.is_proven() || poll.state.commitment.expected_process == 0);
    assert!(!poll.is_fulfilled());
    let poll = poll.nullify();
    assert!(poll.is_nullified());
    assert!(poll.is_fulfilled());
}

fn accepted_outcome(tallies: &[u32]) -> (PollOutcome, [u8; 32]) {
    // With a vote option tree of depth zero the recomputed root is the
    // tally leaf itself. Craft the commitment so that both the per-option
    // chains and the totals chain meet it.
    let salt = word(31);
    let total_spent = word(7);
    let total_spent_salt = word(8);
    let leaf0 = be_u64(tallies[0] as u64);
    let new_results_commitment = poseidon(&[leaf0, salt]);
    let spent_votes_hash = poseidon(&[total_spent, total_spent_salt]);
    let commitment = poseidon(&[new_results_commitment, spent_votes_hash]);
    (
        PollOutcome {
            tally_results: tallies.to_vec(),
            tally_result_proofs: vec![Vec::new(); tallies.len()],
            tally_result_salt: salt,
            new_results_commitment,
            spent_votes_hash,
            total_spent,
            total_spent_salt,
        },
        commitment,
    )
}

#[test]
fn verify_outcome_rejects_before_proven() {
    let mut poll = Poll::new(1, 42, 100, config(1)).unwrap();
    poll.state.commitment.expected_process = 1;
    let (outcome, commitment) = accepted_outcome(&[9]);
    poll.state.commitment.tally.1 = commitment;
    assert!(!poll.is_proven());
    assert_eq!(poll.verify_outcome(Some(outcome)), None);
}

#[test]
fn verify_outcome_accepts_a_matching_claim() {
    let mut poll = Poll::new(1, 42, 100, config(1)).unwrap();
    let (outcome, commitment) = accepted_outcome(&[9]);
    poll.state.commitment.tally.1 = commitment;
    assert!(poll.is_proven());
    assert_eq!(poll.verify_outcome(None), None);
    assert_eq!(poll.verify_outcome(Some(outcome)), Some(0));
}

#[test]
fn verify_outcome_rejects_one_mismatched_option() {
    // Two options: the first matches the commitment, the second does not.
    let mut poll = Poll::new(1, 42, 100, config(2)).unwrap();
    let (mut outcome, commitment) = accepted_outcome(&[9, 9]);
    poll.state.commitment.tally.1 = commitment;
    assert!(poll.is_proven());
    assert_eq!(poll.verify_outcome(Some(outcome.clone())), Some(0));
    outcome.tally_results[1] = 10;
    assert_eq!(poll.verify_outcome(Some(outcome)), None);
}

#[test]
fn hash_failure_surfaces_as_unavailable() {
    let mut cfg = config(1);
    cfg.tree_arity = 20;
    let err = match Poll::new(1, 42, 100, cfg) {
        Ok(_) => panic!("a sponge for arity twenty must not exist"),
        Err(e) => e,
    };
    assert_eq!(err, MerkleTreeError::HashUnavailable);
}
