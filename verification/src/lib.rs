//! State and verification logic of an anti-collusion poll: participants
//! register during a signup window, submit obfuscated interactions during a
//! voting window, and a coordinator later proves off-band that the tally was
//! computed over exactly the committed registrations and interactions.
//!
//! The crate provides the amortized incremental Merkle accumulator that seals
//! both commitments, the Poseidon-based leaf and commitment hashing, the batch
//! accounting that prepares public inputs for the two proving circuits, and
//! the outcome verifier that recomputes the tally commitment chain.
pub mod hash;
pub mod tree;
pub mod poll;
