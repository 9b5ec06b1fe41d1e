//! Field hash adapter: all leaf and commitment hashing routes through a
//! fixed-arity Poseidon sponge over the BN254 scalar field. Inputs and
//! outputs are fixed 32-byte big-endian field-element encodings.
use vstd::prelude::*;

verus! {

/// A 32-byte big-endian field-element encoding.
pub type HashBytes = [u8; 32];

/// The digest that the Poseidon sponge produces for a sequence of 32-byte
/// big-endian inputs: each input is reduced modulo the BN254 scalar field
/// order, absorbed, and the resulting element re-serialized big-endian into
/// 32 bytes. The digest depends on the inputs alone.
pub uninterp spec fn poseidon_digest(inputs: Seq<Seq<u8>>) -> Seq<u8>;

/// Relies on `light_poseidon::Poseidon::<Fr>::new_circom` and
/// `Poseidon::hash`, with `ark_ff`'s big-endian byte conversions on either
/// side: a sponge exists exactly for 1 to 12 inputs, and the digest is a
/// deterministic function of the inputs alone.
#[verifier::external_body]
pub(crate) fn poseidon_hash(inputs: &Vec<HashBytes>) -> (r: Option<HashBytes>)
    ensures
        r is Some <==> 1 <= inputs@.len() <= 12,
        r matches Some(h) ==> h@ == poseidon_digest(inputs.deep_view()),
{
    let mut hasher = light_poseidon::Poseidon::<ark_bn254::Fr>::new_circom(inputs.len()).ok()?;
    let elements: std::vec::Vec<ark_bn254::Fr> = inputs
        .iter()
        .map(|b| <ark_bn254::Fr as ark_ff::PrimeField>::from_be_bytes_mod_order(b))
        .collect();
    let field = light_poseidon::PoseidonHasher::hash(&mut hasher, &elements).ok()?;
    let bytes = ark_ff::BigInteger::to_bytes_be(&ark_ff::PrimeField::into_bigint(field));
    let mut out = [0u8; 32];
    out[32 - bytes.len()..].copy_from_slice(&bytes);
    Some(out)
}

/// The canonical 32-byte big-endian encoding of a 64-bit integer:
/// 24 zero bytes followed by the value's 8 bytes, most significant first.
pub open spec fn u64_be32(n: u64) -> Seq<u8> {
    Seq::new(32, |i: int| u64_be32_byte(n, i))
}

/// Byte `i` of the canonical 32-byte big-endian encoding of `n`.
pub open spec fn u64_be32_byte(n: u64, i: int) -> u8 {
    if i < 24 || i > 31 {
        0u8
    } else {
        (((n >> (((31 - i) * 8) as u64)) % 256) as u8)
    }
}

/// Encodes a 64-bit integer as a 32-byte big-endian field element.
pub fn u64_to_be32(n: u64) -> (r: HashBytes)
    ensures
        r@ == u64_be32(n),
{
    let mut out = [0u8; 32];
    out[24] = ((n >> 56u64) % 256) as u8;
    out[25] = ((n >> 48u64) % 256) as u8;
    out[26] = ((n >> 40u64) % 256) as u8;
    out[27] = ((n >> 32u64) % 256) as u8;
    out[28] = ((n >> 24u64) % 256) as u8;
    out[29] = ((n >> 16u64) % 256) as u8;
    out[30] = ((n >> 8u64) % 256) as u8;
    out[31] = (n % 256) as u8;
    proof {
        assert(n >> 0u64 == n) by (bit_vector);
        assert(out@ =~= u64_be32(n));
    }
    out
}

/// True exactly when the two 32-byte values are equal.
pub fn hash_bytes_eq(a: &HashBytes, b: &HashBytes) -> (r: bool)
    ensures
        r <==> a@ == b@,
{
    let mut i: usize = 0;
    while i < 32
        invariant
            i <= 32,
            forall|j: int| 0 <= j < i ==> a@[j] == b@[j],
        decreases 32 - i,
    {
        if a[i] != b[i] {
            proof {
                assert(a@[i as int] != b@[i as int]);
                assert(a@ != b@);
            }
            return false;
        }
        i += 1;
    }
    proof {
        assert(a@ =~= b@);
    }
    true
}

} // verus!
