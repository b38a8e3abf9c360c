//! Ephemeral key exchange over fixed public domain parameters.
//!
//! Each side picks a private scalar, publishes the generator raised to it,
//! and raises the peer's public value to its own scalar. Nothing
//! authenticates the public values: an active interceptor can sit between
//! the two peers. That weakness belongs to the protocol and is kept as it is.

use crate::modular::{lemma_pow_mod_bound, lemma_pow_mod_commutes, mod_pow, pow_mod};
use crate::wire::{
    be_bytes, be_value, encode_block, lemma_be_value_of_be_bytes, lemma_block_capacity, BLOCK_WIDTH,
};
use vstd::prelude::*;

verus! {

/// The public modulus of the exchange, the Mersenne prime `2^127 - 1`.
pub const MODULUS: u128 = 0x7fff_ffff_ffff_ffff_ffff_ffff_ffff_ffff;

/// The public base that private scalars are applied to.
pub const GENERATOR: u128 = 3;

/// Scalars that may serve as a private key: `2 ..= MODULUS - 2`.
pub open spec fn valid_scalar(scalar: nat) -> bool {
    2 <= scalar <= MODULUS - 2
}

/// The public value that belongs to a private scalar.
pub open spec fn public_of(private: nat) -> nat {
    pow_mod(GENERATOR as nat, private, MODULUS as nat)
}

/// The secret that the holder of `private` derives from a peer's public
/// value.
pub open spec fn shared_secret_of(private: nat, peer_public: nat) -> nat {
    pow_mod(peer_public, private, MODULUS as nat)
}

/// Two peers that exchange their public values derive the same secret,
/// whatever valid scalars they picked.
pub proof fn lemma_handshake_symmetry(a: nat, b: nat)
    requires
        valid_scalar(a),
        valid_scalar(b),
    ensures
        shared_secret_of(a, public_of(b)) == shared_secret_of(b, public_of(a)),
{
    lemma_pow_mod_commutes(GENERATOR as nat, a, b, MODULUS as nat);
}

/// The symmetry survives the trip over the wire: each peer may derive the
/// secret from the block that the other one sent.
pub proof fn lemma_handshake_symmetry_on_wire(a: nat, b: nat)
    requires
        valid_scalar(a),
        valid_scalar(b),
    ensures
        shared_secret_of(a, be_value(be_bytes(public_of(b), BLOCK_WIDTH as nat)))
            == shared_secret_of(b, be_value(be_bytes(public_of(a), BLOCK_WIDTH as nat))),
{
    lemma_pow_mod_bound(GENERATOR as nat, a, MODULUS as nat);
    lemma_pow_mod_bound(GENERATOR as nat, b, MODULUS as nat);
    lemma_block_capacity();
    lemma_be_value_of_be_bytes(public_of(a), BLOCK_WIDTH as nat);
    lemma_be_value_of_be_bytes(public_of(b), BLOCK_WIDTH as nat);
    lemma_handshake_symmetry(a, b);
}

/// Key material agreed on by both ends of one connection.
#[derive(Clone, Copy, Debug)]
pub struct SharedSecret {
    value: u128,
}

impl SharedSecret {
    /// The secret as a number.
    pub closed spec fn value(&self) -> nat {
        self.value as nat
    }

    /// The key bytes that the secret stands for.
    pub open spec fn key(&self) -> Seq<u8> {
        be_bytes(self.value(), BLOCK_WIDTH as nat)
    }

    /// Wraps key material that was agreed on elsewhere.
    pub fn from_value(value: u128) -> (secret: SharedSecret)
        ensures
            secret.value() == value,
    {
        SharedSecret { value }
    }

    /// The secret as a number.
    pub fn to_value(&self) -> (value: u128)
        ensures
            value == self.value(),
    {
        self.value
    }

    /// The key as a block of [`BLOCK_WIDTH`] bytes.
    pub fn key_bytes(&self) -> (key: Vec<u8>)
        ensures
            key@ == self.key(),
            key@.len() == BLOCK_WIDTH,
    {
        encode_block(self.value)
    }
}

/// An ephemeral private scalar together with its public value.
#[derive(Debug)]
pub struct KeyPair {
    private: u128,
    public: u128,
}

impl KeyPair {
    /// The private scalar.
    pub closed spec fn private_scalar(&self) -> nat {
        self.private as nat
    }

    /// The public value.
    pub closed spec fn public_value(&self) -> nat {
        self.public as nat
    }

    /// The scalar is valid and the public value is the one that belongs to it.
    #[verifier::type_invariant]
    pub open spec fn wf(&self) -> bool {
        &&& valid_scalar(self.private_scalar())
        &&& self.public_value() == public_of(self.private_scalar())
    }

    /// Builds the key pair of a freshly drawn private scalar. Scalars outside
    /// `2 ..= MODULUS - 2` are refused.
    pub fn from_scalar(private: u128) -> (pair: Option<KeyPair>)
        ensures
            pair is Some <==> valid_scalar(private as nat),
            pair matches Some(p) ==> p.wf() && p.private_scalar() == private,
    {
        if private < 2 || private > MODULUS - 2 {
            return None;
        }
        let public: u128 = mod_pow(GENERATOR, private, MODULUS);
        Some(KeyPair { private, public })
    }

    /// The public value, to be sent to the peer.
    pub fn public(&self) -> (value: u128)
        ensures
            value == self.public_value(),
            value == public_of(self.private_scalar()),
            value < MODULUS,
    {
        proof {
            use_type_invariant(self);
        }
        self.public
    }

    /// The public value as the block that goes over the wire.
    pub fn public_block(&self) -> (block: Vec<u8>)
        ensures
            block@ == be_bytes(public_of(self.private_scalar()), BLOCK_WIDTH as nat),
            block@.len() == BLOCK_WIDTH,
    {
        proof {
            use_type_invariant(self);
        }
        encode_block(self.public)
    }

    /// Derives the shared secret from the peer's public value. The key pair
    /// is used up: the private scalar does not outlive the derivation.
    pub fn agree(self, peer_public: u128) -> (secret: SharedSecret)
        ensures
            secret.value() == shared_secret_of(self.private_scalar(), peer_public as nat),
    {
        SharedSecret::from_value(mod_pow(peer_public, self.private, MODULUS))
    }
}

} // verus!
