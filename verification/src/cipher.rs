//! The symmetric transform that protects frames.
//!
//! Every byte is combined by exclusive-or with the key byte at the same
//! position, the key repeating every [`BLOCK_WIDTH`] bytes. The transform is
//! deterministic and its own inverse. It authenticates nothing: a frame
//! altered or replayed on the way is not detected.

use crate::key_exchange::SharedSecret;
use crate::wire::{lemma_be_bytes_len, BLOCK_WIDTH};
use vstd::prelude::*;

verus! {

/// `data` with the repeating `key` laid over it.
pub open spec fn xor_with_key(data: Seq<u8>, key: Seq<u8>) -> Seq<u8> {
    Seq::new(data.len(), |i: int| data[i] ^ key[i % (key.len() as int)])
}

/// What a sender puts on the wire for `plain` under `secret`.
pub open spec fn encrypted(secret: SharedSecret, plain: Seq<u8>) -> Seq<u8> {
    xor_with_key(plain, secret.key())
}

/// What a receiver recovers from `sealed` under `secret`.
pub open spec fn decrypted(secret: SharedSecret, sealed: Seq<u8>) -> Seq<u8> {
    xor_with_key(sealed, secret.key())
}

/// Laying the same key over the data twice gives the data back.
pub proof fn lemma_xor_with_key_involution(data: Seq<u8>, key: Seq<u8>)
    requires
        key.len() > 0,
    ensures
        xor_with_key(xor_with_key(data, key), key) == data,
{
    let once = xor_with_key(data, key);
    let twice = xor_with_key(once, key);
    assert forall|i: int| 0 <= i < data.len() implies twice[i] == data[i] by {
        let d = data[i];
        let k = key[i % (key.len() as int)];
        assert((d ^ k) ^ k == d) by (bit_vector);
    }
    assert(twice =~= data);
}

/// Decryption under the key that encrypted recovers every plaintext, of any
/// length.
pub proof fn lemma_decrypt_encrypt(secret: SharedSecret, plain: Seq<u8>)
    ensures
        decrypted(secret, encrypted(secret, plain)) == plain,
        encrypted(secret, plain).len() == plain.len(),
{
    lemma_be_bytes_len(secret.value(), BLOCK_WIDTH as nat);
    lemma_xor_with_key_involution(plain, secret.key());
}

fn xor_bytes(data: &[u8], key: &[u8]) -> (out: Vec<u8>)
    requires
        key@.len() > 0,
    ensures
        out@ == xor_with_key(data@, key@),
{
    let mut out: Vec<u8> = Vec::new();
    let mut i: usize = 0;
    while i < data.len()
        invariant
            i <= data@.len(),
            key@.len() > 0,
            out@.len() == i,
            forall|j: int| 0 <= j < i ==> out@[j] == data@[j] ^ key@[j % (key@.len() as int)],
        decreases data@.len() - i,
    {
        let k: u8 = key[i % key.len()];
        out.push(data[i] ^ k);
        i = i + 1;
    }
    assert(out@ =~= xor_with_key(data@, key@));
    out
}

impl SharedSecret {
    /// Encrypts `plain`; the result has the length of the input.
    pub fn encrypt(&self, plain: &[u8]) -> (sealed: Vec<u8>)
        ensures
            sealed@ == encrypted(*self, plain@),
            sealed@.len() == plain@.len(),
    {
        let key = self.key_bytes();
        xor_bytes(plain, key.as_slice())
    }

    /// Decrypts `sealed`; the result has the length of the input.
    pub fn decrypt(&self, sealed: &[u8]) -> (plain: Vec<u8>)
        ensures
            plain@ == decrypted(*self, sealed@),
            plain@.len() == sealed@.len(),
    {
        let key = self.key_bytes();
        xor_bytes(sealed, key.as_slice())
    }
}

} // verus!
