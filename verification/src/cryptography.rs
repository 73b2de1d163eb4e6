//! Encryption of penalty transactions under the id of the breaching
//! transaction, and the recovery of signers from signed messages.
//!
//! The primitives themselves come from outside crates; what this module
//! assumes of each is stated on its wrapper.

use crate::ids::TransactionId;
use vstd::prelude::*;

verus! {

/// The SHA-256 digest of a byte string.
pub uninterp spec fn sha256_digest(data: Seq<u8>) -> Seq<u8>;

/// The ChaCha20-Poly1305 ciphertext, tag included, of a plaintext under a
/// key and a nonce, with no associated data; `None` where the cipher refuses
/// the plaintext.
pub uninterp spec fn aead_sealed(key: Seq<u8>, nonce: Seq<u8>, plaintext: Seq<u8>) -> Option<
    Seq<u8>,
>;

/// The plaintext that ChaCha20-Poly1305 gives for a ciphertext under a key
/// and a nonce, with no associated data; `None` where the tag does not
/// authenticate the ciphertext.
pub uninterp spec fn aead_opened(key: Seq<u8>, nonce: Seq<u8>, ciphertext: Seq<u8>) -> Option<
    Seq<u8>,
>;

/// The id of the transaction that a byte string serializes; `None` where it
/// serializes none.
pub uninterp spec fn transaction_id_of(raw: Seq<u8>) -> Option<Seq<u8>>;

/// The compressed form of the public key that signed a message, as
/// recovered from a signature in the format of Lightning nodes; `None` where
/// the signature yields no key.
pub uninterp spec fn message_signer(message: Seq<u8>, signature: Seq<char>) -> Option<Seq<u8>>;

/// The compressed form of the public key that a byte string serializes;
/// `None` where it serializes none.
pub uninterp spec fn compressed_public_key(data: Seq<u8>) -> Option<Seq<u8>>;

#[verifier::external_type_specification]
#[verifier::external_body]
pub struct ExAeadError(chacha20poly1305::aead::Error);

#[verifier::external_type_specification]
#[verifier::external_body]
pub struct ExConsensusError(bitcoin::consensus::encode::Error);

#[verifier::external_type_specification]
#[verifier::external_body]
pub struct ExSecpError(bitcoin::secp256k1::Error);

/// `bitcoin::hashes::sha256::Hash::hash`: the digest is a function of the
/// data alone.
#[verifier::external_body]
pub(crate) fn sha256(data: &[u8]) -> (digest: [u8; 32])
    ensures
        digest@ == sha256_digest(data@),
{
    bitcoin::hashes::Hash::into_inner(
        <bitcoin::hashes::sha256::Hash as bitcoin::hashes::Hash>::hash(data),
    )
}

/// `ChaCha20Poly1305::encrypt` of the `aead` traits, on a cipher made with
/// `new` from the key. The ciphertext is a function of key, nonce and
/// plaintext; it is the plaintext's length and a tag of 16 bytes long; and
/// the same key and nonce open it to the plaintext again.
#[verifier::external_body]
pub(crate) fn aead_seal(key: &[u8; 32], nonce: &[u8; 12], plaintext: &[u8]) -> (r: Result<
    Vec<u8>,
    chacha20poly1305::aead::Error,
>)
    ensures
        r matches Ok(ciphertext) ==> {
            &&& aead_sealed(key@, nonce@, plaintext@) == Some(ciphertext@)
            &&& ciphertext@.len() == plaintext@.len() + 16
            &&& aead_opened(key@, nonce@, ciphertext@) == Some(plaintext@)
        },
        r is Err ==> aead_sealed(key@, nonce@, plaintext@) is None,
{
    let key: chacha20poly1305::Key = (*key).into();
    let nonce: chacha20poly1305::Nonce = (*nonce).into();
    let cipher = <chacha20poly1305::ChaCha20Poly1305 as chacha20poly1305::aead::NewAead>::new(&key);
    chacha20poly1305::aead::Aead::encrypt(&cipher, &nonce, plaintext)
}

/// `ChaCha20Poly1305::decrypt` of the `aead` traits, on a cipher made with
/// `new` from the key. The outcome is a function of key, nonce and
/// ciphertext; a plaintext is 16 bytes shorter than its ciphertext.
#[verifier::external_body]
pub(crate) fn aead_open(key: &[u8; 32], nonce: &[u8; 12], ciphertext: &[u8]) -> (r: Result<
    Vec<u8>,
    chacha20poly1305::aead::Error,
>)
    ensures
        r matches Ok(plaintext) ==> {
            &&& aead_opened(key@, nonce@, ciphertext@) == Some(plaintext@)
            &&& plaintext@.len() + 16 == ciphertext@.len()
        },
        r is Err ==> aead_opened(key@, nonce@, ciphertext@) is None,
{
    let key: chacha20poly1305::Key = (*key).into();
    let nonce: chacha20poly1305::Nonce = (*nonce).into();
    let cipher = <chacha20poly1305::ChaCha20Poly1305 as chacha20poly1305::aead::NewAead>::new(&key);
    chacha20poly1305::aead::Aead::decrypt(&cipher, &nonce, ciphertext)
}

/// `bitcoin::consensus::deserialize` to a `bitcoin::Transaction`, and
/// `Transaction::txid` of what it gives: whether the bytes serialize a
/// transaction, and its id, are functions of the bytes alone.
#[verifier::external_body]
pub(crate) fn parse_transaction_id(raw: &[u8]) -> (r: Result<
    [u8; 32],
    bitcoin::consensus::encode::Error,
>)
    ensures
        r matches Ok(id) ==> transaction_id_of(raw@) == Some(id@),
        r is Err ==> transaction_id_of(raw@) is None,
{
    match bitcoin::consensus::deserialize::<bitcoin::Transaction>(raw) {
        Ok(transaction) => Ok(bitcoin::hashes::Hash::into_inner(transaction.txid())),
        Err(e) => Err(e),
    }
}

/// `lightning::util::message_signing::recover_pk`, and
/// `PublicKey::serialize` of the key it gives: the key is a function of
/// message and signature alone.
#[verifier::external_body]
pub(crate) fn recover_signer(message: &[u8], signature: &str) -> (r: Result<
    [u8; 33],
    bitcoin::secp256k1::Error,
>)
    ensures
        r matches Ok(key) ==> message_signer(message@, signature@) == Some(key@),
        r is Err ==> message_signer(message@, signature@) is None,
{
    match lightning::util::message_signing::recover_pk(message, signature) {
        Ok(key) => Ok(key.serialize()),
        Err(e) => Err(e),
    }
}

/// `bitcoin::secp256k1::PublicKey::from_slice`, and `PublicKey::serialize`
/// of the key it gives: whether the bytes serialize a public key, and its
/// compressed form, are functions of the bytes alone.
#[verifier::external_body]
pub(crate) fn parse_public_key(data: &[u8]) -> (r: Result<[u8; 33], bitcoin::secp256k1::Error>)
    ensures
        r matches Ok(key) ==> compressed_public_key(data@) == Some(key@),
        r is Err ==> compressed_public_key(data@) is None,
{
    match bitcoin::secp256k1::PublicKey::from_slice(data) {
        Ok(key) => Ok(key.serialize()),
        Err(e) => Err(e),
    }
}

/// A penalty transaction: the serialized form of a transaction, held
/// together with its id.
#[derive(Debug)]
pub struct PenaltyTransaction {
    raw: Vec<u8>,
    txid: TransactionId,
}

impl View for PenaltyTransaction {
    type V = Seq<u8>;

    closed spec fn view(&self) -> Seq<u8> {
        self.raw@
    }
}

impl Clone for PenaltyTransaction {
    fn clone(&self) -> (copy: Self)
        ensures
            copy@ == self@,
    {
        proof {
            use_type_invariant(self);
        }
        let raw = self.raw.clone();
        assert(raw@ =~= self.raw@);
        PenaltyTransaction { raw, txid: self.txid }
    }
}

impl PenaltyTransaction {
    #[verifier::type_invariant]
    spec fn holds_its_id(&self) -> bool {
        transaction_id_of(self.raw@) == Some(self.txid@)
    }

    /// Reads a serialized transaction. Fails where the bytes serialize
    /// none.
    pub fn parse(raw: Vec<u8>) -> (r: Result<Self, bitcoin::consensus::encode::Error>)
        ensures
            r matches Ok(penalty) ==> penalty@ == raw@ && transaction_id_of(raw@) is Some,
            r is Err <==> transaction_id_of(raw@) is None,
    {
        match parse_transaction_id(raw.as_slice()) {
            Ok(bytes) => Ok(PenaltyTransaction { raw, txid: TransactionId::new(bytes) }),
            Err(e) => Err(e),
        }
    }

    /// The id of the transaction.
    pub fn txid(&self) -> (id: TransactionId)
        ensures
            transaction_id_of(self@) == Some(id@),
    {
        proof {
            use_type_invariant(self);
        }
        self.txid
    }

    /// The serialized transaction.
    pub fn serialize(&self) -> (raw: Vec<u8>)
        ensures
            raw@ == self@,
    {
        let raw = self.raw.clone();
        assert(raw@ =~= self.raw@);
        raw
    }
}

/// Why an encrypted blob gave no penalty transaction.
#[derive(Debug)]
pub enum DecryptingError {
    /// The cipher did not authenticate the blob under the key.
    AED(chacha20poly1305::aead::Error),
    /// The plaintext serializes no transaction.
    Encode(bitcoin::consensus::encode::Error),
}

/// The nonce of every encryption: twelve zero bytes.
pub open spec fn zero_nonce() -> Seq<u8> {
    Seq::new(12, |i: int| 0u8)
}

/// The encrypted blob of a serialized penalty transaction under the id of
/// the breaching transaction: sealed under the digest of the id.
pub open spec fn encrypted(raw: Seq<u8>, txid: Seq<u8>) -> Option<Seq<u8>> {
    aead_sealed(sha256_digest(txid), zero_nonce(), raw)
}

/// The serialized penalty transaction that an encrypted blob holds for a
/// transaction id: what the digest of the id opens the blob to, where that
/// serializes a transaction.
pub open spec fn decrypted(blob: Seq<u8>, txid: Seq<u8>) -> Option<Seq<u8>> {
    match aead_opened(sha256_digest(txid), zero_nonce(), blob) {
        Some(raw) => if transaction_id_of(raw) is Some {
            Some(raw)
        } else {
            None
        },
        None => None,
    }
}

/// Encrypts a penalty transaction under the id of the transaction that it
/// punishes. Decrypting the blob under the same id gives the penalty
/// transaction back.
pub fn encrypt(penalty: &PenaltyTransaction, txid: &TransactionId) -> (r: Result<
    Vec<u8>,
    chacha20poly1305::aead::Error,
>)
    ensures
        r matches Ok(blob) ==> {
            &&& encrypted(penalty@, txid@) == Some(blob@)
            &&& blob@.len() == penalty@.len() + 16
            &&& decrypted(blob@, txid@) == Some(penalty@)
        },
        r is Err <==> encrypted(penalty@, txid@) is None,
{
    proof {
        use_type_invariant(penalty);
    }
    let key = sha256(txid.bytes.as_slice());
    let nonce = [0u8; 12];
    assert(nonce@ =~= zero_nonce());
    aead_seal(&key, &nonce, penalty.raw.as_slice())
}

/// Decrypts an encrypted blob under a transaction id and reads the penalty
/// transaction in it.
pub fn decrypt(blob: &[u8], txid: &TransactionId) -> (r: Result<
    PenaltyTransaction,
    DecryptingError,
>)
    ensures
        r matches Ok(penalty) ==> decrypted(blob@, txid@) == Some(penalty@),
        r matches Err(DecryptingError::AED(_)) <==> aead_opened(
            sha256_digest(txid@),
            zero_nonce(),
            blob@,
        ) is None,
        r matches Err(DecryptingError::Encode(_)) <==> {
            &&& aead_opened(sha256_digest(txid@), zero_nonce(), blob@) matches Some(raw)
            &&& transaction_id_of(raw) is None
        },
{
    let key = sha256(txid.bytes.as_slice());
    let nonce = [0u8; 12];
    assert(nonce@ =~= zero_nonce());
    match aead_open(&key, &nonce, blob) {
        Ok(raw) => match PenaltyTransaction::parse(raw) {
            Ok(penalty) => Ok(penalty),
            Err(e) => Err(DecryptingError::Encode(e)),
        },
        Err(e) => Err(DecryptingError::AED(e)),
    }
}

} // verus!
