//! Fixed-length identifiers: transaction ids and user ids.

use crate::cryptography::{compressed_public_key, parse_public_key};
use crate::encoding::{hex_bytes, hex_decode, hex_encode, hex_text, is_hex_text};
use vstd::array::*;
use vstd::prelude::*;
use vstd::slice::slice_to_vec;

verus! {

/// Whether two byte arrays hold the same bytes.
pub fn bytes_eq<const N: usize>(a: &[u8; N], b: &[u8; N]) -> (r: bool)
    ensures
        r == (a@ == b@),
        r == (*a == *b),
{
    let mut i: usize = 0;
    while i < N
        invariant
            i <= N,
            forall|j: int| 0 <= j < i ==> a@[j] == b@[j],
        decreases N - i,
    {
        if a[i] != b[i] {
            return false;
        }
        i = i + 1;
    }
    assert(a@ =~= b@);
    assert(*a =~= *b);
    true
}

/// Copies a slice of exactly `N` bytes into an array.
pub fn array_from_slice<const N: usize>(data: &[u8]) -> (r: Option<[u8; N]>)
    ensures
        r matches Some(a) ==> a@ == data@,
        r is None <==> data@.len() != N,
{
    if data.len() != N {
        return None;
    }
    let mut a = array_fill_for_copy_types::<u8, N>(0u8);
    let mut i: usize = 0;
    while i < N
        invariant
            i <= N,
            data@.len() == N,
            forall|j: int| 0 <= j < i ==> a@[j] == data@[j],
        decreases N - i,
    {
        a[i] = data[i];
        i = i + 1;
    }
    assert(a@ =~= data@);
    Some(a)
}

/// The identifier of a transaction: the 32 bytes of its hash, in the order
/// in which they are hashed and serialized.
#[derive(Debug, Clone, Copy, Eq, Hash)]
pub struct TransactionId {
    pub bytes: [u8; 32],
}

impl View for TransactionId {
    type V = Seq<u8>;

    open spec fn view(&self) -> Seq<u8> {
        self.bytes@
    }
}

impl PartialEq for TransactionId {
    fn eq(&self, other: &Self) -> (r: bool) {
        bytes_eq(&self.bytes, &other.bytes)
    }
}

impl vstd::std_specs::cmp::PartialEqSpecImpl for TransactionId {
    open spec fn obeys_eq_spec() -> bool {
        true
    }

    open spec fn eq_spec(&self, other: &Self) -> bool {
        self@ == other@
    }
}

impl TransactionId {
    /// The transaction id made of the given bytes.
    pub fn new(bytes: [u8; 32]) -> (id: Self)
        ensures
            id@ == bytes@,
    {
        TransactionId { bytes }
    }

    /// Builds a transaction id from a slice, which must hold 32 bytes.
    pub fn from_slice(data: &[u8]) -> (r: Option<Self>)
        ensures
            r matches Some(id) ==> id@ == data@,
            r is None <==> data@.len() != 32,
    {
        match array_from_slice::<32>(data) {
            Some(bytes) => Some(TransactionId { bytes }),
            None => None,
        }
    }

    /// The bytes of the id.
    pub fn to_vec(&self) -> (v: Vec<u8>)
        ensures
            v@ == self@,
    {
        slice_to_vec(self.bytes.as_slice())
    }
}

/// The identifier of a block: the 32 bytes of the hash of its header.
#[derive(Debug, Clone, Copy, Eq, Hash)]
pub struct BlockHash {
    pub bytes: [u8; 32],
}

impl View for BlockHash {
    type V = Seq<u8>;

    open spec fn view(&self) -> Seq<u8> {
        self.bytes@
    }
}

impl PartialEq for BlockHash {
    fn eq(&self, other: &Self) -> (r: bool) {
        bytes_eq(&self.bytes, &other.bytes)
    }
}

impl vstd::std_specs::cmp::PartialEqSpecImpl for BlockHash {
    open spec fn obeys_eq_spec() -> bool {
        true
    }

    open spec fn eq_spec(&self, other: &Self) -> bool {
        self@ == other@
    }
}

impl BlockHash {
    /// The block hash made of the given bytes.
    pub fn new(bytes: [u8; 32]) -> (hash: Self)
        ensures
            hash@ == bytes@,
    {
        BlockHash { bytes }
    }
}

/// The identifier of a user or of a tower: a public key in its compressed
/// form of 33 bytes.
#[derive(Debug, Clone, Copy, Eq, Hash)]
pub struct UserId {
    pub bytes: [u8; 33],
}

impl View for UserId {
    type V = Seq<u8>;

    open spec fn view(&self) -> Seq<u8> {
        self.bytes@
    }
}

impl PartialEq for UserId {
    fn eq(&self, other: &Self) -> (r: bool) {
        bytes_eq(&self.bytes, &other.bytes)
    }
}

impl vstd::std_specs::cmp::PartialEqSpecImpl for UserId {
    open spec fn obeys_eq_spec() -> bool {
        true
    }

    open spec fn eq_spec(&self, other: &Self) -> bool {
        self@ == other@
    }
}

/// The user id that a hexadecimal text stands for, if any: the compressed
/// form of the public key that its bytes encode.
pub open spec fn user_id_of_text(text: Seq<char>) -> Option<Seq<u8>> {
    if is_hex_text(text) {
        compressed_public_key(hex_bytes(text))
    } else {
        None
    }
}

impl UserId {
    /// Builds a user id from the serialized form of a public key. Fails
    /// where the bytes encode no public key.
    pub fn from_slice(data: &[u8]) -> (r: Option<Self>)
        ensures
            r matches Some(id) ==> compressed_public_key(data@) == Some(id@),
            r is None <==> compressed_public_key(data@) is None,
    {
        match parse_public_key(data) {
            Ok(bytes) => Some(UserId { bytes }),
            Err(_) => None,
        }
    }

    /// Builds a user id from the hexadecimal text of a public key.
    pub fn from_hex(text: &str) -> (r: Option<Self>)
        ensures
            r matches Some(id) ==> user_id_of_text(text@) == Some(id@),
            r is None <==> user_id_of_text(text@) is None,
    {
        match hex_decode(text) {
            Ok(data) => UserId::from_slice(data.as_slice()),
            Err(_) => None,
        }
    }

    /// The 33 bytes of the id.
    pub fn to_vec(&self) -> (v: Vec<u8>)
        ensures
            v@ == self@,
    {
        slice_to_vec(self.bytes.as_slice())
    }

    /// The lower-case hexadecimal text of the id.
    pub fn to_string(&self) -> (text: String)
        ensures
            text@ == hex_text(self@),
    {
        hex_encode(self.bytes.as_slice())
    }
}

} // verus!
