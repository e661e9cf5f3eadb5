//! Transactions and their content identifiers.

use byteorder::LittleEndian;
use byteorder::WriteBytesExt;
use rand::Rng;
use vstd::prelude::*;

use crate::status::Status;

verus! {

/// The SHA-256 digest of a byte string: 32 bytes that depend on the input
/// alone.
pub uninterp spec fn sha256(data: Seq<u8>) -> Seq<u8>;

/// The eight bytes of `n`, least significant first.
pub open spec fn le_bytes(n: u64) -> Seq<u8> {
    seq![
        (n & 0xff) as u8,
        ((n >> 8) & 0xff) as u8,
        ((n >> 16) & 0xff) as u8,
        ((n >> 24) & 0xff) as u8,
        ((n >> 32) & 0xff) as u8,
        ((n >> 40) & 0xff) as u8,
        ((n >> 48) & 0xff) as u8,
        ((n >> 56) & 0xff) as u8,
    ]
}

/// The lowercase hexadecimal digit of a value below sixteen.
pub open spec fn hex_digit(v: u8) -> char {
    if v < 10 {
        ((v + 48) as u8) as char
    } else {
        ((v + 87) as u8) as char
    }
}

/// Two lowercase hexadecimal digits per byte, high digit first.
pub open spec fn hex_of(bytes: Seq<u8>) -> Seq<char> {
    Seq::new(
        2 * bytes.len(),
        |i: int|
            if i % 2 == 0 {
                hex_digit(bytes[i / 2] / 16)
            } else {
                hex_digit(bytes[i / 2] % 16)
            },
    )
}

/// `byteorder::WriteBytesExt::write_u64::<LittleEndian>` on an empty byte
/// vector: the vector then holds the eight bytes of `n`, least significant
/// first. Writing to a vector cannot fail.
#[verifier::external_body]
fn write_u64_le(n: u64) -> (buf: Vec<u8>)
    ensures
        buf@ == le_bytes(n),
{
    let mut buf = vec![];
    buf.write_u64::<LittleEndian>(n).unwrap();
    buf
}

/// `ring::digest::digest` with `ring::digest::SHA256`: the result is the
/// SHA-256 digest of `data`, which has 32 bytes. The input is kept far below
/// the length at which the digest refuses its input.
#[verifier::external_body]
fn sha256_digest(data: &Vec<u8>) -> (out: [u8; 32])
    requires
        data@.len() <= 0xffff_ffff,
    ensures
        out@ == sha256(data@),
{
    let d = ring::digest::digest(&ring::digest::SHA256, data.as_slice());
    let mut out = [0u8; 32];
    out.copy_from_slice(d.as_ref());
    out
}

/// `hex::encode`: two lowercase hexadecimal digits for each byte, in order.
#[verifier::external_body]
fn hex_encode(bytes: &[u8; 32]) -> (s: String)
    ensures
        s@ == hex_of(bytes@),
{
    hex::encode(bytes)
}

/// `rand::random::<u64>`: some 64-bit number; nothing is known of it.
#[verifier::external_body]
fn random_u64() -> (n: u64) {
    rand::random::<u64>()
}

/// `rand::Rng::gen_range` on the generator of `rand::thread_rng`: some
/// number that is at least `low` and below `high`. The call panics when
/// `low` is not below `high`.
#[verifier::external_body]
fn random_between(low: i32, high: i32) -> (n: i32)
    requires
        low < high,
    ensures
        low <= n < high,
{
    rand::thread_rng().gen_range(low, high)
}

/// A content identifier: the 32 bytes of a digest.
#[derive(Clone, Copy, Debug, PartialEq, Eq, Hash)]
pub struct Hash(pub [u8; 32]);

impl View for Hash {
    type V = Seq<u8>;

    open spec fn view(&self) -> Seq<u8> {
        self.0@
    }
}

impl Hash {
    /// The identifier in lowercase hexadecimal, for display.
    pub fn to_string(&self) -> (s: String)
        ensures
            s@ == hex_of(self@),
            s@.len() == 64,
    {
        hex_encode(&self.0)
    }

    /// Whether two identifiers hold the same bytes.
    pub fn same(&self, other: &Hash) -> (b: bool)
        ensures
            b == (self@ == other@),
            b == (*self == *other),
    {
        let mut i: usize = 0;
        while i < 32
            invariant
                0 <= i <= 32,
                forall|j: int| 0 <= j < i ==> self.0@[j] == other.0@[j],
            decreases 32 - i,
        {
            if self.0[i] != other.0[i] {
                return false;
            }
            i += 1;
        }
        assert(self.0@ =~= other.0@);
        assert(self.0 =~= other.0);
        true
    }
}

/// The unit that nodes vote on.
#[derive(Clone, Copy, Debug, PartialEq, Eq, Structural)]
pub struct Transaction {
    /// Distinguishes one transaction from another; the identity is taken
    /// from it.
    pub nonce: u64,
    /// The payload that a node checks locally.
    pub data: i32,
}

impl Transaction {
    /// The canonical byte encoding: the nonce, least significant byte first.
    pub open spec fn encoding(self) -> Seq<u8> {
        le_bytes(self.nonce)
    }

    /// The identity of the transaction: the digest of its encoding.
    pub open spec fn identifier(self) -> Seq<u8> {
        sha256(self.encoding())
    }

    /// What a node concludes from the payload alone: below seven is valid.
    pub open spec fn locally_valid(self) -> Status {
        if self.data < 7 {
            Status::Valid
        } else {
            Status::Invalid
        }
    }

    /// A transaction with a random nonce and a random payload from 0 to 9,
    /// for simulations.
    pub fn random() -> (tx: Transaction)
        ensures
            0 <= tx.data < 10,
    {
        Transaction { nonce: random_u64(), data: random_between(0, 10) }
    }

    /// The canonical byte encoding.
    pub fn serialize(&self) -> (buf: Vec<u8>)
        ensures
            buf@ == self.encoding(),
            buf@.len() == 8,
    {
        write_u64_le(self.nonce)
    }

    /// The content identifier.
    pub fn hash(&self) -> (h: Hash)
        ensures
            h@ == self.identifier(),
    {
        let bytes = self.serialize();
        Hash(sha256_digest(&bytes))
    }
}

/// Transactions with the same encoding have the same identifier, and the
/// encoding is fixed by the nonce.
pub proof fn lemma_identity_deterministic(a: Transaction, b: Transaction)
    ensures
        a.encoding() == b.encoding() ==> a.identifier() == b.identifier(),
        a.nonce == b.nonce ==> a.encoding() == b.encoding(),
{
}

} // verus!
