//! One ledger entry and its integrity hash: the entry's fields are encoded
//! losslessly, digested, and the hex digest is stored alongside the fields.

use vstd::prelude::*;

verus! {

/// One immutable record of the ledger: the genesis event or one cast vote,
/// hash-linked to its predecessor through `previous_hash`.
#[derive(Debug)]
pub struct Block {
    pub index: u64,
    pub timestamp: u128,
    pub voter_id: String,
    pub election_id: String,
    pub vote_option_id: String,
    pub previous_hash: String,
    pub hash: String,
}

/// The byte sequence that `encode_entry` produces for the given field values.
pub uninterp spec fn encoded_entry(
    index: u64,
    timestamp: u128,
    voter_id: Seq<char>,
    election_id: Seq<char>,
    vote_option_id: Seq<char>,
    previous_hash: Seq<char>,
) -> Seq<u8>;

/// The lower-case hex rendering of the SHA-256 digest of the given bytes.
pub uninterp spec fn sha256_hex(bytes: Seq<u8>) -> Seq<char>;

/// The content hash of an entry: the hex digest of the deterministic,
/// order-sensitive encoding of its fields.
pub open spec fn hash_of(
    index: u64,
    timestamp: u128,
    voter_id: Seq<char>,
    election_id: Seq<char>,
    vote_option_id: Seq<char>,
    previous_hash: Seq<char>,
) -> Seq<char> {
    sha256_hex(encoded_entry(index, timestamp, voter_id, election_id, vote_option_id, previous_hash))
}

/// Relies on bincode::serialize: a fixed-int, length-prefixed encoding whose
/// bytes depend on the field values alone; serializing integers and string
/// slices into a fresh vector never fails. The encoding is lossless and
/// unambiguous — integers have fixed widths and each string carries its byte
/// length — so the bytes can be parsed back to the fields, and two distinct
/// field tuples never encode to the same bytes.
#[verifier::external_body]
fn encode_entry(
    index: u64,
    timestamp: u128,
    voter_id: &str,
    election_id: &str,
    vote_option_id: &str,
    previous_hash: &str,
) -> (r: Vec<u8>)
    ensures
        r@ == encoded_entry(index, timestamp, voter_id@, election_id@, vote_option_id@, previous_hash@),
        forall|i2: u64, t2: u128, v2: Seq<char>, e2: Seq<char>, o2: Seq<char>, p2: Seq<char>|
            (#[trigger] encoded_entry(i2, t2, v2, e2, o2, p2)) == r@ ==> i2 == index && t2
                == timestamp && v2 == voter_id@ && e2 == election_id@ && o2 == vote_option_id@
                && p2 == previous_hash@,
{
    let data = (index, timestamp, voter_id, election_id, vote_option_id, previous_hash);
    bincode::serialize(&data).unwrap()
}

/// Relies on sha2::Sha256: the digest is a function of the input bytes alone,
/// rendered here as lower-case hex.
#[verifier::external_body]
fn sha256_hex_digest(bytes: &Vec<u8>) -> (r: String)
    ensures
        r@ == sha256_hex(bytes@),
{
    let mut hasher = <sha2::Sha256 as sha2::Digest>::new();
    sha2::Digest::update(&mut hasher, bytes);
    format!("{:x}", sha2::Digest::finalize(hasher))
}

/// The deterministic content hash over an entry's fields: equal fields always
/// reproduce the equal hash.
pub fn calculate_hash(
    index: u64,
    timestamp: u128,
    voter_id: &str,
    election_id: &str,
    vote_option_id: &str,
    previous_hash: &str,
) -> (r: String)
    ensures
        r@ == hash_of(index, timestamp, voter_id@, election_id@, vote_option_id@, previous_hash@),
{
    let encoded = encode_entry(index, timestamp, voter_id, election_id, vote_option_id, previous_hash);
    sha256_hex_digest(&encoded)
}

/// Relies on std::time::SystemTime: milliseconds of wall-clock time since the
/// epoch. The value depends on the clock, so nothing is promised of it; a
/// clock before the epoch yields 0.
#[verifier::external_body]
pub fn current_timestamp() -> u128 {
    std::time::SystemTime::now()
        .duration_since(std::time::UNIX_EPOCH)
        .map_or(0, |d| d.as_millis())
}

impl Block {
    /// The stored hash is the content hash of the stored fields.
    pub open spec fn hash_consistent(self) -> bool {
        self.hash@ == hash_of(
            self.index,
            self.timestamp,
            self.voter_id@,
            self.election_id@,
            self.vote_option_id@,
            self.previous_hash@,
        )
    }

    /// Constructs the entry: captures the current wall-clock time and computes
    /// the content hash of the stored fields. Never fails; validating the
    /// identity fields is the caller's responsibility.
    pub fn new(
        index: u64,
        voter_id: String,
        election_id: String,
        vote_option_id: String,
        previous_hash: String,
    ) -> (r: Block)
        ensures
            r.index == index,
            r.voter_id == voter_id,
            r.election_id == election_id,
            r.vote_option_id == vote_option_id,
            r.previous_hash == previous_hash,
            r.hash_consistent(),
    {
        let timestamp = current_timestamp();
        let hash = calculate_hash(
            index,
            timestamp,
            voter_id.as_str(),
            election_id.as_str(),
            vote_option_id.as_str(),
            previous_hash.as_str(),
        );
        Block { index, timestamp, voter_id, election_id, vote_option_id, previous_hash, hash }
    }

    /// Recomputes the content hash from the stored fields and compares it with
    /// the stored one: true exactly when the entry is uncorrupted.
    pub fn verify_hash(&self) -> (r: bool)
        ensures
            r == self.hash_consistent(),
    {
        let recomputed = calculate_hash(
            self.index,
            self.timestamp,
            self.voter_id.as_str(),
            self.election_id.as_str(),
            self.vote_option_id.as_str(),
            self.previous_hash.as_str(),
        );
        str_eq(recomputed.as_str(), self.hash.as_str())
    }
}

/// Relies on str's PartialEq: string slices compare equal exactly when their
/// characters do.
#[verifier::external_body]
pub(crate) fn str_eq(a: &str, b: &str) -> (r: bool)
    ensures
        r == (a@ == b@),
{
    a == b
}

} // verus!
