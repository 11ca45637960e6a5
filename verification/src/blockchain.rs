//! The ledger and election store: the append-only entry sequence, the derived
//! indices, and the operations that mutate or read them while preserving the
//! chain and election invariants.

use vstd::prelude::*;

use crate::block::{hash_of, str_eq, Block};

verus! {

/// Rejection of a duplicate election.
#[derive(Debug, Clone, Copy, PartialEq, Eq, Structural)]
pub enum CreateElectionError {
    ElectionAlreadyExists,
}

/// Rejection of a vote, in the order the preconditions are checked.
#[derive(Debug, Clone, Copy, PartialEq, Eq, Structural)]
pub enum VoteError {
    ElectionNotFound,
    InvalidOption,
    AlreadyVoted,
}

impl CreateElectionError {
    /// The description the serving layer reports for this rejection.
    pub fn message(&self) -> (r: &'static str)
        ensures
            r@ == "Election already exists"@,
    {
        "Election already exists"
    }
}

impl VoteError {
    /// The description the serving layer reports for this rejection.
    pub fn message(&self) -> (r: &'static str)
        ensures
            *self == VoteError::ElectionNotFound ==> r@ == "Election does not exist"@,
            *self == VoteError::InvalidOption ==> r@
                == "Vote option does not exist in this election"@,
            *self == VoteError::AlreadyVoted ==> r@
                == "Voter has already voted in this election"@,
    {
        match self {
            VoteError::ElectionNotFound => "Election does not exist",
            VoteError::InvalidOption => "Vote option does not exist in this election",
            VoteError::AlreadyVoted => "Voter has already voted in this election",
        }
    }
}

/// One election record: its identifier and the permitted vote options,
/// immutable after creation.
#[derive(Debug)]
pub struct Election {
    pub id: String,
    pub options: Vec<String>,
}

/// The single authority over the ledger: the entry chain and the derived
/// indices (elections with their options, who voted where, who created what).
#[derive(Debug)]
pub struct Blockchain {
    pub chain: Vec<Block>,
    pub elections: Vec<Election>,
    pub voters: Vec<(String, String)>,
    pub creators: Vec<(String, String)>,
}

/// Membership of the character sequence `o` among the strings of `s`.
pub open spec fn has_string(s: Seq<String>, o: Seq<char>) -> bool {
    exists|j: int| 0 <= j < s.len() && (#[trigger] s[j]@) == o
}

/// The views of a sequence of strings.
pub open spec fn string_views(s: Seq<String>) -> Seq<Seq<char>> {
    s.map_values(|x: String| x@)
}

/// The views of a sequence of string pairs.
pub open spec fn pair_views(s: Seq<(String, String)>) -> Seq<(Seq<char>, Seq<char>)> {
    s.map_values(|p: (String, String)| (p.0@, p.1@))
}

/// One (election, option) pair per entry of `chain` cast by voter `v`, in
/// chain order.
pub open spec fn user_votes(chain: Seq<Block>, v: Seq<char>) -> Seq<(Seq<char>, Seq<char>)>
    decreases chain.len(),
{
    if chain.len() == 0 {
        Seq::empty()
    } else {
        let init = user_votes(chain.drop_last(), v);
        if chain.last().voter_id@ == v {
            init.push((chain.last().election_id@, chain.last().vote_option_id@))
        } else {
            init
        }
    }
}

/// One (election, option) pair per entry of `chain` belonging to election `e`,
/// in chain order.
pub open spec fn election_votes(chain: Seq<Block>, e: Seq<char>) -> Seq<(Seq<char>, Seq<char>)>
    decreases chain.len(),
{
    if chain.len() == 0 {
        Seq::empty()
    } else {
        let init = election_votes(chain.drop_last(), e);
        if chain.last().election_id@ == e {
            init.push((chain.last().election_id@, chain.last().vote_option_id@))
        } else {
            init
        }
    }
}

/// The elections attributed to creator `c`, in recording order.
pub open spec fn created_elections(creators: Seq<(String, String)>, c: Seq<char>) -> Seq<Seq<char>>
    decreases creators.len(),
{
    if creators.len() == 0 {
        Seq::empty()
    } else {
        let init = created_elections(creators.drop_last(), c);
        if creators.last().0@ == c {
            init.push(creators.last().1@)
        } else {
            init
        }
    }
}

/// The number of pairs of `votes` whose option component is `o`.
pub open spec fn count_matches(votes: Seq<(Seq<char>, Seq<char>)>, o: Seq<char>) -> nat
    decreases votes.len(),
{
    if votes.len() == 0 {
        0
    } else {
        count_matches(votes.drop_last(), o) + (if votes.last().1 == o {
            1nat
        } else {
            0nat
        })
    }
}

/// The number of vote entries of `chain` (the genesis entry at position 0
/// aside) cast by voter `v` in election `e`.
pub open spec fn pair_entry_count(chain: Seq<Block>, e: Seq<char>, v: Seq<char>) -> nat
    decreases chain.len(),
{
    if chain.len() <= 1 {
        0
    } else {
        pair_entry_count(chain.drop_last(), e, v) + (if chain.last().election_id@ == e
            && chain.last().voter_id@ == v {
            1nat
        } else {
            0nat
        })
    }
}

/// The genesis entry: position 0, empty identity fields, sentinel predecessor.
pub open spec fn is_genesis(b: Block) -> bool {
    &&& b.index == 0
    &&& b.voter_id@ == Seq::<char>::empty()
    &&& b.election_id@ == Seq::<char>::empty()
    &&& b.vote_option_id@ == Seq::<char>::empty()
    &&& b.previous_hash@ == "0"@
}

impl Blockchain {
    /// An election record for `e` exists.
    pub open spec fn has_election(self, e: Seq<char>) -> bool {
        exists|i: int| 0 <= i < self.elections@.len() && self.elections@[i].id@ == e
    }

    /// Option `o` is permitted in election `e`.
    pub open spec fn allows_option(self, e: Seq<char>, o: Seq<char>) -> bool {
        exists|i: int, j: int|
            0 <= i < self.elections@.len() && self.elections@[i].id@ == e && 0 <= j
                < self.elections@[i].options@.len() && self.elections@[i].options@[j]@ == o
    }

    /// Voter `v` is recorded as having voted in election `e`.
    pub open spec fn has_voted(self, e: Seq<char>, v: Seq<char>) -> bool {
        exists|i: int| 0 <= i < self.voters@.len() && self.voters@[i].0@ == e && self.voters@[i].1@
            == v
    }

    /// Creator `c` is recorded as having created election `e`.
    pub open spec fn created_by(self, c: Seq<char>, e: Seq<char>) -> bool {
        exists|i: int| 0 <= i < self.creators@.len() && self.creators@[i].0@ == c
            && self.creators@[i].1@ == e
    }

    /// The voter-participation pair at position `j` is witnessed by a vote
    /// entry of the chain.
    pub open spec fn pair_recorded(self, j: int) -> bool {
        exists|i: int|
            1 <= i < self.chain@.len() && self.chain@[i].election_id@ == self.voters@[j].0@
                && self.chain@[i].voter_id@ == self.voters@[j].1@
    }

    /// The chain-only part of well-formedness: the genesis entry leads a
    /// sequentially numbered, hash-linked sequence.
    pub open spec fn chain_linked(self) -> bool {
        &&& self.chain@.len() >= 1
        &&& is_genesis(self.chain@[0])
        &&& forall|i: int| 0 <= i < self.chain@.len() ==> (#[trigger] self.chain@[i].index) == i
        &&& forall|i: int|
            1 <= i < self.chain@.len() ==> (#[trigger] self.chain@[i].previous_hash@)
                == self.chain@[i - 1].hash@
    }

    /// Well-formedness of the store: the chain starts at the genesis entry and
    /// is hash-linked and sequentially numbered; the voter-participation index
    /// records exactly the (election, voter) pairs of the vote entries, each at
    /// most once; election records are unique and their option sets duplicate
    /// free; and the creator index only names existing elections and attributes
    /// each to a creator at most once.
    pub open spec fn wf(self) -> bool {
        &&& self.chain_linked()
        &&& forall|i: int|
            1 <= i < self.chain@.len() ==> self.has_voted(
                (#[trigger] self.chain@[i]).election_id@,
                self.chain@[i].voter_id@,
            )
        &&& forall|j: int| 0 <= j < self.voters@.len() ==> #[trigger] self.pair_recorded(j)
        &&& forall|i: int, k: int|
            1 <= i < self.chain@.len() && 1 <= k < self.chain@.len() && i != k ==> !((
            #[trigger] self.chain@[i]).election_id@ == (#[trigger] self.chain@[k]).election_id@
                && self.chain@[i].voter_id@ == self.chain@[k].voter_id@)
        &&& forall|j: int, k: int|
            0 <= j < self.voters@.len() && 0 <= k < self.voters@.len() && j != k ==> !((
            #[trigger] self.voters@[j]).0@ == (#[trigger] self.voters@[k]).0@
                && self.voters@[j].1@ == self.voters@[k].1@)
        &&& forall|j: int, k: int|
            0 <= j < self.elections@.len() && 0 <= k < self.elections@.len() && j != k ==> (
            #[trigger] self.elections@[j]).id@ != (#[trigger] self.elections@[k]).id@
        &&& forall|i: int, j: int, k: int|
            0 <= i < self.elections@.len() && 0 <= j < (
            #[trigger] self.elections@[i]).options@.len() && 0 <= k
                < self.elections@[i].options@.len() && j != k ==> (
            #[trigger] self.elections@[i].options@[j]@) != (
            #[trigger] self.elections@[i].options@[k]@)
        &&& forall|j: int|
            0 <= j < self.creators@.len() ==> self.has_election(
                (#[trigger] self.creators@[j]).1@,
            )
        &&& forall|j: int, k: int|
            0 <= j < self.creators@.len() && 0 <= k < self.creators@.len() && j != k ==> !((
            #[trigger] self.creators@[j]).0@ == (#[trigger] self.creators@[k]).0@
                && self.creators@[j].1@ == self.creators@[k].1@)
    }

    /// Every entry's stored hash is the content hash of its stored fields.
    pub open spec fn hashes_consistent(self) -> bool {
        forall|i: int|
            0 <= i < self.chain@.len() ==> (#[trigger] self.chain@[i]).hash_consistent()
    }

    /// Creates the store: the genesis entry alone in the chain, all indices
    /// empty. Called exactly once per store instance.
    pub fn new() -> (r: Blockchain)
        ensures
            r.wf(),
            r.hashes_consistent(),
            r.chain@.len() == 1,
            is_genesis(r.chain@[0]),
            r.elections@.len() == 0,
            r.voters@.len() == 0,
            r.creators@.len() == 0,
    {
        let mut blockchain = Blockchain {
            chain: Vec::new(),
            voters: Vec::new(),
            elections: Vec::new(),
            creators: Vec::new(),
        };
        let genesis_block = Block::new(0, String::new(), String::new(), String::new(), "0".to_owned());
        blockchain.chain.push(genesis_block);
        blockchain
    }

    /// With unique election records, the options permitted for `e` are exactly
    /// the options stored in its record.
    proof fn lemma_option_lookup(self, pos: int, e: Seq<char>, o: Seq<char>)
        requires
            self.wf(),
            0 <= pos < self.elections@.len(),
            self.elections@[pos].id@ == e,
        ensures
            self.allows_option(e, o) <==> has_string(self.elections@[pos].options@, o),
    {
        if self.allows_option(e, o) {
            let (i, j) = choose|i: int, j: int|
                0 <= i < self.elections@.len() && self.elections@[i].id@ == e && 0 <= j
                    < self.elections@[i].options@.len() && self.elections@[i].options@[j]@ == o;
            assert(i == pos);
            assert(self.elections@[pos].options@[j]@ == o);
        }
        if has_string(self.elections@[pos].options@, o) {
            let j = choose|j: int|
                0 <= j < self.elections@[pos].options@.len()
                    && self.elections@[pos].options@[j]@ == o;
            assert(0 <= pos < self.elections@.len() && self.elections@[pos].id@ == e && 0 <= j
                < self.elections@[pos].options@.len() && self.elections@[pos].options@[j]@ == o);
        }
    }

    /// Whether `voter_id` is recorded as having voted in `election_id`.
    fn voter_recorded(&self, election_id: &str, voter_id: &str) -> (r: bool)
        ensures
            r == self.has_voted(election_id@, voter_id@),
    {
        let n = self.voters.len();
        for i in 0..n
            invariant
                n == self.voters@.len(),
                forall|j: int|
                    0 <= j < i ==> !((#[trigger] self.voters@[j]).0@ == election_id@
                        && self.voters@[j].1@ == voter_id@),
        {
            if str_eq(self.voters[i].0.as_str(), election_id) && str_eq(
                self.voters[i].1.as_str(),
                voter_id,
            ) {
                return true;
            }
        }
        false
    }

    /// Position of the election record for `election_id`, if one exists.
    fn election_pos(&self, election_id: &str) -> (r: Option<usize>)
        ensures
            match r {
                Some(i) => i < self.elections@.len() && self.elections@[i as int].id@
                    == election_id@,
                None => !self.has_election(election_id@),
            },
    {
        let n = self.elections.len();
        for i in 0..n
            invariant
                n == self.elections@.len(),
                forall|j: int| 0 <= j < i ==> (#[trigger] self.elections@[j].id@) != election_id@,
        {
            if str_eq(self.elections[i].id.as_str(), election_id) {
                return Some(i);
            }
        }
        None
    }

    /// Creates an election: rejected if a record for `election_id` already
    /// exists; otherwise records its (duplicate-free) option set and attributes
    /// it to `creator_id`. Never touches the entry chain.
    pub fn create_election(
        &mut self,
        election_id: String,
        vote_options: Vec<String>,
        creator_id: String,
    ) -> (r: Result<(), CreateElectionError>)
        requires
            old(self).wf(),
        ensures
            final(self).wf(),
            old(self).hashes_consistent() ==> final(self).hashes_consistent(),
            r is Ok <==> !old(self).has_election(election_id@),
            r is Err ==> r == Err::<(), CreateElectionError>(
                CreateElectionError::ElectionAlreadyExists,
            ),
            r is Err ==> *final(self) == *old(self),
            r is Ok ==> {
                &&& final(self).chain@ == old(self).chain@
                &&& final(self).voters@ == old(self).voters@
                &&& final(self).creators@ == old(self).creators@.push((creator_id, election_id))
                &&& final(self).has_election(election_id@)
                &&& forall|o: Seq<char>|
                    (#[trigger] final(self).allows_option(election_id@, o)) <==> has_string(
                        vote_options@,
                        o,
                    )
                &&& forall|e: Seq<char>|
                    e != election_id@ ==> (final(self).has_election(e) <==> old(
                        self,
                    ).has_election(e))
                &&& forall|e: Seq<char>, o: Seq<char>|
                    e != election_id@ ==> (final(self).allows_option(e, o) <==> old(
                        self,
                    ).allows_option(e, o))
                &&& forall|c: Seq<char>, e: Seq<char>|
                    final(self).created_by(c, e) <==> (old(self).created_by(c, e) || (c
                        == creator_id@ && e == election_id@))
            },
    {
        if self.election_pos(election_id.as_str()).is_some() {
            return Err(CreateElectionError::ElectionAlreadyExists);
        }
        let options = dedup_options(&vote_options);
        let ghost prev = *old(self);
        let ghost opts = options@;
        self.creators.push((creator_id, election_id.clone()));
        self.elections.push(Election { id: election_id, options });
        proof {
            let n = prev.elections@.len() as int;
            assert(self.elections@[n].id@ == election_id@);
            assert forall|o: Seq<char>|
                (#[trigger] self.allows_option(election_id@, o)) <==> has_string(
                    vote_options@,
                    o,
                ) by {
                if self.allows_option(election_id@, o) {
                    let (i, j) = choose|i: int, j: int|
                        0 <= i < self.elections@.len() && self.elections@[i].id@ == election_id@
                            && 0 <= j < self.elections@[i].options@.len()
                            && self.elections@[i].options@[j]@ == o;
                    assert(i == n);
                    assert(has_string(opts, o));
                }
                if has_string(vote_options@, o) {
                    assert(has_string(opts, o));
                    let j = choose|j: int| 0 <= j < opts.len() && opts[j]@ == o;
                    assert(self.elections@[n].options@[j]@ == o);
                }
            }
            assert forall|e: Seq<char>|
                e != election_id@ implies ((#[trigger] self.has_election(e)) <==> prev.has_election(
                e,
            )) by {
                if self.has_election(e) {
                    let i = choose|i: int|
                        0 <= i < self.elections@.len() && self.elections@[i].id@ == e;
                    assert(i < n && prev.elections@[i].id@ == e);
                }
                if prev.has_election(e) {
                    let i = choose|i: int|
                        0 <= i < prev.elections@.len() && prev.elections@[i].id@ == e;
                    assert(self.elections@[i].id@ == e);
                }
            }
            assert forall|e: Seq<char>, o: Seq<char>|
                e != election_id@ implies ((#[trigger] self.allows_option(e, o))
                    <==> prev.allows_option(e, o)) by {
                if self.allows_option(e, o) {
                    let (i, j) = choose|i: int, j: int|
                        0 <= i < self.elections@.len() && self.elections@[i].id@ == e && 0 <= j
                            < self.elections@[i].options@.len() && self.elections@[i].options@[j]@
                            == o;
                    assert(i < n && prev.elections@[i].id@ == e
                        && prev.elections@[i].options@[j]@ == o);
                }
                if prev.allows_option(e, o) {
                    let (i, j) = choose|i: int, j: int|
                        0 <= i < prev.elections@.len() && prev.elections@[i].id@ == e && 0 <= j
                            < prev.elections@[i].options@.len() && prev.elections@[i].options@[j]@
                            == o;
                    assert(self.elections@[i].id@ == e && self.elections@[i].options@[j]@ == o);
                }
            }
            let m = prev.creators@.len() as int;
            assert forall|c: Seq<char>, e: Seq<char>|
                (#[trigger] self.created_by(c, e)) <==> (prev.created_by(c, e) || (c == creator_id@
                    && e == election_id@)) by {
                if self.created_by(c, e) {
                    let i = choose|i: int|
                        0 <= i < self.creators@.len() && self.creators@[i].0@ == c
                            && self.creators@[i].1@ == e;
                    if i < m {
                        assert(prev.creators@[i].0@ == c && prev.creators@[i].1@ == e);
                    }
                }
                if prev.created_by(c, e) {
                    let i = choose|i: int|
                        0 <= i < prev.creators@.len() && prev.creators@[i].0@ == c
                            && prev.creators@[i].1@ == e;
                    assert(self.creators@[i].0@ == c && self.creators@[i].1@ == e);
                }
                if c == creator_id@ && e == election_id@ {
                    assert(self.creators@[m].0@ == c && self.creators@[m].1@ == e);
                }
            }
            assert forall|j: int|
                0 <= j < self.creators@.len() implies self.has_election(
                (#[trigger] self.creators@[j]).1@,
            ) by {
                if j < m {
                    let i = choose|i: int|
                        0 <= i < prev.elections@.len() && prev.elections@[i].id@
                            == prev.creators@[j].1@;
                    assert(self.elections@[i].id@ == self.creators@[j].1@);
                } else {
                    assert(self.elections@[n].id@ == self.creators@[j].1@);
                }
            }
            assert forall|j: int, k: int|
                0 <= j < self.creators@.len() && 0 <= k < self.creators@.len() && j != k implies !((
            #[trigger] self.creators@[j]).0@ == (#[trigger] self.creators@[k]).0@
                && self.creators@[j].1@ == self.creators@[k].1@) by {
                if k == m && j < m && self.creators@[j].1@ == self.creators@[k].1@ {
                    assert(prev.creators@[j].1@ == election_id@);
                    assert(prev.has_election(prev.creators@[j].1@));
                    assert(prev.has_election(election_id@));
                }
                if j == m && k < m && self.creators@[j].1@ == self.creators@[k].1@ {
                    assert(prev.creators@[k].1@ == election_id@);
                    assert(prev.has_election(prev.creators@[k].1@));
                    assert(prev.has_election(election_id@));
                }
            }
            assert forall|j: int| 0 <= j < self.voters@.len() implies self.pair_recorded(j) by {
                assert(prev.pair_recorded(j));
                let i = choose|i: int|
                    1 <= i < prev.chain@.len() && prev.chain@[i].election_id@ == prev.voters@[j].0@
                        && prev.chain@[i].voter_id@ == prev.voters@[j].1@;
                assert(1 <= i < self.chain@.len() && self.chain@[i].election_id@
                    == self.voters@[j].0@ && self.chain@[i].voter_id@ == self.voters@[j].1@);
            }
            assert forall|i: int|
                1 <= i < self.chain@.len() implies self.has_voted(
                (#[trigger] self.chain@[i]).election_id@,
                self.chain@[i].voter_id@,
            ) by {
                assert(prev.has_voted(prev.chain@[i].election_id@, prev.chain@[i].voter_id@));
                let k = choose|k: int|
                    0 <= k < prev.voters@.len() && prev.voters@[k].0@ == prev.chain@[i].election_id@
                        && prev.voters@[k].1@ == prev.chain@[i].voter_id@;
                assert(self.voters@[k].0@ == self.chain@[i].election_id@ && self.voters@[k].1@
                    == self.chain@[i].voter_id@);
            }
        }
        Ok(())
    }

    /// Casts one vote: after the ordered precondition checks (the election
    /// exists, the option is permitted, the voter has not voted there yet) a
    /// new entry referencing the current chain tip is appended and the voter
    /// recorded, atomically; a rejected vote leaves the store unchanged.
    #[verifier::rlimit(60)]
    pub fn add_vote_operation(
        &mut self,
        voter_id: String,
        election_id: String,
        vote_option_id: String,
    ) -> (r: Result<(), VoteError>)
        requires
            old(self).wf(),
        ensures
            final(self).wf(),
            old(self).hashes_consistent() ==> final(self).hashes_consistent(),
            (r == Err::<(), VoteError>(VoteError::ElectionNotFound)) <==> !old(self).has_election(
                election_id@,
            ),
            (r == Err::<(), VoteError>(VoteError::InvalidOption)) <==> (old(self).has_election(
                election_id@,
            ) && !old(self).allows_option(election_id@, vote_option_id@)),
            (r == Err::<(), VoteError>(VoteError::AlreadyVoted)) <==> (old(self).has_election(
                election_id@,
            ) && old(self).allows_option(election_id@, vote_option_id@) && old(self).has_voted(
                election_id@,
                voter_id@,
            )),
            r is Ok <==> (old(self).has_election(election_id@) && old(self).allows_option(
                election_id@,
                vote_option_id@,
            ) && !old(self).has_voted(election_id@, voter_id@)),
            r is Err ==> *final(self) == *old(self),
            r is Ok ==> {
                &&& final(self).chain@.len() == old(self).chain@.len() + 1
                &&& final(self).chain@.subrange(0, old(self).chain@.len() as int) == old(
                    self,
                ).chain@
                &&& final(self).chain@.last().index == old(self).chain@.len()
                &&& final(self).chain@.last().voter_id@ == voter_id@
                &&& final(self).chain@.last().election_id@ == election_id@
                &&& final(self).chain@.last().vote_option_id@ == vote_option_id@
                &&& final(self).chain@.last().previous_hash@ == old(self).chain@.last().hash@
                &&& final(self).chain@.last().hash_consistent()
                &&& final(self).voters@ == old(self).voters@.push((election_id, voter_id))
                &&& final(self).elections@ == old(self).elections@
                &&& final(self).creators@ == old(self).creators@
                &&& pair_entry_count(final(self).chain@, election_id@, voter_id@)
                    == pair_entry_count(old(self).chain@, election_id@, voter_id@) + 1
                &&& forall|e: Seq<char>, v: Seq<char>|
                    (#[trigger] final(self).has_voted(e, v)) <==> (old(self).has_voted(e, v) || (e
                        == election_id@ && v == voter_id@))
            },
            forall|e: Seq<char>|
                (#[trigger] final(self).has_election(e)) <==> old(self).has_election(e),
            forall|e: Seq<char>, o: Seq<char>|
                (#[trigger] final(self).allows_option(e, o)) <==> old(self).allows_option(e, o),
    {
        let pos = match self.election_pos(election_id.as_str()) {
            Some(i) => i,
            None => {
                return Err(VoteError::ElectionNotFound);
            },
        };
        proof {
            self.lemma_option_lookup(pos as int, election_id@, vote_option_id@);
        }
        if !contains_str(&self.elections[pos].options, vote_option_id.as_str()) {
            return Err(VoteError::InvalidOption);
        }
        if self.voter_recorded(election_id.as_str(), voter_id.as_str()) {
            return Err(VoteError::AlreadyVoted);
        }
        let ghost prev = *old(self);
        let last_index = self.chain[self.chain.len() - 1].index;
        let last_hash = self.chain[self.chain.len() - 1].hash.clone();
        let new_block = Block::new(
            last_index + 1,
            voter_id.clone(),
            election_id.clone(),
            vote_option_id,
            last_hash,
        );
        self.chain.push(new_block);
        self.voters.push((election_id, voter_id));
        proof {
            let n = prev.chain@.len() as int;
            let m = prev.voters@.len() as int;
            assert(self.chain@.subrange(0, n) =~= prev.chain@);
            assert(self.chain@.last().index == n);
            assert(self.chain@.drop_last() =~= prev.chain@);
            assert(pair_entry_count(self.chain@, election_id@, voter_id@) == pair_entry_count(
                prev.chain@,
                election_id@,
                voter_id@,
            ) + 1);
            assert forall|i: int|
                1 <= i < self.chain@.len() implies self.has_voted(
                (#[trigger] self.chain@[i]).election_id@,
                self.chain@[i].voter_id@,
            ) by {
                if i < n {
                    assert(prev.has_voted(prev.chain@[i].election_id@, prev.chain@[i].voter_id@));
                    let k = choose|k: int|
                        0 <= k < prev.voters@.len() && prev.voters@[k].0@
                            == prev.chain@[i].election_id@ && prev.voters@[k].1@
                            == prev.chain@[i].voter_id@;
                    assert(self.voters@[k].0@ == self.chain@[i].election_id@ && self.voters@[k].1@
                        == self.chain@[i].voter_id@);
                } else {
                    assert(self.voters@[m].0@ == self.chain@[i].election_id@ && self.voters@[m].1@
                        == self.chain@[i].voter_id@);
                }
            }
            assert forall|j: int| 0 <= j < self.voters@.len() implies self.pair_recorded(j) by {
                if j < m {
                    assert(prev.pair_recorded(j));
                    let i = choose|i: int|
                        1 <= i < prev.chain@.len() && prev.chain@[i].election_id@
                            == prev.voters@[j].0@ && prev.chain@[i].voter_id@
                            == prev.voters@[j].1@;
                    assert(1 <= i < self.chain@.len() && self.chain@[i].election_id@
                        == self.voters@[j].0@ && self.chain@[i].voter_id@ == self.voters@[j].1@);
                } else {
                    assert(1 <= n < self.chain@.len() && self.chain@[n].election_id@
                        == self.voters@[j].0@ && self.chain@[n].voter_id@ == self.voters@[j].1@);
                }
            }
            assert forall|i: int, k: int|
                1 <= i < self.chain@.len() && 1 <= k < self.chain@.len() && i != k implies !((
            #[trigger] self.chain@[i]).election_id@ == (#[trigger] self.chain@[k]).election_id@
                && self.chain@[i].voter_id@ == self.chain@[k].voter_id@) by {
                if k == n && i < n && self.chain@[i].election_id@ == self.chain@[k].election_id@
                    && self.chain@[i].voter_id@ == self.chain@[k].voter_id@ {
                    assert(prev.has_voted(prev.chain@[i].election_id@, prev.chain@[i].voter_id@));
                    assert(prev.has_voted(election_id@, voter_id@));
                }
                if i == n && k < n && self.chain@[i].election_id@ == self.chain@[k].election_id@
                    && self.chain@[i].voter_id@ == self.chain@[k].voter_id@ {
                    assert(prev.has_voted(prev.chain@[k].election_id@, prev.chain@[k].voter_id@));
                    assert(prev.has_voted(election_id@, voter_id@));
                }
            }
            assert forall|j: int, k: int|
                0 <= j < self.voters@.len() && 0 <= k < self.voters@.len() && j != k implies !((
            #[trigger] self.voters@[j]).0@ == (#[trigger] self.voters@[k]).0@
                && self.voters@[j].1@ == self.voters@[k].1@) by {
                if k == m && j < m && self.voters@[j].0@ == self.voters@[k].0@
                    && self.voters@[j].1@ == self.voters@[k].1@ {
                    assert(prev.voters@[j].0@ == election_id@ && prev.voters@[j].1@ == voter_id@);
                    assert(prev.has_voted(election_id@, voter_id@));
                }
                if j == m && k < m && self.voters@[j].0@ == self.voters@[k].0@
                    && self.voters@[j].1@ == self.voters@[k].1@ {
                    assert(prev.voters@[k].0@ == election_id@ && prev.voters@[k].1@ == voter_id@);
                    assert(prev.has_voted(election_id@, voter_id@));
                }
            }
            assert forall|e: Seq<char>, v: Seq<char>|
                (#[trigger] self.has_voted(e, v)) <==> (prev.has_voted(e, v) || (e == election_id@
                    && v == voter_id@)) by {
                if self.has_voted(e, v) {
                    let k = choose|k: int|
                        0 <= k < self.voters@.len() && self.voters@[k].0@ == e
                            && self.voters@[k].1@ == v;
                    if k < m {
                        assert(prev.voters@[k].0@ == e && prev.voters@[k].1@ == v);
                    }
                }
                if prev.has_voted(e, v) {
                    let k = choose|k: int|
                        0 <= k < prev.voters@.len() && prev.voters@[k].0@ == e
                            && prev.voters@[k].1@ == v;
                    assert(self.voters@[k].0@ == e && self.voters@[k].1@ == v);
                }
                if e == election_id@ && v == voter_id@ {
                    assert(self.voters@[m].0@ == e && self.voters@[m].1@ == v);
                }
            }
            assert(self.chain@.len() >= 1);
            assert(self.chain@[0] == prev.chain@[0]);
            assert(is_genesis(self.chain@[0]));
            assert forall|i: int|
                0 <= i < self.chain@.len() implies (#[trigger] self.chain@[i].index) == i by {
                if i < n {
                    assert(self.chain@[i] == prev.chain@[i]);
                }
            }
            assert forall|i: int|
                1 <= i < self.chain@.len() implies (#[trigger] self.chain@[i].previous_hash@)
                    == self.chain@[i - 1].hash@ by {
                if i < n {
                    assert(self.chain@[i] == prev.chain@[i]);
                    assert(self.chain@[i - 1] == prev.chain@[i - 1]);
                } else {
                    assert(self.chain@[i - 1] == prev.chain@[i - 1]);
                }
            }
            assert forall|j: int, k: int|
                0 <= j < self.elections@.len() && 0 <= k < self.elections@.len() && j != k implies (
            #[trigger] self.elections@[j]).id@ != (#[trigger] self.elections@[k]).id@ by {}
            assert forall|j: int|
                0 <= j < self.creators@.len() implies self.has_election(
                (#[trigger] self.creators@[j]).1@,
            ) by {
                assert(prev.has_election(prev.creators@[j].1@));
                let i = choose|i: int|
                    0 <= i < prev.elections@.len() && prev.elections@[i].id@
                        == prev.creators@[j].1@;
                assert(self.elections@[i].id@ == self.creators@[j].1@);
            }
            assert(self.wf());
            assert(prev.hashes_consistent() ==> self.hashes_consistent()) by {
                if prev.hashes_consistent() {
                    assert forall|i: int|
                        0 <= i < self.chain@.len() implies (
                    #[trigger] self.chain@[i]).hash_consistent() by {
                        if i < n {
                            assert(prev.chain@[i].hash_consistent());
                        }
                    }
                }
            }
        }
        Ok(())
    }

    /// Scans the chain from the most recent entry to the oldest and returns
    /// the (election, option) pair of the first entry cast by `voter_id` in
    /// `election_id`, if any. In a well-formed store at most one entry can
    /// match, so "most recent" and "only" coincide.
    pub fn get_votes_by_user(&self, voter_id: &str, election_id: &str) -> (r: Option<
        (String, String),
    >)
        ensures
            match r {
                Some(p) => exists|i: int|
                    0 <= i < self.chain@.len() && (#[trigger] self.chain@[i]).voter_id@ == voter_id@
                        && self.chain@[i].election_id@ == election_id@ && p.0@
                        == self.chain@[i].election_id@ && p.1@ == self.chain@[i].vote_option_id@
                        && (forall|j: int|
                        i < j < self.chain@.len() ==> !((#[trigger] self.chain@[j]).voter_id@
                            == voter_id@ && self.chain@[j].election_id@ == election_id@)),
                None => forall|i: int|
                    0 <= i < self.chain@.len() ==> !((#[trigger] self.chain@[i]).voter_id@
                        == voter_id@ && self.chain@[i].election_id@ == election_id@),
            },
    {
        let mut i = self.chain.len();
        while i > 0
            invariant
                i <= self.chain@.len(),
                forall|j: int|
                    i <= j < self.chain@.len() ==> !((#[trigger] self.chain@[j]).voter_id@
                        == voter_id@ && self.chain@[j].election_id@ == election_id@),
            decreases i,
        {
            i = i - 1;
            let b = &self.chain[i];
            if str_eq(b.voter_id.as_str(), voter_id) && str_eq(
                b.election_id.as_str(),
                election_id,
            ) {
                return Some((b.election_id.clone(), b.vote_option_id.clone()));
            }
        }
        None
    }

    /// All (election, option) pairs of entries cast by `voter_id`, in chain
    /// order. The genesis entry is never reported, by explicit policy: its
    /// identity fields are empty, and an empty query string must not surface
    /// it as a vote.
    pub fn get_elections_by_user(&self, voter_id: &str) -> (r: Vec<(String, String)>)
        ensures
            self.chain@.len() == 0 ==> r@.len() == 0,
            self.chain@.len() >= 1 ==> pair_views(r@) == user_votes(
                self.chain@.subrange(1, self.chain@.len() as int),
                voter_id@,
            ),
    {
        let mut out: Vec<(String, String)> = Vec::new();
        let n = self.chain.len();
        if n == 0 {
            return out;
        }
        for i in 1..n
            invariant
                n == self.chain@.len(),
                1 <= i <= n,
                pair_views(out@) == user_votes(self.chain@.subrange(1, i as int), voter_id@),
        {
            let ghost prev = out@;
            let b = &self.chain[i];
            if str_eq(b.voter_id.as_str(), voter_id) {
                out.push((b.election_id.clone(), b.vote_option_id.clone()));
            }
            proof {
                let s1 = self.chain@.subrange(1, i + 1);
                assert(s1.drop_last() =~= self.chain@.subrange(1, i as int));
                assert(s1.last() == self.chain@[i as int]);
                if self.chain@[i as int].voter_id@ == voter_id@ {
                    assert(pair_views(out@) =~= pair_views(prev).push(
                        (self.chain@[i as int].election_id@, self.chain@[i as int].vote_option_id@),
                    ));
                } else {
                    assert(pair_views(out@) == pair_views(prev));
                }
            }
        }
        out
    }

    /// The elections recorded as created by `creator_id`, in recording order;
    /// empty if the creator has none.
    pub fn get_elections_created_by_user(&self, creator_id: &str) -> (r: Vec<String>)
        ensures
            string_views(r@) == created_elections(self.creators@, creator_id@),
    {
        let mut out: Vec<String> = Vec::new();
        let n = self.creators.len();
        for i in 0..n
            invariant
                n == self.creators@.len(),
                string_views(out@) == created_elections(
                    self.creators@.subrange(0, i as int),
                    creator_id@,
                ),
        {
            let ghost prev = out@;
            if str_eq(self.creators[i].0.as_str(), creator_id) {
                out.push(self.creators[i].1.clone());
            }
            proof {
                let s1 = self.creators@.subrange(0, i + 1);
                assert(s1.drop_last() =~= self.creators@.subrange(0, i as int));
                assert(s1.last() == self.creators@[i as int]);
                if self.creators@[i as int].0@ == creator_id@ {
                    assert(string_views(out@) =~= string_views(prev).push(
                        self.creators@[i as int].1@,
                    ));
                } else {
                    assert(string_views(out@) == string_views(prev));
                }
            }
        }
        proof {
            assert(self.creators@.subrange(0, n as int) =~= self.creators@);
        }
        out
    }

    /// All (election, option) pairs of entries belonging to `election_id`, in
    /// chain order: the raw material of a tally, one pair per cast vote.
    pub fn get_results_election(&self, election_id: &str) -> (r: Vec<(String, String)>)
        ensures
            pair_views(r@) == election_votes(self.chain@, election_id@),
    {
        let mut out: Vec<(String, String)> = Vec::new();
        let n = self.chain.len();
        for i in 0..n
            invariant
                n == self.chain@.len(),
                pair_views(out@) == election_votes(self.chain@.subrange(0, i as int), election_id@),
        {
            let ghost prev = out@;
            let b = &self.chain[i];
            if str_eq(b.election_id.as_str(), election_id) {
                out.push((b.election_id.clone(), b.vote_option_id.clone()));
            }
            proof {
                let s1 = self.chain@.subrange(0, i + 1);
                assert(s1.drop_last() =~= self.chain@.subrange(0, i as int));
                assert(s1.last() == self.chain@[i as int]);
                if self.chain@[i as int].election_id@ == election_id@ {
                    assert(pair_views(out@) =~= pair_views(prev).push(
                        (self.chain@[i as int].election_id@, self.chain@[i as int].vote_option_id@),
                    ));
                } else {
                    assert(pair_views(out@) == pair_views(prev));
                }
            }
        }
        proof {
            assert(self.chain@.subrange(0, n as int) =~= self.chain@);
        }
        out
    }

    /// The permitted options of `election_id`, if such an election exists.
    pub fn get_election_options<'a>(&'a self, election_id: &str) -> (r: Option<&'a Vec<String>>)
        ensures
            r is Some <==> self.has_election(election_id@),
            match r {
                Some(v) => exists|i: int|
                    0 <= i < self.elections@.len() && (#[trigger] self.elections@[i]).id@
                        == election_id@ && v@ == self.elections@[i].options@,
                None => true,
            },
    {
        match self.election_pos(election_id) {
            Some(i) => Some(&self.elections[i].options),
            None => None,
        }
    }

    /// Walks the whole chain, recomputing every entry's content hash and
    /// checking every link, sequence number and the genesis shape: true
    /// exactly when the ledger is well linked and hash consistent.
    pub fn is_chain_valid(&self) -> (r: bool)
        ensures
            r == (self.chain_linked() && self.hashes_consistent()),
    {
        let n = self.chain.len();
        if n == 0 {
            return false;
        }
        let g = &self.chain[0];
        if g.index != 0 || !g.voter_id.as_str().is_empty() || !g.election_id.as_str().is_empty()
            || !g.vote_option_id.as_str().is_empty() || !str_eq(g.previous_hash.as_str(), "0") {
            proof {
                if g.voter_id@.len() == 0 {
                    assert(g.voter_id@ =~= Seq::<char>::empty());
                }
                if g.election_id@.len() == 0 {
                    assert(g.election_id@ =~= Seq::<char>::empty());
                }
                if g.vote_option_id@.len() == 0 {
                    assert(g.vote_option_id@ =~= Seq::<char>::empty());
                }
            }
            return false;
        }
        proof {
            assert(g.voter_id@ =~= Seq::<char>::empty());
            assert(g.election_id@ =~= Seq::<char>::empty());
            assert(g.vote_option_id@ =~= Seq::<char>::empty());
        }
        for i in 0..n
            invariant
                n == self.chain@.len(),
                n >= 1,
                is_genesis(self.chain@[0]),
                forall|j: int| 0 <= j < i ==> (#[trigger] self.chain@[j].index) == j,
                forall|j: int|
                    1 <= j < i ==> (#[trigger] self.chain@[j].previous_hash@)
                        == self.chain@[j - 1].hash@,
                forall|j: int| 0 <= j < i ==> (#[trigger] self.chain@[j]).hash_consistent(),
        {
            let b = &self.chain[i];
            if b.index != (i as u64) {
                return false;
            }
            if !b.verify_hash() {
                return false;
            }
            if i > 0 && !str_eq(b.previous_hash.as_str(), self.chain[i - 1].hash.as_str()) {
                return false;
            }
        }
        true
    }
}

/// The per-option tally of the pairs that `get_results_election` returns: one
/// row per permitted option, in the order the options are stored, counting the
/// votes cast for it (zero for options nobody chose).
pub fn count_votes(options: &Vec<String>, votes: &Vec<(String, String)>) -> (r: Vec<
    (String, usize),
>)
    ensures
        r@.len() == options@.len(),
        forall|i: int|
            0 <= i < r@.len() ==> (#[trigger] r@[i]).0 == options@[i] && r@[i].1 == count_matches(
                pair_views(votes@),
                options@[i]@,
            ),
{
    let mut r: Vec<(String, usize)> = Vec::new();
    let n = options.len();
    let m = votes.len();
    for i in 0..n
        invariant
            n == options@.len(),
            m == votes@.len(),
            r@.len() == i,
            forall|k: int|
                0 <= k < i ==> (#[trigger] r@[k]).0 == options@[k] && r@[k].1 == count_matches(
                    pair_views(votes@),
                    options@[k]@,
                ),
    {
        let mut count: usize = 0;
        for j in 0..m
            invariant
                n == options@.len(),
                i < n,
                m == votes@.len(),
                count <= j,
                count == count_matches(pair_views(votes@.subrange(0, j as int)), options@[i as int]@),
        {
            let ghost s0 = votes@.subrange(0, j as int);
            if str_eq(votes[j].1.as_str(), options[i].as_str()) {
                count = count + 1;
            }
            proof {
                let s1 = votes@.subrange(0, j + 1);
                assert(pair_views(s1).drop_last() =~= pair_views(s0));
                assert(pair_views(s1).last() == (votes@[j as int].0@, votes@[j as int].1@));
            }
        }
        proof {
            assert(votes@.subrange(0, m as int) =~= votes@);
        }
        r.push((options[i].clone(), count));
    }
    r
}

/// Chain integrity: in a well-formed store, every entry after the genesis
/// links to its predecessor's content hash and carries its position in the
/// chain as its sequence number.
pub proof fn lemma_chain_linked(st: Blockchain, i: int)
    requires
        st.wf(),
        1 <= i < st.chain@.len(),
    ensures
        st.chain@[i].previous_hash@ == st.chain@[i - 1].hash@,
        st.chain@[i].index == i,
{
}

/// Hash determinism: recomputing the content hash of any entry of a
/// hash-consistent store from its stored fields reproduces the stored value.
pub proof fn lemma_hash_reproducible(st: Blockchain, i: int)
    requires
        st.hashes_consistent(),
        0 <= i < st.chain@.len(),
    ensures
        st.chain@[i].hash@ == hash_of(
            st.chain@[i].index,
            st.chain@[i].timestamp,
            st.chain@[i].voter_id@,
            st.chain@[i].election_id@,
            st.chain@[i].vote_option_id@,
            st.chain@[i].previous_hash@,
        ),
{
}

/// One vote per voter per election: a well-formed store never holds two vote
/// entries for the same (voter, election) pair. Operations are serialized by
/// the store's exclusive lock, so of concurrent attempts by one voter for one
/// election at most one can have appended an entry.
pub proof fn lemma_one_vote_per_election(st: Blockchain, i: int, k: int)
    requires
        st.wf(),
        1 <= i < st.chain@.len(),
        1 <= k < st.chain@.len(),
        i != k,
    ensures
        !(st.chain@[i].voter_id@ == st.chain@[k].voter_id@ && st.chain@[i].election_id@
            == st.chain@[k].election_id@),
{
}

/// A chain without vote entries for (`e`, `v`) counts zero of them.
proof fn lemma_pair_entry_count_zero(chain: Seq<Block>, e: Seq<char>, v: Seq<char>)
    requires
        forall|i: int|
            1 <= i < chain.len() ==> !((#[trigger] chain[i]).election_id@ == e
                && chain[i].voter_id@ == v),
    ensures
        pair_entry_count(chain, e, v) == 0,
    decreases chain.len(),
{
    if chain.len() > 1 {
        let c0 = chain.drop_last();
        assert forall|i: int|
            1 <= i < c0.len() implies !((#[trigger] c0[i]).election_id@ == e && c0[i].voter_id@
                == v) by {
            assert(c0[i] == chain[i]);
        }
        lemma_pair_entry_count_zero(c0, e, v);
        assert(chain[chain.len() - 1] == chain.last());
    }
}

/// A chain whose vote entries carry pairwise-distinct (election, voter) pairs
/// counts at most one entry for any pair.
proof fn lemma_pair_entry_count_bound(chain: Seq<Block>, e: Seq<char>, v: Seq<char>)
    requires
        forall|i: int, k: int|
            1 <= i < chain.len() && 1 <= k < chain.len() && i != k ==> !((
            #[trigger] chain[i]).election_id@ == (#[trigger] chain[k]).election_id@
                && chain[i].voter_id@ == chain[k].voter_id@),
    ensures
        pair_entry_count(chain, e, v) <= 1,
    decreases chain.len(),
{
    if chain.len() > 1 {
        let c0 = chain.drop_last();
        assert forall|i: int, k: int|
            1 <= i < c0.len() && 1 <= k < c0.len() && i != k implies !((
        #[trigger] c0[i]).election_id@ == (#[trigger] c0[k]).election_id@ && c0[i].voter_id@
            == c0[k].voter_id@) by {
            assert(c0[i] == chain[i]);
            assert(c0[k] == chain[k]);
        }
        lemma_pair_entry_count_bound(c0, e, v);
        if chain.last().election_id@ == e && chain.last().voter_id@ == v {
            assert(chain[chain.len() - 1] == chain.last());
            assert forall|i: int|
                1 <= i < c0.len() implies !((#[trigger] c0[i]).election_id@ == e && c0[i].voter_id@
                    == v) by {
                assert(c0[i] == chain[i]);
                if chain[i].election_id@ == e && chain[i].voter_id@ == v {
                    assert(chain[i].election_id@ == chain[chain.len() - 1].election_id@
                        && chain[i].voter_id@ == chain[chain.len() - 1].voter_id@);
                }
            }
            lemma_pair_entry_count_zero(c0, e, v);
        }
    }
}

/// Exactly one success, counted: a well-formed ledger holds at most one vote
/// entry per (voter, election) pair, however many serialized attempts were
/// made. Each successful `add_vote_operation` raises this count by one and a
/// rejected one leaves the store unchanged, so no two attempts by one voter
/// for one election can both have succeeded.
pub proof fn lemma_at_most_one_entry_per_pair(st: Blockchain, e: Seq<char>, v: Seq<char>)
    requires
        st.wf(),
    ensures
        pair_entry_count(st.chain@, e, v) <= 1,
{
    lemma_pair_entry_count_bound(st.chain@, e, v);
}

/// Some pair of `creators` attributes election `x` to creator `c`.
spec fn attributes(creators: Seq<(String, String)>, c: Seq<char>, x: Seq<char>) -> bool {
    exists|i: int| 0 <= i < creators.len() && (#[trigger] creators[i]).0@ == c && creators[i].1@
        == x
}

/// Pairwise-distinct creator pairs list each of a creator's elections once:
/// every listed election comes from a recorded pair of that creator, and no
/// two positions of the listing coincide.
proof fn lemma_created_elections_distinct_rec(creators: Seq<(String, String)>, c: Seq<char>)
    requires
        forall|j: int, k: int|
            0 <= j < creators.len() && 0 <= k < creators.len() && j != k ==> !((
            #[trigger] creators[j]).0@ == (#[trigger] creators[k]).0@ && creators[j].1@
                == creators[k].1@),
    ensures
        forall|x: int|
            0 <= x < created_elections(creators, c).len() ==> #[trigger] attributes(
                creators,
                c,
                created_elections(creators, c)[x],
            ),
        forall|x: int, y: int|
            0 <= x < created_elections(creators, c).len() && 0 <= y < created_elections(
                creators,
                c,
            ).len() && x != y ==> (#[trigger] created_elections(creators, c)[x]) != (
            #[trigger] created_elections(creators, c)[y]),
    decreases creators.len(),
{
    if creators.len() > 0 {
        let c0 = creators.drop_last();
        let p = creators.last();
        let r0 = created_elections(c0, c);
        let r = created_elections(creators, c);
        assert forall|j: int, k: int|
            0 <= j < c0.len() && 0 <= k < c0.len() && j != k implies !((#[trigger] c0[j]).0@ == (
        #[trigger] c0[k]).0@ && c0[j].1@ == c0[k].1@) by {
            assert(c0[j] == creators[j]);
            assert(c0[k] == creators[k]);
        }
        lemma_created_elections_distinct_rec(c0, c);
        assert(creators[creators.len() - 1] == p);
        assert(r == (if p.0@ == c {
            r0.push(p.1@)
        } else {
            r0
        }));
        assert forall|x: int|
            0 <= x < r.len() implies #[trigger] attributes(creators, c, r[x]) by {
            if x < r0.len() {
                assert(attributes(c0, c, r0[x]));
                let i = choose|i: int| 0 <= i < c0.len() && c0[i].0@ == c && c0[i].1@ == r0[x];
                assert(creators[i] == c0[i]);
                assert(creators[i].0@ == c && creators[i].1@ == r[x]);
            } else {
                assert(p.0@ == c && r[x] == p.1@);
                assert(creators[creators.len() - 1].0@ == c && creators[creators.len() - 1].1@
                    == r[x]);
            }
        }
        assert forall|x: int, y: int|
            0 <= x < r.len() && 0 <= y < r.len() && x != y implies (#[trigger] r[x]) != (
        #[trigger] r[y]) by {
            if p.0@ == c && r[x] == r[y] {
                if x < r0.len() && y == r0.len() {
                    assert(r0[x] == p.1@);
                    assert(attributes(c0, c, r0[x]));
                    let i = choose|i: int| 0 <= i < c0.len() && c0[i].0@ == c && c0[i].1@ == r0[x];
                    assert(creators[i] == c0[i]);
                    assert(creators[i].0@ == creators[creators.len() - 1].0@ && creators[i].1@
                        == creators[creators.len() - 1].1@);
                }
                if y < r0.len() && x == r0.len() {
                    assert(r0[y] == p.1@);
                    assert(attributes(c0, c, r0[y]));
                    let i = choose|i: int| 0 <= i < c0.len() && c0[i].0@ == c && c0[i].1@ == r0[y];
                    assert(creators[i] == c0[i]);
                    assert(creators[i].0@ == creators[creators.len() - 1].0@ && creators[i].1@
                        == creators[creators.len() - 1].1@);
                }
            }
        }
    }
}

/// Unique attribution: in a well-formed store the creator index holds each
/// (creator, election) pair at most once, so the listing that
/// `get_elections_created_by_user` returns names no election twice.
pub proof fn lemma_created_elections_distinct(st: Blockchain, c: Seq<char>)
    requires
        st.wf(),
    ensures
        forall|x: int, y: int|
            0 <= x < created_elections(st.creators@, c).len() && 0 <= y < created_elections(
                st.creators@,
                c,
            ).len() && x != y ==> (#[trigger] created_elections(st.creators@, c)[x]) != (
            #[trigger] created_elections(st.creators@, c)[y]),
{
    lemma_created_elections_distinct_rec(st.creators@, c);
}

/// Membership of `s` among the given strings, compared by contents.
fn contains_str(v: &Vec<String>, s: &str) -> (r: bool)
    ensures
        r == has_string(v@, s@),
{
    let n = v.len();
    for i in 0..n
        invariant
            n == v@.len(),
            forall|j: int| 0 <= j < i ==> (#[trigger] v@[j]@) != s@,
    {
        if str_eq(v[i].as_str(), s) {
            return true;
        }
    }
    false
}

/// Copies the given options keeping the first occurrence of each, so that an
/// election's option set is duplicate free while permitting the same options.
fn dedup_options(options: &Vec<String>) -> (r: Vec<String>)
    ensures
        forall|o: Seq<char>| (#[trigger] has_string(r@, o)) <==> has_string(options@, o),
        forall|j: int, k: int|
            0 <= j < r@.len() && 0 <= k < r@.len() && j != k ==> (#[trigger] r@[j]@) != (
            #[trigger] r@[k]@),
{
    let mut out: Vec<String> = Vec::new();
    let n = options.len();
    for i in 0..n
        invariant
            n == options@.len(),
            forall|j: int| 0 <= j < i ==> has_string(out@, (#[trigger] options@[j])@),
            forall|k: int| 0 <= k < out@.len() ==> has_string(options@, (#[trigger] out@[k])@),
            forall|j: int, k: int|
                0 <= j < out@.len() && 0 <= k < out@.len() && j != k ==> (#[trigger] out@[j]@) != (
                #[trigger] out@[k]@),
    {
        let ghost prev = out@;
        if !contains_str(&out, options[i].as_str()) {
            out.push(options[i].clone());
            proof {
                assert(out@ == prev.push(options@[i as int]));
                assert forall|j: int|
                    0 <= j < i + 1 implies has_string(out@, (#[trigger] options@[j])@) by {
                    if j < i {
                        let k = choose|k: int| 0 <= k < prev.len() && prev[k]@ == options@[j]@;
                        assert(out@[k]@ == options@[j]@);
                    } else {
                        assert(out@[prev.len() as int]@ == options@[j]@);
                    }
                }
                assert forall|k: int|
                    0 <= k < out@.len() implies has_string(options@, (#[trigger] out@[k])@) by {
                    if k == prev.len() {
                        assert(out@[k]@ == options@[i as int]@);
                    }
                }
                assert forall|j: int, k: int|
                    0 <= j < out@.len() && 0 <= k < out@.len() && j != k implies (
                #[trigger] out@[j]@) != (#[trigger] out@[k]@) by {
                    if k == prev.len() && out@[j]@ == out@[k]@ {
                        assert(prev[j]@ == options@[i as int]@);
                    }
                    if j == prev.len() && out@[j]@ == out@[k]@ {
                        assert(prev[k]@ == options@[i as int]@);
                    }
                }
            }
        }
    }
    assert forall|o: Seq<char>| (#[trigger] has_string(out@, o)) <==> has_string(options@, o) by {
        if has_string(out@, o) {
            let k = choose|k: int| 0 <= k < out@.len() && out@[k]@ == o;
            assert(has_string(options@, out@[k]@));
        }
        if has_string(options@, o) {
            let j = choose|j: int| 0 <= j < options@.len() && options@[j]@ == o;
            assert(has_string(out@, options@[j]@));
        }
    }
    out
}

} // verus!
