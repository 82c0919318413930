//! Consensus rounds: blocks proposed in a round, their verifier signatures,
//! finality by a two-thirds-plus-one quorum, and deterministic verifier
//! selection from the previous round's hash.

use vstd::prelude::*;

verus! {

/// A 32-byte hash (block ids, verifier ids).
pub type Hash = [u8; 32];

/// A 64-byte signature.
pub type SignatureBytes = [u8; 64];

pub const ROUND_CADENCE_MS: u64 = 200;
pub const MIN_ROUND_CADENCE_MS: u64 = 100;
pub const MAX_ROUND_CADENCE_MS: u64 = 250;

/// Whether two hashes are equal, byte by byte.
pub fn same_hash(a: &Hash, b: &Hash) -> (r: bool)
    ensures
        r == (a@ == b@),
{
    let mut i: usize = 0;
    while i < 32
        invariant
            i <= 32,
            forall|j: int| 0 <= j < i ==> a@[j] == b@[j],
        decreases 32 - i,
    {
        if a[i] != b[i] {
            return false;
        }
        i = i + 1;
    }
    assert(a@ =~= b@);
    true
}

/// Whether two byte arrays of the same length are equal.
pub fn same_bytes<const N: usize>(a: &[u8; N], b: &[u8; N]) -> (r: bool)
    ensures
        r == (a@ == b@),
{
    let mut i: usize = 0;
    while i < N
        invariant
            i <= N,
            a@.len() == N,
            b@.len() == N,
            forall|j: int| 0 <= j < i ==> a@[j] == b@[j],
        decreases N - i,
    {
        if a[i] != b[i] {
            return false;
        }
        i = i + 1;
    }
    assert(a@ =~= b@);
    true
}

/// The fields of a block header that a round reads.
#[derive(Debug, Clone, Copy)]
pub struct BlockHeader {
    pub round_id: u64,
}

/// A block as a round sees it: its header, its id and how many
/// transactions it carries.
#[derive(Debug, Clone, Copy)]
pub struct Block {
    pub header: BlockHeader,
    pub id: Hash,
    pub transaction_count: usize,
}

/// A block of a round with the signatures of verifiers on it, one per
/// verifier (the latest one given).
#[derive(Debug)]
pub struct RoundBlock {
    pub block: Block,
    pub signatures: Vec<(Hash, SignatureBytes)>,
}

/// Errors of round bookkeeping.
#[derive(Debug, Clone, Copy, PartialEq, Eq, Structural)]
pub enum RoundError {
    /// The block belongs to another round.
    RoundMismatch { block_round: u64, round: u64 },
    /// No block of the round has the given id.
    BlockNotFound,
    /// The signer is not in the verifier set.
    NotVerifier,
    /// There is no current round.
    NoCurrentRound,
}

/// The bytes of a list of hashes.
pub open spec fn hash_views(hs: Seq<Hash>) -> Seq<Seq<u8>> {
    hs.map_values(|h: Hash| h@)
}

/// The keys of a list of signatures.
pub open spec fn signers(sigs: Seq<(Hash, SignatureBytes)>) -> Seq<Seq<u8>> {
    sigs.map_values(|e: (Hash, SignatureBytes)| e.0@)
}

/// `sigs` with `sig` recorded for `who`: the earlier signature of `who` is
/// replaced in place, else the pair is appended.
pub open spec fn record_signature(
    sigs: Seq<(Hash, SignatureBytes)>,
    who: Hash,
    sig: SignatureBytes,
) -> Seq<(Hash, SignatureBytes)> {
    match signers(sigs).index_of_first(who@) {
        Some(i) => sigs.update(i, (who, sig)),
        None => sigs.push((who, sig)),
    }
}

/// Records `sig` for `who` in `sigs`.
fn put_signature(sigs: &mut Vec<(Hash, SignatureBytes)>, who: Hash, sig: SignatureBytes)
    ensures
        final(sigs)@ == record_signature(old(sigs)@, who, sig),
        signers(old(sigs)@).no_duplicates() ==> signers(final(sigs)@).no_duplicates(),
{
    let mut i: usize = 0;
    while i < sigs.len()
        invariant
            i <= sigs@.len(),
            sigs@ == old(sigs)@,
            forall|j: int| 0 <= j < i ==> sigs@[j].0@ != who@,
        decreases sigs@.len() - i,
    {
        if same_hash(&sigs[i].0, &who) {
            proof {
                let ks = signers(sigs@);
                ks.index_of_first_ensures(who@);
                assert(ks[i as int] == who@);
                let f = ks.index_of_first(who@)->0;
                if f < i {
                    assert(ks[f] == sigs@[f].0@);
                }
            }
            let ghost before = sigs@;
            sigs.set(i, (who, sig));
            proof {
                assert(signers(sigs@) =~= signers(before).update(i as int, who@));
                assert(signers(sigs@) =~= signers(before));
            }
            return;
        }
        i = i + 1;
    }
    proof {
        let ks = signers(sigs@);
        ks.index_of_first_ensures(who@);
        if ks.contains(who@) {
            let j = choose|j: int| 0 <= j < ks.len() && ks[j] == who@;
            assert(sigs@[j].0@ == who@);
        }
    }
    let ghost before = sigs@;
    sigs.push((who, sig));
    proof {
        let ks = signers(before);
        let nks = signers(sigs@);
        assert(nks =~= ks.push(who@));
        if ks.no_duplicates() {
            assert forall|x: int, y: int| 0 <= x < nks.len() && 0 <= y < nks.len() && x != y implies nks[x] != nks[y] by {
                if x < ks.len() && y < ks.len() {
                    assert(nks[x] == ks[x] && nks[y] == ks[y]);
                } else if x < ks.len() {
                    assert(nks[x] == ks[x]);
                    assert(ks[x] == before[x].0@);
                } else if y < ks.len() {
                    assert(nks[y] == ks[y]);
                    assert(ks[y] == before[y].0@);
                }
            }
        }
    }
}

/// A consensus round.
#[derive(Debug)]
pub struct Round {
    pub round_id: u64,
    pub start_time_us: u64,
    pub end_time_us: u64,
    pub blocks: Vec<RoundBlock>,
    pub verifier_set: Vec<Hash>,
    /// Finality signatures needed: two thirds of the verifiers, plus one.
    pub finality_threshold: usize,
    pub finalized: bool,
    pub finality_signatures: Vec<(Hash, SignatureBytes)>,
}

/// The blocks of a list of round blocks.
pub open spec fn blocks_of(rbs: Seq<RoundBlock>) -> Seq<Block> {
    rbs.map_values(|rb: RoundBlock| rb.block)
}

/// The ids of a list of round blocks.
pub open spec fn block_ids(rbs: Seq<RoundBlock>) -> Seq<Seq<u8>> {
    rbs.map_values(|rb: RoundBlock| rb.block.id@)
}

/// The number of transactions in a list of round blocks.
pub open spec fn tx_total(rbs: Seq<RoundBlock>) -> nat
    decreases rbs.len(),
{
    if rbs.len() == 0 {
        0
    } else {
        tx_total(rbs.drop_last()) + rbs.last().block.transaction_count as nat
    }
}

impl Round {
    /// A final round has at least the threshold number of finality
    /// signatures.
    pub open spec fn finality_backed(&self) -> bool {
        self.finalized ==> self.finality_signatures@.len() >= self.finality_threshold
    }

    /// A round that starts at `start_time_us` with `verifier_set`.
    pub fn new(round_id: u64, start_time_us: u64, verifier_set: Vec<Hash>) -> (r: Self)
        requires
            verifier_set@.len() * 2 <= usize::MAX,
        ensures
            r.round_id == round_id,
            r.start_time_us == start_time_us,
            r.end_time_us == 0,
            r.blocks@.len() == 0,
            r.verifier_set@ == verifier_set@,
            r.finality_threshold == verifier_set@.len() * 2 / 3 + 1,
            !r.finalized,
            r.finality_signatures@.len() == 0,
            r.finality_backed(),
    {
        let finality_threshold = verifier_set.len() * 2 / 3 + 1;
        Round {
            round_id,
            start_time_us,
            end_time_us: 0,
            blocks: Vec::new(),
            verifier_set,
            finality_threshold,
            finalized: false,
            finality_signatures: Vec::new(),
        }
    }

    /// Adds a block of this round (with no signatures yet).
    pub fn add_block(&mut self, block: Block) -> (r: Result<(), RoundError>)
        ensures
            match r {
                Ok(()) => block.header.round_id == old(self).round_id
                    && final(self).blocks@.len() == old(self).blocks@.len() + 1
                    && final(self).blocks@.drop_last() == old(self).blocks@
                    && final(self).blocks@.last().block == block
                    && final(self).blocks@.last().signatures@.len() == 0,
                Err(e) => block.header.round_id != old(self).round_id
                    && e == RoundError::RoundMismatch { block_round: block.header.round_id, round: old(self).round_id }
                    && final(self).blocks@ == old(self).blocks@,
            },
            final(self).round_id == old(self).round_id,
            final(self).start_time_us == old(self).start_time_us,
            final(self).end_time_us == old(self).end_time_us,
            final(self).verifier_set@ == old(self).verifier_set@,
            final(self).finality_threshold == old(self).finality_threshold,
            final(self).finalized == old(self).finalized,
            final(self).finality_signatures@ == old(self).finality_signatures@,
            old(self).finality_backed() ==> final(self).finality_backed(),
    {
        if block.header.round_id != self.round_id {
            return Err(RoundError::RoundMismatch { block_round: block.header.round_id, round: self.round_id });
        }
        let ghost before = self.blocks@;
        self.blocks.push(RoundBlock { block, signatures: Vec::new() });
        assert(self.blocks@.drop_last() =~= before);
        Ok(())
    }

    /// Records a verifier's signature on the first block with id `block_id`.
    pub fn add_block_signature(&mut self, block_id: &Hash, verifier_id: Hash, signature: SignatureBytes) -> (r: Result<
        (),
        RoundError,
    >)
        ensures
            match block_ids(old(self).blocks@).index_of_first(block_id@) {
                Some(i) => {
                    &&& r is Ok
                    &&& final(self).blocks@.len() == old(self).blocks@.len()
                    &&& forall|j: int| 0 <= j < old(self).blocks@.len() && j != i ==> #[trigger] final(self).blocks@[j]
                        == old(self).blocks@[j]
                    &&& final(self).blocks@[i].block == old(self).blocks@[i].block
                    &&& final(self).blocks@[i].signatures@ == record_signature(
                        old(self).blocks@[i].signatures@,
                        verifier_id,
                        signature,
                    )
                },
                None => r == Err::<(), RoundError>(RoundError::BlockNotFound) && final(self).blocks@ == old(self).blocks@,
            },
            final(self).round_id == old(self).round_id,
            final(self).start_time_us == old(self).start_time_us,
            final(self).end_time_us == old(self).end_time_us,
            final(self).verifier_set@ == old(self).verifier_set@,
            final(self).finality_threshold == old(self).finality_threshold,
            final(self).finalized == old(self).finalized,
            final(self).finality_signatures@ == old(self).finality_signatures@,
            old(self).finality_backed() ==> final(self).finality_backed(),
    {
        let mut i: usize = 0;
        while i < self.blocks.len()
            invariant
                i <= self.blocks@.len(),
                self.blocks@ == old(self).blocks@,
                self.round_id == old(self).round_id,
                self.start_time_us == old(self).start_time_us,
                self.end_time_us == old(self).end_time_us,
                self.verifier_set@ == old(self).verifier_set@,
                self.finality_threshold == old(self).finality_threshold,
                self.finalized == old(self).finalized,
                self.finality_signatures@ == old(self).finality_signatures@,
                forall|j: int| 0 <= j < i ==> self.blocks@[j].block.id@ != block_id@,
            decreases self.blocks@.len() - i,
        {
            if same_hash(&self.blocks[i].block.id, block_id) {
                proof {
                    let ks = block_ids(self.blocks@);
                    ks.index_of_first_ensures(block_id@);
                    assert(ks[i as int] == block_id@);
                    let f = ks.index_of_first(block_id@)->0;
                    if f < i {
                        assert(ks[f] == self.blocks@[f].block.id@);
                    }
                }
                let mut rb = self.blocks.remove(i);
                put_signature(&mut rb.signatures, verifier_id, signature);
                self.blocks.insert(i, rb);
                return Ok(());
            }
            i = i + 1;
        }
        proof {
            let ks = block_ids(self.blocks@);
            ks.index_of_first_ensures(block_id@);
            if ks.contains(block_id@) {
                let j = choose|j: int| 0 <= j < ks.len() && ks[j] == block_id@;
                assert(self.blocks@[j].block.id@ == block_id@);
            }
        }
        Err(RoundError::BlockNotFound)
    }

    /// Records a finality signature of a verifier of this round; the round
    /// becomes final once the signatures reach the threshold. Returns
    /// whether they have.
    pub fn add_finality_signature(&mut self, verifier_id: Hash, signature: SignatureBytes) -> (r: Result<
        bool,
        RoundError,
    >)
        ensures
            hash_views(old(self).verifier_set@).contains(verifier_id@) ==> {
                let sigs = record_signature(old(self).finality_signatures@, verifier_id, signature);
                &&& final(self).finality_signatures@ == sigs
                &&& r == Ok::<bool, RoundError>(sigs.len() >= old(self).finality_threshold)
                &&& final(self).finalized == (old(self).finalized || sigs.len() >= old(self).finality_threshold)
            },
            !hash_views(old(self).verifier_set@).contains(verifier_id@) ==> {
                &&& r == Err::<bool, RoundError>(RoundError::NotVerifier)
                &&& final(self).finality_signatures@ == old(self).finality_signatures@
                &&& final(self).finalized == old(self).finalized
            },
            final(self).round_id == old(self).round_id,
            final(self).start_time_us == old(self).start_time_us,
            final(self).end_time_us == old(self).end_time_us,
            final(self).blocks@ == old(self).blocks@,
            final(self).verifier_set@ == old(self).verifier_set@,
            final(self).finality_threshold == old(self).finality_threshold,
            old(self).finality_backed() ==> final(self).finality_backed(),
    {
        if !contains_hash(&self.verifier_set, &verifier_id) {
            return Err(RoundError::NotVerifier);
        }
        let ghost before = self.finality_signatures@;
        put_signature(&mut self.finality_signatures, verifier_id, signature);
        proof {
            signers(before).index_of_first_ensures(verifier_id@);
            assert(self.finality_signatures@.len() >= before.len());
        }
        if self.finality_signatures.len() >= self.finality_threshold {
            self.finalized = true;
            return Ok(true);
        }
        Ok(false)
    }

    /// Whether the round is final.
    pub fn is_finalized(&self) -> (b: bool)
        ensures
            b == self.finalized,
    {
        self.finalized
    }

    /// The blocks of the round once it is final; none before.
    pub fn get_finalized_blocks(&self) -> (r: Vec<&Block>)
        ensures
            self.finalized ==> r@.len() == self.blocks@.len() && forall|i: int| 0 <= i < r@.len() ==> *#[trigger] r@[i] == self.blocks@[i].block,
            !self.finalized ==> r@.len() == 0,
    {
        if self.finalized {
            self.get_all_blocks()
        } else {
            Vec::new()
        }
    }

    /// The blocks of the round, in the order they were added.
    pub fn get_all_blocks(&self) -> (r: Vec<&Block>)
        ensures
            r@.len() == self.blocks@.len(),
            forall|i: int| 0 <= i < r@.len() ==> *#[trigger] r@[i] == self.blocks@[i].block,
    {
        let mut r: Vec<&Block> = Vec::new();
        let mut i: usize = 0;
        while i < self.blocks.len()
            invariant
                i <= self.blocks@.len(),
                r@.len() == i,
                forall|j: int| 0 <= j < i ==> *#[trigger] r@[j] == self.blocks@[j].block,
            decreases self.blocks@.len() - i,
        {
            r.push(&self.blocks[i].block);
            i = i + 1;
        }
        r
    }

    /// The number of transactions in the round's blocks.
    pub fn get_transaction_count(&self) -> (n: usize)
        requires
            tx_total(self.blocks@) <= usize::MAX,
        ensures
            n == tx_total(self.blocks@),
    {
        let mut n: usize = 0;
        let mut i: usize = 0;
        while i < self.blocks.len()
            invariant
                i <= self.blocks@.len(),
                n == tx_total(self.blocks@.take(i as int)),
                tx_total(self.blocks@) <= usize::MAX,
            decreases self.blocks@.len() - i,
        {
            proof {
                assert(self.blocks@.take(i + 1).drop_last() =~= self.blocks@.take(i as int));
                lemma_tx_total_prefix(self.blocks@, i + 1);
            }
            n = n + self.blocks[i].block.transaction_count;
            i = i + 1;
        }
        assert(self.blocks@.take(i as int) =~= self.blocks@);
        n
    }

    /// Ends the round at `end_time_us`.
    pub fn end_round(&mut self, end_time_us: u64)
        ensures
            final(self).end_time_us == end_time_us,
            final(self).round_id == old(self).round_id,
            final(self).start_time_us == old(self).start_time_us,
            final(self).blocks@ == old(self).blocks@,
            final(self).verifier_set@ == old(self).verifier_set@,
            final(self).finality_threshold == old(self).finality_threshold,
            final(self).finalized == old(self).finalized,
            final(self).finality_signatures@ == old(self).finality_signatures@,
            old(self).finality_backed() ==> final(self).finality_backed(),
    {
        self.end_time_us = end_time_us;
    }

    /// Whole milliseconds from start to end; 0 unless the end is later.
    pub fn duration_ms(&self) -> (d: u64)
        ensures
            d == (if self.end_time_us > self.start_time_us {
                (self.end_time_us - self.start_time_us) / 1000
            } else {
                0
            }),
    {
        if self.end_time_us > self.start_time_us {
            (self.end_time_us - self.start_time_us) / 1000
        } else {
            0
        }
    }
}

/// Keeps the current round and the completed ones.
pub struct RoundManager {
    current_round: Option<Round>,
    completed_rounds: Vec<Round>,
    round_cadence_ms: u64,
}

/// `ms` clamped into the allowed round cadence.
pub open spec fn clamped_cadence(ms: u64) -> u64 {
    if ms < MIN_ROUND_CADENCE_MS {
        MIN_ROUND_CADENCE_MS
    } else if ms > MAX_ROUND_CADENCE_MS {
        MAX_ROUND_CADENCE_MS
    } else {
        ms
    }
}

/// The bytes a verifier signs for a block: the block id, then its own id.
pub open spec fn block_signing_message(block_id: Seq<u8>, verifier_id: Seq<u8>) -> Seq<u8> {
    block_id + verifier_id
}

/// The bytes a verifier signs for finality: the round id (little-endian),
/// then its own id.
pub open spec fn finality_signing_message(round_id: u64, verifier_id: Seq<u8>) -> Seq<u8> {
    Seq::new(8, |i: int| ((round_id >> ((8 * i) as u64)) & 0xffu64) as u8) + verifier_id
}

impl RoundManager {
    pub closed spec fn current(&self) -> Option<Round> {
        self.current_round
    }

    pub closed spec fn completed(&self) -> Seq<Round> {
        self.completed_rounds@
    }

    pub closed spec fn cadence(&self) -> u64 {
        self.round_cadence_ms
    }

    /// Every round kept, current or completed, that is final has at least
    /// its threshold of finality signatures.
    pub open spec fn rounds_backed(&self) -> bool {
        &&& (self.current() matches Some(r) ==> r.finality_backed())
        &&& forall|i: int| 0 <= i < self.completed().len() ==> #[trigger] self.completed()[i].finality_backed()
    }

    /// No round yet; the cadence clamped to 100..=250 ms.
    pub fn new(round_cadence_ms: u64) -> (m: Self)
        ensures
            m.current() is None,
            m.completed().len() == 0,
            m.cadence() == clamped_cadence(round_cadence_ms),
            m.rounds_backed(),
    {
        let c = if round_cadence_ms < MIN_ROUND_CADENCE_MS {
            MIN_ROUND_CADENCE_MS
        } else if round_cadence_ms > MAX_ROUND_CADENCE_MS {
            MAX_ROUND_CADENCE_MS
        } else {
            round_cadence_ms
        };
        RoundManager { current_round: None, completed_rounds: Vec::new(), round_cadence_ms: c }
    }

    /// Moves the current round (if any) to the completed ones and starts a
    /// new one.
    pub fn start_new_round(&mut self, round_id: u64, start_time_us: u64, verifier_set: Vec<Hash>)
        requires
            verifier_set@.len() * 2 <= usize::MAX,
        ensures
            final(self).completed() == (match old(self).current() {
                Some(r) => old(self).completed().push(r),
                None => old(self).completed(),
            }),
            final(self).current() matches Some(r) && r.round_id == round_id && r.start_time_us == start_time_us
                && r.verifier_set@ == verifier_set@ && !r.finalized && r.blocks@.len() == 0
                && r.finality_signatures@.len() == 0 && r.end_time_us == 0
                && r.finality_threshold == verifier_set@.len() * 2 / 3 + 1,
            final(self).cadence() == old(self).cadence(),
            old(self).rounds_backed() ==> final(self).rounds_backed(),
    {
        let previous = self.current_round.take();
        match previous {
            Some(r) => self.completed_rounds.push(r),
            None => {},
        }
        self.current_round = Some(Round::new(round_id, start_time_us, verifier_set));
    }

    /// Adds a block to the current round.
    pub fn add_block_to_current_round(&mut self, block: Block) -> (r: Result<(), RoundError>)
        ensures
            old(self).current() is None ==> r == Err::<(), RoundError>(RoundError::NoCurrentRound)
                && final(self).current() is None,
            old(self).current() matches Some(c) ==> final(self).current() matches Some(n) && (match r {
                Ok(()) => block.header.round_id == c.round_id && n.blocks@ == c.blocks@.push(n.blocks@.last())
                    && n.blocks@.last().block == block && n.blocks@.last().signatures@.len() == 0,
                Err(e) => block.header.round_id != c.round_id && n.blocks@ == c.blocks@
                    && e == RoundError::RoundMismatch { block_round: block.header.round_id, round: c.round_id },
            }) && n.round_id == c.round_id && n.finalized == c.finalized
                && n.finality_signatures@ == c.finality_signatures@,
            final(self).completed() == old(self).completed(),
            final(self).cadence() == old(self).cadence(),
            old(self).rounds_backed() ==> final(self).rounds_backed(),
    {
        let r = match &mut self.current_round {
            Some(round) => {
                let r = round.add_block(block);
                proof {
                    if r is Ok {
                        assert(round.blocks@ =~= round.blocks@.drop_last().push(round.blocks@.last()));
                    }
                }
                r
            },
            None => Err(RoundError::NoCurrentRound),
        };
        proof {
            if old(self).rounds_backed() {
                assert(self.completed() == old(self).completed());
                assert forall|i: int| 0 <= i < self.completed().len() implies #[trigger] self.completed()[i].finality_backed() by {
                    assert(old(self).completed()[i].finality_backed());
                }
            }
        }
        r
    }

    /// Records a block signature in the current round (nothing happens when
    /// there is no current round).
    pub fn add_block_signature_to_current_round(
        &mut self,
        block_id: &Hash,
        verifier_id: Hash,
        signature: SignatureBytes,
    ) -> (r: Result<(), RoundError>)
        ensures
            old(self).current() is None ==> r is Ok && final(self).current() is None,
            old(self).current() matches Some(c) ==> final(self).current() matches Some(n)
                && (r is Ok <==> block_ids(c.blocks@).contains(block_id@))
                && n.finality_signatures@ == c.finality_signatures@ && n.finalized == c.finalized,
            final(self).completed() == old(self).completed(),
            final(self).cadence() == old(self).cadence(),
            old(self).rounds_backed() ==> final(self).rounds_backed(),
    {
        match &mut self.current_round {
            Some(round) => {
                proof {
                    block_ids(round.blocks@).index_of_first_ensures(block_id@);
                }
                round.add_block_signature(block_id, verifier_id, signature)
            },
            None => Ok(()),
        }
    }

    /// Records a finality signature in the current round; returns whether
    /// the round is now final.
    pub fn add_finality_signature(&mut self, verifier_id: Hash, signature: SignatureBytes) -> (r: Result<bool, RoundError>)
        ensures
            old(self).current() is None ==> r == Err::<bool, RoundError>(RoundError::NoCurrentRound)
                && final(self).current() is None,
            old(self).current() matches Some(c) ==> final(self).current() matches Some(n) && (
            if hash_views(c.verifier_set@).contains(verifier_id@) {
                let sigs = record_signature(c.finality_signatures@, verifier_id, signature);
                &&& n.finality_signatures@ == sigs
                &&& r == Ok::<bool, RoundError>(sigs.len() >= c.finality_threshold)
                &&& n.finalized == (c.finalized || sigs.len() >= c.finality_threshold)
            } else {
                &&& r == Err::<bool, RoundError>(RoundError::NotVerifier)
                &&& n.finality_signatures@ == c.finality_signatures@
                &&& n.finalized == c.finalized
            }) && n.round_id == c.round_id && n.blocks@ == c.blocks@,
            final(self).completed() == old(self).completed(),
            final(self).cadence() == old(self).cadence(),
            old(self).rounds_backed() ==> final(self).rounds_backed(),
    {
        match &mut self.current_round {
            Some(round) => round.add_finality_signature(verifier_id, signature),
            None => Err(RoundError::NoCurrentRound),
        }
    }

    /// The current round, if any.
    pub fn get_current_round(&self) -> (r: Option<&Round>)
        ensures
            match r {
                Some(x) => self.current() == Some(*x),
                None => self.current() is None,
            },
    {
        match &self.current_round {
            Some(x) => Some(x),
            None => None,
        }
    }

    /// The completed rounds, oldest first.
    pub fn get_completed_rounds(&self) -> (r: &Vec<Round>)
        ensures
            r@ == self.completed(),
    {
        &self.completed_rounds
    }

    /// The completed rounds that are final, oldest first.
    pub fn get_finalized_rounds(&self) -> (r: Vec<&Round>)
        ensures
            r@.len() <= self.completed().len(),
            forall|i: int| 0 <= i < r@.len() ==> (#[trigger] r@[i]).finalized && self.completed().contains(*r@[i]),
            forall|i: int| 0 <= i < self.completed().len() && (#[trigger] self.completed()[i]).finalized
                ==> exists|j: int| 0 <= j < r@.len() && *r@[j] == self.completed()[i],
    {
        let mut r: Vec<&Round> = Vec::new();
        let mut i: usize = 0;
        while i < self.completed_rounds.len()
            invariant
                i <= self.completed_rounds@.len(),
                r@.len() <= i,
                forall|k: int| 0 <= k < r@.len() ==> (#[trigger] r@[k]).finalized && self.completed_rounds@.contains(*r@[k]),
                forall|k: int| 0 <= k < i && (#[trigger] self.completed_rounds@[k]).finalized
                    ==> exists|j: int| 0 <= j < r@.len() && *r@[j] == self.completed_rounds@[k],
            decreases self.completed_rounds@.len() - i,
        {
            let x = &self.completed_rounds[i];
            let ghost before = r@;
            if x.finalized {
                r.push(x);
                proof {
                    assert(*r@[r@.len() - 1] == self.completed_rounds@[i as int]);
                }
            }
            proof {
                assert forall|k: int| 0 <= k < i + 1 && (#[trigger] self.completed_rounds@[k]).finalized
                    implies exists|j: int| 0 <= j < r@.len() && *r@[j] == self.completed_rounds@[k] by {
                    if k < i {
                        let j = choose|j: int| 0 <= j < before.len() && *before[j] == self.completed_rounds@[k];
                        assert(r@[j] == before[j]);
                    } else {
                        assert(*r@[r@.len() - 1] == self.completed_rounds@[k]);
                    }
                }
            }
            i = i + 1;
        }
        r
    }

    /// The round cadence in milliseconds.
    pub fn get_round_cadence_ms(&self) -> (c: u64)
        ensures
            c == self.cadence(),
    {
        self.round_cadence_ms
    }

    /// Ends the current round at `end_time_us`, if there is one.
    pub fn end_current_round(&mut self, end_time_us: u64)
        ensures
            old(self).current() is None ==> final(self).current() is None,
            old(self).current() matches Some(c) ==> final(self).current() matches Some(n)
                && n.end_time_us == end_time_us && n.round_id == c.round_id && n.finalized == c.finalized
                && n.blocks@ == c.blocks@,
            final(self).completed() == old(self).completed(),
            final(self).cadence() == old(self).cadence(),
    {
        match &mut self.current_round {
            Some(round) => round.end_round(end_time_us),
            None => {},
        }
    }
}

/// The message a verifier signs for block `block_id`.
pub fn block_message(block_id: &Hash, verifier_id: &Hash) -> (m: Vec<u8>)
    ensures
        m@ == block_signing_message(block_id@, verifier_id@),
{
    let mut m: Vec<u8> = Vec::new();
    let mut i: usize = 0;
    while i < 32
        invariant
            i <= 32,
            m@ == block_id@.take(i as int),
        decreases 32 - i,
    {
        m.push(block_id[i]);
        i = i + 1;
        assert(m@ =~= block_id@.take(i as int));
    }
    let mut j: usize = 0;
    while j < 32
        invariant
            j <= 32,
            m@ == block_id@ + verifier_id@.take(j as int),
        decreases 32 - j,
    {
        m.push(verifier_id[j]);
        j = j + 1;
        assert(m@ =~= block_id@ + verifier_id@.take(j as int));
    }
    assert(block_id@.take(32) =~= block_id@);
    assert(verifier_id@.take(32) =~= verifier_id@);
    m
}

/// The message a verifier signs for the finality of round `round_id`.
pub fn finality_message(round_id: u64, verifier_id: &Hash) -> (m: Vec<u8>)
    ensures
        m@ == finality_signing_message(round_id, verifier_id@),
{
    let ghost le = Seq::new(8, |i: int| ((round_id >> ((8 * i) as u64)) & 0xffu64) as u8);
    let mut m: Vec<u8> = Vec::new();
    let mut k: u64 = 0;
    while k < 8
        invariant
            k <= 8,
            le == Seq::new(8, |i: int| ((round_id >> ((8 * i) as u64)) & 0xffu64) as u8),
            m@ == le.take(k as int),
        decreases 8 - k,
    {
        m.push(((round_id >> (8 * k)) & 0xff) as u8);
        k = k + 1;
        assert(m@ =~= le.take(k as int));
    }
    let mut j: usize = 0;
    while j < 32
        invariant
            j <= 32,
            m@ == le + verifier_id@.take(j as int),
        decreases 32 - j,
    {
        m.push(verifier_id[j]);
        j = j + 1;
        assert(m@ =~= le + verifier_id@.take(j as int));
    }
    assert(le.take(8) =~= le);
    assert(verifier_id@.take(32) =~= verifier_id@);
    m
}

/// A prefix carries no more transactions than the whole.
pub proof fn lemma_tx_total_prefix(rbs: Seq<RoundBlock>, n: int)
    requires
        0 <= n <= rbs.len(),
    ensures
        tx_total(rbs.take(n)) <= tx_total(rbs),
    decreases rbs.len(),
{
    if n < rbs.len() {
        assert(rbs.drop_last().take(n) =~= rbs.take(n));
        lemma_tx_total_prefix(rbs.drop_last(), n);
    } else {
        assert(rbs.take(n) =~= rbs);
    }
}

/// `x` folded back into `0..n` when it is at most one lap past it.
pub open spec fn wrapped(x: int, n: int) -> int {
    if x < n { x } else { x - n }
}

/// Probing forward from `start` (wrapping around `vals`), the position of
/// the first of the remaining `vals.len() - j` validators not in `sel`.
pub open spec fn first_free(vals: Seq<Seq<u8>>, sel: Seq<Seq<u8>>, start: int, j: nat) -> Option<int>
    decreases vals.len() - j,
{
    if j >= vals.len() {
        None
    } else if !sel.contains(vals[wrapped(start + j, vals.len() as int)]) {
        Some(wrapped(start + j, vals.len() as int))
    } else {
        first_free(vals, sel, start, j + 1)
    }
}

/// The verifiers picked in the first `count` steps: step `i` starts at the
/// validator indexed by byte `2i mod 32` of the previous round's hash
/// (the hash rotates one byte per step) and takes the first validator from
/// there on, wrapping around, that was not picked before.
pub open spec fn selection(hash: Seq<u8>, vals: Seq<Seq<u8>>, count: nat) -> Seq<Seq<u8>>
    decreases count,
{
    if count == 0 {
        Seq::empty()
    } else {
        let prev = selection(hash, vals, (count - 1) as nat);
        let i = count - 1;
        let start = hash[(2 * i) % 32] as int % (vals.len() as int);
        match first_free(vals, prev, start, 0) {
            Some(idx) => prev.push(vals[idx]),
            None => prev,
        }
    }
}

/// A free position found by probing is a validator outside `sel`.
pub proof fn lemma_first_free(vals: Seq<Seq<u8>>, sel: Seq<Seq<u8>>, start: int, j: nat)
    requires
        vals.len() > 0,
        0 <= start < vals.len(),
    ensures
        first_free(vals, sel, start, j) matches Some(idx) ==> 0 <= idx < vals.len() && !sel.contains(vals[idx]),
    decreases vals.len() - j,
{
    if j < vals.len() && sel.contains(vals[wrapped(start + j, vals.len() as int)]) {
        lemma_first_free(vals, sel, start, j + 1);
    }
}

/// Every selection picks distinct validators, each from the given list.
pub proof fn lemma_selection_distinct(hash: Seq<u8>, vals: Seq<Seq<u8>>, count: nat)
    requires
        hash.len() == 32,
        count > 0 ==> vals.len() > 0,
    ensures
        selection(hash, vals, count).no_duplicates(),
        forall|i: int| 0 <= i < selection(hash, vals, count).len() ==> vals.contains(#[trigger] selection(hash, vals, count)[i]),
        selection(hash, vals, count).len() <= count,
    decreases count,
{
    if count > 0 {
        let prev = selection(hash, vals, (count - 1) as nat);
        lemma_selection_distinct(hash, vals, (count - 1) as nat);
        let i = count - 1;
        let start = hash[(2 * i) % 32] as int % (vals.len() as int);
        lemma_first_free(vals, prev, start, 0);
        if let Some(idx) = first_free(vals, prev, start, 0) {
            let s = prev.push(vals[idx]);
            assert forall|a: int, b: int| 0 <= a < s.len() && 0 <= b < s.len() && a != b implies s[a] != s[b] by {
                if a < prev.len() && b < prev.len() {
                } else if a < prev.len() {
                    assert(prev.contains(s[a]));
                } else {
                    assert(prev.contains(s[b]));
                }
            }
            assert forall|k: int| 0 <= k < s.len() implies vals.contains(#[trigger] s[k]) by {
                if k < prev.len() {
                    assert(s[k] == prev[k]);
                }
            }
        }
    }
}

/// When probing finds nothing, every validator is already in `sel`.
pub proof fn lemma_first_free_none(vals: Seq<Seq<u8>>, sel: Seq<Seq<u8>>, start: int, j: nat)
    requires
        vals.len() > 0,
        0 <= start < vals.len(),
        first_free(vals, sel, start, j) is None,
    ensures
        forall|k: int| j <= k < vals.len() ==> sel.contains(#[trigger] vals[wrapped(start + k, vals.len() as int)]),
    decreases vals.len() - j,
{
    if j < vals.len() {
        lemma_first_free_none(vals, sel, start, j + 1);
    }
}

/// A duplicate-free sequence drawn from `vals` is no longer than `vals` has
/// distinct items.
pub proof fn lemma_distinct_drawn_len(s: Seq<Seq<u8>>, vals: Seq<Seq<u8>>)
    requires
        s.no_duplicates(),
        forall|i: int| 0 <= i < s.len() ==> vals.contains(#[trigger] s[i]),
    ensures
        s.len() <= vals.to_set().len(),
{
    s.unique_seq_to_set();
    assert(s.to_set().subset_of(vals.to_set())) by {
        assert forall|x: Seq<u8>| s.to_set().contains(x) implies vals.to_set().contains(x) by {
            let i = choose|i: int| 0 <= i < s.len() && s[i] == x;
        }
    }
    vstd::seq_lib::seq_to_set_is_finite(vals);
    vstd::set_lib::lemma_len_subset(s.to_set(), vals.to_set());
}

/// With distinct validators, `count` steps pick `min(count, n)` verifiers.
pub proof fn lemma_selection_len(hash: Seq<u8>, vals: Seq<Seq<u8>>, count: nat)
    requires
        hash.len() == 32,
        count > 0 ==> vals.len() > 0,
        vals.no_duplicates(),
    ensures
        selection(hash, vals, count).len() == if count < vals.len() { count } else { vals.len() },
    decreases count,
{
    vals.unique_seq_to_set();
    if count > 0 {
        let prev = selection(hash, vals, (count - 1) as nat);
        lemma_selection_len(hash, vals, (count - 1) as nat);
        lemma_selection_distinct(hash, vals, count);
        lemma_distinct_drawn_len(selection(hash, vals, count), vals);
        let n = vals.len() as int;
        let i = count - 1;
        let start = hash[(2 * i) % 32] as int % n;
        if prev.len() < n {
            if first_free(vals, prev, start, 0) is None {
                lemma_first_free_none(vals, prev, start, 0);
                lemma_selection_distinct(hash, vals, (count - 1) as nat);
                assert(vals.to_set().subset_of(prev.to_set())) by {
                    assert forall|x: Seq<u8>| vals.to_set().contains(x) implies prev.to_set().contains(x) by {
                        let m = choose|m: int| 0 <= m < n && vals[m] == x;
                        let k = if m >= start { m - start } else { m + n - start };
                        assert(wrapped(start + k, n) == m);
                        assert(prev.contains(vals[wrapped(start + k, n)]));
                    }
                }
                vstd::seq_lib::seq_to_set_is_finite(prev);
                vstd::set_lib::lemma_len_subset(vals.to_set(), prev.to_set());
                prev.lemma_cardinality_of_set();
            }
        }
    }
}

/// Picks up to `verifier_count` distinct verifiers from `total_validators`,
/// seeded by the previous round's hash.
pub fn select_verifier_set(previous_round_hash: &Hash, total_validators: &[Hash], verifier_count: usize) -> (r: Vec<Hash>)
    requires
        verifier_count > 0 ==> total_validators@.len() > 0,
    ensures
        hash_views(r@) == selection(previous_round_hash@, hash_views(total_validators@), verifier_count as nat),
        hash_views(r@).no_duplicates(),
        forall|i: int| 0 <= i < r@.len() ==> hash_views(total_validators@).contains(#[trigger] r@[i]@),
        hash_views(total_validators@).no_duplicates() ==> r@.len() == if verifier_count < total_validators@.len() {
            verifier_count as int
        } else {
            total_validators@.len() as int
        },
{
    let ghost vals = hash_views(total_validators@);
    let n = total_validators.len();
    let mut selected: Vec<Hash> = Vec::new();
    let mut i: usize = 0;
    proof {
        assert(hash_views(selected@) =~= Seq::<Seq<u8>>::empty());
    }
    while i < verifier_count
        invariant
            i <= verifier_count,
            n == total_validators@.len(),
            vals == hash_views(total_validators@),
            verifier_count > 0 ==> n > 0,
            hash_views(selected@) == selection(previous_round_hash@, vals, i as nat),
        decreases verifier_count - i,
    {
        let start = (previous_round_hash[(2 * (i % 32)) % 32] as usize) % n;
        proof {
            assert((2 * (i % 32)) % 32 == (2 * i) % 32) by (nonlinear_arith);
        }
        let ghost prev = hash_views(selected@);
        let mut j: usize = 0;
        let mut found: Option<usize> = None;
        while j < n
            invariant_except_break
                found is None,
            invariant
                j <= n,
                n == total_validators@.len(),
                n > 0,
                start < n,
                vals == hash_views(total_validators@),
                prev == hash_views(selected@),
                first_free(vals, prev, start as int, 0) == first_free(vals, prev, start as int, j as nat),
            ensures
                match found {
                    Some(idx) => idx < n && first_free(vals, prev, start as int, 0) == Some(idx as int),
                    None => first_free(vals, prev, start as int, 0) is None,
                },
            decreases n - j,
        {
            let idx = if j < n - start { start + j } else { j - (n - start) };
            proof {
                assert(idx == wrapped(start + j, n as int));
                assert(vals[idx as int] == total_validators@[idx as int]@);
            }
            if !contains_hash(&selected, &total_validators[idx]) {
                found = Some(idx);
                break;
            }
            j = j + 1;
        }
        match found {
            Some(idx) => {
                let ghost before = selected@;
                selected.push(total_validators[idx]);
                proof {
                    assert(hash_views(selected@) =~= hash_views(before).push(vals[idx as int]));
                }
            },
            None => {},
        }
        i = i + 1;
    }
    proof {
        lemma_selection_distinct(previous_round_hash@, vals, verifier_count as nat);
        if vals.no_duplicates() {
            lemma_selection_len(previous_round_hash@, vals, verifier_count as nat);
        }
        assert forall|k: int| 0 <= k < selected@.len() implies vals.contains(#[trigger] selected@[k]@) by {
            assert(hash_views(selected@)[k] == selected@[k]@);
        }
    }
    selected
}

/// Whether `h` is in `v`.
pub fn contains_hash(v: &Vec<Hash>, h: &Hash) -> (b: bool)
    ensures
        b == hash_views(v@).contains(h@),
{
    let mut i: usize = 0;
    while i < v.len()
        invariant
            i <= v@.len(),
            forall|j: int| 0 <= j < i ==> v@[j]@ != h@,
        decreases v@.len() - i,
    {
        if same_hash(&v[i], h) {
            assert(hash_views(v@)[i as int] == h@);
            return true;
        }
        i = i + 1;
    }
    proof {
        if hash_views(v@).contains(h@) {
            let j = choose|j: int| 0 <= j < v@.len() && hash_views(v@)[j] == h@;
            assert(v@[j]@ == h@);
        }
    }
    false
}

} // verus!
