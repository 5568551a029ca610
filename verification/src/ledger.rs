//! The ledger: a chain of blocks and a pool of transactions that wait for the
//! next block.

use crate::ambient::unix_time;
use crate::block::{
    block_digest, block_preimage, block_views, calculate_hash, clone_transactions, digest_of,
    has_leading_zeros, lemma_same_preimage, meets_difficulty, Block, BlockView, HASH_LENGTH,
};
use crate::canonical::{decimal, lemma_decimal_len_u64, lemma_utf8_injective};
use crate::digest::{lemma_hex_lower_injective, lemma_hex_lower_is_ascii, sha256};
use crate::transaction::{transaction_views, Transaction, TransactionView};
use vstd::prelude::*;
use vstd::utf8::{encode_utf8, is_ascii_chars_encode_utf8};

verus! {

/// The number of leading zero characters a new ledger asks of a block hash.
pub const DEFAULT_DIFFICULTY: usize = 2;

/// The chain of blocks together with the transactions not yet in a block.
///
/// The fields are private: a ledger is made by `new` or `with_genesis` and
/// changed by its methods only, all of which keep `wf`.
#[derive(Debug)]
pub struct Blockchain {
    chain: Vec<Block>,
    pending_transactions: Vec<Transaction>,
    difficulty: usize,
}

/// What a ledger holds, as mathematical values.
pub ghost struct BlockchainView {
    pub chain: Seq<BlockView>,
    pub pending_transactions: Seq<TransactionView>,
    pub difficulty: nat,
}

impl View for Blockchain {
    type V = BlockchainView;

    closed spec fn view(&self) -> BlockchainView {
        BlockchainView {
            chain: block_views(self.chain@),
            pending_transactions: transaction_views(self.pending_transactions@),
            difficulty: self.difficulty as nat,
        }
    }
}

/// The first block of every chain, made at `timestamp`: no transactions, and
/// `0` for both hashes. It is not asked to meet the difficulty.
pub open spec fn genesis_view(timestamp: int) -> BlockView {
    BlockView {
        index: 0,
        timestamp,
        transactions: Seq::<TransactionView>::empty(),
        previous_hash: "0"@,
        hash: "0"@,
        nonce: 0,
    }
}

/// A block is sealed when its stored hash is the hash of its other fields and
/// meets the difficulty.
pub open spec fn is_sealed(block: BlockView, difficulty: nat) -> bool {
    &&& block.hash == digest_of(block)
    &&& block.hash.len() == HASH_LENGTH
    &&& meets_difficulty(block.hash, difficulty)
}

/// A chain is valid when it starts with a genesis block and every later block
/// sits at its own index, names the hash of the block before it, is sealed,
/// and has a nonce that fits in 64 bits.
pub open spec fn valid_chain(chain: Seq<BlockView>, difficulty: nat) -> bool {
    &&& chain.len() >= 1
    &&& chain[0] == genesis_view(chain[0].timestamp)
    &&& forall|i: int|
        0 < i < chain.len() ==> {
            &&& (#[trigger] chain[i]).index == i
            &&& chain[i].previous_hash == chain[i - 1].hash
            &&& chain[i].nonce <= u64::MAX
            &&& is_sealed(chain[i], difficulty)
        }
}

/// Whether `nonce` gives the block fields a hash of the proper length that
/// meets the difficulty.
pub open spec fn wins(
    index: nat,
    timestamp: int,
    transactions: Seq<TransactionView>,
    previous_hash: Seq<char>,
    difficulty: nat,
    nonce: nat,
) -> bool {
    let hash = block_digest(index, timestamp, transactions, previous_hash, nonce);
    hash.len() == HASH_LENGTH && meets_difficulty(hash, difficulty)
}

/// Whether `nonce` wins and no smaller nonce does.
pub open spec fn is_first_winning_nonce(
    index: nat,
    timestamp: int,
    transactions: Seq<TransactionView>,
    previous_hash: Seq<char>,
    difficulty: nat,
    nonce: nat,
) -> bool {
    &&& nonce <= u64::MAX
    &&& wins(index, timestamp, transactions, previous_hash, difficulty, nonce)
    &&& forall|smaller: nat|
        smaller < nonce ==> !#[trigger] wins(
            index,
            timestamp,
            transactions,
            previous_hash,
            difficulty,
            smaller,
        )
}

/// Whether no nonce that fits in 64 bits wins.
pub open spec fn no_winning_nonce(
    index: nat,
    timestamp: int,
    transactions: Seq<TransactionView>,
    previous_hash: Seq<char>,
    difficulty: nat,
) -> bool {
    forall|nonce: nat|
        nonce <= u64::MAX ==> !#[trigger] wins(
            index,
            timestamp,
            transactions,
            previous_hash,
            difficulty,
            nonce,
        )
}

/// Whether `block` is the block that mining makes of the given fields: it
/// holds them unchanged, its nonce is the first one that wins, and its hash is
/// the hash at that nonce.
pub open spec fn is_mined(
    block: BlockView,
    index: nat,
    timestamp: int,
    transactions: Seq<TransactionView>,
    previous_hash: Seq<char>,
    difficulty: nat,
) -> bool {
    &&& block.index == index
    &&& block.timestamp == timestamp
    &&& block.transactions == transactions
    &&& block.previous_hash == previous_hash
    &&& is_first_winning_nonce(
        index,
        timestamp,
        transactions,
        previous_hash,
        difficulty,
        block.nonce,
    )
    &&& block.hash == block_digest(index, timestamp, transactions, previous_hash, block.nonce)
}

/// All transactions of a chain: block after block, and within a block in the
/// order the block holds them.
pub open spec fn all_transactions(chain: Seq<BlockView>) -> Seq<TransactionView>
    decreases chain.len(),
{
    if chain.len() == 0 {
        Seq::<TransactionView>::empty()
    } else {
        all_transactions(chain.drop_last()) + chain.last().transactions
    }
}

/// The number of transactions in all blocks of a chain together.
pub open spec fn transaction_count(chain: Seq<BlockView>) -> nat
    decreases chain.len(),
{
    if chain.len() == 0 {
        0
    } else {
        transaction_count(chain.drop_last()) + chain.last().transactions.len()
    }
}

/// Searches the nonces from 0 upwards for the first one whose hash meets the
/// difficulty, and returns it with that hash.
///
/// Returns `None` exactly when no nonce that fits in 64 bits wins. A
/// difficulty beyond the length of a hash is such a case, and is answered
/// without a search.
pub fn find_nonce(
    index: u64,
    timestamp: i64,
    transactions: &[Transaction],
    previous_hash: &str,
    difficulty: usize,
) -> (found: Option<(u64, String)>)
    ensures
        match found {
            Some((nonce, hash)) => {
                &&& is_first_winning_nonce(
                    index as nat,
                    timestamp as int,
                    transaction_views(transactions@),
                    previous_hash@,
                    difficulty as nat,
                    nonce as nat,
                )
                &&& hash@ == block_digest(
                    index as nat,
                    timestamp as int,
                    transaction_views(transactions@),
                    previous_hash@,
                    nonce as nat,
                )
            },
            None => no_winning_nonce(
                index as nat,
                timestamp as int,
                transaction_views(transactions@),
                previous_hash@,
                difficulty as nat,
            ),
        },
{
    if difficulty > HASH_LENGTH {
        return None;
    }
    let mut nonce: u64 = 0;
    loop
        invariant
            forall|smaller: nat|
                smaller < nonce ==> !#[trigger] wins(
                    index as nat,
                    timestamp as int,
                    transaction_views(transactions@),
                    previous_hash@,
                    difficulty as nat,
                    smaller,
                ),
        decreases u64::MAX - nonce,
    {
        let hash = calculate_hash(index, timestamp, transactions, previous_hash, nonce);
        if has_leading_zeros(hash.as_str(), difficulty) {
            return Some((nonce, hash));
        }
        if nonce == u64::MAX {
            return None;
        }
        nonce += 1;
    }
}

/// A valid chain stays valid when a block mined to follow it is added.
pub proof fn lemma_mined_block_extends(chain: Seq<BlockView>, difficulty: nat, block: BlockView)
    requires
        valid_chain(chain, difficulty),
        is_mined(
            block,
            chain.len(),
            block.timestamp,
            block.transactions,
            chain.last().hash,
            difficulty,
        ),
    ensures
        valid_chain(chain.push(block), difficulty),
{
    let longer = chain.push(block);
    assert forall|i: int| 0 < i < longer.len() implies {
        &&& (#[trigger] longer[i]).index == i
        &&& longer[i].previous_hash == longer[i - 1].hash
        &&& longer[i].nonce <= u64::MAX
        &&& is_sealed(longer[i], difficulty)
    } by {
        if i < chain.len() {
            assert(longer[i] == chain[i]);
            assert(longer[i - 1] == chain[i - 1]);
        }
    }
}

impl Blockchain {
    /// The invariant of a ledger: its chain is valid at its difficulty.
    pub open spec fn wf(&self) -> bool {
        valid_chain(self@.chain, self@.difficulty)
    }

    /// A new ledger at the default difficulty, with a genesis block stamped
    /// by the clock and nothing pending.
    pub fn new() -> (ledger: Self)
        ensures
            ledger.wf(),
            ledger@ == (BlockchainView {
                chain: seq![genesis_view(ledger@.chain[0].timestamp)],
                pending_transactions: Seq::<TransactionView>::empty(),
                difficulty: DEFAULT_DIFFICULTY as nat,
            }),
    {
        Self::with_genesis(unix_time(), DEFAULT_DIFFICULTY)
    }

    /// A new ledger at `difficulty`, with a genesis block made at `timestamp`
    /// and nothing pending.
    pub fn with_genesis(timestamp: i64, difficulty: usize) -> (ledger: Self)
        ensures
            ledger.wf(),
            ledger@ == (BlockchainView {
                chain: seq![genesis_view(timestamp as int)],
                pending_transactions: Seq::<TransactionView>::empty(),
                difficulty: difficulty as nat,
            }),
    {
        let mut chain: Vec<Block> = Vec::new();
        chain.push(Self::create_genesis_block(timestamp));
        let ledger = Blockchain { chain, pending_transactions: Vec::new(), difficulty };
        assert(ledger@.chain =~= seq![genesis_view(timestamp as int)]);
        assert(ledger@.pending_transactions =~= Seq::<TransactionView>::empty());
        ledger
    }

    /// The genesis block made at `timestamp`.
    pub fn create_genesis_block(timestamp: i64) -> (genesis: Block)
        ensures
            genesis@ == genesis_view(timestamp as int),
    {
        let genesis = Block {
            index: 0,
            timestamp,
            transactions: Vec::new(),
            previous_hash: "0".to_owned(),
            hash: "0".to_owned(),
            nonce: 0,
        };
        assert(genesis@.transactions =~= Seq::<TransactionView>::empty());
        genesis
    }

    /// The blocks of the chain, genesis first.
    pub fn chain(&self) -> (blocks: &Vec<Block>)
        ensures
            block_views(blocks@) == self@.chain,
    {
        &self.chain
    }

    /// The transactions that wait for the next block, oldest first.
    pub fn pending_transactions(&self) -> (pending: &Vec<Transaction>)
        ensures
            transaction_views(pending@) == self@.pending_transactions,
    {
        &self.pending_transactions
    }

    /// The number of leading zero characters asked of a block hash.
    pub fn difficulty(&self) -> (difficulty: usize)
        ensures
            difficulty == self@.difficulty,
    {
        self.difficulty
    }

    /// The last block of the chain.
    pub fn get_latest_block(&self) -> (latest: &Block)
        requires
            self.wf(),
        ensures
            latest@ == self@.chain.last(),
    {
        &self.chain[self.chain.len() - 1]
    }

    /// Hashes `(index, timestamp, transactions, previous_hash, nonce)`.
    pub fn calculate_hash(
        index: u64,
        timestamp: i64,
        transactions: &[Transaction],
        previous_hash: &str,
        nonce: u64,
    ) -> (hash: String)
        ensures
            hash@ == block_digest(
                index as nat,
                timestamp as int,
                transaction_views(transactions@),
                previous_hash@,
                nonce as nat,
            ),
            hash@.len() == HASH_LENGTH,
    {
        calculate_hash(index, timestamp, transactions, previous_hash, nonce)
    }

    /// Mines a block over `transactions` that follows the current chain, with
    /// the clock's time as its timestamp.
    ///
    /// The ledger itself is not changed. Returns `None` when no nonce wins at
    /// the time the clock gave.
    pub fn mine_block(&self, transactions: Vec<Transaction>, previous_hash: String) -> (mined:
        Option<Block>)
        ensures
            match mined {
                Some(block) => is_mined(
                    block@,
                    self@.chain.len(),
                    block@.timestamp,
                    transaction_views(transactions@),
                    previous_hash@,
                    self@.difficulty,
                ),
                None => exists|timestamp: int| #[trigger]
                    no_winning_nonce(
                        self@.chain.len(),
                        timestamp,
                        transaction_views(transactions@),
                        previous_hash@,
                        self@.difficulty,
                    ),
            },
    {
        let timestamp: i64 = unix_time();
        let mined = self.mine_block_at(transactions, previous_hash, timestamp);
        proof {
            if mined is None {
                assert(no_winning_nonce(
                    self@.chain.len(),
                    timestamp as int,
                    transaction_views(transactions@),
                    previous_hash@,
                    self@.difficulty,
                ));
            }
        }
        mined
    }

    /// Mines a block over `transactions` that follows the current chain and
    /// carries `timestamp`.
    ///
    /// The ledger itself is not changed. Returns the block whose nonce is the
    /// first that wins, and `None` exactly when no nonce wins.
    pub fn mine_block_at(
        &self,
        transactions: Vec<Transaction>,
        previous_hash: String,
        timestamp: i64,
    ) -> (mined: Option<Block>)
        ensures
            match mined {
                Some(block) => is_mined(
                    block@,
                    self@.chain.len(),
                    timestamp as int,
                    transaction_views(transactions@),
                    previous_hash@,
                    self@.difficulty,
                ),
                None => no_winning_nonce(
                    self@.chain.len(),
                    timestamp as int,
                    transaction_views(transactions@),
                    previous_hash@,
                    self@.difficulty,
                ),
            },
    {
        let index: u64 = self.chain.len() as u64;
        match find_nonce(
            index,
            timestamp,
            transactions.as_slice(),
            previous_hash.as_str(),
            self.difficulty,
        ) {
            Some((nonce, hash)) => Some(
                Block { index, timestamp, transactions, previous_hash, hash, nonce },
            ),
            None => None,
        }
    }

    /// Adds `transaction` at the end of the pending pool. The chain stays as
    /// it is.
    pub fn add_transaction(&mut self, transaction: Transaction)
        ensures
            final(self)@ == (BlockchainView {
                pending_transactions: old(self)@.pending_transactions.push(transaction@),
                ..old(self)@
            }),
    {
        self.pending_transactions.push(transaction);
        assert(self@.pending_transactions =~= old(self)@.pending_transactions.push(
            transaction@,
        ));
    }

    /// Mines all pending transactions into one block, stamped by the clock,
    /// and appends it to the chain.
    ///
    /// Returns `None`, and changes nothing, when nothing is pending or no
    /// nonce wins at the time the clock gave.
    pub fn mine_pending_transactions(&mut self) -> (mined: Option<Block>)
        requires
            old(self).wf(),
        ensures
            final(self).wf(),
            match mined {
                Some(block) => {
                    &&& old(self)@.pending_transactions.len() > 0
                    &&& is_mined(
                        block@,
                        old(self)@.chain.len(),
                        block@.timestamp,
                        old(self)@.pending_transactions,
                        old(self)@.chain.last().hash,
                        old(self)@.difficulty,
                    )
                    &&& final(self)@ == (BlockchainView {
                        chain: old(self)@.chain.push(block@),
                        pending_transactions: Seq::<TransactionView>::empty(),
                        difficulty: old(self)@.difficulty,
                    })
                },
                None => {
                    &&& final(self)@ == old(self)@
                    &&& old(self)@.pending_transactions.len() > 0 ==> exists|timestamp: int|
                     #[trigger]
                        no_winning_nonce(
                            old(self)@.chain.len(),
                            timestamp,
                            old(self)@.pending_transactions,
                            old(self)@.chain.last().hash,
                            old(self)@.difficulty,
                        )
                },
            },
    {
        let timestamp: i64 = unix_time();
        let mined = self.mine_pending_transactions_at(timestamp);
        proof {
            if mined is None && old(self)@.pending_transactions.len() > 0 {
                assert(no_winning_nonce(
                    old(self)@.chain.len(),
                    timestamp as int,
                    old(self)@.pending_transactions,
                    old(self)@.chain.last().hash,
                    old(self)@.difficulty,
                ));
            }
        }
        mined
    }

    /// Mines all pending transactions into one block that carries
    /// `timestamp`, appends it to the chain, empties the pool and returns the
    /// block.
    ///
    /// Returns `None`, and changes nothing, exactly when nothing is pending or
    /// no nonce wins.
    pub fn mine_pending_transactions_at(&mut self, timestamp: i64) -> (mined: Option<Block>)
        requires
            old(self).wf(),
        ensures
            final(self).wf(),
            mined is None <==> old(self)@.pending_transactions.len() == 0 || no_winning_nonce(
                old(self)@.chain.len(),
                timestamp as int,
                old(self)@.pending_transactions,
                old(self)@.chain.last().hash,
                old(self)@.difficulty,
            ),
            match mined {
                Some(block) => {
                    &&& is_mined(
                        block@,
                        old(self)@.chain.len(),
                        timestamp as int,
                        old(self)@.pending_transactions,
                        old(self)@.chain.last().hash,
                        old(self)@.difficulty,
                    )
                    &&& final(self)@ == (BlockchainView {
                        chain: old(self)@.chain.push(block@),
                        pending_transactions: Seq::<TransactionView>::empty(),
                        difficulty: old(self)@.difficulty,
                    })
                },
                None => final(self)@ == old(self)@,
            },
    {
        if self.pending_transactions.is_empty() {
            return None;
        }
        let previous_hash = self.get_latest_block().hash.clone();
        let transactions = clone_transactions(&self.pending_transactions);
        match self.mine_block_at(transactions, previous_hash, timestamp) {
            None => None,
            Some(block) => {
                self.pending_transactions.clear();
                self.chain.push(block.clone());
                proof {
                    lemma_mined_block_extends(old(self)@.chain, old(self)@.difficulty, block@);
                    assert(self@.chain =~= old(self)@.chain.push(block@));
                    assert(self@.pending_transactions =~= Seq::<TransactionView>::empty());
                }
                Some(block)
            },
        }
    }

    /// All transactions of the chain: block after block, and within a block
    /// in the order the block holds them.
    pub fn get_transactions(&self) -> (transactions: Vec<Transaction>)
        ensures
            transaction_views(transactions@) == all_transactions(self@.chain),
    {
        let mut all: Vec<Transaction> = Vec::new();
        let mut b: usize = 0;
        while b < self.chain.len()
            invariant
                b <= self.chain@.len(),
                transaction_views(all@) == all_transactions(
                    block_views(self.chain@).take(b as int),
                ),
            decreases self.chain@.len() - b,
        {
            let block = &self.chain[b];
            let ghost done = all@;
            let mut t: usize = 0;
            while t < block.transactions.len()
                invariant
                    t <= block.transactions@.len(),
                    all@ == done + block.transactions@.take(t as int),
                decreases block.transactions@.len() - t,
            {
                all.push(block.transactions[t].clone());
                assert(block.transactions@.take(t + 1) =~= block.transactions@.take(t as int).push(
                    block.transactions@[t as int],
                ));
                t += 1;
            }
            proof {
                assert(block.transactions@.take(t as int) =~= block.transactions@);
                let views = block_views(self.chain@);
                let next = views.take(b + 1);
                assert(next.drop_last() =~= views.take(b as int));
                assert(next.last() == block@);
                assert(transaction_views(all@) =~= transaction_views(done) + block@.transactions);
            }
            b += 1;
        }
        assert(block_views(self.chain@).take(b as int) =~= block_views(self.chain@));
        all
    }
}

/// In every ledger, every block after the first sits at its own index, names
/// the hash of the block before it, stores the hash of its own fields, and
/// that hash meets the difficulty.
pub proof fn lemma_chain_integrity(ledger: Blockchain, i: int)
    requires
        ledger.wf(),
        0 < i < ledger@.chain.len(),
    ensures
        ledger@.chain[i].index == i,
        ledger@.chain[i].previous_hash == ledger@.chain[i - 1].hash,
        ledger@.chain[i].hash == digest_of(ledger@.chain[i]),
        ledger@.chain[i].hash.len() == HASH_LENGTH,
        meets_difficulty(ledger@.chain[i].hash, ledger@.difficulty),
{
}

/// In a valid chain the indices count up from 0 without a gap, so a later
/// block has a larger index.
pub proof fn lemma_indices_count_up(chain: Seq<BlockView>, difficulty: nat, i: int, j: int)
    requires
        valid_chain(chain, difficulty),
        0 <= i < j < chain.len(),
    ensures
        chain[i].index == i,
        chain[j].index == j,
        chain[i].index < chain[j].index,
{
}

/// Mining is a function of what is mined: two blocks mined from the same
/// fields at the same difficulty are the same block.
pub proof fn lemma_mining_deterministic(
    first: BlockView,
    second: BlockView,
    index: nat,
    timestamp: int,
    transactions: Seq<TransactionView>,
    previous_hash: Seq<char>,
    difficulty: nat,
)
    requires
        is_mined(first, index, timestamp, transactions, previous_hash, difficulty),
        is_mined(second, index, timestamp, transactions, previous_hash, difficulty),
    ensures
        first == second,
{
    if first.nonce < second.nonce {
        assert(wins(index, timestamp, transactions, previous_hash, difficulty, first.nonce));
        assert(false);
    }
    if second.nonce < first.nonce {
        assert(wins(index, timestamp, transactions, previous_hash, difficulty, second.nonce));
        assert(false);
    }
}

/// Mining either finds a block or finds that no nonce wins, never both.
pub proof fn lemma_mined_or_no_winner(
    block: BlockView,
    index: nat,
    timestamp: int,
    transactions: Seq<TransactionView>,
    previous_hash: Seq<char>,
    difficulty: nat,
)
    requires
        is_mined(block, index, timestamp, transactions, previous_hash, difficulty),
    ensures
        !no_winning_nonce(index, timestamp, transactions, previous_hash, difficulty),
{
    assert(wins(index, timestamp, transactions, previous_hash, difficulty, block.nonce));
}

/// The listing of all transactions is as long as the blocks' transaction
/// lists together.
pub proof fn lemma_all_transactions_len(chain: Seq<BlockView>)
    ensures
        all_transactions(chain).len() == transaction_count(chain),
    decreases chain.len(),
{
    if chain.len() > 0 {
        lemma_all_transactions_len(chain.drop_last());
    }
}

/// The listing of all transactions goes block by block: transaction `j` of
/// block `i` stands after all transactions of the blocks before `i` and after
/// `j` transactions of block `i`.
pub proof fn lemma_all_transactions_order(chain: Seq<BlockView>, i: int, j: int)
    requires
        0 <= i < chain.len(),
        0 <= j < chain[i].transactions.len(),
    ensures
        transaction_count(chain.take(i)) + j < all_transactions(chain).len(),
        all_transactions(chain)[transaction_count(chain.take(i)) + j] == chain[i].transactions[j],
    decreases chain.len(),
{
    let front = chain.drop_last();
    lemma_all_transactions_len(front);
    if i == chain.len() - 1 {
        assert(chain.take(i) =~= front);
    } else {
        lemma_all_transactions_order(front, i, j);
        assert(front.take(i) =~= chain.take(i));
        assert(front[i] == chain[i]);
    }
}

/// Whether SHA-256 tells the texts of all sealed blocks of `chain` apart: no
/// two different texts among them have the same digest.
pub open spec fn digests_tell_blocks_apart(chain: Seq<BlockView>) -> bool {
    forall|i: int, j: int|
        0 < i < chain.len() && 0 < j < chain.len() && sha256(#[trigger] block_preimage(chain[i]))
            == sha256(#[trigger] block_preimage(chain[j])) ==> block_preimage(chain[i])
            == block_preimage(chain[j])
}

/// The bytes of a hash that a sealed block stores: one byte for each of its
/// characters.
proof fn lemma_sealed_hash_bytes(block: BlockView, difficulty: nat)
    requires
        is_sealed(block, difficulty),
    ensures
        encode_utf8(block.hash).len() == HASH_LENGTH,
{
    lemma_hex_lower_is_ascii(sha256(block_preimage(block)));
    is_ascii_chars_encode_utf8(block.hash);
}

/// No two blocks of a valid chain store the same hash, unless SHA-256 itself
/// gives the texts of two blocks the same digest.
pub proof fn lemma_no_duplicate_hashes(chain: Seq<BlockView>, difficulty: nat, i: int, j: int)
    requires
        valid_chain(chain, difficulty),
        digests_tell_blocks_apart(chain),
        0 <= i < j < chain.len(),
    ensures
        chain[i].hash != chain[j].hash,
    decreases i,
{
    let a = chain[i];
    let b = chain[j];
    if i == 0 {
        reveal_strlit("0");
        assert(a.hash.len() == 1);
        assert(b.hash.len() == HASH_LENGTH);
    } else if a.hash == b.hash {
        lemma_hex_lower_injective(sha256(block_preimage(a)), sha256(block_preimage(b)));
        assert(block_preimage(a) == block_preimage(b));
        lemma_same_preimage(a, b);
        let previous_a = encode_utf8(a.previous_hash);
        let previous_b = encode_utf8(b.previous_hash);
        let tail_a = previous_a + decimal(a.nonce);
        let tail_b = previous_b + decimal(b.nonce);
        assert(a.previous_hash == chain[i - 1].hash);
        assert(b.previous_hash == chain[j - 1].hash);
        lemma_sealed_hash_bytes(chain[j - 1], difficulty);
        if i == 1 {
            reveal_strlit("0");
            is_ascii_chars_encode_utf8("0"@);
            lemma_decimal_len_u64(a.nonce);
            assert(tail_a.len() <= 21);
            assert(tail_b.len() >= HASH_LENGTH);
            assert(false);
        } else {
            lemma_sealed_hash_bytes(chain[i - 1], difficulty);
            assert(previous_a =~= tail_a.take(HASH_LENGTH as int));
            assert(previous_b =~= tail_b.take(HASH_LENGTH as int));
            lemma_utf8_injective(a.previous_hash, b.previous_hash);
            lemma_no_duplicate_hashes(chain, difficulty, i - 1, j - 1);
            assert(false);
        }
    }
}

/// Blocks are only ever added at the end, one at a time: over a run of
/// ledgers in which each has the chain of the one before it and one block
/// more, the last chain is longer than the first by the number of steps, and
/// begins with the first.
pub proof fn lemma_chain_grows_in_step(ledgers: Seq<BlockchainView>)
    requires
        ledgers.len() >= 1,
        forall|k: int|
            0 < k < ledgers.len() ==> (#[trigger] ledgers[k]).chain == ledgers[k - 1].chain.push(
                ledgers[k].chain.last(),
            ),
    ensures
        ledgers.last().chain.len() == ledgers[0].chain.len() + ledgers.len() - 1,
        ledgers.last().chain.take(ledgers[0].chain.len() as int) == ledgers[0].chain,
    decreases ledgers.len(),
{
    if ledgers.len() == 1 {
        assert(ledgers[0].chain.take(ledgers[0].chain.len() as int) =~= ledgers[0].chain);
    } else {
        let earlier = ledgers.drop_last();
        assert forall|k: int| 0 < k < earlier.len() implies (#[trigger] earlier[k]).chain
            == earlier[k - 1].chain.push(earlier[k].chain.last()) by {
            assert(earlier[k] == ledgers[k]);
            assert(earlier[k - 1] == ledgers[k - 1]);
        }
        lemma_chain_grows_in_step(earlier);
        let last = ledgers.last();
        assert(last == ledgers[ledgers.len() - 1]);
        assert(earlier.last() == ledgers[ledgers.len() - 2]);
        assert(last.chain == earlier.last().chain.push(last.chain.last()));
        assert(earlier[0] == ledgers[0]);
        assert(last.chain.take(ledgers[0].chain.len() as int) =~= earlier.last().chain.take(
            ledgers[0].chain.len() as int,
        ));
    }
}

/// A copy of the ledger as it stands.
pub fn get_blockchain(blockchain: &Blockchain) -> (snapshot: Blockchain)
    ensures
        snapshot@ == blockchain@,
{
    blockchain.clone()
}

impl Clone for Blockchain {
    fn clone(&self) -> (copy: Self)
        ensures
            copy@ == self@,
    {
        let mut chain: Vec<Block> = Vec::new();
        let mut i: usize = 0;
        while i < self.chain.len()
            invariant
                i <= self.chain@.len(),
                block_views(chain@) == block_views(self.chain@).take(i as int),
            decreases self.chain@.len() - i,
        {
            let ghost before = chain@;
            let copy = self.chain[i].clone();
            chain.push(copy);
            assert(block_views(chain@) =~= block_views(before).push(copy@));
            assert(block_views(self.chain@).take(i + 1) =~= block_views(self.chain@).take(
                i as int,
            ).push(self.chain@[i as int]@));
            i += 1;
        }
        assert(block_views(self.chain@).take(i as int) =~= block_views(self.chain@));
        Blockchain {
            chain,
            pending_transactions: clone_transactions(&self.pending_transactions),
            difficulty: self.difficulty,
        }
    }
}

} // verus!
