//! The chain manager: owns the ordered sequence of blocks and the record
//! store that mirrors it, appends new blocks, validates the chain, and
//! reconstructs it from persisted records.

use vstd::prelude::*;
use vstd::arithmetic::div_mod::{lemma_div_by_self, lemma_div_multiples_vanish};
use crate::block::{
    Block, block_content, block_model, block_wf, build_content, decode_block, encode_block,
};
use crate::codec::{
    all_hex, chars_eq, enc_block, is_hex_char, lemma_dec_enc_block, no_colon, spec_dec_block,
    string_to_chars,
};
use crate::crypto::{digest, sha256_hex_of, verify, verify_ok};
use crate::store::LedgerStore;
use crate::BlockchainError;

verus! {

/// One entry of the write-only private-key archive: the key material and the
/// metadata it is keyed by.
#[derive(Debug, Clone, PartialEq, Eq)]
pub struct KeyRecord {
    pub private_key_pem: Vec<u8>,
    pub timestamp: i64,
    pub reward: u64,
    pub block_number: u64,
}

/// The emission reward for a block: the base reward halved once per
/// completed halving interval, saturating at zero once the shift would
/// exceed the bit width.
pub open spec fn reward_spec(base: u64, block_number: u64, halving: u64) -> u64
    recommends
        halving >= 1,
{
    if block_number / halving < 64 {
        base >> (block_number / halving)
    } else {
        0u64
    }
}

/// What validation checks of a non-genesis block: linkage to its
/// predecessor, a content hash that recomputes, and a signature that
/// verifies against the embedded public key.
pub open spec fn block_checks(prev: Block, b: Block) -> bool {
    &&& b.previous_hash@ == prev.block_hash@
    &&& sha256_hex_of(block_content(b)) == b.content_hash@
    &&& verify_ok(b.public_key@, b.content_hash@, b.signature@)
}

/// What validation checks of the genesis block: the sentinel previous hash,
/// a content hash that recomputes, and a signature that verifies against
/// the embedded public key.
pub open spec fn genesis_checks(b: Block) -> bool {
    &&& b.previous_hash@ == seq!['0']
    &&& sha256_hex_of(block_content(b)) == b.content_hash@
    &&& verify_ok(b.public_key@, b.content_hash@, b.signature@)
}

/// An append-only, tamper-evident ledger: the in-memory chain, the record
/// store mirroring it, the private-key archive, and the reward
/// configuration.
#[derive(Debug)]
pub struct Blockchain {
    chain: Vec<Block>,
    store: LedgerStore,
    key_archive: Vec<KeyRecord>,
    get_reward: u64,
    get_halving_interval: u64,
}

impl Blockchain {
    pub closed spec fn spec_blocks(self) -> Seq<Block> {
        self.chain@
    }

    pub closed spec fn spec_records(self) -> Seq<Seq<char>> {
        self.store@
    }

    pub closed spec fn spec_archive(self) -> Seq<KeyRecord> {
        self.key_archive@
    }

    pub closed spec fn spec_base_reward(self) -> u64 {
        self.get_reward
    }

    pub closed spec fn spec_halving_interval(self) -> u64 {
        self.get_halving_interval
    }

    pub open spec fn halving_ok(self) -> bool {
        self.spec_halving_interval() >= 1
    }

    /// Well-formedness of position `i`: a sound block, numbered `i + 1`,
    /// rewarded by the schedule, mirrored verbatim in the store, and linked
    /// to its predecessor (the genesis block to the sentinel `"0"`).
    pub open spec fn wf_at(self, i: int) -> bool {
        let b = self.spec_blocks()[i];
        &&& block_wf(b)
        &&& b.block_number == i + 1
        &&& b.reward == reward_spec(
            self.spec_base_reward(),
            i as u64,
            self.spec_halving_interval(),
        )
        &&& self.spec_records()[i] == enc_block(block_model(b))
        &&& b.previous_hash@ == if i == 0 {
            seq!['0']
        } else {
            self.spec_blocks()[i - 1].block_hash@
        }
    }

    /// A chain as this library builds it: configuration sane, store and
    /// chain of one length, and every position well formed.
    pub open spec fn wf(self) -> bool {
        &&& self.halving_ok()
        &&& self.spec_records().len() == self.spec_blocks().len()
        &&& forall|i: int| 0 <= i < self.spec_blocks().len() ==> self.wf_at(i)
    }

    /// What `validate_chain` reports: vacuously true on an empty store,
    /// otherwise the genesis block and every block after it pass their
    /// checks.
    pub open spec fn chain_valid(self) -> bool {
        self.spec_records().len() == 0 || ({
            &&& (self.spec_blocks().len() > 0 ==> genesis_checks(self.spec_blocks()[0]))
            &&& forall|i: int|
                1 <= i < self.spec_blocks().len() ==> block_checks(
                    self.spec_blocks()[i - 1],
                    #[trigger] self.spec_blocks()[i],
                )
        })
    }

    /// An empty chain over an empty store.
    pub fn new(reward: u64, halving: u64) -> (bc: Blockchain)
        requires
            halving >= 1,
        ensures
            bc.wf(),
            bc.spec_blocks().len() == 0,
            bc.spec_records().len() == 0,
            bc.spec_archive().len() == 0,
            bc.spec_base_reward() == reward,
            bc.spec_halving_interval() == halving,
    {
        Blockchain {
            chain: Vec::new(),
            store: LedgerStore::new(),
            key_archive: Vec::new(),
            get_reward: reward,
            get_halving_interval: halving,
        }
    }

    /// The reward for a block by its position in the halving schedule.
    pub fn calculate_reward(&self, block_number: u64) -> (r: u64)
        requires
            self.halving_ok(),
        ensures
            r == reward_spec(self.spec_base_reward(), block_number, self.spec_halving_interval()),
    {
        let q = block_number / self.get_halving_interval;
        if q < 64 {
            self.get_reward >> q
        } else {
            0
        }
    }

    pub fn blocks(&self) -> (r: &Vec<Block>)
        ensures
            r@ == self.spec_blocks(),
    {
        &self.chain
    }

    pub fn store_ref(&self) -> (r: &LedgerStore)
        ensures
            r@ == self.spec_records(),
    {
        &self.store
    }

    pub fn key_records(&self) -> (r: &Vec<KeyRecord>)
        ensures
            r@ == self.spec_archive(),
    {
        &self.key_archive
    }

    pub fn base_reward(&self) -> (r: u64)
        ensures
            r == self.spec_base_reward(),
    {
        self.get_reward
    }

    pub fn halving_interval(&self) -> (r: u64)
        ensures
            r == self.spec_halving_interval(),
    {
        self.get_halving_interval
    }

    /// Appends one block: numbers it after the store's count, links it to
    /// the last persisted block's hash (or the sentinel for the genesis
    /// block), rewards it by the schedule, persists it, and archives the
    /// private key. The store is written before the chain is extended;
    /// nothing changes on failure.
    pub fn add_block(&mut self, data: String) -> (r: Result<(), BlockchainError>)
        requires
            old(self).halving_ok(),
            old(self).spec_records().len() < usize::MAX,
        ensures
            final(self).spec_base_reward() == old(self).spec_base_reward(),
            final(self).spec_halving_interval() == old(self).spec_halving_interval(),
            r is Err ==> *final(self) == *old(self),
            r matches Err(e) ==> (e == BlockchainError::DeserializeError || e
                == BlockchainError::SigningError),
            (r == Err::<(), BlockchainError>(BlockchainError::DeserializeError) <==> (old(
                self,
            ).spec_records().len() > 0
                && spec_dec_block(old(self).spec_records().last()) is None)),
            r is Ok ==> ({
                let n = old(self).spec_records().len() as int;
                let b = final(self).spec_blocks().last();
                let k = final(self).spec_archive().last();
                &&& final(self).spec_blocks() == old(self).spec_blocks().push(b)
                &&& final(self).spec_records() == old(self).spec_records().push(
                    enc_block(block_model(b)),
                )
                &&& final(self).spec_archive() == old(self).spec_archive().push(k)
                &&& k.timestamp == b.timestamp
                &&& k.reward == b.reward
                &&& k.block_number == b.block_number
                &&& block_wf(b)
                &&& b.data@ == data@
                &&& b.block_number == n + 1
                &&& b.reward == reward_spec(
                    old(self).spec_base_reward(),
                    n as u64,
                    old(self).spec_halving_interval(),
                )
                &&& (n == 0 ==> b.previous_hash@ == seq!['0'])
                &&& (n > 0 ==> (spec_dec_block(old(self).spec_records()[n - 1]) matches Some(pm)
                    && b.previous_hash@ == pm.block_hash))
            }),
            old(self).wf() ==> r != Err::<(), BlockchainError>(BlockchainError::DeserializeError),
            old(self).wf() && r is Ok ==> final(self).wf(),
    {
        let count = self.store.count();
        let block_number = (count as u64) + 1;
        let previous_hash: Vec<char>;
        if count == 0 {
            let mut sentinel: Vec<char> = Vec::new();
            sentinel.push('0');
            proof {
                assert(sentinel@ =~= seq!['0']);
            }
            previous_hash = sentinel;
        } else {
            proof {
                if old(self).wf() {
                    lemma_wf_record_roundtrip(*old(self), count - 1);
                }
            }
            let rec = match self.store.read(count) {
                Some(rc) => rc,
                None => {
                    // The count itself was just read, so this arm is proved
                    // unreachable.
                    proof {
                        assert(false);
                    }
                    return Err(BlockchainError::StoreError);
                },
            };
            match decode_block(rec) {
                Some(pb) => {
                    previous_hash = pb.block_hash;
                },
                None => {
                    return Err(BlockchainError::DeserializeError);
                },
            }
        }
        let reward = self.calculate_reward(block_number - 1);
        let data_chars = string_to_chars(data.as_str());
        match Block::new(data_chars, previous_hash, block_number, reward) {
            Err(e) => Err(e),
            Ok((block, private_pem)) => {
                let krec = KeyRecord {
                    private_key_pem: private_pem,
                    timestamp: block.timestamp,
                    reward: block.reward,
                    block_number: block.block_number,
                };
                let encoded = encode_block(&block);
                self.store.write(count + 1, encoded);
                self.key_archive.push(krec);
                self.chain.push(block);
                proof {
                    let n = old(self).spec_records().len() as int;
                    let b = self.spec_blocks().last();
                    assert(self.spec_blocks() =~= old(self).spec_blocks().push(b));
                    assert(self.spec_records() =~= old(self).spec_records().push(
                        enc_block(block_model(b)),
                    ));
                    assert(self.spec_archive() =~= old(self).spec_archive().push(
                        self.spec_archive().last(),
                    ));
                    if old(self).wf() {
                        assert forall|i: int|
                            0 <= i < self.spec_blocks().len() implies self.wf_at(i) by {
                            if i < n {
                                assert(old(self).wf_at(i));
                                assert(self.spec_blocks()[i] == old(self).spec_blocks()[i]);
                                assert(self.spec_records()[i] == old(self).spec_records()[i]);
                                if i > 0 {
                                    assert(self.spec_blocks()[i - 1] == old(self).spec_blocks()[i
                                        - 1]);
                                }
                            } else {
                                assert(i == n);
                                if n > 0 {
                                    assert(old(self).wf_at(n - 1));
                                    assert(self.spec_blocks()[n - 1] == old(self).spec_blocks()[n
                                        - 1]);
                                }
                            }
                        }
                    }
                }
                Ok(())
            },
        }
    }

    /// Walks the chain from the genesis block onward, re-deriving each
    /// block's content hash and checking linkage and signature; true at once
    /// if the store is empty, false at the first violation.
    pub fn validate_chain(&self) -> (r: bool)
        ensures
            r == self.chain_valid(),
    {
        if self.store.count() == 0 {
            return true;
        }
        let n = self.chain.len();
        if n > 0 {
            let first = &self.chain[0];
            let mut sentinel: Vec<char> = Vec::new();
            sentinel.push('0');
            proof {
                assert(sentinel@ =~= seq!['0']);
            }
            if !chars_eq(&first.previous_hash, &sentinel) {
                return false;
            }
            let contents = build_content(
                first.timestamp,
                &first.data,
                &first.previous_hash,
                first.block_number,
                first.reward,
            );
            let recomputed = digest(&contents);
            if !chars_eq(&recomputed, &first.content_hash) {
                return false;
            }
            if !verify(&first.public_key, &first.content_hash, &first.signature) {
                return false;
            }
        }
        let mut i: usize = 1;
        while i < n
            invariant
                1 <= i <= n || n == 0,
                n == self.spec_blocks().len(),
                self.spec_records().len() > 0,
                n > 0 ==> genesis_checks(self.spec_blocks()[0]),
                forall|j: int|
                    1 <= j < i ==> block_checks(
                        self.spec_blocks()[j - 1],
                        #[trigger] self.spec_blocks()[j],
                    ),
            decreases n - i,
        {
            let b = &self.chain[i];
            let prev = &self.chain[i - 1];
            if !chars_eq(&b.previous_hash, &prev.block_hash) {
                return false;
            }
            let contents = build_content(
                b.timestamp,
                &b.data,
                &b.previous_hash,
                b.block_number,
                b.reward,
            );
            let recomputed = digest(&contents);
            if !chars_eq(&recomputed, &b.content_hash) {
                return false;
            }
            if !verify(&b.public_key, &b.content_hash, &b.signature) {
                return false;
            }
            i += 1;
        }
        true
    }

    /// Rebuilds a chain by decoding records 1, 2, 3, … from the store.
    /// Fails with `ConfigError` on a zero halving interval, `NoBlocksFound`
    /// on an empty store, and `DeserializeError` on the first malformed
    /// record.
    pub fn load_chain_from_disk(store: LedgerStore, get_reward: u64, get_halving_interval: u64) -> (r:
        Result<Blockchain, BlockchainError>)
        requires
            store@.len() < usize::MAX,
        ensures
            (r == Err::<Blockchain, BlockchainError>(BlockchainError::ConfigError) <==>
                get_halving_interval == 0),
            (r == Err::<Blockchain, BlockchainError>(BlockchainError::NoBlocksFound) <==> (
                get_halving_interval >= 1 && store@.len() == 0)),
            (r == Err::<Blockchain, BlockchainError>(BlockchainError::DeserializeError) <==> (
                get_halving_interval >= 1 && exists|i: int|
                    0 <= i < store@.len() && spec_dec_block(#[trigger] store@[i]) is None)),
            (r is Ok <==> (get_halving_interval >= 1 && store@.len() > 0 && forall|i: int|
                0 <= i < store@.len() ==> spec_dec_block(#[trigger] store@[i]) is Some)),
            r matches Ok(bc) ==> {
                &&& bc.spec_records() == store@
                &&& bc.spec_blocks().len() == store@.len()
                &&& forall|i: int|
                    0 <= i < store@.len() ==> spec_dec_block(store@[i]) == Some(
                        block_model(#[trigger] bc.spec_blocks()[i]),
                    )
                &&& bc.spec_archive().len() == 0
                &&& bc.spec_base_reward() == get_reward
                &&& bc.spec_halving_interval() == get_halving_interval
                &&& bc.halving_ok()
            },
    {
        if get_halving_interval == 0 {
            return Err(BlockchainError::ConfigError);
        }
        let n = store.count();
        let mut chain: Vec<Block> = Vec::new();
        let mut i: usize = 1;
        while i <= n
            invariant
                get_halving_interval >= 1,
                1 <= i <= n + 1,
                n == store@.len(),
                n < usize::MAX,
                chain@.len() == i - 1,
                forall|j: int|
                    0 <= j < i - 1 ==> spec_dec_block(#[trigger] store@[j]) == Some(
                        block_model(chain@[j]),
                    ),
            decreases n + 1 - i,
        {
            let rec = match store.read(i) {
                Some(rc) => rc,
                None => {
                    // The loop stays within the store's count, so this arm is
                    // proved unreachable.
                    proof {
                        assert(false);
                    }
                    return Err(BlockchainError::StoreError);
                },
            };
            match decode_block(rec) {
                Some(b) => {
                    chain.push(b);
                },
                None => {
                    proof {
                        assert(spec_dec_block(store@[i - 1]) is None);
                    }
                    return Err(BlockchainError::DeserializeError);
                },
            }
            i += 1;
        }
        proof {
            assert forall|j: int| 0 <= j < store@.len() implies spec_dec_block(
                #[trigger] store@[j],
            ) is Some by {
                assert(spec_dec_block(store@[j]) == Some(block_model(chain@[j])));
            }
        }
        if chain.len() == 0 {
            return Err(BlockchainError::NoBlocksFound);
        }
        Ok(
            Blockchain {
                chain,
                store,
                key_archive: Vec::new(),
                get_reward,
                get_halving_interval,
            },
        )
    }
}

/// Every hex string is free of the record separator.
pub proof fn lemma_all_hex_no_colon(s: Seq<char>)
    requires
        all_hex(s),
    ensures
        no_colon(s),
{
    assert forall|i: int| 0 <= i < s.len() implies #[trigger] s[i] != ':' by {
        assert(is_hex_char(s[i]));
    }
}

/// Persistence round trip, record by record: in a well-formed chain, every
/// stored record decodes back to exactly the block it was encoded from.
pub proof fn lemma_wf_record_roundtrip(bc: Blockchain, i: int)
    requires
        bc.wf(),
        0 <= i < bc.spec_blocks().len(),
    ensures
        spec_dec_block(bc.spec_records()[i]) == Some(block_model(bc.spec_blocks()[i])),
{
    let b = bc.spec_blocks()[i];
    assert(bc.wf_at(i));
    lemma_all_hex_no_colon(b.content_hash@);
    lemma_all_hex_no_colon(b.block_hash@);
    if i == 0 {
        assert(b.previous_hash@ == seq!['0']);
        assert(no_colon(b.previous_hash@)) by {
            assert forall|j: int| 0 <= j < b.previous_hash@.len() implies #[trigger] b
                .previous_hash@[j] != ':' by {
                assert(b.previous_hash@[j] == '0');
            }
        }
    } else {
        assert(bc.wf_at(i - 1));
        lemma_all_hex_no_colon(bc.spec_blocks()[i - 1].block_hash@);
    }
    lemma_dec_enc_block(block_model(b));
}

/// Chain linkage: every block after the first references its predecessor's
/// block hash, and the first block references the sentinel.
pub proof fn lemma_chain_linkage(bc: Blockchain)
    requires
        bc.wf(),
    ensures
        forall|i: int|
            1 <= i < bc.spec_blocks().len() ==> #[trigger] bc.spec_blocks()[i].previous_hash@
                == bc.spec_blocks()[i - 1].block_hash@,
        bc.spec_blocks().len() > 0 ==> bc.spec_blocks()[0].previous_hash@ == seq!['0'],
{
    assert forall|i: int|
        1 <= i < bc.spec_blocks().len() implies #[trigger] bc.spec_blocks()[i].previous_hash@
        == bc.spec_blocks()[i - 1].block_hash@ by {
        assert(bc.wf_at(i));
    }
    if bc.spec_blocks().len() > 0 {
        assert(bc.wf_at(0));
    }
}

/// Validation soundness: a chain this library built, untampered, validates.
pub proof fn lemma_validate_sound(bc: Blockchain)
    requires
        bc.wf(),
    ensures
        bc.chain_valid(),
{
    if bc.spec_blocks().len() > 0 {
        assert(bc.wf_at(0));
    }
    assert forall|i: int|
        1 <= i < bc.spec_blocks().len() implies block_checks(
        bc.spec_blocks()[i - 1],
        #[trigger] bc.spec_blocks()[i],
    ) by {
        assert(bc.wf_at(i));
        assert(bc.wf_at(i - 1));
    }
}

/// Validation completeness, as far as it can be stated: a chain in which any
/// checked clause fails at any block — the genesis block included — does not
/// validate. That flipping a byte of a stored field makes one of these
/// clauses fail is the hash and signature engines' own behaviour, which no
/// contract here asserts.
pub proof fn lemma_validate_detects_violation(bc: Blockchain, i: int)
    requires
        bc.spec_records().len() > 0,
        0 <= i < bc.spec_blocks().len(),
        ({
            let b = bc.spec_blocks()[i];
            ||| (if i == 0 {
                b.previous_hash@ != seq!['0']
            } else {
                b.previous_hash@ != bc.spec_blocks()[i - 1].block_hash@
            })
            ||| sha256_hex_of(block_content(b)) != b.content_hash@
            ||| !verify_ok(b.public_key@, b.content_hash@, b.signature@)
        }),
    ensures
        !bc.chain_valid(),
{
    if i == 0 {
        assert(!genesis_checks(bc.spec_blocks()[0]));
    } else {
        assert(!block_checks(bc.spec_blocks()[i - 1], bc.spec_blocks()[i]));
    }
}

/// Persistence round trip, chain level: a chain reconstructed from the
/// records of a well-formed chain carries exactly the same blocks, field for
/// field, and is well formed itself.
pub proof fn lemma_loaded_chain_matches(source: Blockchain, loaded: Blockchain)
    requires
        source.wf(),
        loaded.spec_records() == source.spec_records(),
        loaded.spec_blocks().len() == loaded.spec_records().len(),
        forall|i: int|
            0 <= i < loaded.spec_records().len() ==> spec_dec_block(loaded.spec_records()[i])
                == Some(block_model(#[trigger] loaded.spec_blocks()[i])),
        loaded.spec_base_reward() == source.spec_base_reward(),
        loaded.spec_halving_interval() == source.spec_halving_interval(),
    ensures
        forall|i: int|
            0 <= i < loaded.spec_blocks().len() ==> block_model(#[trigger] loaded.spec_blocks()[i])
                == block_model(source.spec_blocks()[i]),
        loaded.wf(),
{
    assert forall|i: int|
        0 <= i < loaded.spec_blocks().len() implies block_model(#[trigger] loaded.spec_blocks()[i])
        == block_model(source.spec_blocks()[i]) by {
        lemma_wf_record_roundtrip(source, i);
    }
    assert forall|i: int| 0 <= i < loaded.spec_blocks().len() implies loaded.wf_at(i) by {
        assert(source.wf_at(i));
        let lb = loaded.spec_blocks()[i];
        let sb = source.spec_blocks()[i];
        assert(block_model(lb) == block_model(sb));
        assert(lb.timestamp == sb.timestamp && lb.data@ == sb.data@ && lb.previous_hash@
            == sb.previous_hash@ && lb.reward == sb.reward && lb.block_number == sb.block_number
            && lb.content_hash@ == sb.content_hash@ && lb.signature@ == sb.signature@
            && lb.public_key@ == sb.public_key@ && lb.block_hash@ == sb.block_hash@);
        assert(block_content(lb) == block_content(sb));
        assert(enc_block(block_model(lb)) == enc_block(block_model(sb)));
        if i > 0 {
            assert(source.wf_at(i - 1));
            assert(block_model(loaded.spec_blocks()[i - 1]) == block_model(
                source.spec_blocks()[i - 1],
            ));
        }
    }
}

/// Reward halving: the full reward before the first halving boundary, half
/// at the boundary, a halving per completed interval, and zero once the
/// shift passes the bit width.
pub proof fn lemma_reward_halving(base: u64, halving: u64, k: u64)
    requires
        halving >= 1,
        (k as nat) * (halving as nat) <= u64::MAX,
    ensures
        reward_spec(base, 0, halving) == base,
        reward_spec(base, halving, halving) == base / 2,
        k < 64 ==> reward_spec(base, (k * halving) as u64, halving) == base >> k,
        k >= 64 ==> reward_spec(base, (k * halving) as u64, halving) == 0,
{
    assert(0u64 / halving == 0);
    assert(base >> 0u64 == base) by (bit_vector);
    lemma_div_by_self(halving as int);
    assert(halving / halving == 1);
    assert(base >> 1u64 == base / 2) by (bit_vector);
    lemma_div_multiples_vanish(k as int, halving as int);
    assert((halving as int) * (k as int) == (k as int) * (halving as int)) by (nonlinear_arith);
    let p = (k * halving) as u64;
    assert(p as int == (halving as int) * (k as int));
    assert(p / halving == k);
}

} // verus!
