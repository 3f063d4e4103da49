//! A single ledger entry and its persisted form.

use vstd::prelude::*;
use crate::codec::{
    BlockModel, all_hex, bytes_to_hex, colon, dec_int, dec_nat, enc_block, extend_from,
    find_colon_from, hex_to_bytes, i64_to_dec, lemma_find_colon_props, no_colon, parse_i64_chars,
    parse_u64_chars, spec_dec_block, subvec, u64_to_dec,
};
use crate::crypto::{digest, now_timestamp, sha256_hex_of, sign, verify_ok};
use crate::BlockchainError;

verus! {

/// One immutable ledger entry: payload, linkage and proof fields.
#[derive(Debug, Clone, PartialEq, Eq)]
pub struct Block {
    pub timestamp: i64,
    pub data: Vec<char>,
    pub previous_hash: Vec<char>,
    pub reward: u64,
    pub block_number: u64,
    pub content_hash: Vec<char>,
    pub signature: Vec<u8>,
    pub public_key: Vec<u8>,
    pub block_hash: Vec<char>,
}

/// The fields of a block as mathematical values.
pub open spec fn block_model(b: Block) -> BlockModel {
    BlockModel {
        timestamp: b.timestamp,
        data: b.data@,
        previous_hash: b.previous_hash@,
        reward: b.reward,
        block_number: b.block_number,
        content_hash: b.content_hash@,
        signature: b.signature@,
        public_key: b.public_key@,
        block_hash: b.block_hash@,
    }
}

/// The string whose digest is a block's content hash: the five core fields,
/// joined by a fixed delimiter.
pub open spec fn content_seq(
    timestamp: i64,
    data: Seq<char>,
    previous_hash: Seq<char>,
    block_number: u64,
    reward: u64,
) -> Seq<char> {
    dec_int(timestamp as int) + colon() + data + colon() + previous_hash + colon() + dec_nat(
        block_number as nat,
    ) + colon() + dec_nat(reward as nat)
}

pub open spec fn block_content(b: Block) -> Seq<char> {
    content_seq(b.timestamp, b.data@, b.previous_hash@, b.block_number, b.reward)
}

/// A sequence of 64 hex digits, as both hashes of a sound block are.
pub open spec fn hex64(s: Seq<char>) -> bool {
    s.len() == 64 && all_hex(s)
}

/// A block whose proof fields were really derived from its core fields: the
/// content hash is the digest of the content string, the block hash is the
/// digest of that string extended by the content hash, and the signature
/// verifies against the embedded public key for the content hash.
pub open spec fn block_wf(b: Block) -> bool {
    &&& b.content_hash@ == sha256_hex_of(block_content(b))
    &&& b.block_hash@ == sha256_hex_of(block_content(b) + colon() + b.content_hash@)
    &&& verify_ok(b.public_key@, b.content_hash@, b.signature@)
    &&& hex64(b.content_hash@)
    &&& hex64(b.block_hash@)
}

/// The exact content string of a block, built with verified appends.
pub fn build_content(
    timestamp: i64,
    data: &Vec<char>,
    previous_hash: &Vec<char>,
    block_number: u64,
    reward: u64,
) -> (v: Vec<char>)
    ensures
        v@ == content_seq(timestamp, data@, previous_hash@, block_number, reward),
{
    let mut v = i64_to_dec(timestamp);
    v.push(':');
    extend_from(&mut v, data);
    v.push(':');
    extend_from(&mut v, previous_hash);
    v.push(':');
    let number_digits = u64_to_dec(block_number);
    extend_from(&mut v, &number_digits);
    v.push(':');
    let reward_digits = u64_to_dec(reward);
    extend_from(&mut v, &reward_digits);
    proof {
        assert(v@ =~= content_seq(timestamp, data@, previous_hash@, block_number, reward));
    }
    v
}

/// The persisted form of a block.
pub fn encode_block(b: &Block) -> (v: Vec<char>)
    ensures
        v@ == enc_block(block_model(*b)),
{
    let mut v = i64_to_dec(b.timestamp);
    v.push(':');
    let reward_digits = u64_to_dec(b.reward);
    extend_from(&mut v, &reward_digits);
    v.push(':');
    let number_digits = u64_to_dec(b.block_number);
    extend_from(&mut v, &number_digits);
    v.push(':');
    extend_from(&mut v, &b.previous_hash);
    v.push(':');
    extend_from(&mut v, &b.content_hash);
    v.push(':');
    extend_from(&mut v, &b.block_hash);
    v.push(':');
    let sig_hex = bytes_to_hex(&b.signature);
    extend_from(&mut v, &sig_hex);
    v.push(':');
    let pk_hex = bytes_to_hex(&b.public_key);
    extend_from(&mut v, &pk_hex);
    v.push(':');
    extend_from(&mut v, &b.data);
    proof {
        assert(v@ =~= enc_block(block_model(*b)));
    }
    v
}

/// Decoding a persisted record, exactly as `spec_dec_block` describes it.
pub fn decode_block(s: &Vec<char>) -> (r: Option<Block>)
    ensures
        match r {
            Some(b) => {
                &&& spec_dec_block(s@) == Some(block_model(b))
                &&& no_colon(b.previous_hash@)
                &&& no_colon(b.content_hash@)
                &&& no_colon(b.block_hash@)
            },
            None => spec_dec_block(s@) is None,
        },
{
    let n = s.len();
    let p1 = find_colon_from(s, 0);
    if p1 == n {
        return None;
    }
    let p2 = find_colon_from(s, p1 + 1);
    if p2 == n {
        return None;
    }
    let p3 = find_colon_from(s, p2 + 1);
    if p3 == n {
        return None;
    }
    let p4 = find_colon_from(s, p3 + 1);
    if p4 == n {
        return None;
    }
    let p5 = find_colon_from(s, p4 + 1);
    if p5 == n {
        return None;
    }
    let p6 = find_colon_from(s, p5 + 1);
    if p6 == n {
        return None;
    }
    let p7 = find_colon_from(s, p6 + 1);
    if p7 == n {
        return None;
    }
    let p8 = find_colon_from(s, p7 + 1);
    if p8 == n {
        return None;
    }
    let seg_ts = subvec(s, 0, p1);
    let seg_reward = subvec(s, p1 + 1, p2);
    let seg_number = subvec(s, p2 + 1, p3);
    let previous_hash = subvec(s, p3 + 1, p4);
    let content_hash = subvec(s, p4 + 1, p5);
    let block_hash = subvec(s, p5 + 1, p6);
    let seg_sig = subvec(s, p6 + 1, p7);
    let seg_pk = subvec(s, p7 + 1, p8);
    let data = subvec(s, p8 + 1, n);
    let timestamp = match parse_i64_chars(&seg_ts) {
        Some(t) => t,
        None => {
            return None;
        },
    };
    let reward = match parse_u64_chars(&seg_reward) {
        Some(x) => x,
        None => {
            return None;
        },
    };
    let block_number = match parse_u64_chars(&seg_number) {
        Some(x) => x,
        None => {
            return None;
        },
    };
    let signature = match hex_to_bytes(&seg_sig) {
        Some(x) => x,
        None => {
            return None;
        },
    };
    let public_key = match hex_to_bytes(&seg_pk) {
        Some(x) => x,
        None => {
            return None;
        },
    };
    let b = Block {
        timestamp,
        data,
        previous_hash,
        reward,
        block_number,
        content_hash,
        signature,
        public_key,
        block_hash,
    };
    proof {
        lemma_find_colon_props(s@, p3 + 1);
        lemma_find_colon_props(s@, p4 + 1);
        lemma_find_colon_props(s@, p5 + 1);
        assert(spec_dec_block(s@) == Some(block_model(b))) by {
            assert(spec_dec_block(s@)->Some_0 =~= block_model(b));
        }
    }
    Some(b)
}

impl Block {
    /// Builds one block: stamps the current time, digests the content
    /// string, signs the content hash with a freshly generated keypair, and
    /// chains the block hash over contents and content hash. Returns the
    /// block together with the private key PEM for the caller's key archive;
    /// fails only if the signing engine does.
    pub fn new(data: Vec<char>, previous_hash: Vec<char>, block_number: u64, reward: u64) -> (r:
        Result<(Block, Vec<u8>), BlockchainError>)
        ensures
            r matches Ok(p) ==> {
                &&& block_wf(p.0)
                &&& p.0.data@ == data@
                &&& p.0.previous_hash@ == previous_hash@
                &&& p.0.block_number == block_number
                &&& p.0.reward == reward
            },
            r matches Err(e) ==> e == BlockchainError::SigningError,
    {
        let timestamp = now_timestamp();
        let contents = build_content(timestamp, &data, &previous_hash, block_number, reward);
        let content_hash = digest(&contents);
        match sign(&content_hash) {
            None => Err(BlockchainError::SigningError),
            Some((signature, public_key, private_pem)) => {
                let ghost cseq = contents@;
                let mut hash_input = contents;
                hash_input.push(':');
                extend_from(&mut hash_input, &content_hash);
                proof {
                    assert(hash_input@ =~= cseq + colon() + content_hash@);
                }
                let block_hash = digest(&hash_input);
                let b = Block {
                    timestamp,
                    data,
                    previous_hash,
                    reward,
                    block_number,
                    content_hash,
                    signature,
                    public_key,
                    block_hash,
                };
                assert(block_content(b) == cseq);
                Ok((b, private_pem))
            },
        }
    }
}

} // verus!
