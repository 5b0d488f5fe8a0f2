//! The append-only block ledger.
//!
//! Every appended block gets the next index, the hash of the previous block
//! (or `"0"` for the first block) and its own hash over all of its fields,
//! so a well-formed ledger is gap-free and tamper-evident: `block[i].index
//! == i` holds for every block, and every block's hash covers the previous
//! block's hash.

use vstd::prelude::*;
use vstd::utf8::encode_utf8;

use crate::codec::{push_u32_be, push_u64_be, u32_be, u64_be};
use crate::hashing::{hex_encode, hex_of, sha256, sha256_of};
use vstd::string::StrSliceExecFns;

verus! {

/// One finalized ledger entry.
pub struct Block {
    pub index: u64,
    pub interval_id: u64,
    pub merkle_root: String,
    pub winner_count: u32,
    pub timestamp: u64,
    pub previous_hash: String,
    pub hash: String,
}

impl Clone for Block {
    fn clone(&self) -> (r: Block)
        ensures
            r == *self,
    {
        Block {
            index: self.index,
            interval_id: self.interval_id,
            merkle_root: self.merkle_root.clone(),
            winner_count: self.winner_count,
            timestamp: self.timestamp,
            previous_hash: self.previous_hash.clone(),
            hash: self.hash.clone(),
        }
    }
}

/// The bytes over which a block's hash is computed: every field but the
/// hash itself, fixed-width integers big endian, strings as their UTF-8
/// bytes.
pub open spec fn block_bytes(
    index: u64,
    timestamp: u64,
    interval_id: u64,
    merkle_root: Seq<char>,
    winner_count: u32,
    previous_hash: Seq<char>,
) -> Seq<u8> {
    u64_be(index) + u64_be(timestamp) + u64_be(interval_id) + encode_utf8(merkle_root) + u32_be(
        winner_count,
    ) + encode_utf8(previous_hash)
}

/// A block's hash: the hex SHA-256 digest of its serialised fields.
pub open spec fn block_hash_of(
    index: u64,
    timestamp: u64,
    interval_id: u64,
    merkle_root: Seq<char>,
    winner_count: u32,
    previous_hash: Seq<char>,
) -> Seq<char> {
    hex_of(sha256_of(block_bytes(index, timestamp, interval_id, merkle_root, winner_count,
    previous_hash)))
}

/// Computes a block's hash from its fields.
pub fn calculate_block_hash(
    index: u64,
    timestamp: u64,
    interval_id: u64,
    merkle_root: &String,
    winner_count: u32,
    previous_hash: &String,
) -> (r: String)
    ensures
        r@ == block_hash_of(
            index,
            timestamp,
            interval_id,
            merkle_root@,
            winner_count,
            previous_hash@,
        ),
{
    let mut bytes: Vec<u8> = Vec::new();
    push_u64_be(&mut bytes, index);
    push_u64_be(&mut bytes, timestamp);
    push_u64_be(&mut bytes, interval_id);
    let mut root_bytes = merkle_root.as_str().as_bytes_vec();
    bytes.append(&mut root_bytes);
    push_u32_be(&mut bytes, winner_count);
    let mut prev_bytes = previous_hash.as_str().as_bytes_vec();
    bytes.append(&mut prev_bytes);
    assert(bytes@ =~= block_bytes(
        index,
        timestamp,
        interval_id,
        merkle_root@,
        winner_count,
        previous_hash@,
    ));
    let digest = sha256(&bytes);
    hex_encode(&digest)
}

/// The hash that the next appended block must chain to: the last block's
/// hash, or `"0"` for an empty ledger.
pub open spec fn last_hash(blocks: Seq<Block>) -> Seq<char> {
    if blocks.len() == 0 {
        "0"@
    } else {
        blocks.last().hash@
    }
}

/// The append-only sequence of finalized blocks.
pub struct Ledger {
    blocks: Vec<Block>,
}

impl View for Ledger {
    type V = Seq<Block>;

    closed spec fn view(&self) -> Seq<Block> {
        self.blocks@
    }
}

impl Ledger {
    /// Every block's index is its position: the ledger is gap-free and
    /// 0-based.
    pub open spec fn indices_ok(&self) -> bool {
        forall|i: int| 0 <= i < self@.len() ==> (#[trigger] self@[i]).index == i
    }

    /// Every block names the hash of its predecessor, the first block the
    /// sentinel `"0"`.
    pub open spec fn chained(&self) -> bool {
        forall|i: int|
            0 <= i < self@.len() ==> (#[trigger] self@[i]).previous_hash@ == last_hash(
                self@.take(i),
            )
    }

    /// Every block's hash is the hash of its own fields.
    pub open spec fn hashes_ok(&self) -> bool {
        forall|i: int|
            0 <= i < self@.len() ==> (#[trigger] self@[i]).hash@ == block_hash_of(
                self@[i].index,
                self@[i].timestamp,
                self@[i].interval_id,
                self@[i].merkle_root@,
                self@[i].winner_count,
                self@[i].previous_hash@,
            )
    }

    /// A well-formed ledger: gap-free indices, a complete hash chain and
    /// correct block hashes.
    pub open spec fn wf(&self) -> bool {
        &&& self.indices_ok()
        &&& self.chained()
        &&& self.hashes_ok()
    }

    /// An empty ledger.
    pub fn new() -> (r: Ledger)
        ensures
            r@ == Seq::<Block>::empty(),
            r.wf(),
    {
        let r = Ledger { blocks: Vec::new() };
        proof {
            assert(r@ =~= Seq::<Block>::empty());
        }
        r
    }

    /// The number of blocks.
    pub fn len(&self) -> (r: u64)
        ensures
            r == self@.len(),
    {
        self.blocks.len() as u64
    }

    /// The hash of the newest block, or `"0"` for an empty ledger.
    pub fn get_last_block_hash(&self) -> (r: String)
        ensures
            r@ == last_hash(self@),
    {
        if self.blocks.len() == 0 {
            "0".to_owned()
        } else {
            self.blocks[self.blocks.len() - 1].hash.clone()
        }
    }

    /// Appends one block.  The ledger itself assigns the next index, chains
    /// the previous block's hash and computes the new block's hash; the
    /// result is the new block's index, the old length.
    pub fn append(
        &mut self,
        interval_id: u64,
        merkle_root: String,
        winner_count: u32,
        timestamp: u64,
    ) -> (index: u64)
        requires
            old(self).wf(),
        ensures
            final(self).wf(),
            index == old(self)@.len(),
            final(self)@ == old(self)@.push(final(self)@.last()),
            final(self)@.last().index == old(self)@.len(),
            final(self)@.last().interval_id == interval_id,
            final(self)@.last().merkle_root == merkle_root,
            final(self)@.last().winner_count == winner_count,
            final(self)@.last().timestamp == timestamp,
            final(self)@.last().previous_hash@ == last_hash(old(self)@),
            final(self)@.last().hash@ == block_hash_of(
                old(self)@.len() as u64,
                timestamp,
                interval_id,
                merkle_root@,
                winner_count,
                last_hash(old(self)@),
            ),
    {
        let index = self.blocks.len() as u64;
        let previous_hash = self.get_last_block_hash();
        let hash = calculate_block_hash(
            index,
            timestamp,
            interval_id,
            &merkle_root,
            winner_count,
            &previous_hash,
        );
        let block = Block {
            index,
            interval_id,
            merkle_root,
            winner_count,
            timestamp,
            previous_hash,
            hash,
        };
        self.blocks.push(block);
        proof {
            assert(self@.take(self@.len() - 1) =~= old(self)@);
            assert forall|i: int| 0 <= i < self@.len() implies (#[trigger] self@[i]).previous_hash@
                == last_hash(self@.take(i)) by {
                if i < self@.len() - 1 {
                    assert(self@[i] == old(self)@[i]);
                    assert(self@.take(i) =~= old(self)@.take(i));
                }
            }
        }
        index
    }

    /// The blocks in `[start, start + limit)`, clamped to the ledger: an
    /// out-of-range start yields an empty list, never a failure.
    pub fn get_blockchain(&self, start: u64, limit: u64) -> (r: Vec<Block>)
        ensures
            r@ == self@.subrange(
                vstd::math::min(start as int, self@.len() as int),
                vstd::math::min(start as int + limit as int, self@.len() as int),
            ),
    {
        let len = self.blocks.len() as u64;
        let lo = if start > len {
            len
        } else {
            start
        };
        let hi = match start.checked_add(limit) {
            Some(h) => if h > len {
                len
            } else {
                h
            },
            None => len,
        };
        let mut r: Vec<Block> = Vec::new();
        let mut i = lo;
        proof {
            assert(r@ =~= self@.subrange(lo as int, lo as int));
        }
        while i < hi
            invariant
                lo <= i <= hi,
                hi <= self@.len(),
                self@.len() <= usize::MAX as int,
                r@ == self@.subrange(lo as int, i as int),
            decreases hi - i,
        {
            let b = self.blocks[i as usize].clone();
            r.push(b);
            proof {
                assert(b == self@[i as int]);
                assert(r@ =~= self@.subrange(lo as int, i as int + 1));
            }
            i += 1;
        }
        proof {
            assert(lo as int == vstd::math::min(start as int, self@.len() as int));
            assert(hi as int == vstd::math::min(start as int + limit as int, self@.len() as int));
        }
        r
    }

    /// The newest `count` blocks, oldest first; the whole ledger if it is
    /// shorter than `count`.
    pub fn get_latest_blocks(&self, count: u32) -> (r: Vec<Block>)
        ensures
            r@ == self@.skip(
                vstd::math::max(self@.len() as int - count as int, 0int),
            ),
    {
        let len = self.blocks.len() as u64;
        let start = if len > count as u64 {
            len - count as u64
        } else {
            0
        };
        let r = self.get_blockchain(start, len - start);
        proof {
            assert(r@ =~= self@.skip(vstd::math::max(self@.len() as int - count as int, 0int)));
        }
        r
    }
}

} // verus!
