//! The values that nodes report about themselves and their blocks.

use crate::byte_order::{
    bytes_lt, compare_bytes, lemma_bytes_lt_irreflexive, lemma_bytes_lt_total,
    lemma_bytes_lt_transitive, Rank,
};
use vstd::prelude::*;

verus! {

/// Height of a block in its chain.
pub type BlockNumber = u64;

/// Milliseconds since the Unix epoch.
pub type Timestamp = u64;

/// The view of an optional value is the optional view.
pub open spec fn view_opt<T: View>(o: Option<T>) -> Option<T::V> {
    match o {
        Some(t) => Some(t@),
        None => None,
    }
}

/// The view of a sequence of values is the sequence of their views.
pub open spec fn view_seq<T: View>(s: Seq<T>) -> Seq<T::V> {
    s.map_values(|t: T| t@)
}

/// A 32-byte block or genesis hash. Hashes are ordered by their bytes.
#[derive(Clone, Copy, Debug)]
pub struct BlockHash {
    pub bytes: [u8; 32],
}

/// Hash `a` precedes hash `b`.
pub open spec fn hash_lt(a: BlockHash, b: BlockHash) -> bool {
    bytes_lt(a.bytes@, b.bytes@)
}

/// Precedence of hashes is transitive.
pub proof fn lemma_hash_lt_transitive(a: BlockHash, b: BlockHash, c: BlockHash)
    requires
        hash_lt(a, b),
        hash_lt(b, c),
    ensures
        hash_lt(a, c),
{
    lemma_bytes_lt_transitive(a.bytes@, b.bytes@, c.bytes@);
}

/// Of two hashes exactly one holds: the first precedes, they are equal, or
/// the second precedes.
pub proof fn lemma_hash_lt_total(a: BlockHash, b: BlockHash)
    ensures
        hash_lt(a, b) || hash_lt(b, a) || a == b,
        !(hash_lt(a, b) && hash_lt(b, a)),
        a == b ==> !hash_lt(a, b),
{
    lemma_bytes_lt_total(a.bytes@, b.bytes@);
    if a.bytes@ == b.bytes@ {
        assert(a.bytes =~= b.bytes);
    }
}

/// The hash whose bytes are all zero.
pub open spec fn zero_hash() -> BlockHash {
    choose|h: BlockHash| h.bytes@ == Seq::new(32, |i: int| 0u8)
}

/// The block of height zero with the zero hash.
pub open spec fn zero_block() -> Block {
    Block { hash: zero_hash(), height: 0 }
}

impl BlockHash {
    /// The hash whose bytes are all zero.
    pub fn zero() -> (r: Self)
        ensures
            r == zero_hash(),
            r.bytes@ == Seq::new(32, |i: int| 0u8),
    {
        let r = BlockHash { bytes: [0u8; 32] };
        assert(r.bytes@ =~= Seq::new(32, |i: int| 0u8));
        assert(r.bytes =~= zero_hash().bytes);
        r
    }

    /// Wraps 32 bytes.
    pub fn from_bytes(bytes: [u8; 32]) -> (r: Self)
        ensures
            r.bytes == bytes,
    {
        BlockHash { bytes }
    }

    /// The spec-level three-way comparison of two hashes.
    pub open spec fn rank_spec(self, other: BlockHash) -> Rank {
        if hash_lt(self, other) {
            Rank::Below
        } else if self == other {
            Rank::Same
        } else {
            Rank::Above
        }
    }

    /// Compares two hashes byte by byte.
    pub fn rank(&self, other: &BlockHash) -> (r: Rank)
        ensures
            r == self.rank_spec(*other),
    {
        let r = compare_bytes(self.bytes.as_slice(), other.bytes.as_slice());
        proof {
            if self.bytes@ == other.bytes@ {
                assert(self.bytes =~= other.bytes);
            }
        }
        r
    }

    /// Whether two hashes hold the same bytes.
    pub fn same(&self, other: &BlockHash) -> (r: bool)
        ensures
            r == (*self == *other),
    {
        proof {
            lemma_bytes_lt_irreflexive(self.bytes@);
        }
        match self.rank(other) {
            Rank::Same => true,
            _ => false,
        }
    }
}

/// A block: its hash and its height.
#[derive(Clone, Copy, Debug)]
pub struct Block {
    pub hash: BlockHash,
    pub height: BlockNumber,
}

impl Block {
    /// The block of height zero with the zero hash, where every node starts.
    pub fn zero() -> (r: Self)
        ensures
            r == zero_block(),
    {
        Block { hash: BlockHash::zero(), height: 0 }
    }
}

/// What is known about a node's best block.
#[derive(Clone, Copy, Debug)]
pub struct BlockDetails {
    pub block: Block,
    /// Time between the last two updates of the best block, in ms.
    pub block_time: u64,
    /// When the best block was last updated.
    pub block_timestamp: Timestamp,
    pub propagation_time: Option<u64>,
    pub proposal_time: Option<u64>,
    pub sync_time: Option<u64>,
    pub import_time: Option<u64>,
}

impl BlockDetails {
    /// The details of a node that has reported no block yet, as of `now`.
    pub open spec fn start(now: Timestamp) -> BlockDetails {
        BlockDetails {
            block: zero_block(),
            block_time: 0,
            block_timestamp: now,
            propagation_time: None,
            proposal_time: None,
            sync_time: None,
            import_time: None,
        }
    }

    /// The details of a node that has reported no block yet, as of `now`.
    pub fn starting_at(now: Timestamp) -> (r: Self)
        ensures
            r == BlockDetails::start(now),
    {
        BlockDetails {
            block: Block::zero(),
            block_time: 0,
            block_timestamp: now,
            propagation_time: None,
            proposal_time: None,
            sync_time: None,
            import_time: None,
        }
    }
}

/// Counters that a node reports at intervals.
#[derive(Clone, Copy, Debug)]
pub struct NodeStats {
    pub peers: u64,
    pub txcount: u64,
}

impl NodeStats {
    /// No peers and no transactions.
    pub fn new() -> (r: Self)
        ensures
            r.peers == 0,
            r.txcount == 0,
    {
        NodeStats { peers: 0, txcount: 0 }
    }
}

/// Results of a node's hardware benchmark.
#[derive(Clone, Copy, Debug)]
pub struct NodeHwBench {
    pub cpu_hashrate_score: u64,
    pub memory_memcpy_score: u64,
    pub disk_sequential_write_score: Option<u64>,
    pub disk_random_write_score: Option<u64>,
}

/// Where a node is. The coordinates are carried as the bit patterns of
/// single-precision numbers; nothing here computes with them.
#[derive(Debug)]
pub struct NodeLocation {
    pub latitude_bits: u32,
    pub longitude_bits: u32,
    pub city: String,
}

/// A location with its city as text.
pub ghost struct NodeLocationView {
    pub latitude_bits: u32,
    pub longitude_bits: u32,
    pub city: Seq<char>,
}

impl View for NodeLocation {
    type V = NodeLocationView;

    open spec fn view(&self) -> NodeLocationView {
        NodeLocationView {
            latitude_bits: self.latitude_bits,
            longitude_bits: self.longitude_bits,
            city: self.city@,
        }
    }
}

/// What a node says of itself when it connects.
#[derive(Debug)]
pub struct NodeDetails {
    pub chain: String,
    pub name: String,
    pub implementation: String,
    pub version: String,
    pub validator: Option<String>,
    pub network_id: String,
    pub startup_time: Option<String>,
    pub is_authority: Option<bool>,
}

/// A node's details with every text as a sequence of characters.
pub ghost struct NodeDetailsView {
    pub chain: Seq<char>,
    pub name: Seq<char>,
    pub implementation: Seq<char>,
    pub version: Seq<char>,
    pub validator: Option<Seq<char>>,
    pub network_id: Seq<char>,
    pub startup_time: Option<Seq<char>>,
    pub is_authority: Option<bool>,
}

impl View for NodeDetails {
    type V = NodeDetailsView;

    open spec fn view(&self) -> NodeDetailsView {
        NodeDetailsView {
            chain: self.chain@,
            name: self.name@,
            implementation: self.implementation@,
            version: self.version@,
            validator: view_opt(self.validator),
            network_id: self.network_id@,
            startup_time: view_opt(self.startup_time),
            is_authority: self.is_authority,
        }
    }
}

/// A copy of an optional text.
pub fn copy_text_opt(text: &Option<String>) -> (r: Option<String>)
    ensures
        view_opt(r) == view_opt(*text),
{
    match text {
        Some(s) => Some(s.clone()),
        None => None,
    }
}

impl Clone for NodeDetails {
    fn clone(&self) -> (r: Self)
        ensures
            r@ == self@,
    {
        NodeDetails {
            chain: self.chain.clone(),
            name: self.name.clone(),
            implementation: self.implementation.clone(),
            version: self.version.clone(),
            validator: copy_text_opt(&self.validator),
            network_id: self.network_id.clone(),
            startup_time: copy_text_opt(&self.startup_time),
            is_authority: self.is_authority,
        }
    }
}

impl Clone for NodeLocation {
    fn clone(&self) -> (r: Self)
        ensures
            r@ == self@,
    {
        NodeLocation {
            latitude_bits: self.latitude_bits,
            longitude_bits: self.longitude_bits,
            city: self.city.clone(),
        }
    }
}

} // verus!
