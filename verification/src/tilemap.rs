//! The concurrent spatial accumulator: many workers append edges into
//! per-quadkey tiles at once, with contention bounded by a fixed number of
//! lock-protected shards.

use vstd::prelude::*;
use vstd::rwlock::{RwLock, RwLockPredicate};
use std::collections::HashMap;
use crate::model::{Edge, Tile};
use crate::tiling::Quadkey;

verus! {

broadcast use vstd::std_specs::hash::group_hash_axioms;

/// How many independently locked shards the map spreads its tiles over.
/// Chosen to keep contention low; not part of any public contract.
pub const NUM_SHARDS: usize = 100;

/// One shard: the tiles whose packed quadkey falls in this shard, plus an
/// index from packed quadkey to the tile's position.
pub struct Shard {
    pub index: HashMap<u128, usize>,
    pub tiles: Vec<(Quadkey, Tile)>,
}

impl Shard {
    pub open spec fn wf(&self, shard_idx: int) -> bool {
        &&& forall|i: int|
            0 <= i < self.tiles@.len() ==> {
                &&& (#[trigger] self.tiles@[i]).0.wf()
                &&& self.tiles@[i].1.wf()
                &&& self.tiles@[i].1.edges@.len() >= 1
                &&& self.tiles@[i].0.spec_packed() % (NUM_SHARDS as int) == shard_idx
            }
        &&& forall|i: int, j: int|
            0 <= i < self.tiles@.len() && 0 <= j < self.tiles@.len() && i != j
                ==> (#[trigger] self.tiles@[i]).0.spec_packed() != (#[trigger] self.tiles@[j]).0.spec_packed()
        &&& forall|i: int|
            0 <= i < self.tiles@.len() ==> self.index@.contains_key(
                ((#[trigger] self.tiles@[i]).0.spec_packed()) as u128,
            ) && self.index@[(self.tiles@[i].0.spec_packed()) as u128] == i
        &&& forall|k: u128|
            self.index@.contains_key(k) ==> 0 <= #[trigger] self.index@[k] < self.tiles@.len()
                && (self.tiles@[self.index@[k] as int].0.spec_packed()) as u128 == k
    }
}

/// The predicate each shard's lock maintains: the shard is well-formed for
/// its position.
pub struct ShardPred {
    pub idx: usize,
}

impl RwLockPredicate<Shard> for ShardPred {
    open spec fn inv(self, v: Shard) -> bool {
        v.wf(self.idx as int)
    }
}

/// A concurrently writable map from quadkey to tile.
///
/// Shards are picked by the packed quadkey modulo the shard count — a hash
/// that is stable within a run — so concurrent inserts contend only when they
/// land in the same shard. `insert` may be called from any number of threads;
/// `collect` consumes the map once the parallel phase is over.
pub struct ParallelQuadkeyMap {
    shards: Vec<RwLock<Shard, ShardPred>>,
}

impl ParallelQuadkeyMap {
    /// Every shard's lock maintains the shard invariant for its position.
    pub closed spec fn wf(&self) -> bool {
        &&& self.shards@.len() == NUM_SHARDS
        &&& forall|i: int|
            0 <= i < NUM_SHARDS ==> (#[trigger] self.shards@[i]).pred() == (ShardPred {
                idx: i as usize,
            })
    }

    /// Creates the map with all shards empty.
    pub fn new() -> (m: ParallelQuadkeyMap)
        ensures
            m.wf(),
    {
        let mut shards: Vec<RwLock<Shard, ShardPred>> = Vec::new();
        let mut i: usize = 0;
        while i < NUM_SHARDS
            invariant
                i <= NUM_SHARDS,
                shards@.len() == i,
                forall|k: int|
                    0 <= k < i ==> (#[trigger] shards@[k]).pred() == (ShardPred {
                        idx: k as usize,
                    }),
            decreases NUM_SHARDS - i,
        {
            let shard = Shard { index: HashMap::new(), tiles: Vec::new() };
            let lock = RwLock::new(shard, Ghost(ShardPred { idx: i }));
            shards.push(lock);
            i += 1;
        }
        ParallelQuadkeyMap { shards }
    }

    /// Appends one edge to the tile of `quadkey`, creating the tile on its
    /// first edge. Safe under arbitrary concurrent callers; no order among
    /// the edges of a tile is promised.
    pub fn insert(&self, quadkey: Quadkey, edge: Edge)
        requires
            self.wf(),
            quadkey.wf(),
            edge.wf(),
    {
        let key: u128 = quadkey.packed();
        let shard_idx: usize = (key % (NUM_SHARDS as u128)) as usize;
        let lock = &self.shards[shard_idx];
        let (mut shard, handle) = lock.acquire_write();
        let mut pos: usize = 0;
        let mut found = false;
        match shard.index.get(&key) {
            Some(i) => {
                pos = *i;
                found = true;
            },
            None => {},
        }
        if found {
            shard.tiles[pos].1.edges.push(edge);
        } else {
            let new_pos = shard.tiles.len();
            shard.index.insert(key, new_pos);
            shard.tiles.push((quadkey, Tile { edges: vec![edge] }));
        }
        handle.release_write(shard);
    }

    /// Drains every shard into one sequence of quadkey–tile pairs. Each pair
    /// carries a distinct, well-formed quadkey; each tile is non-empty and
    /// holds only well-formed edges. No order across or within tiles is
    /// promised.
    pub fn collect(self) -> (r: Vec<(Quadkey, Tile)>)
        requires
            self.wf(),
        ensures
            forall|i: int|
                0 <= i < r@.len() ==> {
                    &&& (#[trigger] r@[i]).0.wf()
                    &&& r@[i].1.wf()
                    &&& r@[i].1.edges@.len() >= 1
                },
            forall|i: int, j: int|
                0 <= i < r@.len() && 0 <= j < r@.len() && i != j ==> (#[trigger] r@[i]).0 != (
                #[trigger] r@[j]).0,
    {
        let mut out: Vec<(Quadkey, Tile)> = Vec::new();
        let mut shards = self.shards;
        loop
            invariant
                shards@.len() <= NUM_SHARDS,
                forall|k: int|
                    0 <= k < shards@.len() ==> (#[trigger] shards@[k]).pred() == (ShardPred {
                        idx: k as usize,
                    }),
                forall|i: int|
                    0 <= i < out@.len() ==> {
                        &&& (#[trigger] out@[i]).0.wf()
                        &&& out@[i].1.wf()
                        &&& out@[i].1.edges@.len() >= 1
                        &&& out@[i].0.spec_packed() % (NUM_SHARDS as int) >= shards@.len()
                    },
                forall|i: int, j: int|
                    0 <= i < out@.len() && 0 <= j < out@.len() && i != j
                        ==> (#[trigger] out@[i]).0.spec_packed() != (#[trigger] out@[j]).0.spec_packed(),
            decreases shards@.len(),
        {
            let popped = shards.pop();
            match popped {
                None => {
                    break;
                },
                Some(lock) => {
                    let ghost shard_idx = shards@.len() as int;
                    let shard = lock.into_inner();
                    let mut tiles = shard.tiles;
                    let ghost old_out = out@;
                    let ghost drained = tiles@;
                    out.append(&mut tiles);
                    proof {
                        assert(out@ == old_out + drained);
                        assert forall|i: int, j: int|
                            0 <= i < out@.len() && 0 <= j < out@.len() && i != j implies (
                        #[trigger] out@[i]).0.spec_packed() != (
                        #[trigger] out@[j]).0.spec_packed() by {
                            let n0 = old_out.len() as int;
                            if i < n0 && j < n0 {
                            } else if i >= n0 && j >= n0 {
                                assert(drained[i - n0] == out@[i]);
                                assert(drained[j - n0] == out@[j]);
                            } else {
                                let (a, b) = if i < n0 {
                                    (i, j)
                                } else {
                                    (j, i)
                                };
                                assert(old_out[a].0.spec_packed() % (NUM_SHARDS as int)
                                    > shard_idx);
                                assert(drained[b - n0].0.spec_packed() % (NUM_SHARDS as int)
                                    == shard_idx);
                            }
                        }
                    }
                },
            }
        }
        proof {
            assert forall|i: int, j: int|
                0 <= i < out@.len() && 0 <= j < out@.len() && i != j implies (
            #[trigger] out@[i]).0 != (#[trigger] out@[j]).0 by {
                assert(out@[i].0.spec_packed() != out@[j].0.spec_packed());
            }
        }
        out
    }
}

} // verus!
