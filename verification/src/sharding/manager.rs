//! Sharding: the key space of data identifiers is cut into `total_shards`
//! ranges of equal width, each served by the first (at most three) nodes.
//! Range bounds are computed with wrapping 64-bit arithmetic, as compiled
//! code does: the upper bound of the last range wraps around, which leaves
//! that range empty (see `lemma_ranges_partition`).
use vstd::prelude::*;
use std::collections::HashMap;
use vstd::std_specs::iter::IteratorSpec;
use vstd::string::StringExecFns;
use crate::HybridConsensusError;

verus! {

broadcast use vstd::std_specs::hash::group_hash_axioms;

#[derive(Debug)]
pub struct Shard {
    pub id: u64,
    pub node_ids: Vec<String>,
    pub data_range: (u64, u64),
}

/// A shard with its node identifiers as characters.
pub struct ShardView {
    pub id: u64,
    pub node_ids: Seq<Seq<char>>,
    pub data_range: (u64, u64),
}

impl View for Shard {
    type V = ShardView;

    open spec fn view(&self) -> ShardView {
        ShardView {
            id: self.id,
            node_ids: self.node_ids@.map_values(|n: String| n@),
            data_range: self.data_range,
        }
    }
}

impl Clone for Shard {
    fn clone(&self) -> (r: Self)
        ensures
            r@ == self@,
    {
        let node_ids = self.node_ids.clone();
        assert(node_ids@.map_values(|n: String| n@) =~= self.node_ids@.map_values(|n: String| n@))
            by {
            assert forall|i: int| 0 <= i < node_ids@.len() implies #[trigger] node_ids@[i]@
                == self.node_ids@[i]@ by {
                assert(cloned::<String>(self.node_ids[i], node_ids[i]));
            }
        }
        Shard { id: self.id, node_ids, data_range: self.data_range }
    }
}

impl ShardView {
    /// Whether the shard's range holds the data identifier.
    pub open spec fn holds(self, data_id: u64) -> bool {
        self.data_range.0 <= data_id && data_id < self.data_range.1
    }

}

pub struct ShardManager {
    shards: HashMap<u64, Shard>,
    total_shards: u64,
    nodes: Vec<String>,
}

/// The abstract state of the shard manager: the shards by identifier, the
/// number of ranges and the nodes in the order they joined.
pub struct ShardTable {
    pub shards: Map<u64, ShardView>,
    pub total_shards: u64,
    pub nodes: Seq<Seq<char>>,
}

impl View for ShardManager {
    type V = ShardTable;

    closed spec fn view(&self) -> ShardTable {
        ShardTable {
            shards: self.shards@.map_values(|s: Shard| s@),
            total_shards: self.total_shards,
            nodes: self.nodes@.map_values(|n: String| n@),
        }
    }
}

/// Every shard is filed under its own identifier.
pub open spec fn keyed_by_id(shards: Map<u64, ShardView>) -> bool {
    forall|k: u64| #[trigger] shards.contains_key(k) ==> shards[k].id == k
}

/// The width of each range: 2^64 / `total` rounded up, in wrapping
/// arithmetic (0 for a single shard).
pub open spec fn shard_size(total: u64) -> u64 {
    (u64::MAX / total).wrapping_add(1)
}

/// The shard with identifier `i`, served by the first (at most three) nodes.
pub open spec fn shard_for(i: u64, total: u64, nodes: Seq<Seq<char>>) -> ShardView {
    let size = shard_size(total);
    ShardView {
        id: i,
        node_ids: nodes.take(if nodes.len() < 3 {
            nodes.len() as int
        } else {
            3
        }),
        data_range: (i.wrapping_mul(size), ((i + 1) as u64).wrapping_mul(size)),
    }
}

/// The table with the shards `0 .. k` written afresh over `nodes`, every
/// other shard kept.
pub open spec fn rebalanced_below(
    shards: Map<u64, ShardView>,
    nodes: Seq<Seq<char>>,
    total: u64,
    k: u64,
) -> Map<u64, ShardView> {
    shards.union_prefer_right(Map::new(|i: u64| i < k, |i: u64| shard_for(i, total, nodes)))
}

/// The table after rebalancing over `nodes`: unchanged without nodes, else
/// every shard `0 .. total` written afresh.
pub open spec fn rebalanced(shards: Map<u64, ShardView>, nodes: Seq<Seq<char>>, total: u64) -> Map<
    u64,
    ShardView,
> {
    if nodes.len() == 0 {
        shards
    } else {
        rebalanced_below(shards, nodes, total, total)
    }
}

/// Some shard of the table holds the data identifier.
pub open spec fn some_shard_holds(shards: Map<u64, ShardView>, data_id: u64) -> bool {
    exists|k: u64| #[trigger] shards.contains_key(k) && shards[k].holds(data_id)
}

/// `list` holds a copy of every shard of the table, each once, in some
/// order.
pub open spec fn lists_shards(list: Seq<Shard>, shards: Map<u64, ShardView>) -> bool {
    exists|keys: Seq<u64>|
        {
            &&& keys.no_duplicates()
            &&& keys.to_set() == shards.dom()
            &&& keys.len() == list.len()
            &&& forall|i: int| 0 <= i < keys.len() ==> #[trigger] list[i]@ == shards[keys[i]]
        }
}

/// The nodes other than `node_id`, in order.
pub open spec fn without(nodes: Seq<Seq<char>>, node_id: Seq<char>) -> Seq<Seq<char>>
    decreases nodes.len(),
{
    if nodes.len() == 0 {
        nodes
    } else {
        let rest = without(nodes.drop_last(), node_id);
        if nodes.last() != node_id {
            rest.push(nodes.last())
        } else {
            rest
        }
    }
}

impl ShardManager {
    /// A manager for `total_shards` ranges, with no nodes and no shards.
    pub fn new(total_shards: u64) -> (r: Self)
        ensures
            r@.shards == Map::<u64, ShardView>::empty(),
            r@.nodes.len() == 0,
            r@.total_shards == total_shards,
            r.well_formed(),
    {
        let r = ShardManager { shards: HashMap::new(), total_shards, nodes: Vec::new() };
        assert(r@.shards =~= Map::<u64, ShardView>::empty());
        assert(r@.nodes =~= Seq::<Seq<char>>::empty());
        r
    }

    /// Every shard is filed under its own identifier.
    pub open spec fn well_formed(&self) -> bool {
        keyed_by_id(self@.shards)
    }

    /// Adds a node and rebalances the shards over all nodes.
    pub fn add_node(&mut self, node_id: String) -> (r: crate::Result<()>)
        requires
            old(self).well_formed(),
            old(self)@.total_shards > 0,
        ensures
            r is Ok,
            final(self).well_formed(),
            final(self)@.total_shards == old(self)@.total_shards,
            final(self)@.nodes == old(self)@.nodes.push(node_id@),
            final(self)@.shards == rebalanced(
                old(self)@.shards,
                final(self)@.nodes,
                old(self)@.total_shards,
            ),
    {
        let ghost id = node_id@;
        self.nodes.push(node_id);
        proof {
            assert(self@.nodes =~= old(self)@.nodes.push(id));
            assert(self@.shards == old(self)@.shards);
        }
        self.rebalance_shards()
    }

    /// Removes every occurrence of a node and rebalances the shards over the
    /// remaining nodes (without nodes the shards are left as they are).
    pub fn remove_node(&mut self, node_id: &str) -> (r: crate::Result<()>)
        requires
            old(self).well_formed(),
            without(old(self)@.nodes, node_id@).len() > 0 ==> old(self)@.total_shards > 0,
        ensures
            r is Ok,
            final(self).well_formed(),
            final(self)@.total_shards == old(self)@.total_shards,
            final(self)@.nodes == without(old(self)@.nodes, node_id@),
            final(self)@.shards == rebalanced(
                old(self)@.shards,
                final(self)@.nodes,
                old(self)@.total_shards,
            ),
    {
        let ghost old_nodes = self@.nodes;
        let target: String = node_id.to_owned();
        let mut kept: Vec<String> = Vec::new();
        let mut i: usize = 0;
        while i < self.nodes.len()
            invariant
                i <= self.nodes@.len(),
                old_nodes == self@.nodes,
                target@ == node_id@,
                kept@.map_values(|n: String| n@) == without(old_nodes.take(i as int), node_id@),
            decreases self.nodes@.len() - i,
        {
            let ghost before = kept@;
            assert(old_nodes.take(i + 1).drop_last() =~= old_nodes.take(i as int));
            assert(old_nodes[i as int] == self.nodes@[i as int]@);
            assert(old_nodes.take(i + 1).last() == self.nodes@[i as int]@);
            if !(self.nodes[i] == target) {
                kept.push(self.nodes[i].clone());
                assert(kept@ == before.push(self.nodes@[i as int]));
                assert(kept@.map_values(|n: String| n@) =~= before.map_values(|n: String| n@).push(
                    self.nodes@[i as int]@,
                ));
            }
            i = i + 1;
        }
        assert(old_nodes.take(i as int) =~= old_nodes);
        self.nodes = kept;
        proof {
            assert(self@.shards == old(self)@.shards);
        }
        self.rebalance_shards()
    }

    /// A shard whose range holds `data_id`; which one, when several do,
    /// depends on the order in which the table is walked.
    pub fn get_shard_for_data(&self, data_id: u64) -> (r: crate::Result<Shard>)
        requires
            self.well_formed(),
        ensures
            r is Ok <==> some_shard_holds(self@.shards, data_id),
            r matches Ok(s) ==> self@.shards.contains_key(s@.id) && self@.shards[s@.id] == s@
                && s@.holds(data_id),
            r matches Err(e) ==> (e matches HybridConsensusError::ConsensusError(m) && m@
                == "No shard found for the given data ID"@),
    {
        let ghost keys = self.shards.keys().remaining().unref();
        for k in it: self.shards.keys()
            invariant
                it.seq().unref() == keys,
                keys.to_set() == self.shards@.dom(),
                self.well_formed(),
                forall|j: int|
                    0 <= j < it.index() ==> !(#[trigger] self@.shards[keys[j]]).holds(data_id),
        {
            proof {
                assert(keys.to_set().contains(keys[it.index() as int]));
            }
            match self.shards.get(k) {
                Some(shard) => {
                    if data_id >= shard.data_range.0 && data_id < shard.data_range.1 {
                        proof {
                            assert(self@.shards.contains_key(*k));
                            assert(self@.shards[*k] == shard@);
                        }
                        return Ok(shard.clone());
                    }
                },
                None => {
                    assert(false);
                },
            }
        }
        proof {
            assert forall|k: u64| #[trigger] self@.shards.contains_key(k) implies !self@.shards[k].holds(
                data_id,
            ) by {
                assert(keys.to_set().contains(k));
                let j = choose|j: int| 0 <= j < keys.len() && keys[j] == k;
                assert(!self@.shards[keys[j]].holds(data_id));
            }
        }
        Err(HybridConsensusError::ConsensusError(String::from_str("No shard found for the given data ID")))
    }

    /// The nodes serving the shard with identifier `shard_id`.
    pub fn get_nodes_for_shard(&self, shard_id: u64) -> (r: crate::Result<Vec<String>>)
        ensures
            self@.shards.contains_key(shard_id) ==> (r matches Ok(ns) && ns@.map_values(
                |n: String| n@,
            ) == self@.shards[shard_id].node_ids),
            !self@.shards.contains_key(shard_id) ==> (r matches Err(
                HybridConsensusError::ConsensusError(m),
            ) && m@ == "Shard not found"@),
    {
        match self.shards.get(&shard_id) {
            Some(shard) => {
                let copy = shard.clone();
                Ok(copy.node_ids)
            },
            None => Err(HybridConsensusError::ConsensusError(String::from_str("Shard not found"))),
        }
    }

    /// Writes every shard `0 .. total_shards` afresh over the current nodes;
    /// without nodes nothing changes.
    fn rebalance_shards(&mut self) -> (r: crate::Result<()>)
        requires
            old(self).well_formed(),
            old(self)@.nodes.len() > 0 ==> old(self)@.total_shards > 0,
        ensures
            r is Ok,
            final(self).well_formed(),
            final(self)@ == (ShardTable {
                shards: rebalanced(old(self)@.shards, old(self)@.nodes, old(self)@.total_shards),
                ..old(self)@
            }),
    {
        let node_count = self.nodes.len();
        if node_count == 0 {
            return Ok(());
        }
        let ghost nodes = self@.nodes;
        let ghost start = self@.shards;
        let size = (u64::MAX / self.total_shards).wrapping_add(1);
        let take: usize = if node_count < 3 { node_count } else { 3 };
        let mut i: u64 = 0;
        assert(self@.shards =~= rebalanced_below(start, nodes, self@.total_shards, 0));
        while i < self.total_shards
            invariant
                i <= self@.total_shards,
                self.well_formed(),
                self@.nodes == nodes,
                self@.total_shards == old(self)@.total_shards,
                self@.total_shards > 0,
                nodes.len() == node_count,
                take == (if node_count < 3 { node_count } else { 3 }),
                size == shard_size(self@.total_shards),
                self@.shards == rebalanced_below(start, nodes, self@.total_shards, i),
            decreases self@.total_shards - i,
        {
            let mut node_ids: Vec<String> = Vec::new();
            let mut j: usize = 0;
            while j < take
                invariant
                    j <= take <= self.nodes@.len(),
                    self@.nodes == nodes,
                    node_ids@.len() == j,
                    node_ids@.map_values(|n: String| n@) == nodes.take(j as int),
                decreases take - j,
            {
                let ghost before = node_ids@;
                assert(nodes[j as int] == self.nodes@[j as int]@);
                node_ids.push(self.nodes[j].clone());
                assert(node_ids@.map_values(|n: String| n@) =~= nodes.take(j + 1)) by {
                    assert(before.map_values(|n: String| n@) =~= nodes.take(j as int));
                    assert(node_ids@[j as int]@ == nodes[j as int]);
                }
                j = j + 1;
            }
            let shard = Shard {
                id: i,
                node_ids,
                data_range: (i.wrapping_mul(size), (i + 1).wrapping_mul(size)),
            };
            let ghost prev = self@.shards;
            proof {
                assert(shard@ == shard_for(i, self@.total_shards, nodes));
            }
            self.shards.insert(i, shard);
            proof {
                assert(self@.shards =~= prev.insert(i, shard_for(i, self@.total_shards, nodes)));
                assert(self@.shards =~= rebalanced_below(start, nodes, self@.total_shards, (i + 1) as u64));
            }
            i = i + 1;
        }
        Ok(())
    }

    /// Copies of all shards, each once, in the order the table is walked.
    pub fn get_all_shards(&self) -> (r: crate::Result<Vec<Shard>>)
        ensures
            r matches Ok(v) && lists_shards(v@, self@.shards),
    {
        let mut keys: Vec<u64> = Vec::new();
        let ghost all = self.shards.keys().remaining().unref();
        for k in it: self.shards.keys()
            invariant
                it.seq().unref() == all,
                all.to_set() == self.shards@.dom(),
                all.no_duplicates(),
                keys@ == all.take(it.index()),
        {
            keys.push(*k);
            proof {
                assert(keys@ =~= all.take(it.index() + 1));
            }
        }
        assert(keys@ =~= all);
        let mut r: Vec<Shard> = Vec::new();
        let mut i: usize = 0;
        while i < keys.len()
            invariant
                keys@ == all,
                all.to_set() == self.shards@.dom(),
                i <= keys@.len(),
                r@.len() == i,
                forall|j: int| 0 <= j < i ==> #[trigger] r@[j]@ == self@.shards[keys@[j]],
            decreases keys@.len() - i,
        {
            let key = keys[i];
            proof {
                assert(all.to_set().contains(key));
            }
            match self.shards.get(&key) {
                Some(shard) => {
                    r.push(shard.clone());
                },
                None => {
                    assert(false);
                },
            }
            i = i + 1;
        }
        proof {
            assert(self@.shards.dom() =~= self.shards@.dom());
            assert(keys@.no_duplicates());
            assert(keys@.to_set() == self@.shards.dom());
            assert(keys@.len() == r@.len());
        }
        Ok(r)
    }

    /// Writes a shard into the table under its identifier, replacing the one
    /// there.
    pub fn update_shard(&mut self, shard: Shard) -> (r: crate::Result<()>)
        requires
            old(self).well_formed(),
        ensures
            r is Ok,
            final(self).well_formed(),
            final(self)@ == (ShardTable {
                shards: old(self)@.shards.insert(shard@.id, shard@),
                ..old(self)@
            }),
    {
        let ghost s = shard@;
        self.shards.insert(shard.id, shard);
        proof {
            assert(self@.shards =~= old(self)@.shards.insert(s.id, s));
        }
        Ok(())
    }
}

/// Rebalancing over at least one node writes every shard `0 .. total` as
/// `shard_for` makes it (served by the first, at most three, nodes, over the
/// `i`-th range), keeps every other shard, and adds no other.
pub proof fn lemma_rebalanced_contents(shards: Map<u64, ShardView>, nodes: Seq<Seq<char>>, total: u64)
    requires
        nodes.len() > 0,
    ensures
        forall|i: u64|
            i < total ==> #[trigger] rebalanced(shards, nodes, total).contains_key(i) && rebalanced(
                shards,
                nodes,
                total,
            )[i] == shard_for(i, total, nodes),
        forall|k: u64|
            k >= total && #[trigger] shards.contains_key(k) ==> rebalanced(
                shards,
                nodes,
                total,
            ).contains_key(k) && rebalanced(shards, nodes, total)[k] == shards[k],
        forall|k: u64|
            #[trigger] rebalanced(shards, nodes, total).contains_key(k) ==> k < total
                || shards.contains_key(k),
{
}

/// Division by a positive width finds the range a number falls in.
proof fn lemma_div_finds_range(x: int, width: int, i: int)
    requires
        width > 0,
        x >= 0,
        i >= 0,
    ensures
        (i * width <= x && x < (i + 1) * width) <==> x / width == i,
{
    let q = x / width;
    assert(x == width * q + x % width && 0 <= x % width < width) by {
        vstd::arithmetic::div_mod::lemma_fundamental_div_mod(x, width);
        vstd::arithmetic::div_mod::lemma_mod_pos_bound(x, width);
    }
    if i * width <= x && x < (i + 1) * width {
        assert(q == i) by (nonlinear_arith)
            requires
                x == width * q + x % width,
                0 <= x % width < width,
                i * width <= x,
                x < (i + 1) * width,
                width > 0,
        {
            if q < i {
                assert(q + 1 <= i);
                assert((q + 1) * width <= i * width);
            } else if q > i {
                assert(i + 1 <= q);
                assert((i + 1) * width <= q * width);
            }
        }
    }
    if q == i {
        assert(i * width <= x && x < (i + 1) * width) by (nonlinear_arith)
            requires
                x == width * q + x % width,
                0 <= x % width < width,
                q == i,
        {
        }
    }
}

/// How the ranges cut the key space of data identifiers. With two or more
/// shards, and `(total - 1)` widths within 64 bits, shard `i` holds an
/// identifier exactly when it is not the last shard and the identifier
/// divided by the width is `i`: the shards before the last cover
/// `[0, (total - 1) * width)` in consecutive ranges, and the last shard's
/// upper bound wraps around, leaving its range empty. With a single shard
/// the width wraps to 0 and its range holds nothing.
pub proof fn lemma_ranges_partition(total: u64, nodes: Seq<Seq<char>>, i: u64, data_id: u64)
    requires
        i < total,
        (total - 1) * shard_size(total) <= u64::MAX,
    ensures
        shard_for(i, total, nodes).holds(data_id) <==> (i + 1 < total && data_id / shard_size(
            total,
        ) == i),
{
    let size = shard_size(total);
    let range = shard_for(i, total, nodes).data_range;
    let m: int = 0x10000000000000000;
    if total == 1 {
        assert(u64::MAX / total == u64::MAX) by (nonlinear_arith)
            requires
                total == 1,
        {
        }
        assert(size == 0);
        assert(range.0 == 0 && range.1 == 0);
    } else {
        let q = u64::MAX / total;
        assert(q <= u64::MAX / 2) by (nonlinear_arith)
            requires
                total >= 2,
                q == u64::MAX / total,
        {
        }
        assert(size == q + 1);
        assert(i * size <= (total - 1) * size) by (nonlinear_arith)
            requires
                i < total,
                size >= 0,
        {
        }
        assert(range.0 == i * size) by {
            vstd::arithmetic::div_mod::lemma_small_mod((i * size) as nat, m as nat);
        }
        if i + 1 < total {
            assert((i + 1) * size <= (total - 1) * size) by (nonlinear_arith)
                requires
                    i + 1 <= total - 1,
                    size >= 0,
            {
            }
            assert(range.1 == (i + 1) * size) by {
                vstd::arithmetic::div_mod::lemma_small_mod(((i + 1) * size) as nat, m as nat);
            }
            lemma_div_finds_range(data_id as int, size as int, i as int);
        } else {
            let r = u64::MAX % total;
            assert(u64::MAX == total * q + r && 0 <= r < total) by {
                vstd::arithmetic::div_mod::lemma_fundamental_div_mod(u64::MAX as int, total as int);
                vstd::arithmetic::div_mod::lemma_mod_pos_bound(u64::MAX as int, total as int);
            }
            let full = total * size;
            assert(full == total * q + total) by (nonlinear_arith)
                requires
                    full == total * size,
                    size == q + 1,
            {
            }
            assert(m <= full < 2 * m);
            assert(range.1 == full - m) by {
                vstd::arithmetic::div_mod::lemma_small_mod((full - m) as nat, m as nat);
                vstd::arithmetic::div_mod::lemma_mod_sub_multiples_vanish(full, m);
            }
            assert(range.0 == full - size) by (nonlinear_arith)
                requires
                    range.0 == i * size,
                    i == total - 1,
                    full == total * size,
            {
            }
            assert(range.1 <= range.0);
        }
    }
}

/// After rebalancing over at least one node a table with no shard numbered
/// `total` or above, a data identifier is held by some shard exactly when it
/// lies below `(total - 1)` range widths, and then only by the shard whose
/// number is the identifier divided by the width.
pub proof fn lemma_rebalanced_lookup(
    shards: Map<u64, ShardView>,
    nodes: Seq<Seq<char>>,
    total: u64,
    data_id: u64,
)
    requires
        nodes.len() > 0,
        total > 0,
        (total - 1) * shard_size(total) <= u64::MAX,
        forall|k: u64| #[trigger] shards.contains_key(k) ==> k < total,
    ensures
        some_shard_holds(rebalanced(shards, nodes, total), data_id) <==> data_id < (total - 1)
            * shard_size(total),
        forall|k: u64|
            #[trigger] rebalanced(shards, nodes, total).contains_key(k) && rebalanced(
                shards,
                nodes,
                total,
            )[k].holds(data_id) ==> k == data_id / shard_size(total),
{
    let table = rebalanced(shards, nodes, total);
    let size = shard_size(total);
    lemma_rebalanced_contents(shards, nodes, total);
    assert forall|k: u64| #[trigger] table.contains_key(k) && table[k].holds(data_id) implies k
        == data_id / size && data_id < (total - 1) * size by {
        lemma_ranges_partition(total, nodes, k, data_id);
        lemma_div_finds_range(data_id as int, size as int, k as int);
        assert((k + 1) * size <= (total - 1) * size) by (nonlinear_arith)
            requires
                k + 1 <= total - 1,
                size >= 0,
        {
        }
    }
    if data_id < (total - 1) * size {
        assert(size > 0 && total >= 2) by (nonlinear_arith)
            requires
                data_id < (total - 1) * size,
                data_id >= 0,
                size >= 0,
                total >= 1,
        {
        }
        let i = data_id / size;
        assert(i + 1 < total) by {
            lemma_div_finds_range(data_id as int, size as int, i as int);
            if i + 1 >= total {
                assert((total - 1) * size <= i * size) by (nonlinear_arith)
                    requires
                        total - 1 <= i,
                        size >= 0,
                {
                }
            }
        }
        lemma_ranges_partition(total, nodes, i, data_id);
        assert(table.contains_key(i) && table[i].holds(data_id));
    }
}

} // verus!
