//! The approximate index: a hierarchical navigable small-world graph.
//!
//! Layer 0 holds every item; each higher layer holds a geometrically
//! thinning subset.  A query greedily descends from the top layer's
//! entry point and runs a bounded best-first search at the base.  The
//! graph never interprets distances itself: a caller-supplied kernel
//! maps two feature values to a `u32`, and the graph orders those words
//! as plain integers.  (For IEEE-754 single-precision distances, which
//! are non-negative, the bit pattern orders exactly as the float does,
//! so callers hand in distance bits.)
//!
//! Neighbor lists are bounded: at most `M0` per node on layer 0 and at
//! most `M` on the layers above, with worst-neighbor replacement once a
//! list is full.

use vstd::prelude::*;

verus! {

use rand::rngs::SmallRng;
use rand::{RngCore, SeedableRng};
use vstd::seq_lib::*;
use vstd::set_lib::*;

#[verifier::external_type_specification]
#[verifier::external_body]
pub struct ExSmallRng(SmallRng);

/// Relies on rand's `SeedableRng::seed_from_u64`: builds a generator
/// from the seed.
#[verifier::external_body]
fn rng_from_seed(seed: u64) -> SmallRng {
    SmallRng::seed_from_u64(seed)
}

/// Relies on rand's `RngCore::next_u64`; nothing is promised of the
/// value, which depends on the generator's state.
#[verifier::external_body]
fn rng_next_u64(rng: &mut SmallRng) -> u64 {
    rng.next_u64()
}

/// Which layer a search walks: the base layer or a numbered one above.
pub enum Layer<T> {
    Zero,
    NonZero(T),
}

/// A candidate or result of a layer search: a node's index within the
/// searched layer and its distance word from the query.
#[derive(Clone, Copy, Debug)]
pub struct Neighbor {
    pub index: usize,
    pub distance: u32,
}

/// Distances never decrease along the list.
pub open spec fn sorted_by_distance(s: Seq<Neighbor>) -> bool {
    forall|i: int, j: int| 0 <= i <= j < s.len() ==> s[i].distance <= s[j].distance
}

/// The bounded working state of one layer search: unexplored
/// candidates, the best nodes seen so far in ascending distance order,
/// and the base-layer indices already expanded.
#[derive(Clone, Debug)]
pub struct Searcher {
    pub candidates: Vec<Neighbor>,
    pub nearest: Vec<Neighbor>,
    pub seen: Vec<usize>,
}

/// Candidate and result indices stay inside the searched layer, the
/// result list stays sorted, and the expansion record holds distinct
/// base-layer indices.
pub open spec fn searcher_wf(s: Searcher, layer_len: int, zero_len: int) -> bool {
    &&& forall|i: int| 0 <= i < s.candidates@.len() ==> (#[trigger] s.candidates@[i]).index < layer_len
    &&& forall|i: int| 0 <= i < s.nearest@.len() ==> (#[trigger] s.nearest@[i]).index < layer_len
    &&& sorted_by_distance(s.nearest@)
    &&& forall|i: int| 0 <= i < s.seen@.len() ==> (#[trigger] s.seen@[i]) < zero_len
    &&& s.seen@.no_duplicates()
}

impl Searcher {
    /// A searcher primed with the given candidates.
    pub fn new(candidates: Vec<Neighbor>) -> (r: Searcher)
        ensures
            r.candidates@ == candidates@,
            r.nearest@.len() == 0,
            r.seen@.len() == 0,
    {
        Searcher { candidates, nearest: Vec::new(), seen: Vec::new() }
    }

    /// Empties all three working lists.
    pub fn clear(&mut self)
        ensures
            final(self).candidates@.len() == 0,
            final(self).nearest@.len() == 0,
            final(self).seen@.len() == 0,
    {
        self.candidates.clear();
        self.nearest.clear();
        self.seen.clear();
    }
}

/// Lets a node hand out its live neighbor indices.
pub trait HasNeighbors {
    /// The node's neighbor indices, in list order.
    fn get_neighbors(&self) -> Vec<usize>;
}

/// The bounded neighbor list of a base-layer node: at most `N` indices.
#[derive(Clone, Debug)]
pub struct NeighborNodes<const N: usize> {
    pub neighbors: Vec<usize>,
}

impl<const N: usize> NeighborNodes<N> {
    /// The list respects its bound and every index lies under `limit`.
    pub open spec fn wf(self, limit: int) -> bool {
        &&& self.neighbors@.len() <= N
        &&& forall|i: int| 0 <= i < self.neighbors@.len() ==> (#[trigger] self.neighbors@[i]) < limit
    }
}

impl<const N: usize> HasNeighbors for NeighborNodes<N> {
    fn get_neighbors(&self) -> Vec<usize> {
        copy_indices(&self.neighbors)
    }
}

/// A node of a layer above the base: its neighbor list, the base-layer
/// node it stands for, and the node it continues as one layer below.
#[derive(Clone, Debug)]
pub struct Node<const N: usize> {
    pub zero_node: usize,
    pub next_node: usize,
    pub neighbors: NeighborNodes<N>,
}

impl<const N: usize> Node<N> {
    /// Neighbors stay inside this layer, the base link inside the base
    /// layer, and the descent link inside the layer below.
    pub open spec fn wf(self, layer_len: int, zero_len: int, next_len: int) -> bool {
        &&& self.neighbors.wf(layer_len)
        &&& self.zero_node < zero_len
        &&& self.next_node < next_len
    }
}

impl<const N: usize> HasNeighbors for Node<N> {
    fn get_neighbors(&self) -> Vec<usize> {
        copy_indices(&self.neighbors.neighbors)
    }
}

/// Copies an index list.
fn copy_indices(v: &Vec<usize>) -> (r: Vec<usize>)
    ensures
        r@ == v@,
{
    let mut r: Vec<usize> = Vec::new();
    let mut i: usize = 0;
    while i < v.len()
        invariant
            0 <= i <= v@.len(),
            r@ == v@.take(i as int),
        decreases v@.len() - i,
    {
        r.push(v[i]);
        proof {
            assert(v@.take(i + 1) =~= v@.take(i as int).push(v@[i as int]));
        }
        i = i + 1;
    }
    proof {
        assert(v@.take(v@.len() as int) =~= v@);
    }
    r
}

/// Copies a neighbor list.
fn copy_neighbors(v: &Vec<Neighbor>) -> (r: Vec<Neighbor>)
    ensures
        r@ == v@,
{
    let mut r: Vec<Neighbor> = Vec::new();
    let mut i: usize = 0;
    while i < v.len()
        invariant
            0 <= i <= v@.len(),
            r@ == v@.take(i as int),
        decreases v@.len() - i,
    {
        r.push(v[i]);
        proof {
            assert(v@.take(i + 1) =~= v@.take(i as int).push(v@[i as int]));
        }
        i = i + 1;
    }
    proof {
        assert(v@.take(v@.len() as int) =~= v@);
    }
    r
}

/// Distinct values below a bound cannot outnumber the bound.
proof fn lemma_distinct_bounded(s: Seq<usize>, n: nat)
    requires
        s.no_duplicates(),
        forall|i: int| 0 <= i < s.len() ==> (#[trigger] s[i]) < n,
    ensures
        s.len() <= n,
{
    broadcast use vstd::set::group_set_axioms;

    let t = s.map_values(|x: usize| x as int);
    assert(t.no_duplicates()) by {
        assert forall|i: int, j: int|
            0 <= i < t.len() && 0 <= j < t.len() && i != j implies t[i] != t[j] by {
            assert(s[i] != s[j]);
        }
    }
    t.unique_seq_to_set();
    lemma_int_range(0, n as int);
    assert(t.to_set().subset_of(set_int_range(0, n as int))) by {
        assert forall|e: int| t.to_set().contains(e) implies set_int_range(0, n as int).contains(
            e,
        ) by {
            assert(t.contains(e));
            let i = choose|i: int| 0 <= i < t.len() && t[i] == e;
            assert(s[i] < n);
        }
    }
    lemma_len_subset(t.to_set(), set_int_range(0, n as int));
}

/// Whether a list contains an index.
fn contains_usize(v: &Vec<usize>, x: usize) -> (r: bool)
    ensures
        r == v@.contains(x),
{
    let mut i: usize = 0;
    while i < v.len()
        invariant
            0 <= i <= v@.len(),
            forall|j: int| 0 <= j < i ==> v@[j] != x,
        decreases v@.len() - i,
    {
        if v[i] == x {
            return true;
        }
        i = i + 1;
    }
    false
}

/// Appending a fresh element keeps a list duplicate-free.
proof fn lemma_no_dup_push(s: Seq<usize>, x: usize)
    requires
        s.no_duplicates(),
        !s.contains(x),
    ensures
        s.push(x).no_duplicates(),
{
    assert forall|i: int, j: int|
        0 <= i < s.push(x).len() && 0 <= j < s.push(x).len() && i != j implies s.push(x)[i]
        != s.push(x)[j] by {
        if i < s.len() && j < s.len() {
            assert(s[i] != s[j]);
        } else if i < s.len() {
            assert(s[i] != x);
        } else if j < s.len() {
            assert(s[j] != x);
        }
    }
}

/// The distance word `d` is an output of the kernel on the two feature
/// values, exactly as the kernel saw them (by reference).  A kernel may
/// be nondeterministic, so this names one of its possible outputs.
pub open spec fn is_score<T, F: Fn(&T, &T) -> u32>(f: F, x: T, y: T, d: u32) -> bool {
    exists|a: &T, b: &T| *a == x && *b == y && call_ensures(f, (a, b), d)
}

/// How one neighbor-list offer resolves under the worst-neighbor
/// replacement rule: a list with room appends the newcomer's index; a
/// full list replaces the entry whose feature scores farthest from the
/// host's feature, and only when the newcomer scores closer to the
/// host than that entry; a full list of capacity zero stays as it is.
pub open spec fn offer_resolved<T, F: Fn(&T, &T) -> u32>(
    f: F,
    host: T,
    newcomer: T,
    node_ix: usize,
    old_list: Seq<usize>,
    new_list: Seq<usize>,
    nbr_feats: Seq<T>,
    cap: int,
) -> bool {
    &&& old_list.len() < cap ==> new_list == old_list.push(node_ix)
    &&& old_list.len() >= cap && old_list.len() == 0 ==> new_list == old_list
    &&& old_list.len() >= cap && old_list.len() > 0 ==> exists|ds: Seq<u32>, dq: u32, w: int|
        {
            &&& ds.len() == old_list.len()
            &&& 0 <= w < ds.len()
            &&& forall|u: int| 0 <= u < ds.len() ==> is_score(f, host, nbr_feats[u], #[trigger] ds[u])
            &&& forall|u: int| 0 <= u < ds.len() ==> #[trigger] ds[u] <= ds[w]
            &&& is_score(f, newcomer, host, dq)
            &&& (dq < ds[w] ==> new_list == old_list.update(w, node_ix))
            &&& (dq >= ds[w] ==> new_list == old_list)
        }
}

/// The hierarchical navigable small-world graph.  `M` caps the
/// neighbor lists of the layers above the base; `M0` caps the base
/// layer's.
pub struct Hnsw<T, F, const M: usize, const M0: usize> where F: Fn(&T, &T) -> u32 {
    distance_fn: F,
    zero: Vec<NeighborNodes<M0>>,
    features: Vec<T>,
    layers: Vec<Vec<Node<M>>>,
    prng: SmallRng,
    ef_construction: usize,
}

impl<T, F, const M: usize, const M0: usize> Hnsw<T, F, M, M0> where F: Fn(&T, &T) -> u32 {
    /// The feature of every inserted item, in insertion order.
    pub closed spec fn spec_features(self) -> Seq<T> {
        self.features@
    }

    /// The base layer's neighbor lists.
    pub closed spec fn spec_zero(self) -> Seq<NeighborNodes<M0>> {
        self.zero@
    }

    /// The layers above the base, bottom first.
    pub closed spec fn spec_layers(self) -> Seq<Seq<Node<M>>> {
        Seq::new(self.layers@.len(), |l: int| self.layers@[l]@)
    }

    /// The candidate pool bound used while building.
    pub closed spec fn spec_ef_construction(self) -> int {
        self.ef_construction as int
    }

    /// The caller's distance kernel accepts any two features.
    pub closed spec fn dist_total(self) -> bool {
        forall|a: &T, b: &T| call_requires(self.distance_fn, (a, b))
    }

    /// Structural well-formedness: every base node has one feature and
    /// at most `M0` neighbors inside the base layer; every upper-layer
    /// node has at most `M` neighbors inside its layer, a base link,
    /// and a descent link into the layer below; layers are never empty
    /// while they exist, and only a non-empty graph has upper layers.
    pub closed spec fn wf(self) -> bool {
        &&& self.zero@.len() == self.features@.len()
        &&& forall|i: int|
            0 <= i < self.zero@.len() ==> (#[trigger] self.zero@[i]).wf(self.zero@.len() as int)
        &&& forall|l: int| 0 <= l < self.layers@.len() ==> (#[trigger] self.layers@[l])@.len() >= 1
        &&& forall|l: int, i: int|
            0 <= l < self.layers@.len() && 0 <= i < self.layers@[l]@.len() ==> (
            #[trigger] self.layers@[l]@[i]).wf(
                self.layers@[l]@.len() as int,
                self.zero@.len() as int,
                if l == 0 {
                    self.zero@.len() as int
                } else {
                    self.layers@[l - 1]@.len() as int
                },
            )
        &&& self.layers@.len() > 0 ==> self.zero@.len() > 0
        &&& self.layers@.len() > 0 ==> forall|i: int|
            0 <= i < self.layers@[0]@.len() ==> (#[trigger] self.layers@[0]@[i]).next_node
                == self.layers@[0]@[i].zero_node
        &&& forall|l: int, i: int|
            1 <= l < self.layers@.len() && 0 <= i < self.layers@[l]@.len() ==> (
            #[trigger] self.layers@[l]@[i]).zero_node == self.layers@[l - 1]@[self.layers@[l]@[i].next_node as int].zero_node
        &&& self.layers@.len() <= 64
        &&& self.ef_construction >= 1
    }

    /// How many nodes a layer search may touch as indices.
    pub closed spec fn spec_layer_len_of(self, layer: Layer<usize>) -> int {
        match layer {
            Layer::Zero => self.zero@.len() as int,
            Layer::NonZero(ix) => self.layers@[ix as int]@.len() as int,
        }
    }

    /// The kernel the graph was built over.
    pub closed spec fn spec_distance_fn(self) -> F {
        self.distance_fn
    }

    /// The base-layer index a search entry on the given layer stands
    /// for.
    pub closed spec fn spec_zero_of(self, layer: Layer<usize>, idx: int) -> int {
        match layer {
            Layer::Zero => idx,
            Layer::NonZero(ix) => self.layers@[ix as int]@[idx].zero_node as int,
        }
    }

    /// Every entry's distance word is the kernel's score of the query
    /// against the feature its index stands for on the given layer.
    spec fn entries_scored(self, q: T, entries: Seq<Neighbor>, layer: Layer<usize>) -> bool {
        forall|i: int|
            #![trigger entries[i]]
            0 <= i < entries.len() ==> is_score(
                self.distance_fn,
                q,
                self.features@[self.spec_zero_of(layer, entries[i].index as int)],
                entries[i].distance,
            )
    }

    /// Every base-layer result's distance word is the kernel's score
    /// of the query against the feature the result names.
    pub open spec fn results_scored(self, q: T, entries: Seq<Neighbor>) -> bool {
        forall|i: int|
            #![trigger entries[i]]
            0 <= i < entries.len() ==> 0 <= entries[i].index < self.spec_features().len()
                && is_score(
                self.spec_distance_fn(),
                q,
                self.spec_features()[entries[i].index as int],
                entries[i].distance,
            )
    }

    /// A new, empty index.  The candidate pool bound defaults to 400
    /// and is never taken below one.
    pub fn new(distance_fn: F, ef_construction: Option<usize>) -> (r: Hnsw<T, F, M, M0>)
        ensures
            r.wf(),
            r.spec_features().len() == 0,
            r.spec_layers().len() == 0,
            r.spec_ef_construction() == match ef_construction {
                Some(ef) => if ef >= 1 {
                    ef as int
                } else {
                    1
                },
                None => 400,
            },
            r.spec_distance_fn() == distance_fn,
            (forall|a: &T, b: &T| call_requires(distance_fn, (a, b))) ==> r.dist_total(),
    {
        let ef = match ef_construction {
            Some(ef) => if ef >= 1 {
                ef
            } else {
                1
            },
            None => 400,
        };
        let r = Hnsw {
            distance_fn,
            zero: Vec::new(),
            features: Vec::new(),
            layers: Vec::new(),
            prng: rng_from_seed(0x5eed),
            ef_construction: ef,
        };
        r
    }

    /// Number of inserted items.
    pub fn len(&self) -> (r: usize)
        ensures
            r == self.spec_features().len(),
    {
        self.features.len()
    }

    /// Whether the index holds nothing yet.
    pub fn is_empty(&self) -> (r: bool)
        requires
            self.wf(),
        ensures
            r == (self.spec_features().len() == 0),
    {
        self.zero.is_empty()
    }

    /// Number of layers, the base layer included.
    pub fn layers(&self) -> (r: usize)
        requires
            self.wf(),
        ensures
            r == self.spec_layers().len() + 1,
    {
        self.layers.len() + 1
    }

    /// Number of nodes on the given layer; zero for a layer that does
    /// not exist.
    pub fn layer_len(&self, level: usize) -> (r: usize)
        requires
            self.wf(),
        ensures
            r as int == if level == 0 {
                self.spec_features().len() as int
            } else if level <= self.spec_layers().len() {
                self.spec_layers()[level - 1].len() as int
            } else {
                0
            },
    {
        if level == 0 {
            self.features.len()
        } else if level < self.layers.len() + 1 {
            self.layers[level - 1].len()
        } else {
            0
        }
    }

    /// Whether the given layer holds no node.
    pub fn layer_is_empty(&self, level: usize) -> (r: bool)
        requires
            self.wf(),
        ensures
            r == (self.layer_len_spec(level) == 0),
    {
        self.layer_len(level) == 0
    }

    /// Ghost counterpart of [`Self::layer_len`].
    pub open spec fn layer_len_spec(self, level: usize) -> int {
        if level == 0 {
            self.spec_features().len() as int
        } else if level <= self.spec_layers().len() {
            self.spec_layers()[level - 1].len() as int
        } else {
            0
        }
    }

    /// How many neighbors a node holds; never more than the cap of
    /// its layer.
    pub fn neighbor_count(&self, level: usize, item: usize) -> (r: usize)
        requires
            self.wf(),
            item < self.layer_len_spec(level),
        ensures
            level == 0 ==> r <= M0,
            level >= 1 ==> r <= M,
    {
        if level == 0 {
            proof {
                assert(self.zero@[item as int].wf(self.zero@.len() as int));
            }
            self.zero[item].neighbors.len()
        } else {
            proof {
                assert(self.layers@[level - 1]@[item as int].wf(
                    self.layers@[level - 1]@.len() as int,
                    self.zero@.len() as int,
                    if level - 1 == 0 {
                        self.zero@.len() as int
                    } else {
                        self.layers@[level - 2]@.len() as int
                    },
                ));
            }
            self.layers[level - 1][item].neighbors.neighbors.len()
        }
    }

    /// The feature of a base-layer node.
    pub fn feature(&self, item: usize) -> (r: &T)
        requires
            item < self.spec_features().len(),
        ensures
            *r == self.spec_features()[item as int],
    {
        &self.features[item]
    }

    /// Maps a node of any layer to its base-layer index.
    pub fn layer_item_id(&self, level: usize, item: usize) -> (r: usize)
        requires
            self.wf(),
            item < self.layer_len_spec(level),
        ensures
            r < self.spec_features().len(),
            level == 0 ==> r == item,
    {
        if level == 0 {
            item
        } else {
            self.layers[level - 1][item].zero_node
        }
    }

    /// The feature a node of any layer stands for.
    pub fn layer_feature(&self, level: usize, item: usize) -> (r: &T)
        requires
            self.wf(),
            item < self.layer_len_spec(level),
    {
        &self.features[self.layer_item_id(level, item)]
    }

    /// The feature of the entry point: the first node of the top
    /// layer, or the first item when only the base layer exists.
    fn entry_feature(&self) -> (r: &T)
        requires
            self.wf(),
            self.spec_features().len() > 0,
        ensures
            self.spec_layers().len() > 0 ==> *r == self.spec_features()[self.spec_layers().last()[0].zero_node as int],
            self.spec_layers().len() == 0 ==> *r == self.spec_features()[0],
    {
        if self.layers.len() > 0 {
            let last = self.layers.len() - 1;
            &self.features[self.layers[last][0].zero_node]
        } else {
            &self.features[0]
        }
    }

    /// The base-layer index of the entry point.
    fn entry_zero_node(&self) -> (r: usize)
        requires
            self.wf(),
            self.spec_features().len() > 0,
        ensures
            r < self.spec_features().len(),
    {
        if self.layers.len() > 0 {
            let last = self.layers.len() - 1;
            self.layers[last][0].zero_node
        } else {
            0
        }
    }

    /// Primes the searcher on the entry point: one candidate, one
    /// result, the entry marked as expanded.
    fn initialize_searcher(&self, q: &T, searcher: &mut Searcher)
        requires
            self.wf(),
            self.dist_total(),
            self.spec_features().len() > 0,
        ensures
            final(searcher).candidates@.len() == 1,
            final(searcher).nearest@.len() == 1,
            final(searcher).seen@.len() == 1,
            final(searcher).candidates@[0].index == 0,
            final(searcher).nearest@[0].index == 0,
            searcher_wf(
                *final(searcher),
                if self.spec_layers().len() > 0 {
                    self.spec_layers().last().len() as int
                } else {
                    self.spec_features().len() as int
                },
                self.spec_features().len() as int,
            ),
            ({
                let top = if self.spec_layers().len() > 0 {
                    Layer::NonZero((self.spec_layers().len() - 1) as usize)
                } else {
                    Layer::<usize>::Zero
                };
                self.entries_scored(*q, final(searcher).nearest@, top) && self.entries_scored(
                    *q,
                    final(searcher).candidates@,
                    top,
                )
            }),
    {
        searcher.clear();
        let entry_distance = (self.distance_fn)(q, self.entry_feature());
        let candidate = Neighbor { index: 0, distance: entry_distance };
        searcher.candidates.push(candidate);
        searcher.nearest.push(candidate);
        searcher.seen.push(self.entry_zero_node());
        proof {
            let top = if self.spec_layers().len() > 0 {
                Layer::NonZero((self.spec_layers().len() - 1) as usize)
            } else {
                Layer::<usize>::Zero
            };
            assert(self.spec_zero_of(top, 0) == if self.spec_layers().len() > 0 {
                self.spec_layers().last()[0].zero_node as int
            } else {
                0
            });
            assert(is_score(
                self.distance_fn,
                *q,
                self.features@[self.spec_zero_of(top, 0)],
                entry_distance,
            ));
        }
    }
}

impl<T, F, const M: usize, const M0: usize> Hnsw<T, F, M, M0> where F: Fn(&T, &T) -> u32 {
    /// Best-first search of one layer.  Candidates are popped until
    /// none remain; each unexpanded neighbor is scored, kept when it
    /// ranks among the best `cap`, and queued for expansion.  The
    /// result list stays sorted ascending and never exceeds `cap`; a
    /// non-empty result list never empties.
    fn search_single_layer(&self, q: &T, searcher: &mut Searcher, layer: Layer<usize>, cap: usize)
        requires
            self.wf(),
            self.dist_total(),
            cap >= 1,
            (layer matches Layer::NonZero(ix) ==> ix < self.spec_layers().len()),
            searcher_wf(
                *old(searcher),
                self.spec_layer_len_of(layer),
                self.spec_features().len() as int,
            ),
            old(searcher).nearest@.len() <= cap,
            self.entries_scored(*q, old(searcher).nearest@, layer),
            self.entries_scored(*q, old(searcher).candidates@, layer),
        ensures
            searcher_wf(
                *final(searcher),
                self.spec_layer_len_of(layer),
                self.spec_features().len() as int,
            ),
            final(searcher).candidates@.len() == 0,
            final(searcher).nearest@.len() <= cap,
            old(searcher).nearest@.len() >= 1 ==> final(searcher).nearest@.len() >= 1,
            self.entries_scored(*q, final(searcher).nearest@, layer),
    {
        let zero_len = self.features.len();
        let ghost llen = self.spec_layer_len_of(layer);
        proof {
            lemma_distinct_bounded(searcher.seen@, zero_len as nat);
        }
        loop
            invariant
                self.wf(),
                self.dist_total(),
                cap >= 1,
                (layer matches Layer::NonZero(ix) ==> ix < self.spec_layers().len()),
                zero_len == self.spec_features().len(),
                llen == self.spec_layer_len_of(layer),
                searcher_wf(*searcher, llen, zero_len as int),
                searcher.nearest@.len() <= cap,
                old(searcher).nearest@.len() >= 1 ==> searcher.nearest@.len() >= 1,
                searcher.seen@.len() <= zero_len,
                self.entries_scored(*q, searcher.nearest@, layer),
                self.entries_scored(*q, searcher.candidates@, layer),
            ensures
                searcher.candidates@.len() == 0,
                searcher_wf(*searcher, llen, zero_len as int),
                searcher.nearest@.len() <= cap,
                old(searcher).nearest@.len() >= 1 ==> searcher.nearest@.len() >= 1,
                self.entries_scored(*q, searcher.nearest@, layer),
            decreases (zero_len - searcher.seen@.len()) + searcher.candidates@.len(),
        {
            let ghost cands_before = searcher.candidates@;
            let cand = match searcher.candidates.pop() {
                None => {
                    break ;
                },
                Some(c) => c,
            };
            proof {
                assert(self.entries_scored(*q, searcher.candidates@, layer)) by {
                    assert forall|i2: int| 0 <= i2 < searcher.candidates@.len() implies is_score(
                        self.distance_fn,
                        *q,
                        self.features@[self.spec_zero_of(
                            layer,
                            (#[trigger] searcher.candidates@[i2]).index as int,
                        )],
                        searcher.candidates@[i2].distance,
                    ) by {
                        assert(searcher.candidates@[i2] == cands_before[i2]);
                    }
                }
            }
            let ghost budget0: int = (zero_len - searcher.seen@.len()) + searcher.candidates@.len();
            let index = cand.index;
            let nbrs: Vec<usize> = match layer {
                Layer::NonZero(ix) => copy_indices(&self.layers[ix][index].neighbors.neighbors),
                Layer::Zero => copy_indices(&self.zero[index].neighbors),
            };
            proof {
                match layer {
                    Layer::NonZero(ix) => {
                        assert(self.layers@[ix as int]@[index as int].wf(
                            self.layers@[ix as int]@.len() as int,
                            self.zero@.len() as int,
                            if ix == 0 {
                                self.zero@.len() as int
                            } else {
                                self.layers@[ix - 1]@.len() as int
                            },
                        ));
                    },
                    Layer::Zero => {
                        assert(self.zero@[index as int].wf(self.zero@.len() as int));
                    },
                }
            }
            let mut jj: usize = 0;
            while jj < nbrs.len()
                invariant
                    self.wf(),
                    self.dist_total(),
                    cap >= 1,
                    (layer matches Layer::NonZero(ix) ==> ix < self.spec_layers().len()),
                    zero_len == self.spec_features().len(),
                    llen == self.spec_layer_len_of(layer),
                    forall|t: int| 0 <= t < nbrs@.len() ==> (#[trigger] nbrs@[t]) < llen,
                    searcher_wf(*searcher, llen, zero_len as int),
                    searcher.nearest@.len() <= cap,
                    old(searcher).nearest@.len() >= 1 ==> searcher.nearest@.len() >= 1,
                    searcher.seen@.len() <= zero_len,
                    (zero_len - searcher.seen@.len()) + searcher.candidates@.len() <= budget0,
                    self.entries_scored(*q, searcher.nearest@, layer),
                    self.entries_scored(*q, searcher.candidates@, layer),
                decreases nbrs@.len() - jj,
            {
                let nbr = nbrs[jj];
                let node_to_visit: usize = match layer {
                    Layer::NonZero(ix) => self.layers[ix][nbr].zero_node,
                    Layer::Zero => nbr,
                };
                proof {
                    match layer {
                        Layer::NonZero(ix) => {
                            assert(self.layers@[ix as int]@[nbr as int].wf(
                                self.layers@[ix as int]@.len() as int,
                                self.zero@.len() as int,
                                if ix == 0 {
                                    self.zero@.len() as int
                                } else {
                                    self.layers@[ix - 1]@.len() as int
                                },
                            ));
                        },
                        Layer::Zero => {},
                    }
                }
                if !contains_usize(&searcher.seen, node_to_visit) {
                    proof {
                        lemma_no_dup_push(searcher.seen@, node_to_visit);
                    }
                    searcher.seen.push(node_to_visit);
                    proof {
                        lemma_distinct_bounded(searcher.seen@, zero_len as nat);
                    }
                    let distance = (self.distance_fn)(q, &self.features[node_to_visit]);
                    proof {
                        assert(node_to_visit as int == self.spec_zero_of(layer, nbr as int));
                        assert(is_score(
                            self.distance_fn,
                            *q,
                            self.features@[node_to_visit as int],
                            distance,
                        ));
                    }
                    let mut pos: usize = 0;
                    while pos < searcher.nearest.len() && searcher.nearest[pos].distance
                        <= distance
                        invariant
                            0 <= pos <= searcher.nearest@.len(),
                            forall|t: int|
                                0 <= t < pos ==> (#[trigger] searcher.nearest@[t]).distance
                                    <= distance,
                        decreases searcher.nearest@.len() - pos,
                    {
                        pos = pos + 1;
                    }
                    if pos != cap {
                        let ghost before = searcher.nearest@;
                        if searcher.nearest.len() == cap {
                            let _dropped = searcher.nearest.pop();
                        }
                        let entry = Neighbor { index: nbr, distance };
                        let ghost cands0 = searcher.candidates@;
                        searcher.nearest.insert(pos, entry);
                        proof {
                            let now = searcher.nearest@;
                            assert(self.entries_scored(*q, now, layer)) by {
                                assert forall|i2: int| 0 <= i2 < now.len() implies is_score(
                                    self.distance_fn,
                                    *q,
                                    self.features@[self.spec_zero_of(
                                        layer,
                                        (#[trigger] now[i2]).index as int,
                                    )],
                                    now[i2].distance,
                                ) by {
                                    if i2 < pos {
                                        assert(now[i2] == before[i2]);
                                    } else if i2 == pos {
                                        assert(now[i2] == entry);
                                    } else {
                                        assert(now[i2] == before[i2 - 1]);
                                    }
                                }
                            }
                            assert(sorted_by_distance(now)) by {
                                assert forall|a: int, b: int|
                                    0 <= a <= b < now.len() implies now[a].distance
                                    <= now[b].distance by {
                                    if a < pos && b < pos {
                                        assert(before[a].distance <= before[b].distance);
                                    } else if a < pos && b == pos {
                                        assert(before[a].distance <= distance);
                                    } else if a < pos && b > pos {
                                        assert(before[b - 1].distance > distance);
                                        assert(before[a].distance <= distance);
                                    } else if a == pos && b > pos {
                                        assert(before[b - 1].distance > distance);
                                    } else if a > pos && b > pos {
                                        assert(before[a - 1].distance <= before[b - 1].distance);
                                    }
                                }
                            }
                        }
                        searcher.candidates.push(entry);
                        proof {
                            assert(self.entries_scored(*q, searcher.candidates@, layer)) by {
                                assert forall|i2: int|
                                    0 <= i2 < searcher.candidates@.len() implies is_score(
                                    self.distance_fn,
                                    *q,
                                    self.features@[self.spec_zero_of(
                                        layer,
                                        (#[trigger] searcher.candidates@[i2]).index as int,
                                    )],
                                    searcher.candidates@[i2].distance,
                                ) by {
                                    if i2 < cands0.len() {
                                        assert(searcher.candidates@[i2] == cands0[i2]);
                                    } else {
                                        assert(searcher.candidates@[i2] == entry);
                                    }
                                }
                            }
                        }
                    }
                }
                jj = jj + 1;
            }
        }
    }

    /// Seeds the next lower layer's search with the single best result,
    /// following the best node's descent link.
    fn lower_search(&self, q_hold: &T, ix: usize, searcher: &mut Searcher)
        requires
            self.wf(),
            ix < self.spec_layers().len(),
            searcher_wf(
                *old(searcher),
                self.spec_layers()[ix as int].len() as int,
                self.spec_features().len() as int,
            ),
            old(searcher).nearest@.len() >= 1,
            self.entries_scored(*q_hold, old(searcher).nearest@, Layer::NonZero(ix)),
        ensures
            searcher_wf(
                *final(searcher),
                if ix == 0 {
                    self.spec_features().len() as int
                } else {
                    self.spec_layers()[ix - 1].len() as int
                },
                self.spec_features().len() as int,
            ),
            final(searcher).candidates@.len() == 1,
            final(searcher).nearest@.len() == 1,
            final(searcher).seen@ == old(searcher).seen@,
            self.entries_scored(
                *q_hold,
                final(searcher).nearest@,
                if ix == 0 {
                    Layer::<usize>::Zero
                } else {
                    Layer::NonZero((ix - 1) as usize)
                },
            ),
            self.entries_scored(
                *q_hold,
                final(searcher).candidates@,
                if ix == 0 {
                    Layer::<usize>::Zero
                } else {
                    Layer::NonZero((ix - 1) as usize)
                },
            ),
    {
        searcher.candidates.clear();
        let first = searcher.nearest[0];
        searcher.nearest.clear();
        proof {
            assert(self.layers@[ix as int]@[first.index as int].wf(
                self.layers@[ix as int]@.len() as int,
                self.zero@.len() as int,
                if ix == 0 {
                    self.zero@.len() as int
                } else {
                    self.layers@[ix - 1]@.len() as int
                },
            ));
        }
        let new_index = self.layers[ix][first.index].next_node;
        let candidate = Neighbor { index: new_index, distance: first.distance };
        searcher.nearest.push(candidate);
        searcher.candidates.push(candidate);
        proof {
            let below = if ix == 0 {
                Layer::<usize>::Zero
            } else {
                Layer::NonZero((ix - 1) as usize)
            };
            // The descent link stands for the same base-layer feature.
            assert(self.spec_zero_of(below, new_index as int) == self.spec_zero_of(
                Layer::NonZero(ix),
                first.index as int,
            ));
            assert(is_score(
                self.distance_fn,
                *q_hold,
                self.features@[self.spec_zero_of(below, new_index as int)],
                first.distance,
            ));
        }
    }

    /// Searches down to the given layer: greedy single-candidate
    /// descent through the layers above it, then a bounded search with
    /// pool size `ef` once the layer is reached (`ef` applies at the
    /// base; a mid-descent result carries the single best node).  The
    /// result is sorted ascending by distance and holds at most `ef`
    /// node indices of the target layer.
    pub fn search_layer(&self, q: &T, ef: usize, level: usize, searcher: &mut Searcher) -> (r: Vec<
        Neighbor,
    >)
        requires
            self.wf(),
            self.dist_total(),
            ef >= 1,
        ensures
            sorted_by_distance(r@),
            r@.len() <= ef,
            level == 0 ==> forall|i: int|
                0 <= i < r@.len() ==> (#[trigger] r@[i]).index < self.spec_features().len(),
            level == 0 ==> self.results_scored(*q, r@),
            self.spec_features().len() > 0 && level <= self.spec_layers().len() ==> r@.len() >= 1,
            (self.spec_features().len() == 0 || level > self.spec_layers().len()) ==> (r@.len()
                == 0 && *final(searcher) == *old(searcher)),
    {
        if self.features.len() == 0 || level >= self.layers.len() + 1 {
            return Vec::new();
        }
        self.initialize_searcher(q, searcher);
        let mut cap: usize = 1;
        let mut ix = self.layers.len();
        while ix > 0
            invariant
                self.wf(),
                self.dist_total(),
                cap == 1,
                ef >= 1,
                level < self.spec_layers().len() + 1,
                0 <= ix <= self.spec_layers().len(),
                ix >= level,
                searcher_wf(
                    *searcher,
                    if ix > 0 {
                        self.spec_layers()[ix - 1].len() as int
                    } else {
                        self.spec_features().len() as int
                    },
                    self.spec_features().len() as int,
                ),
                searcher.nearest@.len() == 1,
                searcher.candidates@.len() == 1,
                self.entries_scored(
                    *q,
                    searcher.nearest@,
                    if ix > 0 {
                        Layer::NonZero((ix - 1) as usize)
                    } else {
                        Layer::<usize>::Zero
                    },
                ),
                self.entries_scored(
                    *q,
                    searcher.candidates@,
                    if ix > 0 {
                        Layer::NonZero((ix - 1) as usize)
                    } else {
                        Layer::<usize>::Zero
                    },
                ),
            decreases ix,
        {
            let lx = ix - 1;
            self.search_single_layer(q, searcher, Layer::NonZero(lx), cap);
            if lx + 1 == level {
                return copy_neighbors(&searcher.nearest);
            }
            self.lower_search(q, lx, searcher);
            ix = lx;
        }
        cap = ef;
        self.search_single_layer(q, searcher, Layer::Zero, cap);
        let out = copy_neighbors(&searcher.nearest);
        proof {
            assert(self.results_scored(*q, out@)) by {
                assert forall|i2: int| 0 <= i2 < out@.len() implies 0 <= (#[trigger] out@[i2]).index
                    < self.spec_features().len() && is_score(
                    self.spec_distance_fn(),
                    *q,
                    self.spec_features()[out@[i2].index as int],
                    out@[i2].distance,
                ) by {
                    assert(out@[i2] == searcher.nearest@[i2]);
                    assert(self.spec_zero_of(Layer::<usize>::Zero, out@[i2].index as int) == out@[
                    i2].index as int);
                }
            }
        }
        out
    }

    /// The `ef` best nodes of the base layer for the query, sorted
    /// ascending by distance.
    pub fn nearest(&self, q: &T, ef: usize, searcher: &mut Searcher) -> (r: Vec<Neighbor>)
        requires
            self.wf(),
            self.dist_total(),
            ef >= 1,
        ensures
            sorted_by_distance(r@),
            r@.len() <= ef,
            forall|i: int|
                0 <= i < r@.len() ==> (#[trigger] r@[i]).index < self.spec_features().len(),
            self.results_scored(*q, r@),
            self.spec_features().len() > 0 ==> r@.len() >= 1,
            self.spec_features().len() == 0 ==> r@.len() == 0,
    {
        self.search_layer(q, ef, 0, searcher)
    }
}

/// The first `cap` node indices of a result list.
fn take_indices(nearest: &Vec<Neighbor>, cap: usize) -> (r: Vec<usize>)
    ensures
        r@.len() == if nearest@.len() < cap {
            nearest@.len() as int
        } else {
            cap as int
        },
        r@.len() <= cap,
        r@.len() <= nearest@.len(),
        forall|t: int| 0 <= t < r@.len() ==> (#[trigger] r@[t]) == nearest@[t].index,
{
    let n = if cap < nearest.len() {
        cap
    } else {
        nearest.len()
    };
    let mut r: Vec<usize> = Vec::new();
    let mut i: usize = 0;
    while i < n
        invariant
            0 <= i <= n,
            n <= nearest@.len(),
            n <= cap,
            r@.len() == i,
            forall|t: int| 0 <= t < i ==> (#[trigger] r@[t]) == nearest@[t].index,
        decreases n - i,
    {
        r.push(nearest[i].index);
        i = i + 1;
    }
    r
}

impl<T, F, const M: usize, const M0: usize> Hnsw<T, F, M, M0> where F: Fn(&T, &T) -> u32 {
    /// Draws the layer for a new item: a geometric level with success
    /// ratio `1/M`, computed from one uniform 64-bit draw by repeated
    /// threshold halving, and capped at 64.
    fn random_level(&mut self) -> (r: usize)
        ensures
            r <= 64,
            final(self).spec_features() == old(self).spec_features(),
            final(self).spec_zero() == old(self).spec_zero(),
            final(self).spec_layers() == old(self).spec_layers(),
            final(self).spec_ef_construction() == old(self).spec_ef_construction(),
            final(self).spec_distance_fn() == old(self).spec_distance_fn(),
            old(self).dist_total() ==> final(self).dist_total(),
            old(self).wf() ==> final(self).wf(),
    {
        if M < 2 {
            return 0;
        }
        let x = rng_next_u64(&mut self.prng);
        let mut level: usize = 0;
        let mut bound: u64 = u64::MAX / (M as u64);
        while x < bound && level < 64
            invariant
                level <= 64,
                M >= 2,
            decreases 64 - level,
        {
            level = level + 1;
            bound = bound / (M as u64);
        }
        level
    }

    /// Offers the freshly created node as a neighbor of `target_ix` on
    /// the given layer, following the worst-neighbor replacement rule:
    /// a target with room appends the link; a full target finds the
    /// neighbor scoring farthest from its own feature and replaces it,
    /// but only when the new node scores closer; every other node is
    /// left untouched.
    fn add_neighbor(&mut self, q_zero: usize, node_ix: usize, target_ix: usize, layer: usize)
        requires
            old(self).wf(),
            old(self).dist_total(),
            q_zero < old(self).spec_features().len(),
            layer == 0 ==> target_ix < old(self).spec_zero().len() && node_ix < old(self).spec_zero().len(),
            layer >= 1 ==> layer <= old(self).spec_layers().len() && target_ix < old(self).spec_layers()[layer - 1].len() && node_ix < old(self).spec_layers()[layer - 1].len(),
        ensures
            final(self).wf(),
            final(self).dist_total(),
            final(self).spec_features() == old(self).spec_features(),
            final(self).spec_zero().len() == old(self).spec_zero().len(),
            final(self).spec_layers().len() == old(self).spec_layers().len(),
            forall|l: int|
                0 <= l < old(self).spec_layers().len() ==> (#[trigger] final(self).spec_layers()[l]).len()
                    == old(self).spec_layers()[l].len(),
            forall|l: int, i: int|
                0 <= l < old(self).spec_layers().len() && 0 <= i
                    < old(self).spec_layers()[l].len() ==> (#[trigger] final(self).spec_layers()[l][i]).zero_node
                    == old(self).spec_layers()[l][i].zero_node
                    && final(self).spec_layers()[l][i].next_node
                    == old(self).spec_layers()[l][i].next_node,
            final(self).spec_ef_construction() == old(self).spec_ef_construction(),
            final(self).spec_distance_fn() == old(self).spec_distance_fn(),
            layer == 0 ==> ({
                let old_list = old(self).spec_zero()[target_ix as int].neighbors@;
                let new_list = final(self).spec_zero()[target_ix as int].neighbors@;
                &&& forall|i: int|
                    0 <= i < old(self).spec_zero().len() && i != target_ix ==> (#[trigger] final(self).spec_zero()[i]) == old(self).spec_zero()[i]
                &&& final(self).spec_layers() == old(self).spec_layers()
                &&& offer_resolved(
                    old(self).spec_distance_fn(),
                    old(self).spec_features()[target_ix as int],
                    old(self).spec_features()[q_zero as int],
                    node_ix,
                    old_list,
                    new_list,
                    Seq::new(old_list.len(), |u: int| old(self).spec_features()[old_list[u] as int]),
                    M0 as int,
                )
            }),
            layer >= 1 ==> ({
                let old_list = old(self).spec_layers()[layer - 1][target_ix as int].neighbors.neighbors@;
                let new_list = final(self).spec_layers()[layer - 1][target_ix as int].neighbors.neighbors@;
                let target_zero = old(self).spec_layers()[layer - 1][target_ix as int].zero_node as int;
                &&& final(self).spec_zero() == old(self).spec_zero()
                &&& forall|l: int|
                    0 <= l < old(self).spec_layers().len() && l != layer - 1 ==> (#[trigger] final(self).spec_layers()[l]) == old(self).spec_layers()[l]
                &&& forall|i: int|
                    0 <= i < old(self).spec_layers()[layer - 1].len() && i != target_ix ==> (#[trigger] final(self).spec_layers()[layer - 1][i]) == old(self).spec_layers()[layer - 1][i]
                &&& offer_resolved(
                    old(self).spec_distance_fn(),
                    old(self).spec_features()[target_zero],
                    old(self).spec_features()[q_zero as int],
                    node_ix,
                    old_list,
                    new_list,
                    Seq::new(
                        old_list.len(),
                        |u: int| old(self).spec_features()[old(self).spec_layers()[layer - 1][old_list[u] as int].zero_node as int],
                    ),
                    M as int,
                )
            }),
    {
        if layer == 0 {
            let ghost old_list = self.zero@[target_ix as int].neighbors@;
            let ghost nbr_feats = Seq::new(
                old_list.len(),
                |u: int| self.features@[old_list[u] as int],
            );
            let list = copy_indices(&self.zero[target_ix].neighbors);
            if list.len() < M0 {
                let mut nn = self.zero.remove(target_ix);
                nn.neighbors.push(node_ix);
                self.zero.insert(target_ix, nn);
                proof {
                    assert(self.zero@ =~= old(self).spec_zero().update(
                        target_ix as int,
                        self.zero@[target_ix as int],
                    ));
                }
            } else {
                if list.len() == 0 {
                    return ;
                }
                let ghost fdist = self.distance_fn;
                let d0 = (self.distance_fn)(&self.features[target_ix], &self.features[list[0]]);
                let ghost ds = seq![d0];
                let mut worst_ix: usize = 0;
                let mut worst_d: u32 = d0;
                let ghost mut ds = ds;
                let mut t: usize = 1;
                while t < list.len()
                    invariant
                        1 <= t <= list@.len(),
                        worst_ix < t,
                        self.wf(),
                        self.dist_total(),
                        *self == *old(self),
                        target_ix < self.spec_zero().len(),
                        list@ == old_list,
                        forall|u: int|
                            0 <= u < list@.len() ==> (#[trigger] list@[u])
                                < self.spec_features().len(),
                        fdist == self.spec_distance_fn(),
                        nbr_feats == Seq::new(
                            old_list.len(),
                            |u: int| self.features@[old_list[u] as int],
                        ),
                        ds.len() == t,
                        forall|u: int|
                            0 <= u < t ==> is_score(fdist, self.features@[target_ix as int], nbr_feats[u], #[trigger] ds[u]),
                        forall|u: int| 0 <= u < t ==> #[trigger] ds[u] <= ds[worst_ix as int],
                        worst_d == ds[worst_ix as int],
                    decreases list@.len() - t,
                {
                    let d = (self.distance_fn)(&self.features[target_ix], &self.features[list[t]]);
                    proof {
                        ds = ds.push(d);
                        assert(is_score(fdist, self.features@[target_ix as int], nbr_feats[t as int], d));
                    }
                    if d > worst_d {
                        worst_d = d;
                        worst_ix = t;
                    }
                    t = t + 1;
                }
                let dq = (self.distance_fn)(&self.features[q_zero], &self.features[target_ix]);
                proof {
                    assert(is_score(
                        fdist,
                        self.features@[q_zero as int],
                        self.features@[target_ix as int],
                        dq,
                    ));
                }
                if dq < worst_d {
                    let mut nn = self.zero.remove(target_ix);
                    let mut nbrs = nn.neighbors;
                    nbrs.remove(worst_ix);
                    nbrs.insert(worst_ix, node_ix);
                    nn.neighbors = nbrs;
                    self.zero.insert(target_ix, nn);
                    proof {
                        assert(self.zero@ =~= old(self).spec_zero().update(
                            target_ix as int,
                            self.zero@[target_ix as int],
                        ));
                        assert(self.zero@[target_ix as int].neighbors@ =~= old_list.update(
                            worst_ix as int,
                            node_ix,
                        ));
                    }
                }
                proof {
                    let new_list = self.zero@[target_ix as int].neighbors@;
                    assert(offer_resolved(
                        fdist,
                        old(self).spec_features()[target_ix as int],
                        old(self).spec_features()[q_zero as int],
                        node_ix,
                        old_list,
                        new_list,
                        nbr_feats,
                        M0 as int,
                    )) by {
                        assert(ds.len() == old_list.len());
                        assert(0 <= worst_ix < ds.len());
                        assert(forall|u: int|
                            0 <= u < ds.len() ==> is_score(
                                fdist,
                                old(self).spec_features()[target_ix as int],
                                nbr_feats[u],
                                #[trigger] ds[u],
                            ));
                        assert(forall|u: int| 0 <= u < ds.len() ==> #[trigger] ds[u] <= ds[worst_ix as int]);
                        assert(dq < ds[worst_ix as int] ==> new_list == old_list.update(
                            worst_ix as int,
                            node_ix,
                        ));
                        assert(dq >= ds[worst_ix as int] ==> new_list == old_list);
                    }
                }
            }
        } else {
            let lx = layer - 1;
            let ghost old_list = self.layers@[lx as int]@[target_ix as int].neighbors.neighbors@;
            let ghost nbr_feats = Seq::new(
                old_list.len(),
                |u: int| self.features@[self.layers@[lx as int]@[old_list[u] as int].zero_node as int],
            );
            let list = copy_indices(&self.layers[lx][target_ix].neighbors.neighbors);
            let target_zero = self.layers[lx][target_ix].zero_node;
            if list.len() < M {
                let mut lay = self.layers.remove(lx);
                let mut node = lay.remove(target_ix);
                node.neighbors.neighbors.push(node_ix);
                lay.insert(target_ix, node);
                self.layers.insert(lx, lay);
                proof {
                    assert(self.layers@[lx as int]@ =~= old(self).spec_layers()[lx as int].update(
                        target_ix as int,
                        self.layers@[lx as int]@[target_ix as int],
                    ));
                    assert(self.layers@ =~= old(self).layers@.update(
                        lx as int,
                        self.layers@[lx as int],
                    ));
                }
            } else {
                if list.len() == 0 {
                    return ;
                }
                proof {
                    assert(old(self).spec_layers()[lx as int][list@[0] as int].zero_node
                        < old(self).spec_features().len());
                }
                let ghost fdist = self.distance_fn;
                let d0 = (self.distance_fn)(
                    &self.features[target_zero],
                    &self.features[self.layers[lx][list[0]].zero_node],
                );
                let mut worst_ix: usize = 0;
                let mut worst_d: u32 = d0;
                let ghost mut ds = seq![d0];
                let mut t: usize = 1;
                while t < list.len()
                    invariant
                        1 <= t <= list@.len(),
                        worst_ix < t,
                        self.wf(),
                        self.dist_total(),
                        *self == *old(self),
                        lx < self.spec_layers().len(),
                        target_ix < self.spec_layers()[lx as int].len(),
                        target_zero == self.layers@[lx as int]@[target_ix as int].zero_node,
                        target_zero < self.spec_features().len(),
                        list@ == old_list,
                        forall|u: int|
                            0 <= u < list@.len() ==> (#[trigger] list@[u])
                                < self.spec_layers()[lx as int].len(),
                        fdist == self.spec_distance_fn(),
                        nbr_feats == Seq::new(
                            old_list.len(),
                            |u: int| self.features@[self.layers@[lx as int]@[old_list[u] as int].zero_node as int],
                        ),
                        ds.len() == t,
                        forall|u: int|
                            0 <= u < t ==> is_score(fdist, self.features@[target_zero as int], nbr_feats[u], #[trigger] ds[u]),
                        forall|u: int| 0 <= u < t ==> #[trigger] ds[u] <= ds[worst_ix as int],
                        worst_d == ds[worst_ix as int],
                    decreases list@.len() - t,
                {
                    let d = (self.distance_fn)(
                        &self.features[target_zero],
                        &self.features[self.layers[lx][list[t]].zero_node],
                    );
                    proof {
                        ds = ds.push(d);
                        assert(is_score(fdist, self.features@[target_zero as int], nbr_feats[t as int], d));
                    }
                    if d > worst_d {
                        worst_d = d;
                        worst_ix = t;
                    }
                    t = t + 1;
                }
                let dq = (self.distance_fn)(&self.features[q_zero], &self.features[target_zero]);
                proof {
                    assert(is_score(
                        fdist,
                        self.features@[q_zero as int],
                        self.features@[target_zero as int],
                        dq,
                    ));
                }
                if dq < worst_d {
                    let mut lay = self.layers.remove(lx);
                    let mut node = lay.remove(target_ix);
                    let mut nbrs = node.neighbors.neighbors;
                    nbrs.remove(worst_ix);
                    nbrs.insert(worst_ix, node_ix);
                    node.neighbors.neighbors = nbrs;
                    lay.insert(target_ix, node);
                    self.layers.insert(lx, lay);
                    proof {
                        assert(self.layers@[lx as int]@ =~= old(self).spec_layers()[
                        lx as int].update(target_ix as int, self.layers@[lx as int]@[
                        target_ix as int]));
                        assert(self.layers@ =~= old(self).layers@.update(
                            lx as int,
                            self.layers@[lx as int],
                        ));
                        assert(self.layers@[lx as int]@[target_ix as int].neighbors.neighbors@
                            =~= old_list.update(worst_ix as int, node_ix));
                    }
                }
                proof {
                    let new_list = self.layers@[lx as int]@[target_ix as int].neighbors.neighbors@;
                    assert(offer_resolved(
                        fdist,
                        old(self).spec_features()[target_zero as int],
                        old(self).spec_features()[q_zero as int],
                        node_ix,
                        old_list,
                        new_list,
                        nbr_feats,
                        M as int,
                    )) by {
                        assert(ds.len() == old_list.len());
                        assert(0 <= worst_ix < ds.len());
                        assert(forall|u: int|
                            0 <= u < ds.len() ==> is_score(
                                fdist,
                                old(self).spec_features()[target_zero as int],
                                nbr_feats[u],
                                #[trigger] ds[u],
                            ));
                        assert(forall|u: int| 0 <= u < ds.len() ==> #[trigger] ds[u] <= ds[worst_ix as int]);
                        assert(dq < ds[worst_ix as int] ==> new_list == old_list.update(
                            worst_ix as int,
                            node_ix,
                        ));
                        assert(dq >= ds[worst_ix as int] ==> new_list == old_list);
                    }
                }
            }
        }
    }
}

impl<T, F, const M: usize, const M0: usize> Hnsw<T, F, M, M0> where F: Fn(&T, &T) -> u32 {
    /// Creates the new item's node on an upper layer: up to `M`
    /// closest search results become its neighbors, it links down to
    /// the node created just below, and each neighbor is offered a
    /// link back.
    fn create_node(&mut self, q_zero: usize, nearest: &Vec<Neighbor>, layer: usize)
        requires
            old(self).wf(),
            old(self).dist_total(),
            q_zero < old(self).spec_features().len(),
            1 <= layer <= old(self).spec_layers().len(),
            forall|t: int|
                0 <= t < nearest@.len() ==> (#[trigger] nearest@[t]).index < old(self).spec_layers()[layer - 1].len(),
            layer >= 2 ==> old(self).spec_layers()[layer - 2].last().zero_node == q_zero,
        ensures
            final(self).wf(),
            final(self).dist_total(),
            final(self).spec_features() == old(self).spec_features(),
            final(self).spec_zero() == old(self).spec_zero(),
            final(self).spec_layers().len() == old(self).spec_layers().len(),
            final(self).spec_layers()[layer - 1].len() == old(self).spec_layers()[layer - 1].len()
                + 1,
            forall|l: int|
                0 <= l < old(self).spec_layers().len() && l != layer - 1 ==> (#[trigger] final(self).spec_layers()[l]) == old(self).spec_layers()[l],
            ({
                let node = final(self).spec_layers()[layer - 1].last();
                &&& node.zero_node == q_zero
                &&& node.next_node as int == if layer == 1 {
                    q_zero as int
                } else {
                    old(self).spec_layers()[layer - 2].len() - 1
                }
                &&& node.neighbors.neighbors@.len() == if nearest@.len() < M {
                    nearest@.len() as int
                } else {
                    M as int
                }
                &&& forall|t: int|
                    0 <= t < node.neighbors.neighbors@.len() ==> (#[trigger] node.neighbors.neighbors@[t]) == nearest@[t].index
            }),
            final(self).spec_ef_construction() == old(self).spec_ef_construction(),
            final(self).spec_distance_fn() == old(self).spec_distance_fn(),
    {
        let lx = layer - 1;
        let new_index = self.layers[lx].len();
        let nbrs = take_indices(nearest, M);
        let next_node: usize = if layer == 1 {
            q_zero
        } else {
            self.layers[layer - 2].len() - 1
        };
        let node = Node { zero_node: q_zero, next_node, neighbors: NeighborNodes { neighbors: nbrs } };
        let ghost node_snapshot = node;
        let mut lay = self.layers.remove(lx);
        lay.push(node);
        self.layers.insert(lx, lay);
        proof {
            assert(self.layers@ =~= old(self).layers@.update(lx as int, self.layers@[lx as int]));
            assert(self.layers@[lx as int]@ =~= old(self).spec_layers()[lx as int].push(node));
            assert(self.spec_layers()[lx as int].last() == node_snapshot);
            assert(self.wf()) by {
                assert forall|l: int, i: int|
                    0 <= l < self.layers@.len() && 0 <= i < self.layers@[l]@.len() implies (
                #[trigger] self.layers@[l]@[i]).wf(
                    self.layers@[l]@.len() as int,
                    self.zero@.len() as int,
                    if l == 0 {
                        self.zero@.len() as int
                    } else {
                        self.layers@[l - 1]@.len() as int
                    },
                ) by {
                    if l != lx || i < old(self).spec_layers()[lx as int].len() {
                        assert(old(self).layers@[l]@[i].wf(
                            old(self).layers@[l]@.len() as int,
                            old(self).zero@.len() as int,
                            if l == 0 {
                                old(self).zero@.len() as int
                            } else {
                                old(self).layers@[l - 1]@.len() as int
                            },
                        ));
                    }
                }
                if self.layers@.len() > 0 {
                    assert forall|i: int| 0 <= i < self.layers@[0]@.len() implies (
                    #[trigger] self.layers@[0]@[i]).next_node == self.layers@[0]@[i].zero_node by {
                        if lx != 0 || i < old(self).spec_layers()[0].len() {
                            assert(old(self).layers@[0]@[i].next_node == old(
                                self,
                            ).layers@[0]@[i].zero_node);
                        }
                    }
                }
                assert forall|l2: int, i: int|
                    1 <= l2 < self.layers@.len() && 0 <= i < self.layers@[l2]@.len() implies (
                #[trigger] self.layers@[l2]@[i]).zero_node == self.layers@[l2 - 1]@[self.layers@[
                l2]@[i].next_node as int].zero_node by {
                    if l2 == lx && i == old(self).spec_layers()[lx as int].len() {
                        assert(self.layers@[l2]@[i] == node);
                        assert(self.layers@[l2 - 1]@ == old(self).layers@[l2 - 1]@);
                    } else {
                        assert(old(self).layers@[l2]@[i].zero_node == old(self).layers@[l2
                            - 1]@[old(self).layers@[l2]@[i].next_node as int].zero_node);
                        if l2 - 1 == lx {
                            assert(old(self).layers@[l2]@[i].next_node
                                < old(self).spec_layers()[lx as int].len());
                            assert(self.layers@[l2 - 1]@[old(self).layers@[l2]@[
                            i].next_node as int] == old(self).layers@[l2 - 1]@[old(
                                self,
                            ).layers@[l2]@[i].next_node as int]);
                        }
                    }
                }
            }
        }
        let wired = copy_indices(&self.layers[lx][new_index].neighbors.neighbors);
        let ghost mid = *self;
        let mut t: usize = 0;
        while t < wired.len()
            invariant
                self.wf(),
                self.dist_total(),
                layer == lx + 1,
                lx < self.spec_layers().len(),
                q_zero < self.spec_features().len(),
                forall|u: int|
                    0 <= u < wired@.len() ==> (#[trigger] wired@[u]) < new_index,
                new_index < self.spec_layers()[lx as int].len(),
                self.spec_features() == mid.spec_features(),
                self.spec_zero() == mid.spec_zero(),
                self.spec_layers().len() == mid.spec_layers().len(),
                forall|l: int|
                    0 <= l < mid.spec_layers().len() && l != lx ==> (
                    #[trigger] self.spec_layers()[l]) == mid.spec_layers()[l],
                self.spec_layers()[lx as int].len() == mid.spec_layers()[lx as int].len(),
                self.spec_layers()[lx as int].last() == node_snapshot,
                self.spec_distance_fn() == old(self).spec_distance_fn(),
                self.spec_ef_construction() == mid.spec_ef_construction(),
            decreases wired@.len() - t,
        {
            let target = wired[t];
            self.add_neighbor(q_zero, new_index, target, layer);
            t = t + 1;
        }
    }

    /// Inserts a feature into the graph, returning its base-layer
    /// index.  The item draws a level; the search descends greedily to
    /// it, links the item on every layer at or below with bounded
    /// neighbor lists, and any layers above the old top come into
    /// being with the item as their entry point.
    pub fn insert(&mut self, q: T, searcher: &mut Searcher) -> (r: usize)
        requires
            old(self).wf(),
            old(self).dist_total(),
        ensures
            final(self).wf(),
            final(self).dist_total(),
            final(self).spec_features() == old(self).spec_features().push(q),
            r == old(self).spec_features().len(),
            final(self).spec_layers().len() >= old(self).spec_layers().len(),
            forall|l: int|
                old(self).spec_layers().len() <= l < final(self).spec_layers().len() ==> (
                #[trigger] final(self).spec_layers()[l]).len() == 1
                    && final(self).spec_layers()[l][0].zero_node == old(
                    self,
                ).spec_features().len(),
            final(self).spec_ef_construction() == old(self).spec_ef_construction(),
            final(self).spec_distance_fn() == old(self).spec_distance_fn(),
    {
        let level = self.random_level();
        if self.zero.len() == 0 {
            self.features.push(q);
            self.zero.push(NeighborNodes { neighbors: Vec::new() });
            while self.layers.len() < level
                invariant
                    self.wf(),
                    self.dist_total(),
                    level <= 64,
                    self.spec_features() == old(self).spec_features().push(q),
                    self.spec_features().len() == 1,
                    old(self).spec_features().len() == 0,
                    self.spec_distance_fn() == old(self).spec_distance_fn(),
                    forall|j: int|
                        0 <= j < self.spec_layers().len() ==> (#[trigger] self.spec_layers()[j]).len()
                            == 1 && self.spec_layers()[j][0].zero_node == 0,
                    self.spec_ef_construction() == old(self).spec_ef_construction(),
                decreases level - self.layers@.len(),
            {
                let ghost before = *self;
                let node = Node {
                    zero_node: 0,
                    next_node: 0,
                    neighbors: NeighborNodes { neighbors: Vec::new() },
                };
                let mut v: Vec<Node<M>> = Vec::new();
                v.push(node);
                self.layers.push(v);
                proof {
                    assert(self.layers@.last()@ =~= seq![node]);
                    let big = self.layers@.len() - 1;
                    assert forall|j: int|
                        0 <= j < self.spec_layers().len() implies (
                    #[trigger] self.spec_layers()[j]).len() == 1 && self.spec_layers()[j][0].zero_node
                        == 0 by {
                        if j < big {
                            assert(before.spec_layers()[j].len() == 1
                                && before.spec_layers()[j][0].zero_node == 0);
                            assert(self.spec_layers()[j] == before.spec_layers()[j]);
                        } else {
                            assert(self.spec_layers()[j] == self.layers@[big]@);
                        }
                    }
                }
            }
            return 0;
        }
        self.initialize_searcher(&q, searcher);
        let top = if level < self.layers.len() {
            level
        } else {
            self.layers.len()
        };
        // Greedy descent with a single candidate until the item's level.
        let mut ix = self.layers.len();
        while ix > level && ix > 0
            invariant
                self.wf(),
                self.dist_total(),
                0 <= ix <= self.spec_layers().len(),
                ix >= top,
                top == if level < self.spec_layers().len() {
                    level as int
                } else {
                    self.spec_layers().len() as int
                },
                self.spec_features().len() > 0,
                searcher_wf(
                    *searcher,
                    if ix > 0 {
                        self.spec_layers()[ix - 1].len() as int
                    } else {
                        self.spec_features().len() as int
                    },
                    self.spec_features().len() as int,
                ),
                searcher.nearest@.len() == 1,
                searcher.candidates@.len() == 1,
                self.entries_scored(
                    q,
                    searcher.nearest@,
                    if ix > 0 {
                        Layer::NonZero((ix - 1) as usize)
                    } else {
                        Layer::<usize>::Zero
                    },
                ),
                self.entries_scored(
                    q,
                    searcher.candidates@,
                    if ix > 0 {
                        Layer::NonZero((ix - 1) as usize)
                    } else {
                        Layer::<usize>::Zero
                    },
                ),
            decreases ix,
        {
            let lx = ix - 1;
            self.search_single_layer(&q, searcher, Layer::NonZero(lx), 1);
            self.lower_search(&q, lx, searcher);
            ix = lx;
        }
        proof {
            assert(ix == top);
        }
        // Bounded searches on the remaining layers, top first; the
        // results per layer are kept so the nodes can be built bottom
        // up once the base node exists.
        let mut saved: Vec<Vec<Neighbor>> = Vec::new();
        let mut ix2 = top;
        while ix2 > 0
            invariant
                self.wf(),
                self.dist_total(),
                0 <= ix2 <= top,
                top <= self.spec_layers().len(),
                self.spec_features().len() > 0,
                searcher_wf(
                    *searcher,
                    if ix2 > 0 {
                        self.spec_layers()[ix2 - 1].len() as int
                    } else {
                        self.spec_features().len() as int
                    },
                    self.spec_features().len() as int,
                ),
                searcher.nearest@.len() == 1,
                searcher.candidates@.len() == 1,
                self.entries_scored(
                    q,
                    searcher.nearest@,
                    if ix2 > 0 {
                        Layer::NonZero((ix2 - 1) as usize)
                    } else {
                        Layer::<usize>::Zero
                    },
                ),
                self.entries_scored(
                    q,
                    searcher.candidates@,
                    if ix2 > 0 {
                        Layer::NonZero((ix2 - 1) as usize)
                    } else {
                        Layer::<usize>::Zero
                    },
                ),
                saved@.len() == top - ix2,
                forall|u: int, e: int|
                    0 <= u < saved@.len() && 0 <= e < saved@[u]@.len() ==> (
                    #[trigger] saved@[u]@[e]).index < self.spec_layers()[top - 1 - u].len(),
            decreases ix2,
        {
            let lx = ix2 - 1;
            self.search_single_layer(&q, searcher, Layer::NonZero(lx), self.ef_construction);
            saved.push(copy_neighbors(&searcher.nearest));
            self.lower_search(&q, lx, searcher);
            ix2 = lx;
        }
        self.search_single_layer(&q, searcher, Layer::Zero, self.ef_construction);
        // The base node: feature, bounded neighbor list, back links.
        let ghost pre = *self;
        let nz = self.zero.len();
        let znbrs = take_indices(&searcher.nearest, M0);
        self.features.push(q);
        self.zero.push(NeighborNodes { neighbors: znbrs });
        proof {
            assert(self.wf()) by {
                assert(pre.wf());
                assert(self.layers@ == pre.layers@);
                assert forall|i: int| 0 <= i < self.zero@.len() implies (
                #[trigger] self.zero@[i]).wf(self.zero@.len() as int) by {
                    if i < nz {
                        assert(pre.zero@[i].wf(pre.zero@.len() as int));
                    }
                }
                assert forall|l: int, i: int|
                    0 <= l < self.layers@.len() && 0 <= i < self.layers@[l]@.len() implies (
                #[trigger] self.layers@[l]@[i]).wf(
                    self.layers@[l]@.len() as int,
                    self.zero@.len() as int,
                    if l == 0 {
                        self.zero@.len() as int
                    } else {
                        self.layers@[l - 1]@.len() as int
                    },
                ) by {
                    assert(pre.layers@[l]@[i].wf(
                        pre.layers@[l]@.len() as int,
                        pre.zero@.len() as int,
                        if l == 0 {
                            pre.zero@.len() as int
                        } else {
                            pre.layers@[l - 1]@.len() as int
                        },
                    ));
                }
            }
        }
        let wired = copy_indices(&self.zero[nz].neighbors);
        let ghost mid = *self;
        let mut t: usize = 0;
        while t < wired.len()
            invariant
                self.wf(),
                self.dist_total(),
                nz < self.spec_zero().len(),
                forall|u: int| 0 <= u < wired@.len() ==> (#[trigger] wired@[u]) < nz,
                self.spec_features() == mid.spec_features(),
                self.spec_zero().len() == mid.spec_zero().len(),
                self.spec_layers() == mid.spec_layers(),
                self.spec_distance_fn() == old(self).spec_distance_fn(),
                self.spec_ef_construction() == mid.spec_ef_construction(),
            decreases wired@.len() - t,
        {
            self.add_neighbor(nz, nz, wired[t], 0);
            t = t + 1;
        }
        proof {
            assert(self.spec_layers() == old(self).spec_layers());
            assert(nz == old(self).spec_features().len());
        }
        // Upper-layer nodes, bottom up, each linking down to the one
        // before it.
        let ghost base = *self;
        let mut l: usize = 1;
        while l <= top
            invariant
                self.wf(),
                self.dist_total(),
                1 <= l <= top + 1,
                top <= self.spec_layers().len(),
                nz < self.spec_features().len(),
                saved@.len() == top,
                self.spec_features() == base.spec_features(),
                self.spec_zero().len() == base.spec_zero().len(),
                self.spec_layers().len() == base.spec_layers().len(),
                self.spec_distance_fn() == old(self).spec_distance_fn(),
                forall|u: int, e: int|
                    0 <= u < saved@.len() && 0 <= e < saved@[u]@.len() ==> (
                    #[trigger] saved@[u]@[e]).index < base.spec_layers()[top - 1 - u].len(),
                forall|j: int|
                    0 <= j < l - 1 ==> (#[trigger] self.spec_layers()[j]).len()
                        == base.spec_layers()[j].len() + 1 && self.spec_layers()[j].last().zero_node
                        == nz,
                forall|j: int|
                    l - 1 <= j < self.spec_layers().len() ==> (#[trigger] self.spec_layers()[j])
                        == base.spec_layers()[j],
                self.spec_ef_construction() == base.spec_ef_construction(),
            decreases top + 1 - l,
        {
            let res = &saved[top - l];
            proof {
                assert(saved@[top - l].len() == res@.len());
                assert(self.spec_layers()[l - 1] == base.spec_layers()[l - 1]);
                if l >= 2 {
                    assert(self.spec_layers()[l - 2].last().zero_node == nz);
                }
            }
            self.create_node(nz, res, l);
            l = l + 1;
        }
        // Layers above the old top: the new item becomes their entry.
        proof {
            if self.spec_layers().len() < level && self.spec_layers().len() >= 1 {
                assert(top == self.spec_layers().len());
                assert(self.spec_layers()[top - 1].last().zero_node == nz);
            }
        }
        while self.layers.len() < level
            invariant
                self.wf(),
                self.dist_total(),
                level <= 64,
                nz < self.spec_features().len(),
                self.spec_features() == base.spec_features(),
                self.spec_distance_fn() == old(self).spec_distance_fn(),
                old(self).spec_layers().len() <= self.spec_layers().len(),
                forall|j: int|
                    old(self).spec_layers().len() <= j < self.spec_layers().len() ==> (
                    #[trigger] self.spec_layers()[j]).len() == 1 && self.spec_layers()[j][0].zero_node
                        == nz,
                self.spec_layers().len() < level ==> (self.spec_layers().len() >= 1
                    ==> self.spec_layers().last().last().zero_node == nz),
                self.spec_ef_construction() == base.spec_ef_construction(),
            decreases level - self.layers@.len(),
        {
            let ghost before = *self;
            let next_node: usize = if self.layers.len() == 0 {
                nz
            } else {
                let last = self.layers.len() - 1;
                self.layers[last].len() - 1
            };
            let node = Node {
                zero_node: nz,
                next_node,
                neighbors: NeighborNodes { neighbors: Vec::new() },
            };
            let mut v: Vec<Node<M>> = Vec::new();
            v.push(node);
            self.layers.push(v);
            proof {
                assert(self.layers@.last()@ =~= seq![node]);
                let ghost big = self.layers@.len() - 1;
                assert(self.wf()) by {
                    assert forall|l2: int, i: int|
                        0 <= l2 < self.layers@.len() && 0 <= i < self.layers@[l2]@.len() implies (
                    #[trigger] self.layers@[l2]@[i]).wf(
                        self.layers@[l2]@.len() as int,
                        self.zero@.len() as int,
                        if l2 == 0 {
                            self.zero@.len() as int
                        } else {
                            self.layers@[l2 - 1]@.len() as int
                        },
                    ) by {
                        if l2 < big {
                            assert(before.layers@[l2]@[i].wf(
                                before.layers@[l2]@.len() as int,
                                before.zero@.len() as int,
                                if l2 == 0 {
                                    before.zero@.len() as int
                                } else {
                                    before.layers@[l2 - 1]@.len() as int
                                },
                            ));
                        }
                    }
                    if self.layers@.len() > 0 {
                        assert forall|i: int| 0 <= i < self.layers@[0]@.len() implies (
                        #[trigger] self.layers@[0]@[i]).next_node == self.layers@[0]@[i].zero_node by {
                            if big != 0 {
                                assert(before.layers@[0]@[i].next_node == before.layers@[0]@[
                                i].zero_node);
                            }
                        }
                    }
                    assert forall|l2: int, i: int|
                        1 <= l2 < self.layers@.len() && 0 <= i < self.layers@[l2]@.len() implies (
                    #[trigger] self.layers@[l2]@[i]).zero_node == self.layers@[l2 - 1]@[self.layers@[
                    l2]@[i].next_node as int].zero_node by {
                        if l2 < big {
                            assert(before.layers@[l2]@[i].zero_node == before.layers@[l2
                                - 1]@[before.layers@[l2]@[i].next_node as int].zero_node);
                        } else {
                            assert(self.layers@[l2]@[i] == node);
                            assert(before.spec_layers().last().last().zero_node == nz);
                        }
                    }
                }
                assert forall|j: int|
                    old(self).spec_layers().len() <= j < self.spec_layers().len() implies (
                #[trigger] self.spec_layers()[j]).len() == 1 && self.spec_layers()[j][0].zero_node
                    == nz by {
                    if j < big {
                        assert(before.spec_layers()[j].len() == 1
                            && before.spec_layers()[j][0].zero_node == nz);
                        assert(self.spec_layers()[j] == before.spec_layers()[j]);
                    } else {
                        assert(self.spec_layers()[j] == self.layers@[big as int]@);
                    }
                }
            }
        }
        nz
    }
}

/// Neighbor caps: however many insertions the graph has seen, a
/// well-formed graph gives every base-layer node at most `M0`
/// neighbors and every node of the layers above at most `M`.  `insert`
/// maintains well-formedness, so the caps hold after any insertion
/// sequence.
pub proof fn lemma_neighbor_caps<T, F, const M: usize, const M0: usize>(h: Hnsw<T, F, M, M0>) where
    F: Fn(&T, &T) -> u32,

    requires
        h.wf(),
    ensures
        forall|i: int|
            0 <= i < h.spec_zero().len() ==> (#[trigger] h.spec_zero()[i]).neighbors@.len() <= M0,
        forall|l: int, i: int|
            0 <= l < h.spec_layers().len() && 0 <= i < h.spec_layers()[l].len() ==> (
            #[trigger] h.spec_layers()[l][i]).neighbors.neighbors@.len() <= M,
{
    assert forall|i: int| 0 <= i < h.spec_zero().len() implies (
    #[trigger] h.spec_zero()[i]).neighbors@.len() <= M0 by {
        assert(h.spec_zero()[i].wf(h.spec_zero().len() as int));
    }
    assert forall|l: int, i: int|
        0 <= l < h.spec_layers().len() && 0 <= i < h.spec_layers()[l].len() implies (
    #[trigger] h.spec_layers()[l][i]).neighbors.neighbors@.len() <= M by {
        assert(h.spec_layers()[l][i].wf(
            h.spec_layers()[l].len() as int,
            h.spec_zero().len() as int,
            if l == 0 {
                h.spec_zero().len() as int
            } else {
                h.spec_layers()[l - 1].len() as int
            },
        ));
    }
}

/// Entry points resolve: every existing layer holds at least its entry
/// node, upper layers exist only over a non-empty base, and each
/// layer's entry stands for a real base-layer item.
pub proof fn lemma_entry_points_resolve<T, F, const M: usize, const M0: usize>(
    h: Hnsw<T, F, M, M0>,
) where F: Fn(&T, &T) -> u32,

    requires
        h.wf(),
    ensures
        forall|l: int| 0 <= l < h.spec_layers().len() ==> (#[trigger] h.spec_layers()[l]).len() >= 1,
        h.spec_layers().len() > 0 ==> h.spec_features().len() > 0,
        forall|l: int|
            0 <= l < h.spec_layers().len() ==> (#[trigger] h.spec_layers()[l])[0].zero_node
                < h.spec_features().len(),
{
    assert forall|l: int|
        0 <= l < h.spec_layers().len() implies (#[trigger] h.spec_layers()[l])[0].zero_node
        < h.spec_features().len() by {
        assert(h.spec_layers()[l][0].wf(
            h.spec_layers()[l].len() as int,
            h.spec_zero().len() as int,
            if l == 0 {
                h.spec_zero().len() as int
            } else {
                h.spec_layers()[l - 1].len() as int
            },
        ));
    }
}

/// The graph the engine uses for approximate queries: `M` of 16, `M0`
/// of 40, features are whole vector values, and the caller's distance
/// kernel interprets them.
pub struct VFSANNIndex<F> where F: Fn(&VFSVector, &VFSVector) -> u32 {
    hnsw: Hnsw<VFSVector, F, 16, 40>,
    searcher: Searcher,
}

use crate::vector::VFSVector;

impl<F> VFSANNIndex<F> where F: Fn(&VFSVector, &VFSVector) -> u32 {
    /// The stored vector values, in insertion order.
    pub closed spec fn spec_items(self) -> Seq<VFSVector> {
        self.hnsw.spec_features()
    }

    /// The underlying graph is well formed and the kernel total.
    pub closed spec fn wf(self) -> bool {
        self.hnsw.wf() && self.hnsw.dist_total()
    }

    /// The kernel the index scores with.
    pub closed spec fn spec_kernel(self) -> F {
        self.hnsw.spec_distance_fn()
    }

    /// A fresh index over the given distance kernel.
    pub fn new(distance_fn: F, ef_construction: Option<usize>) -> (r: VFSANNIndex<F>)
        requires
            forall|a: &VFSVector, b: &VFSVector| call_requires(distance_fn, (a, b)),
        ensures
            r.wf(),
            r.spec_items().len() == 0,
            r.spec_kernel() == distance_fn,
    {
        let searcher = Searcher::new(Vec::new());
        let hnsw = Hnsw::new(distance_fn, ef_construction);
        VFSANNIndex { hnsw, searcher }
    }

    /// A scratch searcher for one search or insertion.
    pub fn get_searcher(&self) -> Searcher {
        self.searcher.clone()
    }

    /// Inserts one vector value, returning its node index.
    pub fn insert_one(&mut self, vfs_vector: VFSVector) -> (r: usize)
        requires
            old(self).wf(),
        ensures
            final(self).wf(),
            final(self).spec_items() == old(self).spec_items().push(vfs_vector),
            final(self).spec_kernel() == old(self).spec_kernel(),
            r == old(self).spec_items().len(),
    {
        let mut searcher = self.get_searcher();
        self.hnsw.insert(vfs_vector, &mut searcher)
    }

    /// Inserts a batch of vector values, in order.
    pub fn insert_many(&mut self, vec_list: Vec<VFSVector>)
        requires
            old(self).wf(),
        ensures
            final(self).wf(),
            final(self).spec_items() == old(self).spec_items() + vec_list@,
            final(self).spec_kernel() == old(self).spec_kernel(),
    {
        let ghost incoming = vec_list@;
        let mut rest = vec_list;
        proof {
            assert(self.spec_items() + incoming.take(0) =~= self.spec_items());
        }
        let total = rest.len();
        let mut done: usize = 0;
        while rest.len() > 0
            invariant
                self.wf(),
                self.spec_kernel() == old(self).spec_kernel(),
                incoming.len() == total as int,
                done + rest@.len() == incoming.len(),
                incoming.skip(done as int) == rest@,
                self.spec_items() == old(self).spec_items() + incoming.take(done as int),
            decreases rest@.len(),
        {
            let ghost pre_rest = rest@;
            let v = rest.remove(0);
            proof {
                assert(pre_rest[0] == incoming[done as int]);
                assert(incoming.take(done + 1) =~= incoming.take(done as int).push(
                    incoming[done as int],
                ));
                assert((old(self).spec_items() + incoming.take(done as int)).push(v) =~= old(
                    self,
                ).spec_items() + incoming.take(done + 1));
                assert(incoming.skip(done + 1) =~= pre_rest.drop_first());
            }
            self.insert_one(v);
            done = done + 1;
        }
        proof {
            assert(incoming.take(incoming.len() as int) =~= incoming);
        }
    }

    /// The vector value a node index stands for.
    pub fn feature(&self, item: usize) -> (r: &VFSVector)
        requires
            item < self.spec_items().len(),
        ensures
            *r == self.spec_items()[item as int],
    {
        self.hnsw.feature(item)
    }

    /// Number of stored vector values.
    pub fn len(&self) -> (r: usize)
        ensures
            r == self.spec_items().len(),
    {
        self.hnsw.len()
    }

    /// Number of layers of the underlying graph, the base included.
    pub fn layer_count(&self) -> (r: usize)
        requires
            self.wf(),
    {
        self.hnsw.layers()
    }

    /// Number of nodes on a layer of the underlying graph.
    pub fn layer_len(&self, level: usize) -> (r: usize)
        requires
            self.wf(),
        ensures
            r as int == self.spec_hnsw_layer_len(level),
    {
        self.hnsw.layer_len(level)
    }

    /// Ghost counterpart of [`Self::layer_len`].
    pub closed spec fn spec_hnsw_layer_len(self, level: usize) -> int {
        self.hnsw.layer_len_spec(level)
    }

    /// How many neighbors a node of the underlying graph holds; at
    /// most 40 on the base layer and at most 16 above it.
    pub fn neighbor_count(&self, level: usize, item: usize) -> (r: usize)
        requires
            self.wf(),
            item < self.spec_hnsw_layer_len(level),
        ensures
            level == 0 ==> r <= 40,
            level >= 1 ==> r <= 16,
    {
        self.hnsw.neighbor_count(level, item)
    }

    /// The up-to-`k` closest stored values to the query under the
    /// index's kernel, searched with pool size `ef` and sorted
    /// ascending by distance word.
    pub fn query(&mut self, vfs_vector: &VFSVector, k: usize, ef: usize) -> (r: Vec<Neighbor>)
        requires
            old(self).wf(),
        ensures
            final(self).wf(),
            final(self).spec_items() == old(self).spec_items(),
            final(self).spec_kernel() == old(self).spec_kernel(),
            sorted_by_distance(r@),
            r@.len() <= k,
            forall|i: int|
                0 <= i < r@.len() ==> (#[trigger] r@[i]).index < old(self).spec_items().len(),
            forall|t: int|
                #![trigger r@[t]]
                0 <= t < r@.len() ==> is_score(
                    old(self).spec_kernel(),
                    *vfs_vector,
                    old(self).spec_items()[r@[t].index as int],
                    r@[t].distance,
                ),
            old(self).spec_items().len() > 0 && k >= 1 ==> r@.len() >= 1,
    {
        let pool = if ef > k {
            ef
        } else {
            k
        };
        let pool = if pool >= 1 {
            pool
        } else {
            1
        };
        let mut searcher = self.get_searcher();
        let mut out = self.hnsw.nearest(vfs_vector, pool, &mut searcher);
        let ghost full = out@;
        out.truncate(k);
        proof {
            assert(sorted_by_distance(out@)) by {
                assert(forall|i: int, j: int|
                    0 <= i <= j < out@.len() ==> out@[i].distance <= out@[j].distance);
            }
            assert forall|t: int| 0 <= t < out@.len() implies is_score(
                self.spec_kernel(),
                *vfs_vector,
                self.spec_items()[(#[trigger] out@[t]).index as int],
                out@[t].distance,
            ) by {
                assert(out@[t] == full[t]);
            }
        }
        out
    }
}

} // verus!
