//! The ranker: top-k similarity queries over the storage engine.
//!
//! Exact search is a batched scan: vectors stream out of the engine's
//! cursor, each is scored against the query, and a bounded result list
//! keeps the best `limit` pairs seen so far.  Approximate search pours
//! the same stream into a hierarchical small-world graph and queries
//! it.  Either way the distance kernel is a caller-supplied function
//! value fixed at construction, returning a `u32` distance word that
//! orders as the underlying metric does.

use vstd::prelude::*;

verus! {

use crate::vector::{VFSVector, VFSVectorModel};
use crate::storage_manager::VFSManager;
use crate::ann::{VFSANNIndex, Neighbor, sorted_by_distance, is_score};
use crate::err::VFSError;
use crate::serializer::{lemma_parse_bounds, spec_parse, records_bytes, vector_views};
use crate::storage_manager::{entry_models, lemma_synced_cursor_bounds};

/// Which strategy answers a query.
#[derive(Clone, Copy, Debug, PartialEq, Eq, Structural)]
pub enum SearchType {
    Exact,
    Approximate,
}

/// Which distance measure the kernel implements.  The engine treats
/// this as a label; the kernel itself is passed alongside.
#[derive(Clone, Copy, Debug, PartialEq, Eq, Structural)]
pub enum DistanceMethod {
    Euclidean,
    Cosine,
    SimdEuclidean,
    SimdCosine,
}

/// The result cap a limit argument stands for: the given limit, at
/// least one, five when absent.
pub open spec fn spec_limit(result_limit: Option<usize>) -> int {
    match result_limit {
        Some(l) => if l >= 1 {
            l as int
        } else {
            1
        },
        None => 5,
    }
}

/// The smaller of two quantities.
pub open spec fn spec_min(a: int, b: int) -> int {
    if a <= b {
        a
    } else {
        b
    }
}

/// Every result identifier names a record in the scanned range.
pub open spec fn ids_from_range(
    results: Seq<(u64, u32)>,
    records: Seq<crate::vector::VFSVectorModel>,
    lo: int,
    hi: int,
) -> bool {
    forall|t: int|
        #![trigger results[t]]
        0 <= t < results.len() ==> exists|j: int|
            lo <= j < hi && records[j].spec_id() == results[t].0
}

/// The distance word `d` is an output of the kernel on the query and
/// a vector value whose model is `rec`, exactly as the kernel saw them
/// (by reference).
pub open spec fn is_record_score<F: Fn(&VFSVector, &VFSVector) -> u32>(
    f: F,
    q: VFSVector,
    rec: VFSVectorModel,
    d: u32,
) -> bool {
    exists|a: &VFSVector, v: &VFSVector| *a == q && v@ == rec && call_ensures(f, (a, v), d)
}

/// Each result pairs a record's identifier with an output of the
/// kernel on the query and that record's vector value.
pub open spec fn pairs_scored<F: Fn(&VFSVector, &VFSVector) -> u32>(
    f: F,
    q: VFSVector,
    results: Seq<(u64, u32)>,
    records: Seq<VFSVectorModel>,
    lo: int,
    hi: int,
) -> bool {
    forall|t: int|
        #![trigger results[t]]
        0 <= t < results.len() ==> exists|j: int|
            lo <= j < hi && records[j].spec_id() == results[t].0 && is_record_score(
                f,
                q,
                records[j],
                results[t].1,
            )
}

/// One kernel output per scanned record, in scan order.
pub open spec fn scanned_scores<F: Fn(&VFSVector, &VFSVector) -> u32>(
    f: F,
    q: VFSVector,
    scores: Seq<u32>,
    records: Seq<VFSVectorModel>,
    lo: int,
) -> bool {
    forall|j: int|
        #![trigger scores[j]]
        0 <= j < scores.len() ==> is_record_score(f, q, records[lo + j], scores[j])
}

/// The results are the bottom of the scanned scores: every kept pair
/// is a scanned (identifier, score) pair, and a scanned pair is either
/// kept or — with the result list full — scores no better than the
/// worst pair kept.
pub open spec fn keeps_best(
    results: Seq<(u64, u32)>,
    records: Seq<VFSVectorModel>,
    scores: Seq<u32>,
    lo: int,
    limit: int,
) -> bool {
    &&& forall|t: int|
        #![trigger results[t]]
        0 <= t < results.len() ==> exists|j: int|
            0 <= j < scores.len() && results[t] == (records[lo + j].spec_id(), scores[j])
    &&& forall|j: int|
        #![trigger scores[j]]
        0 <= j < scores.len() ==> ((exists|t: int|
            0 <= t < results.len() && results[t] == (records[lo + j].spec_id(), scores[j])) || (
        results.len() == limit && results.len() >= 1 && scores[j] >= results.last().1))
}

/// Distance words never decrease along the result list.
pub open spec fn sorted_pairs(s: Seq<(u64, u32)>) -> bool {
    forall|i: int, j: int| 0 <= i <= j < s.len() ==> s[i].1 <= s[j].1
}

/// Scoring the next scanned record extends the score trace.
proof fn lemma_scanned_step<F: Fn(&VFSVector, &VFSVector) -> u32>(
    f: F,
    q: VFSVector,
    prev_scores: Seq<u32>,
    scores: Seq<u32>,
    records: Seq<VFSVectorModel>,
    k0: int,
    d: u32,
)
    requires
        scanned_scores(f, q, prev_scores, records, k0),
        scores == prev_scores.push(d),
        is_record_score(f, q, records[k0 + prev_scores.len()], d),
    ensures
        scanned_scores(f, q, scores, records, k0),
{
    assert forall|j: int|
        #![trigger scores[j]]
        0 <= j < scores.len() implies is_record_score(f, q, records[k0 + j], scores[j]) by {
        if j < prev_scores.len() {
            assert(scores[j] == prev_scores[j]);
            assert(is_record_score(f, q, records[k0 + j], prev_scores[j]));
        } else {
            assert(scores[j] == d);
        }
    }
}

/// One scoring step keeps the bottom set: scoring the next record and
/// offering its pair to the bounded list preserves `keeps_best`, and
/// every kept pair still names a scanned record.
proof fn lemma_keeps_best_step(
    prev_results: Seq<(u64, u32)>,
    results: Seq<(u64, u32)>,
    records: Seq<VFSVectorModel>,
    prev_scores: Seq<u32>,
    scores: Seq<u32>,
    k0: int,
    item: (u64, u32),
    limit: int,
)
    requires
        keeps_best(prev_results, records, prev_scores, k0, limit),
        scores == prev_scores.push(item.1),
        0 <= k0,
        k0 + prev_scores.len() < records.len(),
        item.0 == records[k0 + prev_scores.len()].spec_id(),
        limit >= 1,
        prev_results.len() <= limit,
        results.len() == if prev_results.len() < limit {
            prev_results.len() as int + 1
        } else {
            limit
        },
        forall|t: int|
            0 <= t < results.len() ==> (#[trigger] results[t]) == item || prev_results.contains(
                results[t],
            ),
        prev_results.len() < limit ==> results.contains(item) && (forall|u: int|
            0 <= u < prev_results.len() ==> results.contains(#[trigger] prev_results[u])),
        prev_results.len() == limit ==> ({
            &&& results.len() >= 1
            &&& results.last().1 <= prev_results.last().1
            &&& (results.contains(item) || item.1 >= results.last().1)
            &&& forall|u: int|
                0 <= u < prev_results.len() ==> results.contains(#[trigger] prev_results[u])
                    || prev_results[u].1 >= results.last().1
        }),
    ensures
        keeps_best(results, records, scores, k0, limit),
        ids_from_range(results, records, k0, records.len() as int),
{
    assert forall|t: int| 0 <= t < results.len() implies exists|j: int|
        0 <= j < scores.len() && (#[trigger] results[t]) == (
    records[k0 + j].spec_id(),
    scores[j],
    ) by {
        if results[t] == item {
            assert(results[t] == (records[k0 + (scores.len() - 1)].spec_id(), scores[
            scores.len() - 1]));
        } else {
            assert(prev_results.contains(results[t]));
            let u = choose|u: int| 0 <= u < prev_results.len() && prev_results[u] == results[t];
            let j = choose|j: int|
                0 <= j < prev_scores.len() && prev_results[u] == (
                records[k0 + j].spec_id(),
                prev_scores[j],
                );
            assert(scores[j] == prev_scores[j]);
        }
    }
    assert forall|j: int| 0 <= j < scores.len() implies (results.contains(
        (records[k0 + j].spec_id(), (#[trigger] scores[j])),
    ) || (results.len() == limit && results.len() >= 1 && scores[j] >= results.last().1)) by {
        if j == scores.len() - 1 {
            assert((records[k0 + j].spec_id(), scores[j]) == item);
        } else {
            assert(prev_scores[j] == scores[j]);
            let prev_pair = (records[k0 + j].spec_id(), prev_scores[j]);
            if prev_results.contains(prev_pair) {
                let u = choose|u: int|
                    0 <= u < prev_results.len() && prev_results[u] == prev_pair;
                assert(results.contains(prev_pair) || (prev_results.len() == limit
                    && prev_results[u].1 >= results.last().1));
            } else {
                assert(prev_results.len() == limit && prev_scores[j]
                    >= prev_results.last().1);
                assert(results.last().1 <= prev_results.last().1);
            }
        }
    }
    assert forall|t: int| 0 <= t < results.len() implies exists|j2: int|
        k0 <= j2 < records.len() && records[j2].spec_id() == (#[trigger] results[t]).0 by {
        let j = choose|j: int|
            0 <= j < scores.len() && results[t] == (records[k0 + j].spec_id(), scores[j]);
        assert(k0 <= k0 + j < records.len() && records[k0 + j].spec_id() == results[t].0);
    }
}

/// Ranked insertion into a sorted list with room: the item lands at
/// its rank, everything already there is kept, and the order holds.
fn place_with_room(results: &mut Vec<(u64, u32)>, item: (u64, u32), pos: usize)
    requires
        sorted_pairs(old(results)@),
        pos <= old(results)@.len(),
        forall|t: int| 0 <= t < pos ==> (#[trigger] old(results)@[t]).1 <= item.1,
        pos < old(results)@.len() ==> old(results)@[pos as int].1 > item.1,
    ensures
        final(results)@.len() == old(results)@.len() + 1,
        sorted_pairs(final(results)@),
        final(results)@.contains(item),
        forall|t: int|
            0 <= t < final(results)@.len() ==> (#[trigger] final(results)@[t]) == item || old(
                results,
            )@.contains(final(results)@[t]),
        forall|u: int|
            0 <= u < old(results)@.len() ==> final(results)@.contains(
                #[trigger] old(results)@[u],
            ),
{
    let ghost before = results@;
    results.insert(pos, item);
    proof {
        let now = results@;
        assert(now[pos as int] == item);
        assert(now.contains(item));
        assert forall|t: int| 0 <= t < now.len() implies (#[trigger] now[t]) == item
            || before.contains(now[t]) by {
            if t < pos {
                assert(before[t] == now[t]);
                assert(before.contains(now[t]));
            } else if t > pos {
                assert(before[t - 1] == now[t]);
                assert(before.contains(now[t]));
            }
        }
        assert forall|u: int| 0 <= u < before.len() implies now.contains(
            #[trigger] before[u],
        ) by {
            if u < pos {
                assert(now[u] == before[u]);
            } else {
                assert(now[u + 1] == before[u]);
            }
        }
        assert forall|a: int, b: int| 0 <= a <= b < now.len() implies now[a].1 <= now[b].1 by {
            if a < pos && b < pos {
                assert(before[a].1 <= before[b].1);
            } else if a < pos && b == pos {
                assert(before[a].1 <= item.1);
            } else if a < pos && b > pos {
                assert(before[b - 1].1 > item.1);
                assert(before[a].1 <= item.1);
            } else if a == pos && b > pos {
                assert(before[b - 1].1 > item.1);
            } else if a > pos && b > pos {
                assert(before[a - 1].1 <= before[b - 1].1);
            }
        }
    }
}

/// Ranked insertion into a sorted full list: the farthest pair falls
/// out for the closer item, the order holds, the worst kept pair
/// scores no worse than before, and every old pair is either kept or
/// scored no better than the one dropped.
fn place_when_full(results: &mut Vec<(u64, u32)>, item: (u64, u32), pos: usize, limit: usize)
    requires
        sorted_pairs(old(results)@),
        old(results)@.len() == limit,
        pos < limit,
        forall|t: int| 0 <= t < pos ==> (#[trigger] old(results)@[t]).1 <= item.1,
        old(results)@[pos as int].1 > item.1,
    ensures
        final(results)@.len() == limit,
        sorted_pairs(final(results)@),
        final(results)@.contains(item),
        final(results)@.last().1 <= old(results)@.last().1,
        forall|t: int|
            0 <= t < final(results)@.len() ==> (#[trigger] final(results)@[t]) == item || old(
                results,
            )@.contains(final(results)@[t]),
        forall|u: int|
            0 <= u < old(results)@.len() ==> final(results)@.contains(#[trigger] old(results)@[u])
                || old(results)@[u].1 >= final(results)@.last().1,
{
    let ghost before = results@;
    let _dropped = results.pop();
    results.insert(pos, item);
    proof {
        let now = results@;
        assert(now[pos as int] == item);
        assert(now.contains(item));
        assert forall|t: int| 0 <= t < now.len() implies (#[trigger] now[t]) == item
            || before.contains(now[t]) by {
            if t < pos {
                assert(before[t] == now[t]);
                assert(before.contains(now[t]));
            } else if t > pos {
                assert(before[t - 1] == now[t]);
                assert(before.contains(now[t]));
            }
        }
        assert forall|t: int| 0 <= t < now.len() implies (#[trigger] now[t]).1 <= before[limit
            - 1].1 by {
            if t < pos {
                assert(now[t] == before[t]);
                assert(before[t].1 <= before[limit - 1].1);
            } else if t == pos {
                assert(before[pos as int].1 <= before[limit - 1].1);
            } else {
                assert(now[t] == before[t - 1]);
                assert(before[t - 1].1 <= before[limit - 1].1);
            }
        }
        assert forall|u: int| 0 <= u < before.len() implies now.contains(#[trigger] before[u])
            || before[u].1 >= now.last().1 by {
            if u < pos {
                assert(now[u] == before[u]);
                assert(now.contains(before[u]));
            } else if u < limit - 1 {
                assert(now[u + 1] == before[u]);
                assert(now.contains(before[u]));
            } else {
                assert(before[u].1 >= now.last().1);
            }
        }
        assert forall|a: int, b: int| 0 <= a <= b < now.len() implies now[a].1 <= now[b].1 by {
            if a < pos && b < pos {
                assert(before[a].1 <= before[b].1);
            } else if a < pos && b == pos {
                assert(before[a].1 <= item.1);
            } else if a < pos && b > pos {
                assert(before[b - 1].1 > item.1);
                assert(before[a].1 <= item.1);
            } else if a == pos && b > pos {
                assert(before[b - 1].1 > item.1);
            } else if a > pos && b > pos {
                assert(before[a - 1].1 <= before[b - 1].1);
            }
        }
    }
}

/// Keeps `results` sorted and bounded: the item goes to its rank, the
/// worst entry falls out once the list exceeds `limit`, and an item
/// ranked past a full list is dropped.
fn push_bounded(results: &mut Vec<(u64, u32)>, item: (u64, u32), limit: usize)
    requires
        sorted_pairs(old(results)@),
        old(results)@.len() <= limit,
        limit >= 1,
    ensures
        sorted_pairs(final(results)@),
        final(results)@.len() <= limit,
        final(results)@.len() == if old(results)@.len() < limit {
            old(results)@.len() as int + 1
        } else {
            limit as int
        },
        forall|t: int|
            0 <= t < final(results)@.len() ==> (#[trigger] final(results)@[t]) == item || old(
                results,
            )@.contains(final(results)@[t]),
        old(results)@.len() < limit ==> final(results)@.contains(item) && (forall|u: int|
            0 <= u < old(results)@.len() ==> final(results)@.contains(
                #[trigger] old(results)@[u],
            )),
        old(results)@.len() == limit ==> ({
            &&& final(results)@.len() >= 1
            &&& final(results)@.last().1 <= old(results)@.last().1
            &&& (final(results)@.contains(item) || item.1 >= final(results)@.last().1)
            &&& forall|u: int|
                0 <= u < old(results)@.len() ==> final(results)@.contains(
                    #[trigger] old(results)@[u],
                ) || old(results)@[u].1 >= final(results)@.last().1
        }),
{
    let ghost before = results@;
    let mut pos: usize = 0;
    while pos < results.len() && results[pos].1 <= item.1
        invariant
            0 <= pos <= results@.len(),
            results@ == before,
            forall|t: int| 0 <= t < pos ==> (#[trigger] results@[t]).1 <= item.1,
        decreases results@.len() - pos,
    {
        pos = pos + 1;
    }
    if pos >= limit {
        proof {
            assert(before.len() == limit);
            assert forall|u: int| 0 <= u < before.len() implies results@.contains(
                #[trigger] before[u],
            ) by {
                assert(results@[u] == before[u]);
            }
            assert(item.1 >= results@.last().1) by {
                assert(before[limit - 1].1 <= item.1);
            }
        }
        return ;
    }
    if results.len() == limit {
        place_when_full(results, item, pos, limit);
    } else {
        place_with_room(results, item, pos);
    }
}

/// A metric bound to a search strategy and a storage engine.
pub struct Ranker<F> where F: Fn(&VFSVector, &VFSVector) -> u32 {
    search_type: SearchType,
    distance_method: DistanceMethod,
    distance_fn: F,
    manager: VFSManager,
}

impl<F> Ranker<F> where F: Fn(&VFSVector, &VFSVector) -> u32 {
    /// The engine the ranker scans.
    pub closed spec fn spec_manager(self) -> VFSManager {
        self.manager
    }

    /// The configured distance kernel.
    pub closed spec fn spec_distance_fn(self) -> F {
        self.distance_fn
    }

    /// The configured strategy.
    pub closed spec fn spec_search_type(self) -> SearchType {
        self.search_type
    }

    /// The configured distance label.
    pub closed spec fn spec_distance_method(self) -> DistanceMethod {
        self.distance_method
    }

    /// The engine is well formed and the kernel total.
    pub closed spec fn wf(self) -> bool {
        &&& self.manager.wf()
        &&& forall|a: &VFSVector, b: &VFSVector| call_requires(self.distance_fn, (a, b))
    }

    /// Binds a strategy, a distance label, its kernel, and an engine.
    pub fn new(
        search_type: SearchType,
        distance_method: DistanceMethod,
        distance_fn: F,
        manager: VFSManager,
    ) -> (r: Ranker<F>)
        requires
            manager.wf(),
            forall|a: &VFSVector, b: &VFSVector| call_requires(distance_fn, (a, b)),
        ensures
            r.wf(),
            r.spec_manager() == manager,
            r.spec_distance_fn() == distance_fn,
            r.spec_search_type() == search_type,
            r.spec_distance_method() == distance_method,
    {
        Ranker { search_type, distance_method, distance_fn, manager }
    }

    /// The engine, for inspection.
    pub fn manager(&self) -> (r: &VFSManager)
        ensures
            *r == self.spec_manager(),
    {
        &self.manager
    }

    /// Hands the engine back, consuming the ranker.
    pub fn into_manager(self) -> (r: VFSManager)
        ensures
            r == self.spec_manager(),
    {
        self.manager
    }

    /// Scores two vectors with the configured kernel.
    pub fn calculate_distance(&self, vector1: &VFSVector, vector2: &VFSVector) -> (r: u32)
        requires
            self.wf(),
        ensures
            call_ensures(self.spec_distance_fn(), (vector1, vector2), r),
    {
        (self.distance_fn)(vector1, vector2)
    }

    /// Answers a query with the configured strategy: up to
    /// `result_limit` (default 5) identifier/distance pairs, sorted
    /// ascending by distance word.
    pub fn search(
        &mut self,
        query: &VFSVector,
        num_vectors_per_iteration: usize,
        result_limit: Option<usize>,
    ) -> (r: Result<Vec<(u64, u32)>, VFSError>)
        requires
            old(self).wf(),
        ensures
            final(self).wf(),
            r matches Ok(results) && sorted_pairs(results@) && results@.len() <= match result_limit {
                Some(l) => if l >= 1 {
                    l as int
                } else {
                    1
                },
                None => 5,
            },
            ({
                &&& old(self).spec_search_type() == SearchType::Exact
                &&& old(self).spec_manager().synced()
                &&& num_vectors_per_iteration >= 1
            }) ==> (r matches Ok(results) && results@.len() as int == spec_min(
                spec_limit(result_limit),
                old(self).spec_manager().spec_records().len() + old(
                    self,
                ).spec_manager().spec_mem().len() - old(self).spec_manager().spec_cursor_k(),
            )),
            (old(self).spec_search_type() == SearchType::Exact && old(
                self,
            ).spec_manager().synced()) ==> (r matches Ok(results) && ids_from_range(
                results@,
                old(self).spec_manager().spec_records() + entry_models(
                    old(self).spec_manager().spec_mem(),
                ),
                old(self).spec_manager().spec_cursor_k(),
                old(self).spec_manager().spec_records().len() as int + old(
                    self,
                ).spec_manager().spec_mem().len() as int,
            )),
            ({
                &&& old(self).spec_search_type() == SearchType::Exact
                &&& old(self).spec_manager().synced()
                &&& num_vectors_per_iteration >= 1
            }) ==> (r matches Ok(results) && exists|scores: Seq<u32>|
                #![trigger scores.len()]
                {
                    let live = old(self).spec_manager().spec_records() + entry_models(
                        old(self).spec_manager().spec_mem(),
                    );
                    let lo = old(self).spec_manager().spec_cursor_k();
                    &&& scores.len() == live.len() - lo
                    &&& scanned_scores(old(self).spec_distance_fn(), *query, scores, live, lo)
                    &&& keeps_best(results@, live, scores, lo, spec_limit(result_limit))
                }),
            (old(self).spec_search_type() == SearchType::Approximate && old(
                self,
            ).spec_manager().synced()) ==> (r matches Ok(results) && pairs_scored(
                old(self).spec_distance_fn(),
                *query,
                results@,
                old(self).spec_manager().spec_records() + entry_models(
                    old(self).spec_manager().spec_mem(),
                ),
                old(self).spec_manager().spec_cursor_k(),
                old(self).spec_manager().spec_records().len() as int + old(
                    self,
                ).spec_manager().spec_mem().len() as int,
            )),
            ({
                &&& old(self).spec_search_type() == SearchType::Approximate
                &&& old(self).spec_manager().synced()
                &&& num_vectors_per_iteration >= 1
                &&& old(self).spec_manager().spec_records().len() + old(
                    self,
                ).spec_manager().spec_mem().len() > old(self).spec_manager().spec_cursor_k()
            }) ==> (r matches Ok(results) && results@.len() >= 1),
    {
        match self.search_type {
            SearchType::Exact => self.exact_search(query, num_vectors_per_iteration, result_limit),
            SearchType::Approximate => self.approximate_search(
                query,
                num_vectors_per_iteration,
                result_limit,
            ),
        }
    }

    /// One full pass over the store: batches stream from the engine's
    /// cursor, every vector is scored, and a bounded sorted list keeps
    /// the best `limit` pairs.
    fn exact_search(
        &mut self,
        query: &VFSVector,
        num_vectors_per_iteration: usize,
        result_limit: Option<usize>,
    ) -> (r: Result<Vec<(u64, u32)>, VFSError>)
        requires
            old(self).wf(),
        ensures
            final(self).wf(),
            r matches Ok(results) && sorted_pairs(results@) && results@.len() <= match result_limit {
                Some(l) => if l >= 1 {
                    l as int
                } else {
                    1
                },
                None => 5,
            },
            (old(self).spec_manager().synced() && num_vectors_per_iteration >= 1) ==> (r matches Ok(
                results,
            ) && results@.len() as int == spec_min(
                spec_limit(result_limit),
                old(self).spec_manager().spec_records().len() + old(
                    self,
                ).spec_manager().spec_mem().len() - old(self).spec_manager().spec_cursor_k(),
            )),
            old(self).spec_manager().synced() ==> (r matches Ok(results) && ids_from_range(
                results@,
                old(self).spec_manager().spec_records() + entry_models(
                    old(self).spec_manager().spec_mem(),
                ),
                old(self).spec_manager().spec_cursor_k(),
                old(self).spec_manager().spec_records().len() as int + old(
                    self,
                ).spec_manager().spec_mem().len() as int,
            )),
            (old(self).spec_manager().synced() && num_vectors_per_iteration >= 1) ==> (r matches Ok(
                results,
            ) && exists|scores: Seq<u32>|
                #![trigger scores.len()]
                {
                    let live = old(self).spec_manager().spec_records() + entry_models(
                        old(self).spec_manager().spec_mem(),
                    );
                    let lo = old(self).spec_manager().spec_cursor_k();
                    &&& scores.len() == live.len() - lo
                    &&& scanned_scores(old(self).spec_distance_fn(), *query, scores, live, lo)
                    &&& keeps_best(results@, live, scores, lo, spec_limit(result_limit))
                }),
    {
        let limit = match result_limit {
            Some(l) => if l >= 1 {
                l
            } else {
                1
            },
            None => 5,
        };
        // Pending writes are drained first: a record both returned from
        // the memtable and re-read once the cursor reaches its flushed
        // frame would be scored twice.
        let ghost was_synced = self.spec_manager().synced();
        let ghost fdist = self.spec_distance_fn();
        match self.manager.flush_manual() {
            Ok(()) => {},
            Err(e) => {
                return Err(e);
            },
        }
        let ghost total = self.spec_manager().spec_records().len() as int;
        let ghost records1 = self.spec_manager().spec_records();
        let ghost k0 = self.spec_manager().spec_cursor_k();
        proof {
            if was_synced {
                lemma_synced_cursor_bounds(self.spec_manager());
            }
        }
        let mut results: Vec<(u64, u32)> = Vec::new();
        let ghost mut scores: Seq<u32> = Seq::empty();
        loop
            invariant
                self.wf(),
                limit >= 1,
                sorted_pairs(results@),
                results@.len() <= limit,
                self.spec_distance_fn() == fdist,
                was_synced ==> ({
                    &&& self.spec_manager().synced()
                    &&& self.spec_manager().spec_mem().len() == 0
                    &&& self.spec_manager().spec_records() == records1
                    &&& records1.len() == total
                    &&& 0 <= k0 <= self.spec_manager().spec_cursor_k() <= total
                    &&& results@.len() as int == spec_min(
                        limit as int,
                        self.spec_manager().spec_cursor_k() - k0,
                    )
                    &&& ids_from_range(results@, records1, k0, total)
                    &&& scores.len() == self.spec_manager().spec_cursor_k() - k0
                    &&& scanned_scores(fdist, *query, scores, records1, k0)
                    &&& keeps_best(results@, records1, scores, k0, limit as int)
                }),
            ensures
                self.wf(),
                sorted_pairs(results@),
                results@.len() <= limit,
                self.spec_distance_fn() == fdist,
                (was_synced && num_vectors_per_iteration >= 1) ==> results@.len() as int
                    == spec_min(limit as int, total - k0),
                was_synced ==> ids_from_range(results@, records1, k0, total),
                (was_synced && num_vectors_per_iteration >= 1) ==> ({
                    &&& scores.len() == total - k0
                    &&& scanned_scores(fdist, *query, scores, records1, k0)
                    &&& keeps_best(results@, records1, scores, k0, limit as int)
                }),
            decreases
                    self.spec_manager().spec_mem().len(),
                    (if self.spec_manager().spec_offset() <= self.spec_manager().spec_data().len() {
                        self.spec_manager().spec_data().len() - self.spec_manager().spec_offset()
                    } else {
                        0
                    }),
        {
            let ghost mgr0 = self.spec_manager();
            let batch = match self.manager.load_batch(num_vectors_per_iteration) {
                Ok(b) => b,
                Err(e) => {
                    return Err(e);
                },
            };
            if batch.len() == 0 {
                proof {
                    if was_synced {
                        assert(mgr0.spec_mem().take(0) =~= Seq::<(u64, VFSVector)>::empty());
                        assert(entry_models(mgr0.spec_mem().take(0)).len() == 0);
                        assert(mgr0.spec_records() + entry_models(mgr0.spec_mem().take(0))
                            =~= records1);
                        assert(self.spec_manager().spec_records() == records1);
                        if num_vectors_per_iteration >= 1 {
                            assert(self.spec_manager().spec_cursor_k() == total);
                        }
                    }
                }
                break ;
            }
            proof {
                let take_n = if num_vectors_per_iteration <= mgr0.spec_mem().len() {
                    num_vectors_per_iteration as int
                } else {
                    mgr0.spec_mem().len() as int
                };
                let drained = mgr0.spec_mem().take(take_n);
                let parsed = spec_parse(
                    self.spec_manager().spec_data(),
                    mgr0.spec_offset(),
                    (num_vectors_per_iteration - take_n) as nat,
                );
                assert(vector_views(batch@).len() == entry_models(drained).len() + parsed.0.len());
                if take_n == 0 {
                    assert(entry_models(drained).len() == 0);
                    assert(records_bytes(entry_models(drained)) =~= Seq::<u8>::empty());
                    assert(self.spec_manager().spec_data() =~= mgr0.spec_data());
                    assert(parsed.0.len() > 0);
                    assert(0 <= mgr0.spec_offset() && mgr0.spec_offset() + 4
                        <= mgr0.spec_data().len());
                    lemma_parse_bounds(
                        mgr0.spec_data(),
                        mgr0.spec_offset(),
                        (num_vectors_per_iteration - take_n) as nat,
                    );
                    assert(self.spec_manager().spec_offset() >= mgr0.spec_offset() + 12);
                    assert(self.spec_manager().spec_offset() <= mgr0.spec_data().len());
                } else {
                    assert(self.spec_manager().spec_mem().len() < mgr0.spec_mem().len());
                }
                if was_synced {
                    assert(self.spec_manager().spec_records() =~= mgr0.spec_records());
                }
            }
            let ghost kprev = mgr0.spec_cursor_k();
            let ghost knew = self.spec_manager().spec_cursor_k();
            proof {
                if was_synced {
                    let take_n: int = if num_vectors_per_iteration <= mgr0.spec_mem().len() {
                        num_vectors_per_iteration as int
                    } else {
                        mgr0.spec_mem().len() as int
                    };
                    assert(take_n == 0);
                    let taken = mgr0.spec_mem().take(take_n);
                    assert(taken =~= Seq::<(u64, VFSVector)>::empty());
                    assert(entry_models(taken).len() == 0);
                    assert(mgr0.spec_records() + entry_models(taken) =~= records1);
                    assert(self.spec_manager().spec_records() == records1);
                    assert(knew <= records1.len());
                    assert(vector_views(batch@) == entry_models(taken) + records1.subrange(
                        kprev,
                        knew,
                    ));
                    assert(entry_models(taken) + records1.subrange(kprev, knew) =~= records1.subrange(
                        kprev,
                        knew,
                    ));
                    assert(vector_views(batch@) =~= records1.subrange(kprev, knew));
                    assert(0 <= k0 <= kprev <= knew);
                    assert(knew <= records1.len());
                    assert(records1.len() as int == total);
                    assert(ids_from_range(results@, records1, k0, total));
                    assert(ids_from_range(results@, records1, k0, records1.len() as int));
                }
            }
            let mut bi: usize = 0;
            while bi < batch.len()
                invariant
                    self.wf(),
                    limit >= 1,
                    sorted_pairs(results@),
                    results@.len() <= limit,
                    0 <= bi <= batch@.len(),
                    was_synced ==> results@.len() as int == spec_min(
                        limit as int,
                        kprev - k0 + bi,
                    ),
                    self.spec_distance_fn() == fdist,
                    was_synced ==> ({
                        &&& 0 <= k0 <= kprev <= knew
                        &&& knew <= records1.len()
                        &&& records1.len() == total
                        &&& vector_views(batch@) == records1.subrange(kprev, knew)
                        &&& ids_from_range(results@, records1, k0, records1.len() as int)
                        &&& scores.len() == kprev - k0 + bi
                        &&& scanned_scores(fdist, *query, scores, records1, k0)
                        &&& keeps_best(results@, records1, scores, k0, limit as int)
                    }),
                decreases batch@.len() - bi,
            {
                let vector = &batch[bi];
                let distance = (self.distance_fn)(query, vector);
                let id = vector.id();
                proof {
                    if was_synced {
                        assert(batch@.len() == knew - kprev);
                        assert(vector_views(batch@)[bi as int] == batch@[bi as int]@);
                        assert(vector_views(batch@)[bi as int] == records1.subrange(kprev, knew)[
                        bi as int]);
                        assert(records1.subrange(kprev, knew)[bi as int] == records1[kprev + bi]);
                        assert(records1[kprev + bi].spec_id() == id);
                    }
                }
                let ghost prev_results = results@;
                let ghost prev_scores = scores;
                proof {
                    if was_synced {
                        assert(vector@ == records1[kprev + bi]);
                        assert(call_ensures(fdist, (query, vector), distance));
                        assert(is_record_score(fdist, *query, records1[kprev + bi], distance));
                        scores = scores.push(distance);
                        lemma_scanned_step(
                            fdist,
                            *query,
                            prev_scores,
                            scores,
                            records1,
                            k0,
                            distance,
                        );
                    }
                }
                push_bounded(&mut results, (id, distance), limit);
                proof {
                    if was_synced {
                        lemma_keeps_best_step(
                            prev_results,
                            results@,
                            records1,
                            prev_scores,
                            scores,
                            k0,
                            (id, distance),
                            limit as int,
                        );
                    }
                }
                bi = bi + 1;
            }
        }
        proof {
            if was_synced {
                assert(records1 == old(self).spec_manager().spec_records() + entry_models(
                    old(self).spec_manager().spec_mem(),
                ));
                assert(total == old(self).spec_manager().spec_records().len() + old(
                    self,
                ).spec_manager().spec_mem().len());
                assert(k0 == old(self).spec_manager().spec_cursor_k());
                assert(ids_from_range(
                    results@,
                    old(self).spec_manager().spec_records() + entry_models(
                        old(self).spec_manager().spec_mem(),
                    ),
                    old(self).spec_manager().spec_cursor_k(),
                    old(self).spec_manager().spec_records().len() as int + old(
                        self,
                    ).spec_manager().spec_mem().len() as int,
                ));
                if num_vectors_per_iteration >= 1 {
                    let live = old(self).spec_manager().spec_records() + entry_models(
                        old(self).spec_manager().spec_mem(),
                    );
                    let lo = old(self).spec_manager().spec_cursor_k();
                    assert(scores.len() == live.len() - lo);
                    assert(scanned_scores(fdist, *query, scores, live, lo));
                    assert(keeps_best(results@, live, scores, lo, spec_limit(result_limit)));
                }
            }
        }
        Ok(results)
    }

    /// Builds a fresh small-world graph from the engine's stream and
    /// queries it for the `limit` closest vectors.
    fn approximate_search(
        &mut self,
        query: &VFSVector,
        num_vectors_per_iteration: usize,
        result_limit: Option<usize>,
    ) -> (r: Result<Vec<(u64, u32)>, VFSError>)
        requires
            old(self).wf(),
        ensures
            final(self).wf(),
            r matches Ok(results) && sorted_pairs(results@) && results@.len() <= match result_limit {
                Some(l) => if l >= 1 {
                    l as int
                } else {
                    1
                },
                None => 5,
            },
            old(self).spec_manager().synced() ==> (r matches Ok(results) && pairs_scored(
                old(self).spec_distance_fn(),
                *query,
                results@,
                old(self).spec_manager().spec_records() + entry_models(
                    old(self).spec_manager().spec_mem(),
                ),
                old(self).spec_manager().spec_cursor_k(),
                old(self).spec_manager().spec_records().len() as int + old(
                    self,
                ).spec_manager().spec_mem().len() as int,
            )),
            (old(self).spec_manager().synced() && num_vectors_per_iteration >= 1 && old(
                self,
            ).spec_manager().spec_records().len() + old(self).spec_manager().spec_mem().len() > old(
                self,
            ).spec_manager().spec_cursor_k()) ==> (r matches Ok(results) && results@.len() >= 1),
    {
        let limit = match result_limit {
            Some(l) => if l >= 1 {
                l
            } else {
                1
            },
            None => 5,
        };
        // Pending writes are drained first, as in the exact scan, so no
        // vector enters the graph twice.
        let ghost was_synced = self.spec_manager().synced();
        let ghost fdist = self.spec_distance_fn();
        match self.manager.flush_manual() {
            Ok(()) => {},
            Err(e) => {
                return Err(e);
            },
        }
        let ghost total = self.spec_manager().spec_records().len() as int;
        let ghost records1 = self.spec_manager().spec_records();
        let ghost k0 = self.spec_manager().spec_cursor_k();
        proof {
            if was_synced {
                lemma_synced_cursor_bounds(self.spec_manager());
            }
        }
        let kernel_ref = &self.distance_fn;
        let mut ann_index: VFSANNIndex<&F> = VFSANNIndex::new(kernel_ref, None);
        proof {
            assert(*ann_index.spec_kernel() == fdist);
        }
        proof {
            if was_synced {
                assert(vector_views(ann_index.spec_items()) =~= records1.subrange(k0, k0));
            }
        }
        loop
            invariant
                self.wf(),
                ann_index.wf(),
                self.spec_distance_fn() == fdist,
                *ann_index.spec_kernel() == fdist,
                was_synced ==> ({
                    &&& self.spec_manager().synced()
                    &&& self.spec_manager().spec_mem().len() == 0
                    &&& self.spec_manager().spec_records() == records1
                    &&& records1.len() == total
                    &&& 0 <= k0 <= self.spec_manager().spec_cursor_k() <= total
                    &&& vector_views(ann_index.spec_items()) == records1.subrange(
                        k0,
                        self.spec_manager().spec_cursor_k(),
                    )
                }),
            ensures
                self.wf(),
                ann_index.wf(),
                *ann_index.spec_kernel() == fdist,
                was_synced ==> vector_views(ann_index.spec_items()) == records1.subrange(
                    k0,
                    self.spec_manager().spec_cursor_k(),
                ) && k0 <= self.spec_manager().spec_cursor_k() <= records1.len(),
                (was_synced && num_vectors_per_iteration >= 1) ==> self.spec_manager().spec_cursor_k()
                    == records1.len(),
            decreases
                    self.spec_manager().spec_mem().len(),
                    (if self.spec_manager().spec_offset() <= self.spec_manager().spec_data().len() {
                        self.spec_manager().spec_data().len() - self.spec_manager().spec_offset()
                    } else {
                        0
                    }),
        {
            let ghost mgr0 = self.spec_manager();
            let batch = match self.manager.load_batch(num_vectors_per_iteration) {
                Ok(b) => b,
                Err(e) => {
                    return Err(e);
                },
            };
            if batch.len() == 0 {
                proof {
                    if was_synced {
                        assert(mgr0.spec_mem().take(0) =~= Seq::<(u64, VFSVector)>::empty());
                        assert(entry_models(mgr0.spec_mem().take(0)).len() == 0);
                        assert(mgr0.spec_records() + entry_models(mgr0.spec_mem().take(0))
                            =~= records1);
                        assert(self.spec_manager().spec_records() == records1);
                        if num_vectors_per_iteration >= 1 {
                            assert(self.spec_manager().spec_cursor_k() == records1.len());
                        }
                    }
                }
                break ;
            }
            proof {
                let take_n = if num_vectors_per_iteration <= mgr0.spec_mem().len() {
                    num_vectors_per_iteration as int
                } else {
                    mgr0.spec_mem().len() as int
                };
                let drained = mgr0.spec_mem().take(take_n);
                let parsed = spec_parse(
                    self.spec_manager().spec_data(),
                    mgr0.spec_offset(),
                    (num_vectors_per_iteration - take_n) as nat,
                );
                assert(vector_views(batch@).len() == entry_models(drained).len() + parsed.0.len());
                if take_n == 0 {
                    assert(entry_models(drained).len() == 0);
                    assert(records_bytes(entry_models(drained)) =~= Seq::<u8>::empty());
                    assert(self.spec_manager().spec_data() =~= mgr0.spec_data());
                    assert(parsed.0.len() > 0);
                    assert(0 <= mgr0.spec_offset() && mgr0.spec_offset() + 4
                        <= mgr0.spec_data().len());
                    lemma_parse_bounds(
                        mgr0.spec_data(),
                        mgr0.spec_offset(),
                        (num_vectors_per_iteration - take_n) as nat,
                    );
                    assert(self.spec_manager().spec_offset() >= mgr0.spec_offset() + 12);
                    assert(self.spec_manager().spec_offset() <= mgr0.spec_data().len());
                } else {
                    assert(self.spec_manager().spec_mem().len() < mgr0.spec_mem().len());
                }
            }
            let ghost kprev = mgr0.spec_cursor_k();
            let ghost knew = self.spec_manager().spec_cursor_k();
            let ghost items0 = ann_index.spec_items();
            proof {
                if was_synced {
                    let take_n: int = if num_vectors_per_iteration <= mgr0.spec_mem().len() {
                        num_vectors_per_iteration as int
                    } else {
                        mgr0.spec_mem().len() as int
                    };
                    assert(take_n == 0);
                    let taken = mgr0.spec_mem().take(take_n);
                    assert(taken =~= Seq::<(u64, VFSVector)>::empty());
                    assert(entry_models(taken).len() == 0);
                    assert(mgr0.spec_records() + entry_models(taken) =~= records1);
                    assert(self.spec_manager().spec_records() == records1);
                    assert(knew <= records1.len());
                    assert(vector_views(batch@) == entry_models(taken) + records1.subrange(
                        kprev,
                        knew,
                    ));
                    assert(entry_models(taken) + records1.subrange(kprev, knew)
                        =~= records1.subrange(kprev, knew));
                    assert(vector_views(batch@) =~= records1.subrange(kprev, knew));
                }
            }
            let ghost batch_items = batch@;
            ann_index.insert_many(batch);
            proof {
                if was_synced {
                    assert(vector_views(items0 + batch_items) =~= vector_views(items0)
                        + vector_views(batch_items));
                    assert(records1.subrange(k0, kprev) + records1.subrange(kprev, knew)
                        =~= records1.subrange(k0, knew));
                    assert(vector_views(ann_index.spec_items()) =~= records1.subrange(k0, knew));
                }
            }
        }
        let ghost kend = self.spec_manager().spec_cursor_k();
        let ann_results = ann_index.query(query, limit, 24);
        let mut all_results: Vec<(u64, u32)> = Vec::new();
        let mut t: usize = 0;
        while t < ann_results.len()
            invariant
                ann_index.wf(),
                *ann_index.spec_kernel() == fdist,
                0 <= t <= ann_results@.len(),
                all_results@.len() == t,
                forall|u: int|
                    0 <= u < ann_results@.len() ==> (#[trigger] ann_results@[u]).index
                        < ann_index.spec_items().len(),
                forall|u: int|
                    0 <= u < ann_results@.len() ==> is_score(
                        ann_index.spec_kernel(),
                        *query,
                        ann_index.spec_items()[(#[trigger] ann_results@[u]).index as int],
                        ann_results@[u].distance,
                    ),
                forall|u: int|
                    0 <= u < t ==> (#[trigger] all_results@[u]).1 == ann_results@[u].distance,
                sorted_by_distance(ann_results@),
                was_synced ==> ({
                    &&& 0 <= k0 <= kend <= records1.len()
                    &&& records1.len() == total
                    &&& vector_views(ann_index.spec_items()) == records1.subrange(k0, kend)
                    &&& pairs_scored(fdist, *query, all_results@, records1, k0, total)
                }),
            decreases ann_results@.len() - t,
        {
            let nb = ann_results[t];
            let id = ann_index.feature(nb.index).id();
            proof {
                if was_synced {
                    assert(vector_views(ann_index.spec_items())[nb.index as int]
                        == ann_index.spec_items()[nb.index as int]@);
                    assert(records1.subrange(k0, kend)[nb.index as int] == records1[k0
                        + nb.index]);
                    assert(records1[k0 + nb.index].spec_id() == id);
                }
            }
            let ghost prev_results = all_results@;
            all_results.push((id, nb.distance));
            proof {
                if was_synced {
                    // Bridge the kernel fact through the reference the
                    // graph was built over.
                    assert(is_score(
                        ann_index.spec_kernel(),
                        *query,
                        ann_index.spec_items()[nb.index as int],
                        nb.distance,
                    ));
                    let (a, b) = choose|a: &VFSVector, b: &VFSVector|
                        *a == *query && *b == ann_index.spec_items()[nb.index as int]
                            && call_ensures(ann_index.spec_kernel(), (a, b), nb.distance);
                    assert(call_ensures(fdist, (a, b), nb.distance));
                    assert(b@ == records1[k0 + nb.index]);
                    assert(is_record_score(fdist, *query, records1[k0 + nb.index], nb.distance));
                    assert forall|w: int| 0 <= w < all_results@.len() implies exists|j: int|
                        k0 <= j < total && records1[j].spec_id() == (
                    #[trigger] all_results@[w]).0 && is_record_score(
                        fdist,
                        *query,
                        records1[j],
                        all_results@[w].1,
                    ) by {
                        if w < prev_results.len() {
                            assert(pairs_scored(fdist, *query, prev_results, records1, k0, total));
                            assert(all_results@[w] == prev_results[w]);
                        } else {
                            assert(all_results@[w] == (id, nb.distance));
                            assert(k0 <= k0 + nb.index < total);
                        }
                    }
                    assert(pairs_scored(fdist, *query, all_results@, records1, k0, total));
                }
            }
            t = t + 1;
        }
        proof {
            assert(sorted_pairs(all_results@)) by {
                assert forall|a: int, b: int|
                    0 <= a <= b < all_results@.len() implies all_results@[a].1
                    <= all_results@[b].1 by {
                    assert(ann_results@[a].distance <= ann_results@[b].distance);
                }
            }
            if was_synced {
                assert(records1 == old(self).spec_manager().spec_records() + entry_models(
                    old(self).spec_manager().spec_mem(),
                ));
                assert(k0 == old(self).spec_manager().spec_cursor_k());
                assert(pairs_scored(
                    fdist,
                    *query,
                    all_results@,
                    old(self).spec_manager().spec_records() + entry_models(
                        old(self).spec_manager().spec_mem(),
                    ),
                    old(self).spec_manager().spec_cursor_k(),
                    old(self).spec_manager().spec_records().len() as int + old(
                        self,
                    ).spec_manager().spec_mem().len() as int,
                ));
                if num_vectors_per_iteration >= 1 && total > k0 {
                    assert(kend == total);
                    assert(ann_index.spec_items().len() > 0);
                    assert(ann_results@.len() >= 1);
                    assert(all_results@.len() >= 1);
                }
            }
        }
        Ok(all_results)
    }
}

} // verus!
