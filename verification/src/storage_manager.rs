//! The storage engine.
//!
//! Writes go to the memtable; once it reaches the flush threshold the
//! entries are drained in insertion order, framed by the record codec,
//! and appended to the data buffer, with each identifier's byte offset
//! recorded in the primary index.  Batched reads drain the memtable
//! first and then parse records from the read cursor; the whole engine
//! state can be snapshotted and restored.
//!
//! The engine owns the data file's contents as a byte buffer; reading
//! and writing the file itself is the caller's plumbing.

use vstd::prelude::*;

verus! {

use indexmap::IndexMap;
use crate::vector::{VFSVector, VFSVectorModel};
use crate::memtable::{memtable_entries, memtable_has_key, memtable_new, memtable_len,
    memtable_insert, memtable_get, memtable_drain_front};
use crate::index::{PrimaryIndex, spec_lookup, sorted_by_key, lemma_lookup_present,
    lemma_lookup_absent, lemma_lookup_some_exists};
use crate::serializer::{records_bytes, records_wf, record_boundary, record_wf, spec_parse,
    spec_encode_record, spec_encode_snapshot_record, spec_decode_snapshot, snapshot_wf,
    vector_views, save_vector, load_vectors, encode_snapshot, decode_snapshot,
    lemma_records_bytes_push, lemma_boundary_succ, lemma_boundary_push_stable,
    lemma_boundary_end, lemma_boundary_le, lemma_parse_bounds, lemma_parse_at_boundary,
    lemma_records_bytes_concat, lemma_snapshot_round_trip};
use crate::err::VFSError;

/// How many memtable entries trigger an automatic flush by default.
pub const FLUSH_THRESHOLD: usize = 10;

/// Selective reset of the engine state.
pub struct ResetOptions {
    pub truncate_data_file: bool,
    pub reset_offset: bool,
    pub new_offset: Option<usize>,
    pub clear_memtable: bool,
    pub clear_indexmap: bool,
    pub reset_id_counter: bool,
    pub new_id_start: Option<u64>,
}

impl Default for ResetOptions {
    /// Rewinds the read cursor to the start and touches nothing else.
    fn default() -> (r: ResetOptions)
        ensures
            !r.truncate_data_file,
            r.reset_offset,
            r.new_offset == Some(0usize),
            !r.clear_memtable,
            !r.clear_indexmap,
            !r.reset_id_counter,
            r.new_id_start is None,
    {
        ResetOptions {
            truncate_data_file: false,
            reset_offset: true,
            new_offset: Some(0),
            clear_memtable: false,
            clear_indexmap: false,
            reset_id_counter: false,
            new_id_start: None,
        }
    }
}

/// The models of the vector values held in memtable entries.
pub open spec fn entry_models(s: Seq<(u64, VFSVector)>) -> Seq<VFSVectorModel> {
    Seq::new(s.len(), |i: int| s[i].1@)
}

/// The storage engine.
pub struct VFSManager {
    pub name: String,
    index_map: PrimaryIndex,
    next_id: u64,
    memtable: IndexMap<u64, VFSVector>,
    data: Vec<u8>,
    current_offset: usize,
    flush_threshold: usize,
    records: Ghost<Seq<VFSVectorModel>>,
    cursor_k: Ghost<int>,
}

impl VFSManager {
    /// The models of the records in the data buffer, in file order.
    pub closed spec fn spec_records(self) -> Seq<VFSVectorModel> {
        self.records@
    }

    /// The memtable entries, in insertion order.
    pub closed spec fn spec_mem(self) -> Seq<(u64, VFSVector)> {
        memtable_entries(self.memtable)
    }

    /// The manager's name.
    pub closed spec fn spec_name(self) -> Seq<char> {
        self.name@
    }

    /// The identifier handed out by the next successful registration.
    pub closed spec fn spec_next_id(self) -> u64 {
        self.next_id
    }

    /// The byte position of the batched reader in the data buffer.
    pub closed spec fn spec_offset(self) -> int {
        self.current_offset as int
    }

    /// The data buffer.
    pub closed spec fn spec_data(self) -> Seq<u8> {
        self.data@
    }

    /// The primary index entries, sorted by identifier.
    pub closed spec fn spec_index(self) -> Seq<(u64, u64)> {
        self.index_map@
    }

    /// The memtable size that triggers an automatic flush.
    pub closed spec fn spec_threshold(self) -> int {
        self.flush_threshold as int
    }

    /// The record the batched reader stands before.
    pub closed spec fn spec_cursor_k(self) -> int {
        self.cursor_k@
    }

    /// Structural well-formedness: the data buffer is exactly the coded
    /// record stream, the index is sorted, and every memtable entry is
    /// keyed by its vector's identifier.
    pub closed spec fn wf(self) -> bool {
        &&& self.data@ == records_bytes(self.records@)
        &&& records_wf(self.records@)
        &&& self.index_map.wf()
        &&& forall|i: int|
            0 <= i < self.spec_mem().len() ==> (#[trigger] self.spec_mem()[i]).0
                == self.spec_mem()[i].1@.spec_id()
        &&& self.flush_threshold >= 1
    }

    /// The live-state invariant that register, flush, read and snapshot
    /// maintain: identifiers are assigned monotonically and never
    /// reused, the read cursor stands on a record boundary, and the
    /// primary index maps exactly the identifiers on disk to the byte
    /// offsets of their markers.
    pub closed spec fn synced(self) -> bool {
        &&& self.next_id >= 1
        &&& 0 <= self.cursor_k@ <= self.records@.len()
        &&& self.current_offset == record_boundary(self.records@, self.cursor_k@)
        &&& forall|i: int, j: int|
            0 <= i < j < self.records@.len() ==> (#[trigger] self.records@[i]).spec_id() < (
            #[trigger] self.records@[j]).spec_id()
        &&& forall|i: int, j: int|
            0 <= i < j < self.spec_mem().len() ==> (#[trigger] self.spec_mem()[i]).0 < (
            #[trigger] self.spec_mem()[j]).0
        &&& forall|i: int, j: int|
            0 <= i < self.records@.len() && 0 <= j < self.spec_mem().len() ==> (
            #[trigger] self.records@[i]).spec_id() < (#[trigger] self.spec_mem()[j]).0
        &&& forall|i: int|
            0 <= i < self.records@.len() ==> (#[trigger] self.records@[i]).spec_id()
                < self.next_id
        &&& forall|j: int|
            0 <= j < self.spec_mem().len() ==> (#[trigger] self.spec_mem()[j]).0 < self.next_id
        &&& self.index_map@ == Seq::new(
            self.records@.len(),
            |j: int| (self.records@[j].spec_id(), record_boundary(self.records@, j) as u64),
        )
    }

    /// A fresh engine with the default flush threshold.
    pub fn new(name: &str) -> (r: VFSManager)
        ensures
            r.wf(),
            r.synced(),
            r.spec_name() == name@,
            r.spec_next_id() == 1,
            r.spec_mem().len() == 0,
            r.spec_records().len() == 0,
            r.spec_offset() == 0,
            r.spec_index().len() == 0,
            r.spec_data().len() == 0,
            r.spec_threshold() == FLUSH_THRESHOLD as int,
    {
        VFSManager::with_flush_threshold(name, FLUSH_THRESHOLD)
    }

    /// A fresh engine whose memtable flushes once it holds
    /// `flush_threshold` entries.
    pub fn with_flush_threshold(name: &str, flush_threshold: usize) -> (r: VFSManager)
        requires
            flush_threshold >= 1,
        ensures
            r.wf(),
            r.synced(),
            r.spec_name() == name@,
            r.spec_next_id() == 1,
            r.spec_mem().len() == 0,
            r.spec_records().len() == 0,
            r.spec_offset() == 0,
            r.spec_index().len() == 0,
            r.spec_data().len() == 0,
            r.spec_threshold() == flush_threshold as int,
    {
        let r = VFSManager {
            name: name.to_owned(),
            index_map: PrimaryIndex::new(),
            next_id: 1,
            memtable: memtable_new(),
            data: Vec::new(),
            current_offset: 0,
            flush_threshold,
            records: Ghost(Seq::empty()),
            cursor_k: Ghost(0),
        };
        proof {
            assert(r.data@ =~= records_bytes(r.records@));
            assert(r.index_map@ =~= Seq::new(
                r.records@.len(),
                |j: int| (r.records@[j].spec_id(), record_boundary(r.records@, j) as u64),
            ));
            assert(r.records@.take(0) =~= Seq::<VFSVectorModel>::empty());
        }
        r
    }

    /// The read cursor's byte position.
    pub fn get_current_offset(&self) -> (r: usize)
        ensures
            r == self.spec_offset(),
    {
        self.current_offset
    }

    /// The largest identifier handed out so far; zero when none was.
    pub fn get_max_id(&self) -> (r: u64)
        ensures
            r == if self.spec_next_id() == 0 {
                0u64
            } else {
                (self.spec_next_id() - 1) as u64
            },
    {
        if self.next_id == 0 {
            0
        } else {
            self.next_id - 1
        }
    }

    /// Number of entries waiting in the memtable.
    pub fn get_memtable_size(&self) -> (r: usize)
        ensures
            r == self.spec_mem().len(),
    {
        memtable_len(&self.memtable)
    }

    /// An upper estimate of how many vectors were ever registered.
    pub fn get_total_vectors_estimate(&self) -> (r: usize)
        ensures
            r as int == if self.spec_next_id() == 0 {
                0
            } else if self.spec_next_id() - 1 <= usize::MAX {
                self.spec_next_id() - 1
            } else {
                usize::MAX as int
            },
    {
        if self.next_id == 0 {
            0
        } else {
            let m = self.next_id - 1;
            if m <= usize::MAX as u64 {
                m as usize
            } else {
                usize::MAX
            }
        }
    }

    /// The data buffer, to be persisted by the caller's plumbing.
    pub fn data_file(&self) -> (r: &Vec<u8>)
        ensures
            r@ == self.spec_data(),
    {
        &self.data
    }

    /// Replaces the data buffer with record-stream bytes read back from
    /// storage; the read cursor rewinds to the start.
    #[verifier::rlimit(100)]
    pub fn set_data_file(&mut self, bytes: Vec<u8>)
        requires
            old(self).wf(),
            exists|rs: Seq<VFSVectorModel>| records_wf(rs) && bytes@ == records_bytes(rs),
        ensures
            final(self).wf(),
            final(self).spec_data() == bytes@,
            records_wf(final(self).spec_records()) && bytes@ == records_bytes(
                final(self).spec_records(),
            ),
            final(self).spec_mem() == old(self).spec_mem(),
            final(self).spec_index() == old(self).spec_index(),
            final(self).spec_next_id() == old(self).spec_next_id(),
            final(self).spec_offset() == 0,
            final(self).spec_name() == old(self).spec_name(),
            final(self).spec_threshold() == old(self).spec_threshold(),
    {
        let ghost input = bytes@;
        self.data = bytes;
        self.current_offset = 0;
        proof {
            let rs = choose|rs: Seq<VFSVectorModel>|
                records_wf(rs) && input == records_bytes(rs);
            assert(records_wf(rs) && input == records_bytes(rs));
            self.records@ = rs;
            self.cursor_k@ = 0;
            assert(self.records@.take(0) =~= Seq::<VFSVectorModel>::empty());
            assert(self.spec_mem() == old(self).spec_mem());
            assert forall|i: int| 0 <= i < self.spec_mem().len() implies (
            #[trigger] self.spec_mem()[i]).0 == self.spec_mem()[i].1@.spec_id() by {
                assert((old(self).spec_mem()[i]).0 == old(self).spec_mem()[i].1@.spec_id());
            }
        }
    }
}

impl VFSManager {
    /// Drains the first `n` memtable entries in insertion order,
    /// appends each as a framed record to the data buffer, and records
    /// each identifier's marker offset in the primary index.  Returns
    /// the drained entries.
    #[verifier::rlimit(100)]
    fn flush_front(&mut self, n: usize) -> (drained: Vec<(u64, VFSVector)>)
        requires
            old(self).wf(),
            n <= old(self).spec_mem().len(),
        ensures
            final(self).wf(),
            drained@ == old(self).spec_mem().take(n as int),
            final(self).spec_mem() == old(self).spec_mem().skip(n as int),
            final(self).spec_records() == old(self).spec_records() + entry_models(
                old(self).spec_mem().take(n as int),
            ),
            final(self).spec_data() == old(self).spec_data() + records_bytes(
                entry_models(old(self).spec_mem().take(n as int)),
            ),
            final(self).spec_next_id() == old(self).spec_next_id(),
            final(self).spec_offset() == old(self).spec_offset(),
            final(self).spec_cursor_k() == old(self).spec_cursor_k(),
            final(self).spec_name() == old(self).spec_name(),
            final(self).spec_threshold() == old(self).spec_threshold(),
            old(self).synced() ==> final(self).synced(),
    {
        let ghost pre = *old(self);
        let drained = memtable_drain_front(&mut self.memtable, n);
        let total = drained.len();
        let mut k: usize = 0;
        proof {
            assert(self.records@ + entry_models(drained@.take(0)) =~= self.records@);
            assert(entry_models(drained@).take(0) =~= entry_models(drained@.take(0)));
        }
        while k < total
            invariant
                k <= total,
                total == drained@.len(),
                drained@ == pre.spec_mem().take(total as int),
                total <= pre.spec_mem().len(),
                self.wf(),
                self.spec_mem() == pre.spec_mem().skip(total as int),
                self.spec_records() == pre.spec_records() + entry_models(drained@.take(k as int)),
                self.spec_next_id() == pre.spec_next_id(),
                self.spec_offset() == pre.spec_offset(),
                self.spec_cursor_k() == pre.spec_cursor_k(),
                self.spec_name() == pre.spec_name(),
                self.spec_threshold() == pre.spec_threshold(),
                pre.wf(),
                pre.synced() ==> self.synced(),
            decreases total - k,
        {
            let ghost snap = *self;
            let pair = &drained[k];
            let id = pair.0;
            let offset = save_vector(&pair.1, &mut self.data);
            self.index_map.insert(id, offset as u64);
            proof {
                let m = pair.1@;
                let rs = snap.records@;
                self.records@ = rs.push(m);
                lemma_records_bytes_push(rs, m);
                // The stream stays well formed and the byte buffer stays
                // its exact encoding.
                assert(records_wf(self.records@)) by {
                    assert(forall|i: int|
                        0 <= i < rs.len() ==> self.records@[i] == rs[i]);
                    assert(self.records@[rs.len() as int] == m);
                }
                assert(self.data@ == records_bytes(self.records@));
                assert(self.spec_records() =~= pre.spec_records() + entry_models(
                    drained@.take(k + 1),
                )) by {
                    assert(entry_models(drained@.take(k + 1)) =~= entry_models(
                        drained@.take(k as int),
                    ).push(m));
                }
                // Under the live-state invariant the new record carries
                // the next identifier in order, so the index extends by
                // exactly one entry at the end.
                if pre.synced() {
                    assert(pre.spec_mem()[k as int] == drained@[k as int]);
                    assert(id == m.spec_id());
                    assert(forall|i: int|
                        0 <= i < rs.len() ==> (#[trigger] rs[i]).spec_id() < id);
                    assert(snap.index_map@.len() == rs.len());
                    assert(rs.len() == 0 || snap.index_map@.last().0 < id) by {
                        if rs.len() > 0 {
                            assert(snap.index_map@.last() == (
                            rs[rs.len() - 1].spec_id(),
                            record_boundary(rs, rs.len() - 1) as u64,
                            ));
                        }
                    }
                    assert(self.index_map@ == snap.index_map@.push((id, offset as u64)));
                    lemma_boundary_end(rs);
                    assert(offset as int == record_boundary(self.records@, rs.len() as int)) by {
                        lemma_boundary_push_stable(rs, m, rs.len() as int);
                    }
                    assert(self.index_map@ =~= Seq::new(
                        self.records@.len(),
                        |j: int| (
                        self.records@[j].spec_id(),
                        record_boundary(self.records@, j) as u64,
                        ),
                    )) by {
                        assert forall|j: int| 0 <= j < rs.len() implies record_boundary(
                            self.records@,
                            j,
                        ) == record_boundary(rs, j) by {
                            lemma_boundary_push_stable(rs, m, j);
                        }
                    }
                    assert(self.current_offset == record_boundary(
                        self.records@,
                        self.cursor_k@,
                    )) by {
                        lemma_boundary_push_stable(rs, m, snap.cursor_k@);
                    }
                    assert(self.synced());
                }
            }
            k = k + 1;
        }
        proof {
            assert(drained@.take(total as int) =~= drained@);
            lemma_records_bytes_concat(
                pre.spec_records(),
                entry_models(pre.spec_mem().take(n as int)),
            );
        }
        drained
    }

    /// Drains the whole memtable to the data buffer.
    fn flush_memtable_to_disk(&mut self) -> (r: Result<(), VFSError>)
        requires
            old(self).wf(),
        ensures
            final(self).wf(),
            r is Ok,
            final(self).spec_mem().len() == 0,
            final(self).spec_records() == old(self).spec_records() + entry_models(
                old(self).spec_mem(),
            ),
            final(self).spec_data() == old(self).spec_data() + records_bytes(
                entry_models(old(self).spec_mem()),
            ),
            final(self).spec_next_id() == old(self).spec_next_id(),
            final(self).spec_offset() == old(self).spec_offset(),
            final(self).spec_cursor_k() == old(self).spec_cursor_k(),
            final(self).spec_name() == old(self).spec_name(),
            final(self).spec_threshold() == old(self).spec_threshold(),
            old(self).synced() ==> final(self).synced(),
    {
        let n = memtable_len(&self.memtable);
        self.flush_front(n);
        proof {
            assert(old(self).spec_mem().take(old(self).spec_mem().len() as int) =~= old(
                self,
            ).spec_mem());
            assert(old(self).spec_mem().skip(old(self).spec_mem().len() as int) =~= Seq::<
                (u64, VFSVector),
            >::empty());
        }
        Ok(())
    }

    /// Flushes the memtable on demand.  With the data buffer in memory
    /// the drain cannot fail; the `Result` mirrors the storage plumbing
    /// around the engine.
    pub fn flush_manual(&mut self) -> (r: Result<(), VFSError>)
        requires
            old(self).wf(),
        ensures
            final(self).wf(),
            r is Ok,
            final(self).spec_mem().len() == 0,
            final(self).spec_records() == old(self).spec_records() + entry_models(
                old(self).spec_mem(),
            ),
            final(self).spec_data() == old(self).spec_data() + records_bytes(
                entry_models(old(self).spec_mem()),
            ),
            final(self).spec_next_id() == old(self).spec_next_id(),
            final(self).spec_offset() == old(self).spec_offset(),
            final(self).spec_cursor_k() == old(self).spec_cursor_k(),
            final(self).spec_name() == old(self).spec_name(),
            final(self).spec_threshold() == old(self).spec_threshold(),
            old(self).synced() ==> final(self).synced(),
    {
        self.flush_memtable_to_disk()
    }
}

/// Relies on chrono's `Utc::now().to_rfc3339()` for the creation
/// timestamp; nothing is promised of the value, which depends on the
/// clock.
#[verifier::external_body]
fn now_rfc3339() -> String {
    chrono::Utc::now().to_rfc3339()
}

/// The new entry a dense registration makes: a dense vector under the
/// assigned identifier, carrying the given components, name and tags.
/// The creation timestamp is whatever the clock said.
pub open spec fn is_fresh_dense(
    entry: (u64, VFSVector),
    id: u64,
    values: Seq<u32>,
    name: Seq<char>,
    tags: Seq<Seq<char>>,
) -> bool {
    &&& entry.0 == id
    &&& entry.1@ matches VFSVectorModel::Dense(d) && d.id == id && d.values == values
        && d.metadata.name == name && d.metadata.tags == tags
}

/// The new entry a quantized registration makes; the reserved
/// `"quantized"` tag is appended to the given tags.
pub open spec fn is_fresh_quantized(
    entry: (u64, VFSVector),
    id: u64,
    values: Seq<i8>,
    scale_factor_bits: u32,
    name: Seq<char>,
    tags: Seq<Seq<char>>,
) -> bool {
    &&& entry.0 == id
    &&& entry.1@ matches VFSVectorModel::Quantized(q) && q.id == id && q.values == values
        && q.scale_factor_bits == scale_factor_bits && q.metadata.name == name && q.metadata.tags
        == tags.push("quantized"@)
}

impl VFSManager {
    /// How a successful registration placed its new entry: into the
    /// memtable when it stayed under the flush threshold, otherwise
    /// drained to the data buffer together with everything before it.
    pub open spec fn placed_entry(self, pre: VFSManager, entry: (u64, VFSVector)) -> bool {
        if pre.spec_mem().len() + 1 < pre.spec_threshold() {
            &&& self.spec_mem() == pre.spec_mem().push(entry)
            &&& self.spec_records() == pre.spec_records()
        } else {
            &&& self.spec_mem().len() == 0
            &&& self.spec_records() == pre.spec_records() + entry_models(
                pre.spec_mem().push(entry),
            )
        }
    }

    /// Inserts a vector into the memtable under its own identifier and
    /// flushes once the threshold is reached.
    #[verifier::rlimit(100)]
    fn vector_to_memtable(&mut self, vector: VFSVector) -> (r: Result<(), VFSError>)
        requires
            old(self).wf(),
            forall|i: int|
                0 <= i < old(self).spec_mem().len() ==> (#[trigger] old(self).spec_mem()[i]).0
                    != vector@.spec_id(),
        ensures
            final(self).wf(),
            r is Ok,
            final(self).placed_entry(*old(self), (vector@.spec_id(), vector)),
            final(self).spec_next_id() == old(self).spec_next_id(),
            final(self).spec_offset() == old(self).spec_offset(),
            final(self).spec_cursor_k() == old(self).spec_cursor_k(),
            final(self).spec_name() == old(self).spec_name(),
            final(self).spec_threshold() == old(self).spec_threshold(),
            ({
                &&& old(self).synced()
                &&& forall|i: int|
                    0 <= i < old(self).spec_mem().len() ==> (#[trigger] old(self).spec_mem()[i]).0
                        < vector@.spec_id()
                &&& forall|i: int|
                    0 <= i < old(self).spec_records().len() ==> (#[trigger] old(
                        self,
                    ).spec_records()[i]).spec_id() < vector@.spec_id()
                &&& vector@.spec_id() < old(self).spec_next_id()
            }) ==> final(self).synced(),
    {
        let id = vector.id();
        let ghost mid_entry = (id, vector);
        proof {
            assert(!memtable_has_key(self.memtable, id)) by {
                if memtable_has_key(self.memtable, id) {
                    let i = choose|i: int|
                        0 <= i < memtable_entries(self.memtable).len() && memtable_entries(
                            self.memtable,
                        )[i].0 == id;
                    assert(old(self).spec_mem()[i].0 != id);
                }
            }
        }
        memtable_insert(&mut self.memtable, id, vector);
        proof {
            assert(self.spec_mem() == old(self).spec_mem().push(mid_entry));
            let pre = *old(self);
            if pre.synced() && (forall|i: int|
                0 <= i < pre.spec_mem().len() ==> (#[trigger] pre.spec_mem()[i]).0 < id) && (
            forall|i: int|
                0 <= i < pre.spec_records().len() ==> (#[trigger] pre.spec_records()[i]).spec_id()
                    < id) && id < pre.spec_next_id() {
                assert forall|i: int, j: int| 0 <= i < j < self.spec_mem().len() implies (
                #[trigger] self.spec_mem()[i]).0 < (#[trigger] self.spec_mem()[j]).0 by {
                    if j < pre.spec_mem().len() {
                        assert(pre.spec_mem()[i].0 < pre.spec_mem()[j].0);
                    } else {
                        assert(pre.spec_mem()[i].0 < id);
                    }
                }
                assert forall|i: int, j: int|
                    0 <= i < self.spec_records().len() && 0 <= j
                        < self.spec_mem().len() implies (#[trigger] self.spec_records()[i]).spec_id()
                    < (#[trigger] self.spec_mem()[j]).0 by {
                    if j < pre.spec_mem().len() {
                        assert(pre.spec_records()[i].spec_id() < pre.spec_mem()[j].0);
                    } else {
                        assert(pre.spec_records()[i].spec_id() < id);
                    }
                }
                assert forall|j: int| 0 <= j < self.spec_mem().len() implies (
                #[trigger] self.spec_mem()[j]).0 < self.next_id by {
                    if j < pre.spec_mem().len() {
                        assert(pre.spec_mem()[j].0 < pre.spec_next_id());
                    }
                }
                assert(self.synced());
            }
        }
        if memtable_len(&self.memtable) >= self.flush_threshold {
            let ghost mid = *self;
            self.flush_memtable_to_disk().map_err(|_e| VFSError::MemtableError(
                String::new(),
            ))?;
            proof {
                assert(mid.spec_mem().take(mid.spec_mem().len() as int) =~= mid.spec_mem());
            }
        }
        Ok(())
    }

    /// Registers a dense vector built from raw component bit patterns.
    /// Rejects empty component lists; allocates the next identifier and
    /// buffers the vector, flushing at the threshold.
    pub fn register_vector_from_vec(&mut self, data: Vec<u32>, name: &str, tags: Vec<String>) -> (r:
        Result<u64, VFSError>)
        requires
            old(self).wf(),
            old(self).synced(),
        ensures
            final(self).wf(),
            data@.len() == 0 ==> (r matches Err(e) && e is InvalidVector && *final(self) == *old(
                self,
            )),
            data@.len() > 0 && old(self).spec_next_id() == u64::MAX ==> (r matches Err(e) && e
                is IdGenerationError && *final(self) == *old(self)),
            data@.len() > 0 && old(self).spec_next_id() < u64::MAX ==> ({
                &&& r matches Ok(id) && id == old(self).spec_next_id()
                &&& final(self).spec_next_id() == old(self).spec_next_id() + 1
                &&& final(self).synced()
                &&& exists|entry: (u64, VFSVector)|
                    is_fresh_dense(
                        entry,
                        old(self).spec_next_id(),
                        data@,
                        name@,
                        crate::vector::tag_views(tags@),
                    ) && #[trigger] final(self).placed_entry(*old(self), entry)
                &&& final(self).spec_offset() == old(self).spec_offset()
                &&& final(self).spec_name() == old(self).spec_name()
                &&& final(self).spec_threshold() == old(self).spec_threshold()
            }),
    {
        if data.len() == 0 {
            return Err(VFSError::InvalidVector(String::from_str("Vector data cannot be empty")));
        }
        if self.next_id == u64::MAX {
            return Err(
                VFSError::IdGenerationError(String::from_str("Identifier space exhausted")),
            );
        }
        let id = self.next_id;
        self.next_id = self.next_id + 1;
        let created_at = now_rfc3339();
        let vfs = VFSVector::from_vec(data, id, name, tags, created_at);
        let ghost entry = (id, vfs);
        let ghost pre = *old(self);
        proof {
            assert forall|i: int| 0 <= i < self.spec_mem().len() implies (
            #[trigger] self.spec_mem()[i]).0 != vfs@.spec_id() by {
                assert(old(self).spec_mem()[i].0 < old(self).spec_next_id());
            }
            assert(self.synced()) by {
                assert forall|i: int|
                    0 <= i < self.spec_records().len() implies (
                #[trigger] self.spec_records()[i]).spec_id() < self.next_id by {
                    assert(old(self).spec_records()[i].spec_id() < old(self).spec_next_id());
                }
                assert forall|j: int| 0 <= j < self.spec_mem().len() implies (
                #[trigger] self.spec_mem()[j]).0 < self.next_id by {
                    assert(old(self).spec_mem()[j].0 < old(self).spec_next_id());
                }
            }
            assert forall|i: int| 0 <= i < self.spec_mem().len() implies (
            #[trigger] self.spec_mem()[i]).0 < vfs@.spec_id() by {
                assert(old(self).spec_mem()[i].0 < old(self).spec_next_id());
            }
            assert forall|i: int| 0 <= i < self.spec_records().len() implies (
            #[trigger] self.spec_records()[i]).spec_id() < vfs@.spec_id() by {
                assert(old(self).spec_records()[i].spec_id() < old(self).spec_next_id());
            }
        }
        let result = self.vector_to_memtable(vfs);
        proof {
            assert(result is Ok);
            assert(final(self).placed_entry(*old(self), entry)) by {
                assert(pre.spec_mem() == old(self).spec_mem());
            }
        }
        Ok(id)
    }

    /// Registers a quantized vector from signed components and the bit
    /// pattern of its scale factor; the reserved `"quantized"` tag is
    /// appended.
    pub fn register_vector_quantized(
        &mut self,
        data: Vec<i8>,
        scale_factor_bits: u32,
        name: &str,
        tags: Vec<String>,
    ) -> (r: Result<u64, VFSError>)
        requires
            old(self).wf(),
            old(self).synced(),
        ensures
            final(self).wf(),
            data@.len() == 0 ==> (r matches Err(e) && e is InvalidVector && *final(self) == *old(
                self,
            )),
            data@.len() > 0 && old(self).spec_next_id() == u64::MAX ==> (r matches Err(e) && e
                is IdGenerationError && *final(self) == *old(self)),
            data@.len() > 0 && old(self).spec_next_id() < u64::MAX ==> ({
                &&& r matches Ok(id) && id == old(self).spec_next_id()
                &&& final(self).spec_next_id() == old(self).spec_next_id() + 1
                &&& final(self).synced()
                &&& exists|entry: (u64, VFSVector)|
                    is_fresh_quantized(
                        entry,
                        old(self).spec_next_id(),
                        data@,
                        scale_factor_bits,
                        name@,
                        crate::vector::tag_views(tags@),
                    ) && #[trigger] final(self).placed_entry(*old(self), entry)
                &&& final(self).spec_offset() == old(self).spec_offset()
                &&& final(self).spec_name() == old(self).spec_name()
                &&& final(self).spec_threshold() == old(self).spec_threshold()
            }),
    {
        if data.len() == 0 {
            return Err(VFSError::InvalidVector(String::from_str("Vector data cannot be empty")));
        }
        if self.next_id == u64::MAX {
            return Err(
                VFSError::IdGenerationError(String::from_str("Identifier space exhausted")),
            );
        }
        let id = self.next_id;
        self.next_id = self.next_id + 1;
        let created_at = now_rfc3339();
        let vfs = VFSVector::from_quantized_vec(data, id, scale_factor_bits, name, tags, created_at);
        let ghost entry = (id, vfs);
        let ghost pre = *old(self);
        proof {
            assert forall|i: int| 0 <= i < self.spec_mem().len() implies (
            #[trigger] self.spec_mem()[i]).0 != vfs@.spec_id() by {
                assert(old(self).spec_mem()[i].0 < old(self).spec_next_id());
            }
            assert(self.synced()) by {
                assert forall|i: int|
                    0 <= i < self.spec_records().len() implies (
                #[trigger] self.spec_records()[i]).spec_id() < self.next_id by {
                    assert(old(self).spec_records()[i].spec_id() < old(self).spec_next_id());
                }
                assert forall|j: int| 0 <= j < self.spec_mem().len() implies (
                #[trigger] self.spec_mem()[j]).0 < self.next_id by {
                    assert(old(self).spec_mem()[j].0 < old(self).spec_next_id());
                }
            }
            assert forall|i: int| 0 <= i < self.spec_mem().len() implies (
            #[trigger] self.spec_mem()[i]).0 < vfs@.spec_id() by {
                assert(old(self).spec_mem()[i].0 < old(self).spec_next_id());
            }
            assert forall|i: int| 0 <= i < self.spec_records().len() implies (
            #[trigger] self.spec_records()[i]).spec_id() < vfs@.spec_id() by {
                assert(old(self).spec_records()[i].spec_id() < old(self).spec_next_id());
            }
        }
        let result = self.vector_to_memtable(vfs);
        proof {
            assert(result is Ok);
            assert(final(self).placed_entry(*old(self), entry)) by {
                assert(pre.spec_mem() == old(self).spec_mem());
            }
        }
        Ok(id)
    }
}

impl VFSManager {
    /// Returns up to `count` live vectors in identifier order: pending
    /// memtable entries are drained first (and flushed to the data
    /// buffer, updating the primary index), then records are parsed
    /// from the read cursor, which advances by the bytes consumed.
    pub fn load_batch(&mut self, count: usize) -> (r: Result<Vec<VFSVector>, VFSError>)
        requires
            old(self).wf(),
        ensures
            final(self).wf(),
            ({
                let take_n = if count <= old(self).spec_mem().len() {
                    count as int
                } else {
                    old(self).spec_mem().len() as int
                };
                let drained = old(self).spec_mem().take(take_n);
                let parsed = spec_parse(
                    final(self).spec_data(),
                    old(self).spec_offset(),
                    (count - take_n) as nat,
                );
                &&& r matches Ok(batch) && vector_views(batch@) == entry_models(drained)
                    + parsed.0
                &&& final(self).spec_records() == old(self).spec_records() + entry_models(drained)
                &&& final(self).spec_mem() == old(self).spec_mem().skip(take_n)
                &&& final(self).spec_offset() == parsed.1
                &&& final(self).spec_data() == old(self).spec_data() + records_bytes(
                    entry_models(drained),
                )
            }),
            final(self).spec_next_id() == old(self).spec_next_id(),
            final(self).spec_name() == old(self).spec_name(),
            final(self).spec_threshold() == old(self).spec_threshold(),
            old(self).synced() ==> final(self).synced(),
            old(self).synced() ==> ({
                let take_n = if count <= old(self).spec_mem().len() {
                    count as int
                } else {
                    old(self).spec_mem().len() as int
                };
                let total = old(self).spec_records().len() + take_n;
                let stop = if count > take_n {
                    if old(self).spec_cursor_k() + (count - take_n) <= total {
                        old(self).spec_cursor_k() + (count - take_n)
                    } else {
                        total
                    }
                } else {
                    old(self).spec_cursor_k()
                };
                &&& final(self).spec_cursor_k() == stop
                &&& r matches Ok(batch) && batch@.len() == take_n + (stop - old(
                    self,
                ).spec_cursor_k()) && vector_views(batch@) == entry_models(
                    old(self).spec_mem().take(take_n),
                ) + (old(self).spec_records() + entry_models(
                    old(self).spec_mem().take(take_n),
                )).subrange(old(self).spec_cursor_k(), stop)
            }),
    {
        let mem_len = memtable_len(&self.memtable);
        let take_n = if count < mem_len {
            count
        } else {
            mem_len
        };
        let drained = self.flush_front(take_n);
        proof {
            lemma_records_bytes_concat(
                old(self).spec_records(),
                entry_models(old(self).spec_mem().take(take_n as int)),
            );
        }
        let ghost mid = *self;
        let ghost drained_entries = drained@;
        let mut rest = drained;
        let mut batch: Vec<VFSVector> = Vec::new();
        proof {
            assert(vector_views(batch@) + entry_models(rest@) =~= entry_models(drained_entries));
        }
        while rest.len() > 0
            invariant
                vector_views(batch@) + entry_models(rest@) == entry_models(drained_entries),
            decreases rest@.len(),
        {
            let ghost pre_batch = batch@;
            let ghost pre_rest = rest@;
            let p = rest.remove(0);
            batch.push(p.1);
            proof {
                assert(rest@ =~= pre_rest.drop_first());
                assert(vector_views(batch@) + entry_models(rest@) =~= vector_views(pre_batch)
                    + entry_models(pre_rest));
            }
        }
        proof {
            assert(entry_models(rest@) =~= Seq::<VFSVectorModel>::empty());
            assert(vector_views(batch@) + entry_models(rest@) =~= vector_views(batch@));
            assert(vector_views(batch@) == entry_models(drained_entries));
        }
        if count > take_n {
            let remaining = count - take_n;
            let (mut disk, new_off) = load_vectors(&self.data, self.current_offset, remaining);
            let ghost parsed = spec_parse(
                self.data@,
                self.current_offset as int,
                remaining as nat,
            );
            self.current_offset = new_off;
            proof {
                if mid.synced() {
                    lemma_parse_at_boundary(mid.spec_records(), mid.spec_cursor_k(), remaining as nat);
                    assert(vector_views(disk@) == mid.spec_records().subrange(
                        mid.spec_cursor_k(),
                        if mid.spec_cursor_k() + remaining <= mid.spec_records().len() {
                            mid.spec_cursor_k() + remaining
                        } else {
                            mid.spec_records().len() as int
                        },
                    ));
                    let stop = if mid.spec_cursor_k() + remaining <= mid.spec_records().len() {
                        mid.spec_cursor_k() + remaining
                    } else {
                        mid.spec_records().len() as int
                    };
                    self.cursor_k@ = stop;
                    assert(self.synced());
                }
            }
            let ghost pre_append = batch@;
            let ghost disk_view = disk@;
            batch.append(&mut disk);
            proof {
                assert(vector_views(batch@) =~= vector_views(pre_append) + vector_views(
                    disk_view,
                ));
            }
            Ok(batch)
        } else {
            proof {
                assert(spec_parse(self.data@, self.current_offset as int, 0) == (
                Seq::<VFSVectorModel>::empty(),
                self.current_offset as int,
                ));
                assert(vector_views(batch@) + Seq::<VFSVectorModel>::empty() =~= vector_views(
                    batch@,
                ));
                if mid.synced() {
                    assert(mid.spec_records().subrange(
                        mid.spec_cursor_k(),
                        mid.spec_cursor_k(),
                    ) =~= Seq::<VFSVectorModel>::empty());
                }
            }
            Ok(batch)
        }
    }
}

impl VFSManager {
    /// Serializes the engine state snapshot — manager name, next
    /// identifier, read cursor and primary index — as one framed
    /// record, flushing the memtable first so that the index covers
    /// everything registered.  Writing the returned bytes to storage is
    /// the caller's plumbing.
    pub fn save_state(&mut self) -> (r: Result<Vec<u8>, VFSError>)
        requires
            old(self).wf(),
        ensures
            final(self).wf(),
            r matches Ok(bytes) && bytes@ == spec_encode_snapshot_record(
                final(self).spec_name(),
                final(self).spec_next_id(),
                final(self).spec_offset() as u64,
                final(self).spec_index(),
            ),
            snapshot_wf(final(self).spec_name(), final(self).spec_index()),
            final(self).spec_mem().len() == 0,
            final(self).spec_records() == old(self).spec_records() + entry_models(
                old(self).spec_mem(),
            ),
            final(self).spec_data() == old(self).spec_data() + records_bytes(
                entry_models(old(self).spec_mem()),
            ),
            final(self).spec_next_id() == old(self).spec_next_id(),
            final(self).spec_offset() == old(self).spec_offset(),
            final(self).spec_name() == old(self).spec_name(),
            final(self).spec_threshold() == old(self).spec_threshold(),
            old(self).synced() ==> final(self).synced(),
    {
        let flushed = self.flush_memtable_to_disk();
        proof {
            assert(flushed is Ok);
        }
        let bytes = encode_snapshot(
            &self.name,
            self.next_id,
            self.current_offset as u64,
            self.index_map.entries(),
        );
        Ok(bytes)
    }

    /// Restores the engine state from snapshot bytes: manager name,
    /// next identifier, read cursor and primary index are replaced and
    /// the memtable is left empty.  The data buffer is untouched.
    /// Bytes that do not decode as a snapshot are refused and the
    /// engine is left as it was.
    pub fn load_state(&mut self, bytes: &Vec<u8>) -> (r: Result<(), VFSError>)
        requires
            old(self).wf(),
        ensures
            final(self).wf(),
            match spec_decode_snapshot(bytes@) {
                None => r matches Err(e) && e is SerializationError && *final(self) == *old(self),
                Some((name, next_id, co, pairs)) => {
                    if co <= usize::MAX {
                        &&& r is Ok
                        &&& final(self).spec_name() == name
                        &&& final(self).spec_next_id() == next_id
                        &&& final(self).spec_offset() == co as int
                        &&& final(self).spec_mem().len() == 0
                        &&& final(self).spec_records() == old(self).spec_records()
                        &&& final(self).spec_data() == old(self).spec_data()
                        &&& final(self).spec_threshold() == old(self).spec_threshold()
                        &&& sorted_by_key(pairs) ==> final(self).spec_index() == pairs
                    } else {
                        r matches Err(e) && e is SerializationError && *final(self) == *old(self)
                    }
                },
            },
    {
        match decode_snapshot(bytes) {
            None => Err(
                VFSError::SerializationError(String::from_str("Snapshot bytes do not decode")),
            ),
            Some((name, next_id, co, pairs)) => {
                if co > usize::MAX as u64 {
                    return Err(
                        VFSError::SerializationError(
                            String::from_str("Snapshot cursor exceeds the address space"),
                        ),
                    );
                }
                self.name = name;
                self.next_id = next_id;
                self.current_offset = co as usize;
                self.index_map = PrimaryIndex::from_pairs(&pairs);
                self.memtable = memtable_new();
                proof {
                    self.cursor_k@ = 0;
                }
                Ok(())
            },
        }
    }

    /// Selectively resets the engine: each option acts independently,
    /// truncating the data buffer, rewinding the read cursor, clearing
    /// the memtable or the primary index, or restarting the identifier
    /// counter.
    pub fn reset_state(&mut self, options: ResetOptions) -> (r: Result<(), VFSError>)
        requires
            old(self).wf(),
        ensures
            final(self).wf(),
            r is Ok,
            options.truncate_data_file ==> final(self).spec_data().len() == 0
                && final(self).spec_records().len() == 0,
            !options.truncate_data_file ==> final(self).spec_data() == old(self).spec_data()
                && final(self).spec_records() == old(self).spec_records(),
            options.reset_offset ==> final(self).spec_offset() == match options.new_offset {
                Some(o) => o as int,
                None => 0,
            },
            !options.reset_offset ==> final(self).spec_offset() == old(self).spec_offset(),
            options.clear_memtable ==> final(self).spec_mem().len() == 0,
            !options.clear_memtable ==> final(self).spec_mem() == old(self).spec_mem(),
            options.clear_indexmap ==> final(self).spec_index().len() == 0,
            !options.clear_indexmap ==> final(self).spec_index() == old(self).spec_index(),
            options.reset_id_counter ==> final(self).spec_next_id() == match options.new_id_start {
                Some(s) => s,
                None => 1u64,
            },
            !options.reset_id_counter ==> final(self).spec_next_id() == old(self).spec_next_id(),
            final(self).spec_name() == old(self).spec_name(),
            final(self).spec_threshold() == old(self).spec_threshold(),
            ({
                &&& options.truncate_data_file
                &&& options.reset_offset
                &&& options.new_offset matches Some(o) && o == 0
                &&& options.clear_memtable
                &&& options.clear_indexmap
                &&& options.reset_id_counter
                &&& match options.new_id_start {
                    Some(s) => s >= 1,
                    None => true,
                }
            }) ==> final(self).synced(),
            ({
                &&& old(self).synced()
                &&& !options.truncate_data_file
                &&& !options.clear_memtable
                &&& !options.clear_indexmap
                &&& !options.reset_id_counter
                &&& options.reset_offset
                &&& options.new_offset matches Some(o) && o == 0
            }) ==> final(self).synced(),
    {
        if options.truncate_data_file {
            self.data = Vec::new();
            proof {
                self.records@ = Seq::empty();
                assert(records_bytes(self.records@) =~= Seq::<u8>::empty());
            }
        }
        if options.reset_offset {
            self.current_offset = match options.new_offset {
                Some(o) => o,
                None => 0,
            };
            proof {
                self.cursor_k@ = 0;
            }
        }
        if options.clear_memtable {
            self.memtable = memtable_new();
        }
        if options.clear_indexmap {
            self.index_map.clear();
        }
        if options.reset_id_counter {
            self.next_id = match options.new_id_start {
                Some(s) => s,
                None => 1,
            };
        }
        proof {
            assert forall|i: int| 0 <= i < self.spec_mem().len() implies (
            #[trigger] self.spec_mem()[i]).0 == self.spec_mem()[i].1@.spec_id() by {
                if !options.clear_memtable {
                    assert(self.spec_mem() == old(self).spec_mem());
                    assert(old(self).spec_mem()[i].0 == old(self).spec_mem()[i].1@.spec_id());
                }
            }
            if options.truncate_data_file && options.reset_offset && (options.new_offset
                matches Some(o) && o == 0) && options.clear_memtable && options.clear_indexmap
                && options.reset_id_counter {
                assert(self.records@.take(0) =~= Seq::<VFSVectorModel>::empty());
                assert(self.index_map@ =~= Seq::new(
                    self.records@.len(),
                    |j: int| (self.records@[j].spec_id(), record_boundary(self.records@, j) as u64),
                ));
            }
            if old(self).synced() && !options.truncate_data_file && !options.clear_memtable
                && !options.clear_indexmap && !options.reset_id_counter && options.reset_offset && (
            options.new_offset matches Some(o) && o == 0) {
                assert(self.records@.take(0) =~= Seq::<VFSVectorModel>::empty());
                assert(self.current_offset == record_boundary(self.records@, 0));
            }
        }
        Ok(())
    }
}

impl VFSManager {
    /// Point lookup: the memtable first, then a random-access read at
    /// the offset the primary index gives, then — when the index knows
    /// nothing — a full scan of the data buffer from the start.  In a
    /// live engine the scan never finds what the index missed; it
    /// serves a store whose index was cleared or replaced.
    pub fn get_vector_by_id(&self, id: u64) -> (r: Option<VFSVector>)
        requires
            self.wf(),
        ensures
            r matches Some(v) ==> v@.spec_id() == id,
            self.synced() ==> ({
                if exists|i: int|
                    0 <= i < self.spec_mem().len() && (#[trigger] self.spec_mem()[i]).0 == id {
                    r matches Some(v) && (exists|i: int|
                        0 <= i < self.spec_mem().len() && (#[trigger] self.spec_mem()[i]).0 == id
                            && self.spec_mem()[i].1@ == v@)
                } else if exists|j: int|
                    0 <= j < self.spec_records().len() && (
                #[trigger] self.spec_records()[j]).spec_id() == id {
                    r matches Some(v) && (exists|j: int|
                        0 <= j < self.spec_records().len() && (
                        #[trigger] self.spec_records()[j]).spec_id() == id
                            && self.spec_records()[j] == v@)
                } else {
                    r is None
                }
            }),
    {
        match memtable_get(&self.memtable, id) {
            Some(v) => {
                proof {
                    let i = choose|i: int|
                        0 <= i < self.spec_mem().len() && self.spec_mem()[i] == (id, v);
                    assert(self.spec_mem()[i].0 == self.spec_mem()[i].1@.spec_id());
                }
                return Some(v);
            },
            None => {},
        }
        let dlen = self.data.len();
        match self.index_map.get(id) {
            Some(off) => {
                if off <= usize::MAX as u64 {
                    proof {
                        if self.synced() {
                            lemma_lookup_some_exists(self.spec_index(), id, off);
                            let i = choose|i: int|
                                0 <= i < self.spec_index().len() && self.spec_index()[i] == (
                                id,
                                off,
                                );
                            assert(self.spec_records()[i].spec_id() == id);
                            lemma_boundary_le(self.spec_records(), i);
                            assert(record_boundary(self.spec_records(), i) <= dlen);
                            assert(off as int == record_boundary(self.spec_records(), i));
                            lemma_parse_at_boundary(self.spec_records(), i, 1);
                        }
                    }
                    let (found, _consumed) = load_vectors(&self.data, off as usize, 1);
                    let ghost found_entries = found@;
                    if found.len() >= 1 {
                        let mut found = found;
                        let v = found.remove(0);
                        proof {
                            if self.synced() {
                                let i = choose|i: int|
                                    0 <= i < self.spec_index().len() && self.spec_index()[i] == (
                                    id,
                                    off,
                                    );
                                assert(vector_views(found_entries)[0] == found_entries[0]@);
                                assert(self.spec_records().subrange(i, i + 1)[0]
                                    == self.spec_records()[i]);
                                assert(v@ == self.spec_records()[i]);
                                assert(v@.spec_id() == id);
                            }
                        }
                        if v.id() == id {
                            return Some(v);
                        }
                        proof {
                            if self.synced() {
                                assert(false);
                            }
                        }
                    } else {
                        proof {
                            if self.synced() {
                                let i = choose|i: int|
                                    0 <= i < self.spec_index().len() && self.spec_index()[i] == (
                                    id,
                                    off,
                                    );
                                assert(vector_views(found_entries).len() == 1);
                                assert(false);
                            }
                        }
                    }
                } else {
                    proof {
                        if self.synced() {
                            lemma_lookup_some_exists(self.spec_index(), id, off);
                            let i = choose|i: int|
                                0 <= i < self.spec_index().len() && self.spec_index()[i] == (
                                id,
                                off,
                                );
                            lemma_boundary_le(self.spec_records(), i);
                        }
                    }
                }
            },
            None => {
                proof {
                    if self.synced() {
                        assert forall|j: int|
                            0 <= j < self.spec_records().len() implies (
                        #[trigger] self.spec_records()[j]).spec_id() != id by {
                            if self.spec_records()[j].spec_id() == id {
                                assert(self.spec_index()[j] == (
                                id,
                                record_boundary(self.spec_records(), j) as u64,
                                ));
                                assert(forall|j2: int|
                                    0 <= j2 < j ==> (#[trigger] self.spec_index()[j2]).0 != id);
                                lemma_lookup_present(self.spec_index(), j);
                            }
                        }
                    }
                }
            },
        }
        // Full scan from the start of the data buffer.
        let mut cur: usize = 0;
        let ghost mut k: int = 0;
        proof {
            if self.synced() {
                assert(self.spec_records().take(0) =~= Seq::<VFSVectorModel>::empty());
            }
        }
        loop
            invariant
                self.wf(),
                cur <= dlen,
                dlen == self.spec_data().len(),
                self.synced() ==> ({
                    &&& 0 <= k <= self.spec_records().len()
                    &&& cur as int == record_boundary(self.spec_records(), k)
                    &&& forall|j: int|
                        0 <= j < self.spec_records().len() ==> (
                        #[trigger] self.spec_records()[j]).spec_id() != id
                }),
                !(exists|i: int|
                    0 <= i < self.spec_mem().len() && (#[trigger] self.spec_mem()[i]).0 == id),
            ensures
                self.synced() ==> !(exists|j: int|
                    0 <= j < self.spec_records().len() && (
                #[trigger] self.spec_records()[j]).spec_id() == id),
            decreases dlen - cur,
        {
            proof {
                if self.synced() {
                    lemma_parse_at_boundary(self.spec_records(), k, 1);
                }
                lemma_parse_bounds(self.spec_data(), cur as int, 1);
            }
            let (vs, new_off) = load_vectors(&self.data, cur, 1);
            if vs.len() == 0 {
                return None;
            }
            let ghost vs_entries = vs@;
            let mut vs = vs;
            let v = vs.remove(0);
            if v.id() == id {
                proof {
                    if self.synced() {
                        assert(k < self.spec_records().len());
                        assert(vector_views(vs_entries)[0] == vs_entries[0]@);
                        assert(self.spec_records().subrange(k, k + 1)[0]
                            == self.spec_records()[k]);
                        assert(v@ == self.spec_records()[k]);
                        assert(false);
                    }
                }
                return Some(v);
            }
            proof {
                if self.synced() {
                    k = k + 1;
                }
            }
            cur = new_off;
        }
    }
}

/// In a live engine the read cursor always stands between the start
/// and the end of the record stream.
pub proof fn lemma_synced_cursor_bounds(m: VFSManager)
    requires
        m.synced(),
    ensures
        0 <= m.spec_cursor_k() <= m.spec_records().len(),
{
}

/// Identifier monotonicity: every successful registration returns the
/// engine's current next identifier and advances it by one, so over
/// any sequence of registrations the returned identifiers form a
/// strictly increasing sequence starting from the initial counter.
pub proof fn lemma_register_ids_strictly_increase(
    first: VFSManager,
    second: VFSManager,
    id1: u64,
    id2: u64,
)
    requires
        id1 == first.spec_next_id(),
        second.spec_next_id() == first.spec_next_id() + 1,
        id2 == second.spec_next_id(),
    ensures
        id2 == id1 + 1,
        id2 > id1,
{
}

/// Write–read equivalence: once everything registered has been flushed
/// and the read cursor stands at the start of the data buffer, a batch
/// large enough for every stored record parses back exactly the stored
/// records, in registration order, consuming the whole buffer.
/// `load_batch` then returns precisely those records.
pub proof fn lemma_write_read_equivalence(m: VFSManager, count: nat)
    requires
        m.wf(),
        m.synced(),
        m.spec_mem().len() == 0,
        m.spec_offset() == 0,
        count >= m.spec_records().len(),
    ensures
        spec_parse(m.spec_data(), 0, count).0 == m.spec_records(),
        spec_parse(m.spec_data(), 0, count).1 == m.spec_data().len(),
{
    assert(m.spec_records().take(0) =~= Seq::<VFSVectorModel>::empty());
    assert(record_boundary(m.spec_records(), 0) == 0);
    lemma_parse_at_boundary(m.spec_records(), 0, count);
    assert(m.spec_records().subrange(0, m.spec_records().len() as int) =~= m.spec_records());
    lemma_boundary_end(m.spec_records());
}

/// Memtable draining precedes disk: a batched read returns the drained
/// memtable entries first, in insertion order, and only then parses the
/// data buffer; parsing the post-flush buffer from the start for the
/// old record count yields exactly the records that were on disk
/// before, so the drained entries never displace or reorder them.
pub proof fn lemma_memtable_drains_before_disk(
    on_disk: Seq<VFSVectorModel>,
    drained: Seq<VFSVectorModel>,
)
    requires
        records_wf(on_disk + drained),
    ensures
        spec_parse(records_bytes(on_disk + drained), 0, on_disk.len() as nat).0 == on_disk,
        spec_parse(records_bytes(on_disk + drained), 0, on_disk.len() as nat).1
            == record_boundary(on_disk + drained, on_disk.len() as int),
{
    let all = on_disk + drained;
    assert(all.take(0) =~= Seq::<VFSVectorModel>::empty());
    assert(record_boundary(all, 0) == 0);
    lemma_parse_at_boundary(all, 0, on_disk.len() as nat);
    assert(all.subrange(0, on_disk.len() as int) =~= on_disk);
}

/// Snapshot round trip: the bytes `save_state` produces decode back to
/// exactly the saved manager name, next identifier, read cursor and
/// primary index, and the index re-inserts to the same sorted entry
/// sequence, so `load_state` restores all three fields bitwise.
pub proof fn lemma_snapshot_state_round_trip(saved: VFSManager, bytes: Seq<u8>)
    requires
        saved.wf(),
        snapshot_wf(saved.spec_name(), saved.spec_index()),
        0 <= saved.spec_offset() <= u64::MAX,
        bytes == spec_encode_snapshot_record(
            saved.spec_name(),
            saved.spec_next_id(),
            saved.spec_offset() as u64,
            saved.spec_index(),
        ),
    ensures
        spec_decode_snapshot(bytes) == Some(
            (
                saved.spec_name(),
                saved.spec_next_id(),
                saved.spec_offset() as u64,
                saved.spec_index(),
            ),
        ),
        sorted_by_key(saved.spec_index()),
{
    lemma_snapshot_round_trip(
        saved.spec_name(),
        saved.spec_next_id(),
        saved.spec_offset() as u64,
        saved.spec_index(),
    );
}

} // verus!