//! The record codec.
//!
//! Each stored vector is framed as `marker ‖ length ‖ payload`: a fixed
//! four-byte start marker `DE AD BE EF`, the payload's byte length as a
//! 64-bit little-endian word, and the payload itself.  The payload is a
//! self-describing serialization of the vector value: a variant tag, the
//! identifier, the components, and the metadata with length-prefixed
//! UTF-8 strings.
//!
//! A stream of frames is parsed with a scanner that tolerates stray
//! bytes between records and rewinds over torn tails, so that a reader
//! can checkpoint its offset and resume.

use vstd::prelude::*;

verus! {

use vstd::bytes::{
    spec_u64_to_le_bytes,
    spec_u64_from_le_bytes,
    spec_u32_to_le_bytes,
    spec_u32_from_le_bytes,
    u64_to_le_bytes,
    u64_from_le_bytes,
    u32_to_le_bytes,
    u32_from_le_bytes,
    lemma_auto_spec_u64_to_from_le_bytes,
    lemma_auto_spec_u32_to_from_le_bytes,
};
use vstd::utf8::{valid_utf8, decode_utf8, encode_utf8};
use vstd::slice::{slice_subrange, slice_to_vec};
use vstd::string::StrSliceExecFns;
use crate::vector::{VFSVector, VFSVectorModel, VectorMetadata, MetadataView, Vector,
    QuantizedVector, tag_views};

/// Byte width of the length word that precedes each record payload.
///
/// The width is fixed at 64 bits so that data files can be exchanged
/// between machines of different native word sizes.
pub fn usize_size() -> (r: usize)
    ensures
        r == 8,
{
    8
}

/// The four-byte pattern that starts every record.
pub open spec fn spec_marker() -> Seq<u8> {
    seq![0xdeu8, 0xadu8, 0xbeu8, 0xefu8]
}

/// A length-prefixed UTF-8 string: the byte length as a 64-bit
/// little-endian word, then the bytes.
pub open spec fn spec_encode_str(s: Seq<char>) -> Seq<u8> {
    spec_u64_to_le_bytes(encode_utf8(s).len() as u64) + encode_utf8(s)
}

/// The string's UTF-8 length must fit the 64-bit length prefix.
pub open spec fn str_wf(s: Seq<char>) -> bool {
    encode_utf8(s).len() <= u64::MAX
}

/// Dense components, each as a 32-bit little-endian word.
pub open spec fn spec_encode_u32s(vs: Seq<u32>) -> Seq<u8>
    decreases vs.len(),
{
    if vs.len() == 0 {
        Seq::empty()
    } else {
        spec_u32_to_le_bytes(vs[0]) + spec_encode_u32s(vs.drop_first())
    }
}

/// Quantized components, one byte each.
pub open spec fn spec_encode_i8s(vs: Seq<i8>) -> Seq<u8>
    decreases vs.len(),
{
    if vs.len() == 0 {
        Seq::empty()
    } else {
        seq![vs[0] as u8] + spec_encode_i8s(vs.drop_first())
    }
}

/// Tags, one length-prefixed string after another.
pub open spec fn spec_encode_tags(tags: Seq<Seq<char>>) -> Seq<u8>
    decreases tags.len(),
{
    if tags.len() == 0 {
        Seq::empty()
    } else {
        spec_encode_str(tags[0]) + spec_encode_tags(tags.drop_first())
    }
}

/// Metadata: manager name, name, tag count, tags, creation timestamp.
pub open spec fn spec_encode_meta(m: MetadataView) -> Seq<u8> {
    spec_encode_str(m.manager_name) + spec_encode_str(m.name) + spec_u64_to_le_bytes(
        m.tags.len() as u64,
    ) + spec_encode_tags(m.tags) + spec_encode_str(m.created_at)
}

/// Every length written into a metadata prefix fits its 64-bit word.
pub open spec fn meta_wf(m: MetadataView) -> bool {
    &&& str_wf(m.manager_name)
    &&& str_wf(m.name)
    &&& m.tags.len() <= u64::MAX
    &&& forall|i: int| 0 <= i < m.tags.len() ==> str_wf(#[trigger] m.tags[i])
    &&& str_wf(m.created_at)
}

/// The payload of one record: variant tag, identifier, components (with
/// the scale factor for a quantized vector), then metadata.
pub open spec fn spec_encode_payload(v: VFSVectorModel) -> Seq<u8> {
    match v {
        VFSVectorModel::Dense(d) => seq![0u8] + spec_u64_to_le_bytes(d.id) + spec_u64_to_le_bytes(
            d.values.len() as u64,
        ) + spec_encode_u32s(d.values) + spec_encode_meta(d.metadata),
        VFSVectorModel::Quantized(q) => seq![1u8] + spec_u64_to_le_bytes(q.id)
            + spec_u64_to_le_bytes(q.values.len() as u64) + spec_encode_i8s(q.values)
            + spec_u32_to_le_bytes(q.scale_factor_bits) + spec_encode_meta(q.metadata),
    }
}

/// Every length written while encoding the payload fits its prefix word.
pub open spec fn model_wf(v: VFSVectorModel) -> bool {
    match v {
        VFSVectorModel::Dense(d) => d.values.len() <= u64::MAX && meta_wf(d.metadata),
        VFSVectorModel::Quantized(q) => q.values.len() <= u64::MAX && meta_wf(q.metadata),
    }
}

/// One whole record: marker, payload length, payload.
pub open spec fn spec_encode_record(v: VFSVectorModel) -> Seq<u8> {
    spec_marker() + spec_u64_to_le_bytes(spec_encode_payload(v).len() as u64) + spec_encode_payload(
        v,
    )
}

/// The record's payload length must fit its 64-bit length word.
pub open spec fn record_wf(v: VFSVectorModel) -> bool {
    model_wf(v) && spec_encode_payload(v).len() <= u64::MAX
}

/// A whole stream of records, one frame after another.
pub open spec fn records_bytes(rs: Seq<VFSVectorModel>) -> Seq<u8>
    decreases rs.len(),
{
    if rs.len() == 0 {
        Seq::empty()
    } else {
        spec_encode_record(rs[0]) + records_bytes(rs.drop_first())
    }
}

/// Byte offset of the `k`-th record's marker in a stream.
pub open spec fn record_boundary(rs: Seq<VFSVectorModel>, k: int) -> int {
    records_bytes(rs.take(k)).len() as int
}

/// Every record of the stream can be framed.
pub open spec fn records_wf(rs: Seq<VFSVectorModel>) -> bool {
    forall|i: int| 0 <= i < rs.len() ==> record_wf(#[trigger] rs[i])
}

// ---------------------------------------------------------------------
// Specification-level decoding.  Each function reads one field at a
// cursor and returns the value with the new cursor, or `None` where the
// buffer ends too early or holds malformed bytes.
// ---------------------------------------------------------------------

/// Reads a 64-bit little-endian word.
pub open spec fn spec_dec_u64(b: Seq<u8>, i: int) -> Option<(u64, int)> {
    if 0 <= i && i + 8 <= b.len() {
        Some((spec_u64_from_le_bytes(b.subrange(i, i + 8)), i + 8))
    } else {
        None
    }
}

/// Reads a 32-bit little-endian word.
pub open spec fn spec_dec_u32(b: Seq<u8>, i: int) -> Option<(u32, int)> {
    if 0 <= i && i + 4 <= b.len() {
        Some((spec_u32_from_le_bytes(b.subrange(i, i + 4)), i + 4))
    } else {
        None
    }
}

/// Reads a length-prefixed UTF-8 string.
pub open spec fn spec_dec_str(b: Seq<u8>, i: int) -> Option<(Seq<char>, int)> {
    match spec_dec_u64(b, i) {
        None => None,
        Some((n, j)) => {
            if j + n <= b.len() && valid_utf8(b.subrange(j, j + n as int)) {
                Some((decode_utf8(b.subrange(j, j + n as int)), j + n as int))
            } else {
                None
            }
        },
    }
}

/// Reads `cnt` 32-bit little-endian words.
pub open spec fn spec_dec_u32s(b: Seq<u8>, i: int, cnt: nat) -> Option<(Seq<u32>, int)>
    decreases cnt,
{
    if cnt == 0 {
        if 0 <= i <= b.len() {
            Some((Seq::empty(), i))
        } else {
            None
        }
    } else {
        match spec_dec_u32(b, i) {
            None => None,
            Some((x, j)) => match spec_dec_u32s(b, j, (cnt - 1) as nat) {
                None => None,
                Some((rest, k)) => Some((seq![x] + rest, k)),
            },
        }
    }
}

/// Reads `cnt` single-byte signed components.
pub open spec fn spec_dec_i8s(b: Seq<u8>, i: int, cnt: nat) -> Option<(Seq<i8>, int)>
    decreases cnt,
{
    if cnt == 0 {
        if 0 <= i <= b.len() {
            Some((Seq::empty(), i))
        } else {
            None
        }
    } else {
        if 0 <= i && i + 1 <= b.len() {
            match spec_dec_i8s(b, i + 1, (cnt - 1) as nat) {
                None => None,
                Some((rest, k)) => Some((seq![b[i] as i8] + rest, k)),
            }
        } else {
            None
        }
    }
}

/// Reads `cnt` length-prefixed strings.
pub open spec fn spec_dec_tags(b: Seq<u8>, i: int, cnt: nat) -> Option<(Seq<Seq<char>>, int)>
    decreases cnt,
{
    if cnt == 0 {
        if 0 <= i <= b.len() {
            Some((Seq::empty(), i))
        } else {
            None
        }
    } else {
        match spec_dec_str(b, i) {
            None => None,
            Some((s, j)) => match spec_dec_tags(b, j, (cnt - 1) as nat) {
                None => None,
                Some((rest, k)) => Some((seq![s] + rest, k)),
            },
        }
    }
}

/// Reads the metadata block.
pub open spec fn spec_dec_meta(b: Seq<u8>, i: int) -> Option<(MetadataView, int)> {
    match spec_dec_str(b, i) {
        None => None,
        Some((manager_name, j1)) => match spec_dec_str(b, j1) {
            None => None,
            Some((name, j2)) => match spec_dec_u64(b, j2) {
                None => None,
                Some((cnt, j3)) => match spec_dec_tags(b, j3, cnt as nat) {
                    None => None,
                    Some((tags, j4)) => match spec_dec_str(b, j4) {
                        None => None,
                        Some((created_at, j5)) => Some(
                            (MetadataView { manager_name, name, tags, created_at }, j5),
                        ),
                    },
                },
            },
        },
    }
}

/// Decodes a whole payload; every byte must be consumed.
pub open spec fn spec_decode_payload(b: Seq<u8>) -> Option<VFSVectorModel> {
    if b.len() < 1 {
        None
    } else if b[0] == 0u8 {
        match spec_dec_u64(b, 1) {
            None => None,
            Some((id, j1)) => match spec_dec_u64(b, j1) {
                None => None,
                Some((cnt, j2)) => match spec_dec_u32s(b, j2, cnt as nat) {
                    None => None,
                    Some((values, j3)) => match spec_dec_meta(b, j3) {
                        None => None,
                        Some((metadata, j4)) => {
                            if j4 == b.len() {
                                Some(
                                    VFSVectorModel::Dense(
                                        crate::vector::VectorModel { id, values, metadata },
                                    ),
                                )
                            } else {
                                None
                            }
                        },
                    },
                },
            },
        }
    } else if b[0] == 1u8 {
        match spec_dec_u64(b, 1) {
            None => None,
            Some((id, j1)) => match spec_dec_u64(b, j1) {
                None => None,
                Some((cnt, j2)) => match spec_dec_i8s(b, j2, cnt as nat) {
                    None => None,
                    Some((values, j3)) => match spec_dec_u32(b, j3) {
                        None => None,
                        Some((scale_factor_bits, j4)) => match spec_dec_meta(b, j4) {
                            None => None,
                            Some((metadata, j5)) => {
                                if j5 == b.len() {
                                    Some(
                                        VFSVectorModel::Quantized(
                                            crate::vector::QuantizedModel {
                                                id,
                                                values,
                                                scale_factor_bits,
                                                metadata,
                                            },
                                        ),
                                    )
                                } else {
                                    None
                                }
                            },
                        },
                    },
                },
            },
        }
    } else {
        None
    }
}

/// Parses up to `count` records from `data` starting at `off`, exactly
/// as the stream scanner behaves: stray bytes before a marker are
/// skipped one at a time, and a frame whose length word, payload, or
/// decoding fails ends the parse with the cursor left before its marker.
/// Returns the records and the final cursor.
pub open spec fn spec_parse(data: Seq<u8>, off: int, count: nat) -> (Seq<VFSVectorModel>, int)
    decreases count, data.len() - off,
{
    if count == 0 || off < 0 || off + 4 > data.len() {
        (Seq::empty(), off)
    } else if data.subrange(off, off + 4) != spec_marker() {
        spec_parse(data, off + 1, count)
    } else if off + 12 > data.len() {
        (Seq::empty(), off)
    } else {
        let n = spec_u64_from_le_bytes(data.subrange(off + 4, off + 12)) as int;
        if off + 12 + n > data.len() {
            (Seq::empty(), off)
        } else {
            match spec_decode_payload(data.subrange(off + 12, off + 12 + n)) {
                None => (Seq::empty(), off),
                Some(m) => {
                    let rest = spec_parse(data, off + 12 + n, (count - 1) as nat);
                    (seq![m] + rest.0, rest.1)
                },
            }
        }
    }
}

// ---------------------------------------------------------------------
// Executable encoding.
// ---------------------------------------------------------------------

/// Appends a 64-bit little-endian word.
fn push_u64(out: &mut Vec<u8>, x: u64)
    ensures
        final(out)@ == old(out)@ + spec_u64_to_le_bytes(x),
{
    let mut b = u64_to_le_bytes(x);
    out.append(&mut b);
}

/// Appends a 32-bit little-endian word.
fn push_u32(out: &mut Vec<u8>, x: u32)
    ensures
        final(out)@ == old(out)@ + spec_u32_to_le_bytes(x),
{
    let mut b = u32_to_le_bytes(x);
    out.append(&mut b);
}

/// Appends a length-prefixed UTF-8 string.
fn push_str(out: &mut Vec<u8>, s: &String)
    ensures
        final(out)@ == old(out)@ + spec_encode_str(s@),
        str_wf(s@),
{
    let mut bytes = s.as_str().as_bytes_vec();
    let n: u64 = bytes.len() as u64;
    push_u64(out, n);
    out.append(&mut bytes);
}

/// Appends the metadata block.
fn push_meta(out: &mut Vec<u8>, m: &VectorMetadata)
    ensures
        final(out)@ == old(out)@ + spec_encode_meta(m@),
        meta_wf(m@),
{
    push_str(out, &m.manager_name);
    push_str(out, &m.name);
    push_u64(out, m.tags.len() as u64);
    let ghost mid = out@;
    let mut k: usize = 0;
    while k < m.tags.len()
        invariant
            0 <= k <= m.tags@.len(),
            out@ == mid + spec_encode_tags(tag_views(m.tags@).take(k as int)),
            forall|i: int| 0 <= i < k ==> str_wf(#[trigger] tag_views(m.tags@)[i]),
        decreases m.tags@.len() - k,
    {
        proof {
            lemma_encode_tags_take_succ(tag_views(m.tags@), k as int);
        }
        push_str(out, &m.tags[k]);
        k = k + 1;
    }
    proof {
        assert(tag_views(m.tags@).take(m.tags@.len() as int) =~= tag_views(m.tags@));
    }
    push_str(out, &m.created_at);
}

/// Encoding one more tag appends its bytes.
proof fn lemma_encode_tags_take_succ(tags: Seq<Seq<char>>, k: int)
    requires
        0 <= k < tags.len(),
    ensures
        spec_encode_tags(tags.take(k + 1)) == spec_encode_tags(tags.take(k)) + spec_encode_str(
            tags[k],
        ),
    decreases k,
{
    if k == 0 {
        assert(tags.take(1) =~= seq![tags[0]]);
        assert(seq![tags[0]].drop_first() =~= Seq::<Seq<char>>::empty());
        assert(tags.take(0) =~= Seq::<Seq<char>>::empty());
        assert(spec_encode_tags(seq![tags[0]]) == spec_encode_str(tags[0]) + spec_encode_tags(
            Seq::<Seq<char>>::empty(),
        ));
        assert(spec_encode_str(tags[0]) + Seq::<u8>::empty() =~= spec_encode_str(tags[0]));
        assert(Seq::<u8>::empty() + spec_encode_str(tags[0]) =~= spec_encode_str(tags[0]));
    } else {
        lemma_encode_tags_take_succ(tags.drop_first(), k - 1);
        assert(tags.take(k + 1).drop_first() =~= tags.drop_first().take(k));
        assert(tags.take(k).drop_first() =~= tags.drop_first().take(k - 1));
        assert(tags.drop_first()[k - 1] == tags[k]);
        assert(spec_encode_tags(tags.take(k + 1)) == spec_encode_str(tags[0]) + spec_encode_tags(
            tags.drop_first().take(k),
        ));
        assert(spec_encode_tags(tags.take(k)) == spec_encode_str(tags[0]) + spec_encode_tags(
            tags.drop_first().take(k - 1),
        ));
        assert(spec_encode_str(tags[0]) + (spec_encode_tags(tags.drop_first().take(k - 1))
            + spec_encode_str(tags[k])) =~= (spec_encode_str(tags[0]) + spec_encode_tags(
            tags.drop_first().take(k - 1),
        )) + spec_encode_str(tags[k]));
    }
}

/// Encoding one more 32-bit component appends its bytes.
proof fn lemma_encode_u32s_take_succ(vs: Seq<u32>, k: int)
    requires
        0 <= k < vs.len(),
    ensures
        spec_encode_u32s(vs.take(k + 1)) == spec_encode_u32s(vs.take(k)) + spec_u32_to_le_bytes(
            vs[k],
        ),
    decreases k,
{
    if k == 0 {
        assert(vs.take(1) =~= seq![vs[0]]);
        assert(seq![vs[0]].drop_first() =~= Seq::<u32>::empty());
        assert(vs.take(0) =~= Seq::<u32>::empty());
        assert(spec_u32_to_le_bytes(vs[0]) + Seq::<u8>::empty() =~= spec_u32_to_le_bytes(vs[0]));
        assert(Seq::<u8>::empty() + spec_u32_to_le_bytes(vs[0]) =~= spec_u32_to_le_bytes(vs[0]));
    } else {
        lemma_encode_u32s_take_succ(vs.drop_first(), k - 1);
        assert(vs.take(k + 1).drop_first() =~= vs.drop_first().take(k));
        assert(vs.take(k).drop_first() =~= vs.drop_first().take(k - 1));
        assert(vs.drop_first()[k - 1] == vs[k]);
        assert(spec_u32_to_le_bytes(vs[0]) + (spec_encode_u32s(vs.drop_first().take(k - 1))
            + spec_u32_to_le_bytes(vs[k])) =~= (spec_u32_to_le_bytes(vs[0]) + spec_encode_u32s(
            vs.drop_first().take(k - 1),
        )) + spec_u32_to_le_bytes(vs[k]));
    }
}

/// Encoding one more signed byte component appends it.
proof fn lemma_encode_i8s_take_succ(vs: Seq<i8>, k: int)
    requires
        0 <= k < vs.len(),
    ensures
        spec_encode_i8s(vs.take(k + 1)) == spec_encode_i8s(vs.take(k)) + seq![vs[k] as u8],
    decreases k,
{
    if k == 0 {
        assert(vs.take(1) =~= seq![vs[0]]);
        assert(seq![vs[0]].drop_first() =~= Seq::<i8>::empty());
        assert(vs.take(0) =~= Seq::<i8>::empty());
        assert(seq![vs[0] as u8] + Seq::<u8>::empty() =~= seq![vs[0] as u8]);
        assert(Seq::<u8>::empty() + seq![vs[0] as u8] =~= seq![vs[0] as u8]);
    } else {
        lemma_encode_i8s_take_succ(vs.drop_first(), k - 1);
        assert(vs.take(k + 1).drop_first() =~= vs.drop_first().take(k));
        assert(vs.take(k).drop_first() =~= vs.drop_first().take(k - 1));
        assert(vs.drop_first()[k - 1] == vs[k]);
        assert(seq![vs[0] as u8] + (spec_encode_i8s(vs.drop_first().take(k - 1)) + seq![vs[k] as u8])
            =~= (seq![vs[0] as u8] + spec_encode_i8s(vs.drop_first().take(k - 1))) + seq![
            vs[k] as u8,
        ]);
    }
}

/// Serializes a vector value into payload bytes.
pub fn encode_payload(v: &VFSVector) -> (r: Vec<u8>)
    ensures
        r@ == spec_encode_payload(v@),
        model_wf(v@),
{
    let mut out: Vec<u8> = Vec::new();
    proof {
        assert(out@ =~= Seq::<u8>::empty());
    }
    match v {
        VFSVector::Dense(d) => {
            out.push(0u8);
            proof {
                assert(out@ =~= seq![0u8]);
            }
            push_u64(&mut out, d.id);
            push_u64(&mut out, d.vector.len() as u64);
            let ghost mid = out@;
            let mut k: usize = 0;
            while k < d.vector.len()
                invariant
                    0 <= k <= d.vector@.len(),
                    out@ == mid + spec_encode_u32s(d.vector@.take(k as int)),
                decreases d.vector@.len() - k,
            {
                proof {
                    lemma_encode_u32s_take_succ(d.vector@, k as int);
                }
                push_u32(&mut out, d.vector[k]);
                k = k + 1;
            }
            proof {
                assert(d.vector@.take(d.vector@.len() as int) =~= d.vector@);
            }
            push_meta(&mut out, &d.metadata);
        },
        VFSVector::Quantized(q) => {
            out.push(1u8);
            proof {
                assert(out@ =~= seq![1u8]);
            }
            push_u64(&mut out, q.id);
            push_u64(&mut out, q.vector.len() as u64);
            let ghost mid = out@;
            let mut k: usize = 0;
            while k < q.vector.len()
                invariant
                    0 <= k <= q.vector@.len(),
                    out@ == mid + spec_encode_i8s(q.vector@.take(k as int)),
                decreases q.vector@.len() - k,
            {
                proof {
                    lemma_encode_i8s_take_succ(q.vector@, k as int);
                }
                out.push(q.vector[k] as u8);
                k = k + 1;
            }
            proof {
                assert(q.vector@.take(q.vector@.len() as int) =~= q.vector@);
            }
            push_u32(&mut out, q.scale_factor_bits);
            push_meta(&mut out, &q.metadata);
        },
    }
    out
}

/// Appends one framed record to the data buffer and returns the byte
/// offset of its start marker, at which a random-access read can later
/// find the record again.
pub fn save_vector(entry: &VFSVector, data: &mut Vec<u8>) -> (offset: usize)
    ensures
        final(data)@ == old(data)@ + spec_encode_record(entry@),
        offset == old(data)@.len(),
        record_wf(entry@),
{
    let payload = encode_payload(entry);
    let offset = data.len();
    data.push(0xde);
    data.push(0xad);
    data.push(0xbe);
    data.push(0xef);
    push_u64(data, payload.len() as u64);
    let mut payload = payload;
    data.append(&mut payload);
    proof {
        assert(final(data)@ =~= old(data)@ + spec_encode_record(entry@));
    }
    offset
}

// ---------------------------------------------------------------------
// Round trip: decoding reads back exactly what encoding wrote.
// ---------------------------------------------------------------------

/// Splits a subrange known to hold a concatenation into its two parts.
proof fn lemma_concat_split(b: Seq<u8>, i: int, s1: Seq<u8>, s2: Seq<u8>)
    requires
        0 <= i,
        i + s1.len() + s2.len() <= b.len(),
        b.subrange(i, i + s1.len() + s2.len()) == s1 + s2,
    ensures
        b.subrange(i, i + s1.len()) == s1,
        b.subrange(i + s1.len(), i + s1.len() + s2.len()) == s2,
{
    assert(b.subrange(i, i + s1.len()) =~= s1) by {
        assert forall|j: int| 0 <= j < s1.len() implies b.subrange(i, i + s1.len())[j] == s1[j] by {
            assert(b.subrange(i, i + s1.len() + s2.len())[j] == (s1 + s2)[j]);
        }
    }
    assert(b.subrange(i + s1.len(), i + s1.len() + s2.len()) =~= s2) by {
        assert forall|j: int| 0 <= j < s2.len() implies b.subrange(
            i + s1.len(),
            i + s1.len() + s2.len(),
        )[j] == s2[j] by {
            assert(b.subrange(i + s1.len(), i + s1.len() + s2.len())[j] == b[i + s1.len() + j]);
            assert(b.subrange(i, i + s1.len() + s2.len())[s1.len() + j] == b[i + s1.len() + j]);
            assert((s1 + s2)[s1.len() + j] == s2[j]);
        }
    }
}

/// A 64-bit word decodes from its own encoding wherever it stands.
proof fn lemma_dec_u64_prefix(b: Seq<u8>, i: int, x: u64)
    requires
        0 <= i,
        i + 8 <= b.len(),
        b.subrange(i, i + 8) == spec_u64_to_le_bytes(x),
    ensures
        spec_dec_u64(b, i) == Some((x, i + 8)),
{
    lemma_auto_spec_u64_to_from_le_bytes();
}

/// A 32-bit word decodes from its own encoding wherever it stands.
proof fn lemma_dec_u32_prefix(b: Seq<u8>, i: int, x: u32)
    requires
        0 <= i,
        i + 4 <= b.len(),
        b.subrange(i, i + 4) == spec_u32_to_le_bytes(x),
    ensures
        spec_dec_u32(b, i) == Some((x, i + 4)),
{
    lemma_auto_spec_u32_to_from_le_bytes();
    assert(spec_u32_to_le_bytes(x).len() == 4);
}

/// A length-prefixed string decodes from its own encoding.
proof fn lemma_dec_str_prefix(b: Seq<u8>, i: int, s: Seq<char>)
    requires
        0 <= i,
        str_wf(s),
        i + spec_encode_str(s).len() <= b.len(),
        b.subrange(i, i + spec_encode_str(s).len()) == spec_encode_str(s),
    ensures
        spec_dec_str(b, i) == Some((s, i + spec_encode_str(s).len())),
{
    broadcast use vstd::utf8::encode_utf8_valid_utf8, vstd::utf8::encode_utf8_decode_utf8;

    let utf8 = encode_utf8(s);
    let n = utf8.len() as u64;
    lemma_auto_spec_u64_to_from_le_bytes();
    lemma_concat_split(b, i, spec_u64_to_le_bytes(n), utf8);
    lemma_dec_u64_prefix(b, i, n);
    assert(b.subrange(i + 8, i + 8 + utf8.len()) == utf8);
}

/// A run of 32-bit components decodes from its own encoding.
proof fn lemma_dec_u32s_prefix(b: Seq<u8>, i: int, vs: Seq<u32>)
    requires
        0 <= i,
        i + spec_encode_u32s(vs).len() <= b.len(),
        b.subrange(i, i + spec_encode_u32s(vs).len()) == spec_encode_u32s(vs),
    ensures
        spec_dec_u32s(b, i, vs.len()) == Some((vs, i + spec_encode_u32s(vs).len())),
    decreases vs.len(),
{
    lemma_auto_spec_u32_to_from_le_bytes();
    if vs.len() == 0 {
        assert(seq![] + Seq::<u32>::empty() =~= Seq::<u32>::empty());
    } else {
        let head = spec_u32_to_le_bytes(vs[0]);
        let tail = spec_encode_u32s(vs.drop_first());
        lemma_concat_split(b, i, head, tail);
        lemma_dec_u32_prefix(b, i, vs[0]);
        lemma_dec_u32s_prefix(b, i + 4, vs.drop_first());
        assert(seq![vs[0]] + vs.drop_first() =~= vs);
    }
}

/// A run of signed byte components decodes from its own encoding.
proof fn lemma_dec_i8s_prefix(b: Seq<u8>, i: int, vs: Seq<i8>)
    requires
        0 <= i,
        i + spec_encode_i8s(vs).len() <= b.len(),
        b.subrange(i, i + spec_encode_i8s(vs).len()) == spec_encode_i8s(vs),
    ensures
        spec_dec_i8s(b, i, vs.len()) == Some((vs, i + spec_encode_i8s(vs).len())),
    decreases vs.len(),
{
    if vs.len() == 0 {
    } else {
        let head = seq![vs[0] as u8];
        let tail = spec_encode_i8s(vs.drop_first());
        lemma_concat_split(b, i, head, tail);
        assert(b[i] == b.subrange(i, i + 1)[0]);
        assert(b[i] == vs[0] as u8);
        let x: i8 = vs[0];
        let y: u8 = b[i];
        assert(y as i8 == x) by (bit_vector)
            requires
                y == x as u8,
        ;
        lemma_dec_i8s_prefix(b, i + 1, vs.drop_first());
        assert(seq![vs[0]] + vs.drop_first() =~= vs);
    }
}

/// A run of tags decodes from its own encoding.
proof fn lemma_dec_tags_prefix(b: Seq<u8>, i: int, tags: Seq<Seq<char>>)
    requires
        0 <= i,
        forall|j: int| 0 <= j < tags.len() ==> str_wf(#[trigger] tags[j]),
        i + spec_encode_tags(tags).len() <= b.len(),
        b.subrange(i, i + spec_encode_tags(tags).len()) == spec_encode_tags(tags),
    ensures
        spec_dec_tags(b, i, tags.len()) == Some((tags, i + spec_encode_tags(tags).len())),
    decreases tags.len(),
{
    if tags.len() == 0 {
    } else {
        let head = spec_encode_str(tags[0]);
        let tail = spec_encode_tags(tags.drop_first());
        lemma_concat_split(b, i, head, tail);
        lemma_dec_str_prefix(b, i, tags[0]);
        lemma_dec_tags_prefix(b, i + head.len(), tags.drop_first());
        assert(seq![tags[0]] + tags.drop_first() =~= tags);
    }
}

/// The metadata block decodes from its own encoding.
proof fn lemma_dec_meta_prefix(b: Seq<u8>, i: int, m: MetadataView)
    requires
        0 <= i,
        meta_wf(m),
        i + spec_encode_meta(m).len() <= b.len(),
        b.subrange(i, i + spec_encode_meta(m).len()) == spec_encode_meta(m),
    ensures
        spec_dec_meta(b, i) == Some((m, i + spec_encode_meta(m).len())),
{
    lemma_auto_spec_u64_to_from_le_bytes();
    let s1 = spec_encode_str(m.manager_name);
    let s2 = spec_encode_str(m.name);
    let s3 = spec_u64_to_le_bytes(m.tags.len() as u64);
    let s4 = spec_encode_tags(m.tags);
    let s5 = spec_encode_str(m.created_at);
    let i1 = i + s1.len();
    let i2 = i1 + s2.len();
    let i3 = i2 + s3.len();
    let i4 = i3 + s4.len();
    let i5 = i4 + s5.len();
    assert(spec_encode_meta(m) =~= s1 + (s2 + (s3 + (s4 + s5))));
    lemma_concat_split(b, i, s1, s2 + (s3 + (s4 + s5)));
    lemma_concat_split(b, i1, s2, s3 + (s4 + s5));
    lemma_concat_split(b, i2, s3, s4 + s5);
    lemma_concat_split(b, i3, s4, s5);
    lemma_dec_str_prefix(b, i, m.manager_name);
    lemma_dec_str_prefix(b, i1, m.name);
    lemma_dec_u64_prefix(b, i2, m.tags.len() as u64);
    lemma_dec_tags_prefix(b, i3, m.tags);
    lemma_dec_str_prefix(b, i4, m.created_at);
}

/// A payload decodes to exactly the vector value it was encoded from.
/// A dense payload decodes to exactly what it was encoded from.
#[verifier::rlimit(60)]
proof fn lemma_dense_payload_round_trip(m: VFSVectorModel)
    requires
        model_wf(m),
        m is Dense,
    ensures
        spec_decode_payload(spec_encode_payload(m)) == Some(m),
{
    lemma_auto_spec_u64_to_from_le_bytes();
    let b = spec_encode_payload(m);
    let d = m->Dense_0;
    let s0 = seq![0u8];
    let s1 = spec_u64_to_le_bytes(d.id);
    let s2 = spec_u64_to_le_bytes(d.values.len() as u64);
    let s3 = spec_encode_u32s(d.values);
    let s4 = spec_encode_meta(d.metadata);
    let r1 = s2 + (s3 + s4);
    let r0 = s1 + r1;
    let i1: int = 1 + s1.len() as int;
    let i2: int = i1 + s2.len();
    let i3: int = i2 + s3.len();
    assert(b =~= s0 + r0);
    assert(b.len() == s0.len() + r0.len());
    assert(b.subrange(0, s0.len() + r0.len() as int) =~= b);
    lemma_concat_split(b, 0, s0, r0);
    lemma_concat_split(b, 1, s1, r1);
    lemma_concat_split(b, i1, s2, s3 + s4);
    lemma_concat_split(b, i2, s3, s4);
    assert(b[0] == s0[0]) by {
        assert(b.subrange(0, 1)[0] == s0[0]);
    }
    assert(b[0] == 0u8);
    lemma_dec_u64_prefix(b, 1, d.id);
    lemma_dec_u64_prefix(b, i1, d.values.len() as u64);
    lemma_dec_u32s_prefix(b, i2, d.values);
    lemma_dec_meta_prefix(b, i3, d.metadata);
}

/// A quantized payload decodes to exactly what it was encoded from.
#[verifier::rlimit(100)]
proof fn lemma_quantized_payload_round_trip(m: VFSVectorModel)
    requires
        model_wf(m),
        m is Quantized,
    ensures
        spec_decode_payload(spec_encode_payload(m)) == Some(m),
{
    lemma_auto_spec_u64_to_from_le_bytes();
    lemma_auto_spec_u32_to_from_le_bytes();
    let b = spec_encode_payload(m);
    let q = m->Quantized_0;
    let s0 = seq![1u8];
    let s1 = spec_u64_to_le_bytes(q.id);
    let s2 = spec_u64_to_le_bytes(q.values.len() as u64);
    let s3 = spec_encode_i8s(q.values);
    let s4 = spec_u32_to_le_bytes(q.scale_factor_bits);
    let s5 = spec_encode_meta(q.metadata);
    let r2 = s3 + (s4 + s5);
    let r1 = s2 + r2;
    let r0 = s1 + r1;
    let i1: int = 1 + s1.len() as int;
    let i2: int = i1 + s2.len();
    let i3: int = i2 + s3.len();
    let i4: int = i3 + s4.len();
    assert(b =~= s0 + r0);
    assert(b.len() == s0.len() + r0.len());
    assert(b.subrange(0, s0.len() + r0.len() as int) =~= b);
    lemma_concat_split(b, 0, s0, r0);
    lemma_concat_split(b, 1, s1, r1);
    lemma_concat_split(b, i1, s2, r2);
    lemma_concat_split(b, i2, s3, s4 + s5);
    lemma_concat_split(b, i3, s4, s5);
    assert(b[0] == s0[0]) by {
        assert(b.subrange(0, 1)[0] == s0[0]);
    }
    assert(b[0] == 1u8);
    lemma_dec_u64_prefix(b, 1, q.id);
    lemma_dec_u64_prefix(b, i1, q.values.len() as u64);
    lemma_dec_i8s_prefix(b, i2, q.values);
    lemma_dec_u32_prefix(b, i3, q.scale_factor_bits);
    lemma_dec_meta_prefix(b, i4, q.metadata);
}

/// A payload decodes to exactly the vector value it was encoded from.
pub proof fn lemma_payload_round_trip(m: VFSVectorModel)
    requires
        model_wf(m),
    ensures
        spec_decode_payload(spec_encode_payload(m)) == Some(m),
{
    match m {
        VFSVectorModel::Dense(_) => lemma_dense_payload_round_trip(m),
        VFSVectorModel::Quantized(_) => lemma_quantized_payload_round_trip(m),
    }
}

// ---------------------------------------------------------------------
// Streams of records.
// ---------------------------------------------------------------------

/// Encoding a stream distributes over concatenation.
pub proof fn lemma_records_bytes_concat(a: Seq<VFSVectorModel>, b: Seq<VFSVectorModel>)
    ensures
        records_bytes(a + b) == records_bytes(a) + records_bytes(b),
    decreases a.len(),
{
    if a.len() == 0 {
        assert(a + b =~= b);
        assert(Seq::<u8>::empty() + records_bytes(b) =~= records_bytes(b));
    } else {
        lemma_records_bytes_concat(a.drop_first(), b);
        assert((a + b).drop_first() =~= a.drop_first() + b);
        assert((a + b)[0] == a[0]);
        assert(spec_encode_record(a[0]) + (records_bytes(a.drop_first()) + records_bytes(b)) =~= (
        spec_encode_record(a[0]) + records_bytes(a.drop_first())) + records_bytes(b));
    }
}

/// The bytes of a one-record stream are that record's frame.
pub proof fn lemma_records_bytes_single(m: VFSVectorModel)
    ensures
        records_bytes(seq![m]) == spec_encode_record(m),
{
    let s = seq![m];
    assert(s.len() == 1);
    assert(s[0] == m);
    assert(s.drop_first() =~= Seq::<VFSVectorModel>::empty());
    assert(records_bytes(s.drop_first()) == Seq::<u8>::empty());
    assert(records_bytes(s) == spec_encode_record(m) + records_bytes(s.drop_first()));
    assert(spec_encode_record(m) + Seq::<u8>::empty() =~= spec_encode_record(m));
}

/// One more record extends the stream bytes by one frame.
pub proof fn lemma_records_bytes_push(rs: Seq<VFSVectorModel>, m: VFSVectorModel)
    ensures
        records_bytes(rs.push(m)) == records_bytes(rs) + spec_encode_record(m),
{
    assert(rs.push(m) =~= rs + seq![m]);
    lemma_records_bytes_concat(rs, seq![m]);
    lemma_records_bytes_single(m);
}

/// Record boundaries step by one frame at a time.
pub proof fn lemma_boundary_succ(rs: Seq<VFSVectorModel>, k: int)
    requires
        0 <= k < rs.len(),
    ensures
        record_boundary(rs, k + 1) == record_boundary(rs, k) + spec_encode_record(rs[k]).len(),
{
    assert(rs.take(k + 1) =~= rs.take(k).push(rs[k]));
    lemma_records_bytes_push(rs.take(k), rs[k]);
}

/// At each boundary of a well-formed stream stands one complete frame:
/// the marker, the length word of the payload, and the payload itself,
/// with the next boundary right after it.
#[verifier::rlimit(100)]
proof fn lemma_frame_at_boundary(rs: Seq<VFSVectorModel>, k: int)
    requires
        records_wf(rs),
        0 <= k < rs.len(),
    ensures
        ({
            let data = records_bytes(rs);
            let off = record_boundary(rs, k);
            let payload = spec_encode_payload(rs[k]);
            &&& 0 <= off
            &&& off + 12 + payload.len() <= data.len()
            &&& data.subrange(off, off + 4) == spec_marker()
            &&& spec_u64_from_le_bytes(data.subrange(off + 4, off + 12)) == payload.len() as u64
            &&& data.subrange(off + 12, off + 12 + payload.len()) == payload
            &&& record_boundary(rs, k + 1) == off + 12 + payload.len()
            &&& record_boundary(rs, k + 1) <= data.len()
        }),
{
    let data = records_bytes(rs);
    let off = record_boundary(rs, k);
    let m = rs[k];
    let payload = spec_encode_payload(m);
    let rec = spec_encode_record(m);
    let tail = records_bytes(rs.skip(k + 1));
    assert(rs.take(k) + rs.skip(k) =~= rs);
    lemma_records_bytes_concat(rs.take(k), rs.skip(k));
    assert(rs.skip(k) =~= seq![m] + rs.skip(k + 1));
    lemma_records_bytes_concat(seq![m], rs.skip(k + 1));
    lemma_records_bytes_single(m);
    assert(records_bytes(rs.skip(k)) == rec + tail);
    assert(data.len() == off + rec.len() + tail.len());
    assert(data.subrange(off, off + rec.len()) =~= rec) by {
        assert forall|j: int| 0 <= j < rec.len() implies data.subrange(off, off + rec.len())[j]
            == rec[j] by {
            assert(data[off + j] == (records_bytes(rs.take(k)) + (rec + tail))[off + j]);
            assert(data =~= records_bytes(rs.take(k)) + (rec + tail));
        }
    }
    let lenw = spec_u64_to_le_bytes(payload.len() as u64);
    lemma_auto_spec_u64_to_from_le_bytes();
    assert(rec =~= spec_marker() + (lenw + payload));
    lemma_concat_split(data, off, spec_marker(), lenw + payload);
    lemma_concat_split(data, off + 4, lenw, payload);
    lemma_boundary_succ(rs, k);
}

/// The parse cursor never moves backwards, never runs past the buffer,
/// and consumes at least a frame header for every record it yields.
pub proof fn lemma_parse_bounds(data: Seq<u8>, off: int, count: nat)
    requires
        0 <= off <= data.len(),
    ensures
        ({
            let p = spec_parse(data, off, count);
            &&& off <= p.1 <= data.len()
            &&& p.0.len() > 0 ==> p.1 >= off + 12
        }),
    decreases count, data.len() - off,
{
    if count == 0 || off + 4 > data.len() {
    } else if data.subrange(off, off + 4) != spec_marker() {
        lemma_parse_bounds(data, off + 1, count);
    } else if off + 12 > data.len() {
    } else {
        let n = spec_u64_from_le_bytes(data.subrange(off + 4, off + 12)) as int;
        if off + 12 + n > data.len() {
        } else {
            match spec_decode_payload(data.subrange(off + 12, off + 12 + n)) {
                None => {},
                Some(m) => {
                    lemma_parse_bounds(data, off + 12 + n, (count - 1) as nat);
                },
            }
        }
    }
}

/// Every boundary lies within the stream.
pub proof fn lemma_boundary_le(rs: Seq<VFSVectorModel>, k: int)
    requires
        0 <= k <= rs.len(),
    ensures
        0 <= record_boundary(rs, k) <= records_bytes(rs).len(),
{
    assert(rs.take(k) + rs.skip(k) =~= rs);
    lemma_records_bytes_concat(rs.take(k), rs.skip(k));
}

/// Boundaries of existing records do not move when one is appended.
pub proof fn lemma_boundary_push_stable(rs: Seq<VFSVectorModel>, m: VFSVectorModel, j: int)
    requires
        0 <= j <= rs.len(),
    ensures
        record_boundary(rs.push(m), j) == record_boundary(rs, j),
{
    assert(rs.push(m).take(j) =~= rs.take(j));
}

/// The boundary after the last record is the stream's total length.
pub proof fn lemma_boundary_end(rs: Seq<VFSVectorModel>)
    ensures
        record_boundary(rs, rs.len() as int) == records_bytes(rs).len(),
{
    assert(rs.take(rs.len() as int) =~= rs);
}

/// Parsing a well-formed stream from a record boundary yields exactly
/// the records that follow, up to the requested count, and leaves the
/// cursor on the boundary after the last one taken.
#[verifier::spinoff_prover]
#[verifier::rlimit(100)]
pub proof fn lemma_parse_at_boundary(rs: Seq<VFSVectorModel>, k: int, count: nat)
    requires
        records_wf(rs),
        0 <= k <= rs.len(),
    ensures
        ({
            let stop = if k + count <= rs.len() {
                k + count
            } else {
                rs.len() as int
            };
            spec_parse(records_bytes(rs), record_boundary(rs, k), count) == (
            rs.subrange(k, stop),
            record_boundary(rs, stop),
            )
        }),
    decreases count, rs.len() - k,
{
    let data = records_bytes(rs);
    let off = record_boundary(rs, k);
    assert(rs.take(k) + rs.skip(k) =~= rs);
    lemma_records_bytes_concat(rs.take(k), rs.skip(k));
    assert(data.len() == off + records_bytes(rs.skip(k)).len());
    assert(0 <= off);
    if k == rs.len() {
        assert(rs.skip(k).len() == 0);
        assert(off == data.len());
        assert(spec_parse(data, off, count) == (Seq::<VFSVectorModel>::empty(), off));
        assert(rs.subrange(k, k as int) =~= Seq::<VFSVectorModel>::empty());
    } else if count == 0 {
        assert(spec_parse(data, off, count) == (Seq::<VFSVectorModel>::empty(), off));
        assert(rs.subrange(k, k as int) =~= Seq::<VFSVectorModel>::empty());
    } else {
        let m = rs[k];
        let payload = spec_encode_payload(m);
        lemma_frame_at_boundary(rs, k);
        lemma_payload_round_trip(m);
        assert(spec_decode_payload(data.subrange(off + 12, off + 12 + payload.len())) == Some(m));
        lemma_parse_at_boundary(rs, k + 1, (count - 1) as nat);
        let stop = if k + count <= rs.len() {
            k + count
        } else {
            rs.len() as int
        };
        assert(seq![m] + rs.subrange(k + 1, stop) =~= rs.subrange(k, stop));
        assert(spec_u64_from_le_bytes(data.subrange(off + 4, off + 12)) as int == payload.len());
    }
}

// ---------------------------------------------------------------------
// Executable decoding.
// ---------------------------------------------------------------------

/// Relies on std's `String::from_utf8`: it returns the string whose
/// UTF-8 encoding is the given bytes, and refuses bytes that are not
/// valid UTF-8.  vstd's `valid_utf8` and `decode_utf8` specify that
/// encoding.
#[verifier::external_body]
fn bytes_to_string(v: Vec<u8>) -> (r: Option<String>)
    ensures
        r matches Some(s) ==> valid_utf8(v@) && s@ == decode_utf8(v@),
        r is None ==> !valid_utf8(v@),
{
    String::from_utf8(v).ok()
}

/// Reads a 64-bit little-endian word at the cursor.
fn exec_dec_u64(b: &Vec<u8>, i: usize) -> (r: Option<(u64, usize)>)
    ensures
        match spec_dec_u64(b@, i as int) {
            None => r is None,
            Some((x, j)) => r matches Some(p) && p.0 == x && p.1 == j,
        },
{
    if i <= b.len() && b.len() - i >= 8 {
        let s = slice_subrange(b.as_slice(), i, i + 8);
        Some((u64_from_le_bytes(s), i + 8))
    } else {
        None
    }
}

/// Reads a 32-bit little-endian word at the cursor.
fn exec_dec_u32(b: &Vec<u8>, i: usize) -> (r: Option<(u32, usize)>)
    ensures
        match spec_dec_u32(b@, i as int) {
            None => r is None,
            Some((x, j)) => r matches Some(p) && p.0 == x && p.1 == j,
        },
{
    if i <= b.len() && b.len() - i >= 4 {
        let s = slice_subrange(b.as_slice(), i, i + 4);
        Some((u32_from_le_bytes(s), i + 4))
    } else {
        None
    }
}

/// Reads a length-prefixed UTF-8 string at the cursor.
fn exec_dec_str(b: &Vec<u8>, i: usize) -> (r: Option<(String, usize)>)
    ensures
        match spec_dec_str(b@, i as int) {
            None => r is None,
            Some((s, j)) => r matches Some(p) && p.0@ == s && p.1 == j,
        },
{
    match exec_dec_u64(b, i) {
        None => None,
        Some((n, j)) => {
            if n <= (b.len() - j) as u64 {
                let end = j + (n as usize);
                let bytes = slice_to_vec(slice_subrange(b.as_slice(), j, end));
                match bytes_to_string(bytes) {
                    None => None,
                    Some(t) => Some((t, end)),
                }
            } else {
                None
            }
        },
    }
}

/// Prefixes the already-read components to a partial decode.
spec fn prepend_u32s(pre: Seq<u32>, o: Option<(Seq<u32>, int)>) -> Option<(Seq<u32>, int)> {
    match o {
        None => None,
        Some((rest, k)) => Some((pre + rest, k)),
    }
}

/// Reads `cnt` 32-bit components at the cursor.
fn exec_dec_u32s(b: &Vec<u8>, i: usize, cnt: u64) -> (r: Option<(Vec<u32>, usize)>)
    ensures
        match spec_dec_u32s(b@, i as int, cnt as nat) {
            None => r is None,
            Some((vs, j)) => r matches Some(p) && p.0@ == vs && p.1 == j,
        },
{
    if i > b.len() {
        return None;
    }
    let mut xs: Vec<u32> = Vec::new();
    let mut cur: usize = i;
    let mut rem: u64 = cnt;
    proof {
        assert(xs@ + Seq::<u32>::empty() =~= xs@);
        match spec_dec_u32s(b@, cur as int, rem as nat) {
            None => {},
            Some((rest, k)) => {
                assert(xs@ + rest =~= rest);
            },
        }
    }
    while rem > 0
        invariant
            cur <= b@.len(),
            prepend_u32s(xs@, spec_dec_u32s(b@, cur as int, rem as nat)) == spec_dec_u32s(
                b@,
                i as int,
                cnt as nat,
            ),
        decreases rem,
    {
        match exec_dec_u32(b, cur) {
            None => {
                return None;
            },
            Some((x, j)) => {
                proof {
                    let tail = spec_dec_u32s(b@, j as int, (rem - 1) as nat);
                    match tail {
                        None => {},
                        Some((rest, k)) => {
                            assert(xs@ + (seq![x] + rest) =~= xs@.push(x) + rest);
                        },
                    }
                }
                xs.push(x);
                cur = j;
                rem = rem - 1;
            },
        }
    }
    proof {
        assert(spec_dec_u32s(b@, cur as int, 0) == Some((Seq::<u32>::empty(), cur as int)));
        assert(xs@ + Seq::<u32>::empty() =~= xs@);
    }
    Some((xs, cur))
}

/// Prefixes the already-read components to a partial decode.
spec fn prepend_i8s(pre: Seq<i8>, o: Option<(Seq<i8>, int)>) -> Option<(Seq<i8>, int)> {
    match o {
        None => None,
        Some((rest, k)) => Some((pre + rest, k)),
    }
}

/// Reads `cnt` signed byte components at the cursor.
fn exec_dec_i8s(b: &Vec<u8>, i: usize, cnt: u64) -> (r: Option<(Vec<i8>, usize)>)
    ensures
        match spec_dec_i8s(b@, i as int, cnt as nat) {
            None => r is None,
            Some((vs, j)) => r matches Some(p) && p.0@ == vs && p.1 == j,
        },
{
    if i > b.len() {
        return None;
    }
    let mut xs: Vec<i8> = Vec::new();
    let mut cur: usize = i;
    let mut rem: u64 = cnt;
    proof {
        match spec_dec_i8s(b@, cur as int, rem as nat) {
            None => {},
            Some((rest, k)) => {
                assert(xs@ + rest =~= rest);
            },
        }
    }
    while rem > 0
        invariant
            cur <= b@.len(),
            prepend_i8s(xs@, spec_dec_i8s(b@, cur as int, rem as nat)) == spec_dec_i8s(
                b@,
                i as int,
                cnt as nat,
            ),
        decreases rem,
    {
        if cur < b.len() {
            let byte = b[cur];
            let x = byte as i8;
            proof {
                assert(byte as i8 == b@[cur as int] as i8);
                let tail = spec_dec_i8s(b@, cur + 1, (rem - 1) as nat);
                match tail {
                    None => {},
                    Some((rest, k)) => {
                        assert(xs@ + (seq![x] + rest) =~= xs@.push(x) + rest);
                    },
                }
            }
            xs.push(x);
            cur = cur + 1;
            rem = rem - 1;
        } else {
            return None;
        }
    }
    proof {
        assert(spec_dec_i8s(b@, cur as int, 0) == Some((Seq::<i8>::empty(), cur as int)));
        assert(xs@ + Seq::<i8>::empty() =~= xs@);
    }
    Some((xs, cur))
}

/// Prefixes the already-read tags to a partial decode.
spec fn prepend_tags(pre: Seq<Seq<char>>, o: Option<(Seq<Seq<char>>, int)>) -> Option<
    (Seq<Seq<char>>, int),
> {
    match o {
        None => None,
        Some((rest, k)) => Some((pre + rest, k)),
    }
}

/// Reads `cnt` length-prefixed strings at the cursor.
fn exec_dec_tags(b: &Vec<u8>, i: usize, cnt: u64) -> (r: Option<(Vec<String>, usize)>)
    ensures
        match spec_dec_tags(b@, i as int, cnt as nat) {
            None => r is None,
            Some((ts, j)) => r matches Some(p) && tag_views(p.0@) == ts && p.1 == j,
        },
{
    if i > b.len() {
        return None;
    }
    let mut xs: Vec<String> = Vec::new();
    let mut cur: usize = i;
    let mut rem: u64 = cnt;
    proof {
        assert(tag_views(xs@) =~= Seq::<Seq<char>>::empty());
        match spec_dec_tags(b@, cur as int, rem as nat) {
            None => {},
            Some((rest, k)) => {
                assert(tag_views(xs@) + rest =~= rest);
            },
        }
    }
    while rem > 0
        invariant
            cur <= b@.len(),
            prepend_tags(tag_views(xs@), spec_dec_tags(b@, cur as int, rem as nat))
                == spec_dec_tags(b@, i as int, cnt as nat),
        decreases rem,
    {
        match exec_dec_str(b, cur) {
            None => {
                return None;
            },
            Some((t, j)) => {
                proof {
                    let tail = spec_dec_tags(b@, j as int, (rem - 1) as nat);
                    match tail {
                        None => {},
                        Some((rest, k)) => {
                            assert(tag_views(xs@) + (seq![t@] + rest) =~= tag_views(xs@.push(t))
                                + rest);
                        },
                    }
                }
                xs.push(t);
                cur = j;
                rem = rem - 1;
            },
        }
    }
    proof {
        assert(spec_dec_tags(b@, cur as int, 0) == Some((Seq::<Seq<char>>::empty(), cur as int)));
        assert(tag_views(xs@) + Seq::<Seq<char>>::empty() =~= tag_views(xs@));
    }
    Some((xs, cur))
}

/// Reads the metadata block at the cursor.
fn exec_dec_meta(b: &Vec<u8>, i: usize) -> (r: Option<(VectorMetadata, usize)>)
    ensures
        match spec_dec_meta(b@, i as int) {
            None => r is None,
            Some((m, j)) => r matches Some(p) && p.0@ == m && p.1 == j,
        },
{
    match exec_dec_str(b, i) {
        None => None,
        Some((manager_name, j1)) => match exec_dec_str(b, j1) {
            None => None,
            Some((name, j2)) => match exec_dec_u64(b, j2) {
                None => None,
                Some((cnt, j3)) => match exec_dec_tags(b, j3, cnt) {
                    None => None,
                    Some((tags, j4)) => match exec_dec_str(b, j4) {
                        None => None,
                        Some((created_at, j5)) => Some(
                            (VectorMetadata { manager_name, name, tags, created_at }, j5),
                        ),
                    },
                },
            },
        },
    }
}

/// Decodes a whole payload buffer into a vector value.
pub fn decode_payload(b: &Vec<u8>) -> (r: Option<VFSVector>)
    ensures
        match spec_decode_payload(b@) {
            None => r is None,
            Some(m) => r matches Some(v) && v@ == m,
        },
{
    if b.len() < 1 {
        return None;
    }
    let tag = b[0];
    if tag == 0u8 {
        match exec_dec_u64(b, 1) {
            None => None,
            Some((id, j1)) => match exec_dec_u64(b, j1) {
                None => None,
                Some((cnt, j2)) => match exec_dec_u32s(b, j2, cnt) {
                    None => None,
                    Some((values, j3)) => match exec_dec_meta(b, j3) {
                        None => None,
                        Some((metadata, j4)) => {
                            if j4 == b.len() {
                                Some(VFSVector::Dense(Vector { id, vector: values, metadata }))
                            } else {
                                None
                            }
                        },
                    },
                },
            },
        }
    } else if tag == 1u8 {
        match exec_dec_u64(b, 1) {
            None => None,
            Some((id, j1)) => match exec_dec_u64(b, j1) {
                None => None,
                Some((cnt, j2)) => match exec_dec_i8s(b, j2, cnt) {
                    None => None,
                    Some((values, j3)) => match exec_dec_u32(b, j3) {
                        None => None,
                        Some((scale_factor_bits, j4)) => match exec_dec_meta(b, j4) {
                            None => None,
                            Some((metadata, j5)) => {
                                if j5 == b.len() {
                                    Some(
                                        VFSVector::Quantized(
                                            QuantizedVector {
                                                id,
                                                vector: values,
                                                scale_factor_bits,
                                                metadata,
                                            },
                                        ),
                                    )
                                } else {
                                    None
                                }
                            },
                        },
                    },
                },
            },
        }
    } else {
        None
    }
}

// ---------------------------------------------------------------------
// Stream scanning.
// ---------------------------------------------------------------------

/// The models of a sequence of vector values.
pub open spec fn vector_views(vs: Seq<VFSVector>) -> Seq<VFSVectorModel> {
    Seq::new(vs.len(), |i: int| vs[i]@)
}

/// Whether the four bytes at the cursor are the start marker.
fn check_marker(data: &Vec<u8>, cur: usize) -> (r: bool)
    requires
        cur + 4 <= data@.len(),
    ensures
        r == (data@.subrange(cur as int, cur + 4) == spec_marker()),
{
    let len = data.len();
    let r = data[cur] == 0xde && data[cur + 1] == 0xad && data[cur + 2] == 0xbe && data[cur + 3]
        == 0xef;
    proof {
        if r {
            assert(data@.subrange(cur as int, cur + 4) =~= spec_marker());
        } else {
            assert(data@.subrange(cur as int, cur + 4) != spec_marker()) by {
                if data@.subrange(cur as int, cur + 4) == spec_marker() {
                    assert(data@[cur as int] == spec_marker()[0]);
                    assert(data@[cur + 1] == spec_marker()[1]);
                    assert(data@[cur + 2] == spec_marker()[2]);
                    assert(data@[cur + 3] == spec_marker()[3]);
                }
            }
        }
    }
    r
}

/// Parses up to `count` records from the data buffer, starting at
/// `offset`.  Returns the records found and the new offset, which equals
/// the starting offset plus the bytes consumed; a frame whose length
/// word, payload, or decoding fails is left unconsumed, so that a caller
/// can checkpoint the offset and retry once the record is whole.
pub fn load_vectors(data: &Vec<u8>, offset: usize, count: usize) -> (r: (Vec<VFSVector>, usize))
    ensures
        ({
            let parsed = spec_parse(data@, offset as int, count as nat);
            vector_views(r.0@) == parsed.0 && r.1 == parsed.1
        }),
{
    let ghost orig = spec_parse(data@, offset as int, count as nat);
    let mut found: Vec<VFSVector> = Vec::new();
    let mut cur: usize = offset;
    let mut rem: usize = count;
    proof {
        assert(vector_views(found@) =~= Seq::<VFSVectorModel>::empty());
        let rest = spec_parse(data@, cur as int, rem as nat);
        assert(vector_views(found@) + rest.0 =~= rest.0);
    }
    loop
        invariant
            cur >= offset,
            rem <= count,
            ({
                let rest = spec_parse(data@, cur as int, rem as nat);
                orig == (vector_views(found@) + rest.0, rest.1)
            }),
            orig == spec_parse(data@, offset as int, count as nat),
        ensures
            vector_views(found@) == orig.0,
            cur == orig.1,
        decreases rem, data@.len() - cur,
    {
        if rem == 0 {
            proof {
                let rest = spec_parse(data@, cur as int, rem as nat);
                assert(rest == (Seq::<VFSVectorModel>::empty(), cur as int));
                assert(vector_views(found@) + rest.0 =~= vector_views(found@));
            }
            break;
        }
        if cur > data.len() || data.len() - cur < 4 {
            proof {
                let rest = spec_parse(data@, cur as int, rem as nat);
                assert(rest == (Seq::<VFSVectorModel>::empty(), cur as int));
                assert(vector_views(found@) + rest.0 =~= vector_views(found@));
            }
            break;
        }
        if !check_marker(data, cur) {
            cur = cur + 1;
            continue;
        }
        if data.len() - cur < 12 {
            proof {
                let rest = spec_parse(data@, cur as int, rem as nat);
                assert(vector_views(found@) + rest.0 =~= vector_views(found@));
            }
            break;
        }
        let n = u64_from_le_bytes(slice_subrange(data.as_slice(), cur + 4, cur + 12));
        proof {
            assert(data@.subrange(cur + 4, cur + 12) == data@.subrange(cur + 4, cur + 12));
        }
        if n > (data.len() - (cur + 12)) as u64 {
            proof {
                let rest = spec_parse(data@, cur as int, rem as nat);
                assert(vector_views(found@) + rest.0 =~= vector_views(found@));
            }
            break;
        }
        let payload_end = cur + 12 + (n as usize);
        let payload = slice_to_vec(slice_subrange(data.as_slice(), cur + 12, payload_end));
        match decode_payload(&payload) {
            None => {
                proof {
                    let rest = spec_parse(data@, cur as int, rem as nat);
                    assert(vector_views(found@) + rest.0 =~= vector_views(found@));
                }
                break;
            },
            Some(v) => {
                proof {
                    let rest = spec_parse(data@, payload_end as int, (rem - 1) as nat);
                    assert(vector_views(found@) + (seq![v@] + rest.0) =~= vector_views(
                        found@.push(v),
                    ) + rest.0);
                }
                found.push(v);
                cur = payload_end;
                rem = rem - 1;
            },
        }
    }
    (found, cur)
}

// ---------------------------------------------------------------------
// The engine state snapshot: one framed record holding the manager
// name, the next identifier, the read cursor, and the primary index as
// identifier/offset pairs.
// ---------------------------------------------------------------------

/// Identifier/offset pairs, two 64-bit words each.
pub open spec fn spec_encode_pairs(ps: Seq<(u64, u64)>) -> Seq<u8>
    decreases ps.len(),
{
    if ps.len() == 0 {
        Seq::empty()
    } else {
        spec_u64_to_le_bytes(ps[0].0) + spec_u64_to_le_bytes(ps[0].1) + spec_encode_pairs(
            ps.drop_first(),
        )
    }
}

/// The snapshot payload.
pub open spec fn spec_encode_snapshot(
    name: Seq<char>,
    next_id: u64,
    current_offset: u64,
    index: Seq<(u64, u64)>,
) -> Seq<u8> {
    spec_encode_str(name) + spec_u64_to_le_bytes(next_id) + spec_u64_to_le_bytes(current_offset)
        + spec_u64_to_le_bytes(index.len() as u64) + spec_encode_pairs(index)
}

/// The lengths written into the snapshot fit their prefix words.
pub open spec fn snapshot_wf(name: Seq<char>, index: Seq<(u64, u64)>) -> bool {
    &&& str_wf(name)
    &&& index.len() <= u64::MAX
    &&& spec_encode_snapshot_len(name, index) <= u64::MAX
}

/// Byte length of the snapshot payload.
pub open spec fn spec_encode_snapshot_len(name: Seq<char>, index: Seq<(u64, u64)>) -> int {
    spec_encode_str(name).len() as int + 24 + spec_encode_pairs(index).len() as int
}

/// The snapshot as framed on disk: marker, payload length, payload.
pub open spec fn spec_encode_snapshot_record(
    name: Seq<char>,
    next_id: u64,
    current_offset: u64,
    index: Seq<(u64, u64)>,
) -> Seq<u8> {
    spec_marker() + spec_u64_to_le_bytes(
        spec_encode_snapshot(name, next_id, current_offset, index).len() as u64,
    ) + spec_encode_snapshot(name, next_id, current_offset, index)
}

/// Reads `cnt` identifier/offset pairs at the cursor.
pub open spec fn spec_dec_pairs(b: Seq<u8>, i: int, cnt: nat) -> Option<(Seq<(u64, u64)>, int)>
    decreases cnt,
{
    if cnt == 0 {
        if 0 <= i <= b.len() {
            Some((Seq::empty(), i))
        } else {
            None
        }
    } else {
        match spec_dec_u64(b, i) {
            None => None,
            Some((x, j)) => match spec_dec_u64(b, j) {
                None => None,
                Some((y, j2)) => match spec_dec_pairs(b, j2, (cnt - 1) as nat) {
                    None => None,
                    Some((rest, k)) => Some((seq![(x, y)] + rest, k)),
                },
            },
        }
    }
}

/// Decodes a framed snapshot; every byte must be consumed.
pub open spec fn spec_decode_snapshot(b: Seq<u8>) -> Option<(Seq<char>, u64, u64, Seq<(u64, u64)>)> {
    if b.len() < 12 || b.subrange(0, 4) != spec_marker() {
        None
    } else {
        let n = spec_u64_from_le_bytes(b.subrange(4, 12)) as int;
        if 12 + n != b.len() {
            None
        } else {
            match spec_dec_str(b, 12) {
                None => None,
                Some((name, j1)) => match spec_dec_u64(b, j1) {
                    None => None,
                    Some((next_id, j2)) => match spec_dec_u64(b, j2) {
                        None => None,
                        Some((current_offset, j3)) => match spec_dec_u64(b, j3) {
                            None => None,
                            Some((cnt, j4)) => match spec_dec_pairs(b, j4, cnt as nat) {
                                None => None,
                                Some((index, j5)) => {
                                    if j5 == b.len() {
                                        Some((name, next_id, current_offset, index))
                                    } else {
                                        None
                                    }
                                },
                            },
                        },
                    },
                },
            }
        }
    }
}

/// A run of pairs decodes from its own encoding.
proof fn lemma_dec_pairs_prefix(b: Seq<u8>, i: int, ps: Seq<(u64, u64)>)
    requires
        0 <= i,
        i + spec_encode_pairs(ps).len() <= b.len(),
        b.subrange(i, i + spec_encode_pairs(ps).len()) == spec_encode_pairs(ps),
    ensures
        spec_dec_pairs(b, i, ps.len()) == Some((ps, i + spec_encode_pairs(ps).len())),
    decreases ps.len(),
{
    lemma_auto_spec_u64_to_from_le_bytes();
    if ps.len() == 0 {
    } else {
        let h1 = spec_u64_to_le_bytes(ps[0].0);
        let h2 = spec_u64_to_le_bytes(ps[0].1);
        let tail = spec_encode_pairs(ps.drop_first());
        assert(spec_encode_pairs(ps) =~= h1 + (h2 + tail));
        lemma_concat_split(b, i, h1, h2 + tail);
        lemma_concat_split(b, i + 8, h2, tail);
        lemma_dec_u64_prefix(b, i, ps[0].0);
        lemma_dec_u64_prefix(b, i + 8, ps[0].1);
        lemma_dec_pairs_prefix(b, i + 16, ps.drop_first());
        assert(seq![(ps[0].0, ps[0].1)] + ps.drop_first() =~= ps);
    }
}

/// A framed snapshot decodes to exactly the state it was encoded from.
#[verifier::rlimit(100)]
pub proof fn lemma_snapshot_round_trip(
    name: Seq<char>,
    next_id: u64,
    current_offset: u64,
    index: Seq<(u64, u64)>,
)
    requires
        snapshot_wf(name, index),
    ensures
        spec_decode_snapshot(spec_encode_snapshot_record(name, next_id, current_offset, index))
            == Some((name, next_id, current_offset, index)),
{
    lemma_auto_spec_u64_to_from_le_bytes();
    let p = spec_encode_snapshot(name, next_id, current_offset, index);
    let b = spec_encode_snapshot_record(name, next_id, current_offset, index);
    let lenw = spec_u64_to_le_bytes(p.len() as u64);
    assert(p =~= spec_encode_str(name) + (spec_u64_to_le_bytes(next_id) + (spec_u64_to_le_bytes(
        current_offset,
    ) + (spec_u64_to_le_bytes(index.len() as u64) + spec_encode_pairs(index)))));
    assert(p.len() == spec_encode_snapshot_len(name, index));
    assert(b =~= spec_marker() + (lenw + p));
    assert(b.len() == 4 + lenw.len() + p.len());
    assert(b.subrange(0, 4 + (lenw.len() + p.len()) as int) =~= b);
    lemma_concat_split(b, 0, spec_marker(), lenw + p);
    lemma_concat_split(b, 4, lenw, p);
    assert(b.subrange(0, 4) == spec_marker());
    assert(spec_u64_from_le_bytes(b.subrange(4, 12)) == p.len() as u64);
    // Split the payload within the frame.
    let s1 = spec_encode_str(name);
    let s2 = spec_u64_to_le_bytes(next_id);
    let s3 = spec_u64_to_le_bytes(current_offset);
    let s4 = spec_u64_to_le_bytes(index.len() as u64);
    let s5 = spec_encode_pairs(index);
    let i1: int = 12 + s1.len() as int;
    let i2: int = i1 + 8;
    let i3: int = i2 + 8;
    let i4: int = i3 + 8;
    assert(b.subrange(12, 12 + p.len() as int) == p);
    assert(p =~= s1 + (s2 + (s3 + (s4 + s5))));
    lemma_concat_split(b, 12, s1, s2 + (s3 + (s4 + s5)));
    lemma_concat_split(b, i1, s2, s3 + (s4 + s5));
    lemma_concat_split(b, i2, s3, s4 + s5);
    lemma_concat_split(b, i3, s4, s5);
    lemma_dec_str_prefix(b, 12, name);
    lemma_dec_u64_prefix(b, i1, next_id);
    lemma_dec_u64_prefix(b, i2, current_offset);
    lemma_dec_u64_prefix(b, i3, index.len() as u64);
    lemma_dec_pairs_prefix(b, i4, index);
}

/// Serializes the engine state into one framed snapshot record.
pub fn encode_snapshot(
    name: &String,
    next_id: u64,
    current_offset: u64,
    index: &Vec<(u64, u64)>,
) -> (r: Vec<u8>)
    ensures
        r@ == spec_encode_snapshot_record(name@, next_id, current_offset, index@),
        snapshot_wf(name@, index@),
{
    let mut payload: Vec<u8> = Vec::new();
    proof {
        assert(payload@ =~= Seq::<u8>::empty());
    }
    push_str(&mut payload, name);
    push_u64(&mut payload, next_id);
    push_u64(&mut payload, current_offset);
    push_u64(&mut payload, index.len() as u64);
    let ghost mid = payload@;
    let mut k: usize = 0;
    while k < index.len()
        invariant
            0 <= k <= index@.len(),
            payload@ == mid + spec_encode_pairs(index@.take(k as int)),
        decreases index@.len() - k,
    {
        proof {
            lemma_encode_pairs_take_succ(index@, k as int);
        }
        let pair = index[k];
        push_u64(&mut payload, pair.0);
        push_u64(&mut payload, pair.1);
        k = k + 1;
    }
    proof {
        assert(index@.take(index@.len() as int) =~= index@);
    }
    let mut out: Vec<u8> = Vec::new();
    out.push(0xde);
    out.push(0xad);
    out.push(0xbe);
    out.push(0xef);
    proof {
        assert(out@ =~= spec_marker());
    }
    proof {
        lemma_auto_spec_u64_to_from_le_bytes();
        assert(payload@.len() == spec_encode_snapshot_len(name@, index@));
    }
    push_u64(&mut out, payload.len() as u64);
    let mut payload = payload;
    out.append(&mut payload);
    out
}

/// Encoding one more pair appends its bytes.
proof fn lemma_encode_pairs_take_succ(ps: Seq<(u64, u64)>, k: int)
    requires
        0 <= k < ps.len(),
    ensures
        spec_encode_pairs(ps.take(k + 1)) == spec_encode_pairs(ps.take(k)) + (spec_u64_to_le_bytes(
            ps[k].0,
        ) + spec_u64_to_le_bytes(ps[k].1)),
    decreases k,
{
    if k == 0 {
        assert(ps.take(1) =~= seq![ps[0]]);
        assert(seq![ps[0]].drop_first() =~= Seq::<(u64, u64)>::empty());
        assert(ps.take(0) =~= Seq::<(u64, u64)>::empty());
        let h = spec_u64_to_le_bytes(ps[0].0) + spec_u64_to_le_bytes(ps[0].1);
        assert(h + Seq::<u8>::empty() =~= h);
        assert(Seq::<u8>::empty() + h =~= h);
    } else {
        lemma_encode_pairs_take_succ(ps.drop_first(), k - 1);
        assert(ps.take(k + 1).drop_first() =~= ps.drop_first().take(k));
        assert(ps.take(k).drop_first() =~= ps.drop_first().take(k - 1));
        assert(ps.drop_first()[k - 1] == ps[k]);
        let h0 = spec_u64_to_le_bytes(ps[0].0) + spec_u64_to_le_bytes(ps[0].1);
        let hk = spec_u64_to_le_bytes(ps[k].0) + spec_u64_to_le_bytes(ps[k].1);
        assert(h0 + (spec_encode_pairs(ps.drop_first().take(k - 1)) + hk) =~= (h0
            + spec_encode_pairs(ps.drop_first().take(k - 1))) + hk);
    }
}

/// Prefixes the already-read pairs to a partial decode.
spec fn prepend_pairs(pre: Seq<(u64, u64)>, o: Option<(Seq<(u64, u64)>, int)>) -> Option<
    (Seq<(u64, u64)>, int),
> {
    match o {
        None => None,
        Some((rest, k)) => Some((pre + rest, k)),
    }
}

/// Reads `cnt` identifier/offset pairs at the cursor.
fn exec_dec_pairs(b: &Vec<u8>, i: usize, cnt: u64) -> (r: Option<(Vec<(u64, u64)>, usize)>)
    ensures
        match spec_dec_pairs(b@, i as int, cnt as nat) {
            None => r is None,
            Some((ps, j)) => r matches Some(p) && p.0@ == ps && p.1 == j,
        },
{
    if i > b.len() {
        return None;
    }
    let mut xs: Vec<(u64, u64)> = Vec::new();
    let mut cur: usize = i;
    let mut rem: u64 = cnt;
    proof {
        match spec_dec_pairs(b@, cur as int, rem as nat) {
            None => {},
            Some((rest, k)) => {
                assert(xs@ + rest =~= rest);
            },
        }
    }
    while rem > 0
        invariant
            cur <= b@.len(),
            prepend_pairs(xs@, spec_dec_pairs(b@, cur as int, rem as nat)) == spec_dec_pairs(
                b@,
                i as int,
                cnt as nat,
            ),
        decreases rem,
    {
        match exec_dec_u64(b, cur) {
            None => {
                return None;
            },
            Some((x, j)) => match exec_dec_u64(b, j) {
                None => {
                    return None;
                },
                Some((y, j2)) => {
                    proof {
                        let tail = spec_dec_pairs(b@, j2 as int, (rem - 1) as nat);
                        match tail {
                            None => {},
                            Some((rest, k)) => {
                                assert(xs@ + (seq![(x, y)] + rest) =~= xs@.push((x, y)) + rest);
                            },
                        }
                    }
                    xs.push((x, y));
                    cur = j2;
                    rem = rem - 1;
                },
            },
        }
    }
    proof {
        assert(spec_dec_pairs(b@, cur as int, 0) == Some((Seq::<(u64, u64)>::empty(), cur as int)));
        assert(xs@ + Seq::<(u64, u64)>::empty() =~= xs@);
    }
    Some((xs, cur))
}

/// Decodes a framed snapshot back into the engine state fields.
pub fn decode_snapshot(b: &Vec<u8>) -> (r: Option<(String, u64, u64, Vec<(u64, u64)>)>)
    ensures
        match spec_decode_snapshot(b@) {
            None => r is None,
            Some((name, next_id, current_offset, index)) => r matches Some(p) && p.0@ == name && p.1
                == next_id && p.2 == current_offset && p.3@ == index,
        },
{
    let len = b.len();
    if len < 12 {
        return None;
    }
    if !check_marker(b, 0) {
        return None;
    }
    let n = u64_from_le_bytes(slice_subrange(b.as_slice(), 4, 12));
    if n != (len - 12) as u64 {
        return None;
    }
    match exec_dec_str(b, 12) {
        None => None,
        Some((name, j1)) => match exec_dec_u64(b, j1) {
            None => None,
            Some((next_id, j2)) => match exec_dec_u64(b, j2) {
                None => None,
                Some((current_offset, j3)) => match exec_dec_u64(b, j3) {
                    None => None,
                    Some((cnt, j4)) => match exec_dec_pairs(b, j4, cnt) {
                        None => None,
                        Some((index, j5)) => {
                            if j5 == len {
                                Some((name, next_id, current_offset, index))
                            } else {
                                None
                            }
                        },
                    },
                },
            },
        },
    }
}

} // verus!