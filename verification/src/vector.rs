//! Vector values and their metadata.
//!
//! A stored vector is either dense or quantized.  Dense component values
//! are IEEE-754 single-precision bit patterns carried as `u32` words, so
//! that the engine itself never computes on them; distance kernels that
//! interpret the bits live with the callers.  Quantized vectors carry
//! signed 8-bit components together with the bit pattern of their scale
//! factor.

use vstd::prelude::*;

verus! {

/// The views of a sequence of strings.
pub open spec fn tag_views(tags: Seq<String>) -> Seq<Seq<char>> {
    Seq::new(tags.len(), |i: int| tags[i]@)
}

/// Holds of a tag sequence with every `"quantized"` marker removed.
pub open spec fn spec_strip_quantized(tags: Seq<Seq<char>>) -> Seq<Seq<char>> {
    tags.filter(|t: Seq<char>| t != "quantized"@)
}

/// Descriptive data attached to every stored vector.  All fields are
/// opaque to the engine.
#[derive(Clone, Debug)]
pub struct VectorMetadata {
    pub manager_name: String,
    pub name: String,
    pub tags: Vec<String>,
    pub created_at: String,
}

/// Mathematical model of [`VectorMetadata`].
pub struct MetadataView {
    pub manager_name: Seq<char>,
    pub name: Seq<char>,
    pub tags: Seq<Seq<char>>,
    pub created_at: Seq<char>,
}

impl View for VectorMetadata {
    type V = MetadataView;

    open spec fn view(&self) -> MetadataView {
        MetadataView {
            manager_name: self.manager_name@,
            name: self.name@,
            tags: tag_views(self.tags@),
            created_at: self.created_at@,
        }
    }
}

/// A dense vector: component bit patterns plus identifier and metadata.
#[derive(Clone, Debug)]
pub struct Vector {
    pub id: u64,
    pub vector: Vec<u32>,
    pub metadata: VectorMetadata,
}

/// Mathematical model of [`Vector`].
pub struct VectorModel {
    pub id: u64,
    pub values: Seq<u32>,
    pub metadata: MetadataView,
}

impl View for Vector {
    type V = VectorModel;

    open spec fn view(&self) -> VectorModel {
        VectorModel { id: self.id, values: self.vector@, metadata: self.metadata@ }
    }
}

/// A quantized vector: signed 8-bit components and the bit pattern of the
/// positive scale factor that projects them back to dense components.
#[derive(Clone, Debug)]
pub struct QuantizedVector {
    pub id: u64,
    pub vector: Vec<i8>,
    pub scale_factor_bits: u32,
    pub metadata: VectorMetadata,
}

/// Mathematical model of [`QuantizedVector`].
pub struct QuantizedModel {
    pub id: u64,
    pub values: Seq<i8>,
    pub scale_factor_bits: u32,
    pub metadata: MetadataView,
}

impl View for QuantizedVector {
    type V = QuantizedModel;

    open spec fn view(&self) -> QuantizedModel {
        QuantizedModel {
            id: self.id,
            values: self.vector@,
            scale_factor_bits: self.scale_factor_bits,
            metadata: self.metadata@,
        }
    }
}

/// The polymorphic vector value stored by the engine.
#[derive(Clone, Debug)]
pub enum VFSVector {
    Dense(Vector),
    Quantized(QuantizedVector),
}

/// Mathematical model of [`VFSVector`].
pub enum VFSVectorModel {
    Dense(VectorModel),
    Quantized(QuantizedModel),
}

impl View for VFSVector {
    type V = VFSVectorModel;

    open spec fn view(&self) -> VFSVectorModel {
        match self {
            VFSVector::Dense(v) => VFSVectorModel::Dense(v@),
            VFSVector::Quantized(q) => VFSVectorModel::Quantized(q@),
        }
    }
}

impl VFSVectorModel {
    /// Identifier of the modelled vector.
    pub open spec fn spec_id(self) -> u64 {
        match self {
            VFSVectorModel::Dense(v) => v.id,
            VFSVectorModel::Quantized(q) => q.id,
        }
    }

    /// Metadata of the modelled vector.
    pub open spec fn spec_metadata(self) -> MetadataView {
        match self {
            VFSVectorModel::Dense(v) => v.metadata,
            VFSVectorModel::Quantized(q) => q.metadata,
        }
    }

    /// Number of components of the modelled vector.
    pub open spec fn spec_dim(self) -> nat {
        match self {
            VFSVectorModel::Dense(v) => v.values.len(),
            VFSVectorModel::Quantized(q) => q.values.len(),
        }
    }
}

impl Vector {
    /// Builds a dense vector from raw component bit patterns.
    pub fn from_vec(vector: Vec<u32>, id: u64, name: &str, tags: Vec<String>, created_at: String) -> (r:
        Vector)
        ensures
            r@.id == id,
            r@.values == vector@,
            r@.metadata.name == name@,
            r@.metadata.tags == tag_views(tags@),
            r@.metadata.created_at == created_at@,
            r@.metadata.manager_name == Seq::<char>::empty(),
    {
        Vector {
            id,
            vector,
            metadata: VectorMetadata {
                manager_name: String::new(),
                name: name.to_owned(),
                tags,
                created_at,
            },
        }
    }
}

impl VFSVector {
    /// Identifier of the vector, common to both variants.
    pub fn id(&self) -> (r: u64)
        ensures
            r == self@.spec_id(),
    {
        match self {
            VFSVector::Dense(v) => v.id,
            VFSVector::Quantized(q) => q.id,
        }
    }

    /// Metadata of the vector, common to both variants.
    pub fn metadata(&self) -> (r: &VectorMetadata)
        ensures
            r@ == self@.spec_metadata(),
    {
        match self {
            VFSVector::Dense(v) => &v.metadata,
            VFSVector::Quantized(q) => &q.metadata,
        }
    }

    /// Number of components of the vector.
    pub fn dim(&self) -> (r: usize)
        ensures
            r == self@.spec_dim(),
    {
        match self {
            VFSVector::Dense(v) => v.vector.len(),
            VFSVector::Quantized(q) => q.vector.len(),
        }
    }

    /// Builds a dense vector value from raw component bit patterns.
    pub fn from_vec(vector: Vec<u32>, id: u64, name: &str, tags: Vec<String>, created_at: String) -> (r:
        VFSVector)
        ensures
            r@ matches VFSVectorModel::Dense(v) && v.id == id && v.values == vector@
                && v.metadata.name == name@ && v.metadata.tags == tag_views(tags@)
                && v.metadata.created_at == created_at@ && v.metadata.manager_name == Seq::<
                char,
            >::empty(),
    {
        VFSVector::Dense(Vector::from_vec(vector, id, name, tags, created_at))
    }

    /// Builds a quantized vector value; the reserved `"quantized"` tag is
    /// appended to the supplied tags.
    pub fn from_quantized_vec(
        vector: Vec<i8>,
        id: u64,
        scale_factor_bits: u32,
        name: &str,
        tags: Vec<String>,
        created_at: String,
    ) -> (r: VFSVector)
        ensures
            r@ matches VFSVectorModel::Quantized(q) && q.id == id && q.values == vector@
                && q.scale_factor_bits == scale_factor_bits && q.metadata.name == name@
                && q.metadata.tags == tag_views(tags@).push("quantized"@)
                && q.metadata.created_at == created_at@ && q.metadata.manager_name == Seq::<
                char,
            >::empty(),
    {
        let ghost old_tags = tags@;
        let mut tags = tags;
        tags.push(String::from_str("quantized"));
        proof {
            assert(tag_views(tags@) =~= tag_views(old_tags).push("quantized"@));
        }
        VFSVector::Quantized(
            QuantizedVector {
                id,
                vector,
                scale_factor_bits,
                metadata: VectorMetadata {
                    manager_name: String::new(),
                    name: name.to_owned(),
                    tags,
                    created_at,
                },
            },
        )
    }

    /// Raw component bit patterns of a dense vector; `None` for a
    /// quantized one, whose dense projection needs the scale factor to be
    /// interpreted by the caller.
    pub fn dense_bits(&self) -> (r: Option<Vec<u32>>)
        ensures
            match self@ {
                VFSVectorModel::Dense(v) => r matches Some(bits) && bits@ == v.values,
                VFSVectorModel::Quantized(_) => r is None,
            },
    {
        match self {
            VFSVector::Dense(v) => Some(v.vector.clone()),
            VFSVector::Quantized(_) => None,
        }
    }

    /// Signed 8-bit components of a quantized vector together with the
    /// scale factor bits; `None` for a dense one.
    pub fn quantized_bits(&self) -> (r: Option<(Vec<i8>, u32)>)
        ensures
            match self@ {
                VFSVectorModel::Quantized(q) => r matches Some(p) && p.0@ == q.values && p.1
                    == q.scale_factor_bits,
                VFSVectorModel::Dense(_) => r is None,
            },
    {
        match self {
            VFSVector::Dense(_) => None,
            VFSVector::Quantized(q) => Some((q.vector.clone(), q.scale_factor_bits)),
        }
    }
}

/// Stripping the reserved tag distributes over `push`.
proof fn lemma_strip_quantized_push(s: Seq<Seq<char>>, x: Seq<char>)
    ensures
        spec_strip_quantized(s.push(x)) == if x != "quantized"@ {
            spec_strip_quantized(s).push(x)
        } else {
            spec_strip_quantized(s)
        },
{
    reveal(Seq::filter);
    assert(s.push(x).drop_last() =~= s);
    assert(s.push(x).last() == x);
}

/// Removes every `"quantized"` tag, in order, as dequantization strips
/// the marker that quantization added.
pub fn strip_quantized_tag(tags: &Vec<String>) -> (r: Vec<String>)
    ensures
        tag_views(r@) == spec_strip_quantized(tag_views(tags@)),
{
    let quantized = String::from_str("quantized");
    let mut r: Vec<String> = Vec::new();
    let mut k: usize = 0;
    proof {
        assert(tag_views(tags@).take(0) =~= Seq::<Seq<char>>::empty());
        assert(spec_strip_quantized(Seq::<Seq<char>>::empty()) =~= Seq::<Seq<char>>::empty())
            by {
            reveal(Seq::filter);
        }
        assert(tag_views(r@) =~= Seq::<Seq<char>>::empty());
    }
    while k < tags.len()
        invariant
            0 <= k <= tags@.len(),
            quantized@ == "quantized"@,
            tag_views(r@) == spec_strip_quantized(tag_views(tags@).take(k as int)),
        decreases tags@.len() - k,
    {
        let t = &tags[k];
        let keep = !t.eq(&quantized);
        proof {
            assert(t@ == tag_views(tags@)[k as int]);
            lemma_strip_quantized_push(tag_views(tags@).take(k as int), tag_views(tags@)[k as int]);
            assert(tag_views(tags@).take(k + 1) =~= tag_views(tags@).take(k as int).push(
                tag_views(tags@)[k as int],
            ));
        }
        if keep {
            let ghost prev = r@;
            r.push(t.clone());
            proof {
                assert(tag_views(r@) =~= tag_views(prev).push(t@));
                assert(tag_views(r@) == spec_strip_quantized(tag_views(tags@).take(k + 1)));
            }
        } else {
            proof {
                assert(tag_views(r@) == spec_strip_quantized(tag_views(tags@).take(k + 1)));
            }
        }
        k = k + 1;
    }
    proof {
        assert(tag_views(tags@).take(tags@.len() as int) =~= tag_views(tags@));
    }
    r
}

} // verus!
