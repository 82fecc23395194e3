//! Meshes and vertex layouts.
//!
//! A mesh carries byte-packed vertex data, a `u16` index list, the layout
//! that describes one vertex, a transparency flag and the quantized highest
//! depth among its vertices.  Merging fuses two meshes with equal layouts
//! into one, rebasing the second mesh's indices past the first mesh's
//! vertices; padding extends an index list with copies of its last entry
//! until its length is a multiple of four, the GPU copy alignment for
//! two-byte indices.

use vstd::prelude::*;

use crate::error::RenderError;

verus! {

/// One vertex attribute: byte offset inside a vertex, shader location, and
/// the attribute's format as a numeric code (the GPU backend's format
/// enumeration, carried as a plain value).
#[derive(Clone, Copy, PartialEq, Eq, Structural, Debug)]
pub struct VertexAttribute {
    pub offset: u64,
    pub shader_location: u32,
    pub format: u32,
}

/// Whether the layout advances per vertex or per instance.
#[derive(Clone, Copy, PartialEq, Eq, Structural, Debug)]
pub enum VertexStepMode {
    Vertex,
    Instance,
}

/// Byte layout of one vertex: stride, step mode and attribute list.
#[derive(Clone, Debug)]
pub struct VertexLayoutInfo {
    pub array_stride: u64,
    pub step_mode: VertexStepMode,
    pub attributes: Vec<VertexAttribute>,
    pub total_size: u64,
}

/// Spec-level structural equality of two layouts.
pub open spec fn layout_eq(a: VertexLayoutInfo, b: VertexLayoutInfo) -> bool {
    &&& a.array_stride == b.array_stride
    &&& a.step_mode == b.step_mode
    &&& a.attributes@ == b.attributes@
    &&& a.total_size == b.total_size
}

/// Size in bytes of one attribute format, as the caller reports it.
#[derive(Clone, Copy, PartialEq, Eq, Structural, Debug)]
pub struct VertexField {
    /// Numeric code of the attribute's format.
    pub format: u32,
    /// Byte size of one value of that format.
    pub size: u64,
}

/// Sum of the sizes of the first `i` fields.
pub open spec fn field_offset(fields: Seq<VertexField>, i: int) -> int
    decreases i,
{
    if i <= 0 {
        0
    } else {
        field_offset(fields, i - 1) + fields[i - 1].size
    }
}

proof fn lemma_field_offset_mono(fields: Seq<VertexField>, i: int, j: int)
    requires
        0 <= i <= j,
    ensures
        field_offset(fields, i) <= field_offset(fields, j),
    decreases j - i,
{
    if i < j {
        lemma_field_offset_mono(fields, i, j - 1);
    }
}

impl VertexLayoutInfo {
    /// Decides spec-level layout equality.
    pub fn matches(&self, other: &VertexLayoutInfo) -> (r: bool)
        ensures
            r == layout_eq(*self, *other),
    {
        if !(self.array_stride == other.array_stride && self.step_mode == other.step_mode
            && self.total_size == other.total_size
            && self.attributes.len() == other.attributes.len()) {
            return false;
        }
        let n = self.attributes.len();
        let mut i: usize = 0;
        while i < n
            invariant
                i <= n,
                n == self.attributes@.len(),
                n == other.attributes@.len(),
                forall|j: int| 0 <= j < i ==> self.attributes@[j] == other.attributes@[j],
            decreases n - i,
        {
            if !(self.attributes[i] == other.attributes[i]) {
                return false;
            }
            i += 1;
        }
        proof {
            assert(self.attributes@ =~= other.attributes@);
        }
        true
    }

    /// Builds a copy of this layout that compares equal to it.
    pub fn duplicate(&self) -> (r: VertexLayoutInfo)
        ensures
            layout_eq(r, *self),
    {
        let n = self.attributes.len();
        let mut attributes: Vec<VertexAttribute> = Vec::new();
        let mut i: usize = 0;
        while i < n
            invariant
                i <= n,
                n == self.attributes@.len(),
                attributes@.len() == i,
                forall|j: int| 0 <= j < i ==> (#[trigger] attributes@[j]) == self.attributes@[j],
            decreases n - i,
        {
            attributes.push(self.attributes[i]);
            i += 1;
        }
        proof {
            assert(attributes@ =~= self.attributes@);
        }
        VertexLayoutInfo {
            array_stride: self.array_stride,
            step_mode: self.step_mode,
            attributes,
            total_size: self.total_size,
        }
    }

    /// Builds the layout of a vertex described by its field formats: each
    /// attribute's offset is the sum of the sizes of the fields before it,
    /// shader locations count up from zero, and stride and total size are
    /// the sum of all field sizes.
    pub fn from_vertex(fields: &Vec<VertexField>) -> (r: VertexLayoutInfo)
        requires
            field_offset(fields@, fields@.len() as int) <= u64::MAX,
            fields@.len() <= u32::MAX,
        ensures
            r.attributes@.len() == fields@.len(),
            forall|i: int|
                0 <= i < fields@.len() ==> (#[trigger] r.attributes@[i]) == (VertexAttribute {
                    offset: field_offset(fields@, i) as u64,
                    shader_location: i as u32,
                    format: fields@[i].format,
                }),
            r.array_stride == field_offset(fields@, fields@.len() as int),
            r.total_size == r.array_stride,
            r.step_mode == VertexStepMode::Vertex,
    {
        let n = fields.len();
        let mut attributes: Vec<VertexAttribute> = Vec::new();
        let mut offset: u64 = 0;
        let mut i: usize = 0;
        while i < n
            invariant
                i <= n,
                n == fields@.len(),
                n <= u32::MAX,
                field_offset(fields@, n as int) <= u64::MAX,
                offset == field_offset(fields@, i as int),
                attributes@.len() == i,
                forall|j: int|
                    0 <= j < i ==> (#[trigger] attributes@[j]) == (VertexAttribute {
                        offset: field_offset(fields@, j) as u64,
                        shader_location: j as u32,
                        format: fields@[j].format,
                    }),
            decreases n - i,
        {
            proof {
                lemma_field_offset_mono(fields@, i as int + 1, n as int);
            }
            attributes.push(
                VertexAttribute { offset, shader_location: i as u32, format: fields[i].format },
            );
            offset = offset + fields[i].size;
            i += 1;
        }
        VertexLayoutInfo {
            array_stride: offset,
            step_mode: VertexStepMode::Vertex,
            attributes,
            total_size: offset,
        }
    }
}

/// A mesh: byte-packed vertices, `u16` indices, the vertex layout, whether
/// any of its fragments may be non-opaque, and the quantized highest depth
/// among its vertices.
#[derive(Clone, Debug)]
pub struct Mesh {
    pub vertices: Vec<u8>,
    pub indices: Vec<u16>,
    pub layout: VertexLayoutInfo,
    pub could_be_transparent: bool,
    pub max_depth: u32,
}

/// Number of vertex elements a mesh holds: its byte length over its stride.
pub open spec fn element_count(m: Mesh) -> int {
    m.vertices@.len() as int / m.layout.total_size as int
}

/// The second mesh's indices, rebased past the first mesh's vertices.
pub open spec fn rebased_indices(a: Mesh, b: Mesh) -> Seq<u16> {
    b.indices@.map_values(|i: u16| (i + element_count(a)) as u16)
}

/// The bridge between two index lists: the first list's last entry twice,
/// then the rebased last entry of the second.  Empty when either list is
/// empty.  Under a triangle-list topology these three entries only add
/// degenerate triangles.
pub open spec fn bridge_indices(a: Mesh, b: Mesh) -> Seq<u16> {
    if a.indices@.len() > 0 && b.indices@.len() > 0 {
        seq![a.indices@.last(), a.indices@.last(), rebased_indices(a, b).last()]
    } else {
        Seq::empty()
    }
}

/// The index list of the merge of `a` and `b`.
pub open spec fn merged_indices(a: Mesh, b: Mesh) -> Seq<u16> {
    a.indices@ + bridge_indices(a, b) + rebased_indices(a, b)
}

impl Mesh {
    /// Fuses `other` into `self`.  Refused with `LayoutMismatch`, leaving
    /// both meshes unchanged, exactly when the layouts differ.  On success
    /// `other` is drained: its vertices follow `self`'s, its indices are
    /// rebased by `self`'s vertex-element count and appended after a
    /// degenerate bridge, and transparency and highest depth are combined.
    pub fn merge(&mut self, other: &mut Mesh) -> (r: Result<(), RenderError>)
        requires
            old(self).layout.total_size > 0,
            forall|k: int|
                0 <= k < old(other).indices@.len() ==> (#[trigger] old(other).indices@[k])
                    + element_count(*old(self)) <= u16::MAX,
        ensures
            r is Err <==> !layout_eq(old(self).layout, old(other).layout),
            r is Err ==> r == Result::<(), RenderError>::Err(RenderError::LayoutMismatch)
                && *final(self) == *old(self) && *final(other) == *old(other),
            r is Ok ==> ({
                &&& final(self).vertices@ == old(self).vertices@ + old(other).vertices@
                &&& final(self).indices@ == merged_indices(*old(self), *old(other))
                &&& layout_eq(final(self).layout, old(self).layout)
                &&& final(self).could_be_transparent == (old(self).could_be_transparent || old(
                    other,
                ).could_be_transparent)
                &&& final(self).max_depth == if old(other).max_depth > old(self).max_depth {
                    old(other).max_depth
                } else {
                    old(self).max_depth
                }
                &&& final(other).vertices@.len() == 0
                &&& final(other).indices@.len() == 0
            }),
    {
        if !self.layout.matches(&other.layout) {
            return Err(RenderError::LayoutMismatch);
        }
        let ghost a0 = *self;
        let ghost b0 = *other;
        let elements = (self.vertices.len() as u64) / self.layout.total_size;
        let mut k: usize = 0;
        while k < other.indices.len()
            invariant
                k <= other.indices@.len(),
                other.indices@.len() == b0.indices@.len(),
                elements == element_count(a0),
                forall|j: int|
                    0 <= j < b0.indices@.len() ==> (#[trigger] b0.indices@[j]) + element_count(a0)
                        <= u16::MAX,
                forall|j: int|
                    0 <= j < k ==> (#[trigger] other.indices@[j]) == (b0.indices@[j]
                        + element_count(a0)) as u16,
                forall|j: int|
                    k <= j < b0.indices@.len() ==> (#[trigger] other.indices@[j])
                        == b0.indices@[j],
                other.vertices == b0.vertices,
                other.layout == b0.layout,
                other.could_be_transparent == b0.could_be_transparent,
                other.max_depth == b0.max_depth,
            decreases other.indices@.len() - k,
        {
            let rebased = other.indices[k] + (elements as u16);
            other.indices.set(k, rebased);
            k += 1;
        }
        proof {
            assert(other.indices@ =~= rebased_indices(a0, b0));
        }
        if other.indices.len() > 0 && self.indices.len() > 0 {
            let last_self = self.indices[self.indices.len() - 1];
            let last_other = other.indices[other.indices.len() - 1];
            self.indices.push(last_self);
            self.indices.push(last_self);
            self.indices.push(last_other);
        }
        self.indices.append(&mut other.indices);
        self.vertices.append(&mut other.vertices);
        if other.could_be_transparent {
            self.could_be_transparent = true;
        }
        if other.max_depth > self.max_depth {
            self.max_depth = other.max_depth;
        }
        proof {
            assert(self.indices@ =~= merged_indices(a0, b0));
        }
        Ok(())
    }
}

/// How many entries padding adds to an index list of length `n`: up to the
/// next multiple of four.
pub open spec fn pad_count(n: int) -> int {
    (4 - n % 4) % 4
}

/// An index list padded with copies of its last entry until its length is a
/// multiple of four.  The list's existing content is never changed.
pub open spec fn padded_indices(s: Seq<u16>) -> Seq<u16> {
    s + Seq::new(pad_count(s.len() as int) as nat, |i: int| s.last())
}

/// Pads `indices` with copies of its last entry until its length is a
/// multiple of four; a list whose length already is one (the empty list
/// included) is left unchanged.
pub fn pad_indices(indices: &mut Vec<u16>)
    requires
        old(indices)@.len() + 3 <= usize::MAX,
    ensures
        final(indices)@ == padded_indices(old(indices)@),
        final(indices)@.len() % 4 == 0,
        final(indices)@.len() == old(indices)@.len() + pad_count(old(indices)@.len() as int),
        forall|j: int|
            0 <= j < old(indices)@.len() ==> (#[trigger] final(indices)@[j]) == old(indices)@[j],
        forall|j: int|
            old(indices)@.len() <= j < final(indices)@.len() ==> (#[trigger] final(indices)@[j])
                == old(indices)@.last(),
{
    let ghost s0 = indices@;
    while indices.len() % 4 != 0
        invariant
            s0.len() <= indices@.len() <= s0.len() + pad_count(s0.len() as int),
            s0.len() + 3 <= usize::MAX,
            forall|j: int| 0 <= j < s0.len() ==> (#[trigger] indices@[j]) == s0[j],
            forall|j: int| s0.len() <= j < indices@.len() ==> (#[trigger] indices@[j]) == s0.last(),
        decreases s0.len() + pad_count(s0.len() as int) - indices@.len(),
    {
        let last = indices[indices.len() - 1];
        indices.push(last);
    }
    proof {
        assert(indices@ =~= padded_indices(s0));
    }
}

} // verus!
