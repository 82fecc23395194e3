//! Batch keys.
//!
//! Two draw requests may share one pipeline and be drawn with shared
//! state-setting calls exactly when their batch keys are equal.  Depth takes
//! part in the key only for non-opaque geometry: opaque fragments occlude
//! correctly under a depth test whatever their draw order, while blended
//! fragments must keep distinct depths in distinct batches so they can be
//! composited back to front.  The asymmetry is structural: the key carries
//! either `Opaque` or `Blended { depth }`.

use vstd::prelude::*;

use crate::mesh::{layout_eq, Mesh, VertexLayoutInfo};
use crate::shader::{shader_eq, Shader};

verus! {

/// Handle of a texture registered with the rendering context.
pub type TextureHandle = usize;

/// Depth's part in a batch key: absent for opaque geometry, the quantized
/// highest depth for blended geometry.
#[derive(Clone, Copy, PartialEq, Eq, Structural, Debug)]
pub enum BatchDepth {
    Opaque,
    Blended { depth: u32 },
}

/// Depth's part in the key of a mesh: blended meshes carry their quantized
/// highest depth, opaque meshes carry none.
pub open spec fn depth_class_of(m: Mesh) -> BatchDepth {
    if m.could_be_transparent {
        BatchDepth::Blended { depth: m.max_depth }
    } else {
        BatchDepth::Opaque
    }
}

/// The key under which draw requests batch: vertex layout, shader identity,
/// texture list, resolved uniform payload list, and — for blended geometry
/// only — the quantized highest depth.
#[derive(Clone, Debug)]
pub struct BatchInfo {
    pub layout: VertexLayoutInfo,
    pub shader: Shader,
    pub textures: Vec<TextureHandle>,
    pub distinct_uniform_ids: Vec<usize>,
    pub depth_class: BatchDepth,
}

/// Spec-level equality of two batch keys: all fields match, where depth is
/// one of the fields only through `depth_class`.
pub open spec fn batch_eq(a: BatchInfo, b: BatchInfo) -> bool {
    &&& layout_eq(a.layout, b.layout)
    &&& shader_eq(a.shader, b.shader)
    &&& a.textures@ == b.textures@
    &&& a.distinct_uniform_ids@ == b.distinct_uniform_ids@
    &&& a.depth_class == b.depth_class
}

/// Decides equality of two `usize` lists.
pub(crate) fn usize_vec_eq(a: &Vec<usize>, b: &Vec<usize>) -> (r: bool)
    ensures
        r == (a@ == b@),
{
    if a.len() != b.len() {
        proof {
            assert(a@.len() != b@.len());
        }
        return false;
    }
    let n = a.len();
    let mut i: usize = 0;
    while i < n
        invariant
            i <= n,
            n == a@.len(),
            n == b@.len(),
            forall|j: int| 0 <= j < i ==> a@[j] == b@[j],
        decreases n - i,
    {
        if a[i] != b[i] {
            return false;
        }
        i += 1;
    }
    proof {
        assert(a@ =~= b@);
    }
    true
}

impl BatchInfo {
    /// Derives the batch key of one draw request: the mesh's layout and
    /// transparency, the shader, the textures and the resolved uniform
    /// payload positions.
    pub fn new(
        mesh: &Mesh,
        shader: Shader,
        textures: Vec<TextureHandle>,
        distinct_uniform_ids: Vec<usize>,
    ) -> (r: BatchInfo)
        ensures
            layout_eq(r.layout, mesh.layout),
            r.shader == shader,
            r.textures == textures,
            r.distinct_uniform_ids == distinct_uniform_ids,
            r.depth_class == depth_class_of(*mesh),
    {
        BatchInfo {
            layout: mesh.layout.duplicate(),
            shader,
            textures,
            distinct_uniform_ids,
            depth_class: if mesh.could_be_transparent {
                BatchDepth::Blended { depth: mesh.max_depth }
            } else {
                BatchDepth::Opaque
            },
        }
    }

    /// Decides spec-level batch-key equality.
    pub fn same_key(&self, other: &BatchInfo) -> (r: bool)
        ensures
            r == batch_eq(*self, *other),
    {
        self.layout.matches(&other.layout) && self.shader.same_shader(&other.shader)
            && usize_vec_eq(&self.textures, &other.textures)
            && usize_vec_eq(&self.distinct_uniform_ids, &other.distinct_uniform_ids)
            && self.depth_class == other.depth_class
    }
}

/// Law: two opaque requests with the same layout, shader, textures and
/// uniform list share a batch key whatever their depth values were — depth
/// never reaches an opaque key.
pub proof fn lemma_opaque_requests_batch(a: BatchInfo, b: BatchInfo)
    requires
        layout_eq(a.layout, b.layout),
        shader_eq(a.shader, b.shader),
        a.textures@ == b.textures@,
        a.distinct_uniform_ids@ == b.distinct_uniform_ids@,
        a.depth_class is Opaque,
        b.depth_class is Opaque,
    ensures
        batch_eq(a, b),
{
}

/// Law: two blended requests with the same layout, shader, textures and
/// uniform list but differing quantized depths never share a batch key.
pub proof fn lemma_blended_requests_split(a: BatchInfo, b: BatchInfo)
    requires
        a.depth_class is Blended,
        b.depth_class is Blended,
        a.depth_class != b.depth_class,
    ensures
        !batch_eq(a, b),
{
}

} // verus!
