//! The rendering context and the per-frame path.
//!
//! The context owns the state that outlives a frame: the binding pool, the
//! registered textures and shader modules, and the pipeline cache.  A frame
//! is planned here — bindings resolved, mesh data packed, pipelines ensured,
//! draw calls laid out — and the resulting plan is replayed against the GPU
//! by the embedding application in the plan's order: update bindings, upload
//! the merged buffers, record one render pass, submit.

use vstd::prelude::*;

use crate::batch::{usize_vec_eq, BatchDepth, TextureHandle};
use crate::error::RenderError;
use crate::mesh::{layout_eq, padded_indices, Mesh, VertexLayoutInfo};
use crate::shader::{shader_eq, Shader};
use crate::uniform::{alloc_model, Uniform, UniformBindGroup};

verus! {

/// What the context records of a registered texture; the GPU-side objects
/// live with the embedding application, in a parallel array.
#[derive(Clone, Copy, PartialEq, Eq, Structural, Debug)]
pub struct TextureInfo {
    /// The texture's format as a numeric code.
    pub format: u32,
    pub width: u32,
    pub height: u32,
}

/// The key under which compiled pipelines are cached: a superset of the
/// batch key, adding the output target's format and whether a depth
/// attachment is bound.
#[derive(Clone, Debug)]
pub struct RenderPipelineInfo {
    pub vertex_layout: VertexLayoutInfo,
    pub shader: Shader,
    pub textures: Vec<TextureHandle>,
    pub output_format: u32,
    pub depth: bool,
    pub uniform_binding_ids: Vec<usize>,
    pub depth_class: BatchDepth,
}

/// Spec-level structural equality of two pipeline keys.
pub open spec fn pipeline_eq(a: RenderPipelineInfo, b: RenderPipelineInfo) -> bool {
    &&& layout_eq(a.vertex_layout, b.vertex_layout)
    &&& shader_eq(a.shader, b.shader)
    &&& a.textures@ == b.textures@
    &&& a.output_format == b.output_format
    &&& a.depth == b.depth
    &&& a.uniform_binding_ids@ == b.uniform_binding_ids@
    &&& a.depth_class == b.depth_class
}

impl RenderPipelineInfo {
    /// Decides spec-level pipeline-key equality.
    pub fn same_key(&self, other: &RenderPipelineInfo) -> (r: bool)
        ensures
            r == pipeline_eq(*self, *other),
    {
        self.vertex_layout.matches(&other.vertex_layout)
            && self.shader.same_shader(&other.shader)
            && usize_vec_eq(&self.textures, &other.textures)
            && self.output_format == other.output_format
            && self.depth == other.depth
            && usize_vec_eq(&self.uniform_binding_ids, &other.uniform_binding_ids)
            && self.depth_class == other.depth_class
    }
}

/// Index of the first cached key at or after position `i` that equals `key`.
pub open spec fn cache_lookup(
    keys: Seq<RenderPipelineInfo>,
    key: RenderPipelineInfo,
    i: int,
) -> Option<int>
    decreases keys.len() - i,
{
    if i < 0 || i >= keys.len() {
        None
    } else if pipeline_eq(keys[i], key) {
        Some(i)
    } else {
        cache_lookup(keys, key, i + 1)
    }
}

/// Law: once the cache holds an entry equal to a key, any later request for
/// an equal key finds an existing pipeline, so no second object is created.
pub proof fn lemma_pipeline_cache_hit(
    keys: Seq<RenderPipelineInfo>,
    j: int,
    key: RenderPipelineInfo,
)
    requires
        0 <= j < keys.len(),
        pipeline_eq(keys[j], key),
    ensures
        cache_lookup(keys, key, 0) is Some,
{
    lemma_cache_lookup_finds(keys, key, 0, j);
}

proof fn lemma_cache_lookup_finds(
    keys: Seq<RenderPipelineInfo>,
    key: RenderPipelineInfo,
    i: int,
    j: int,
)
    requires
        0 <= i <= j < keys.len(),
        pipeline_eq(keys[j], key),
    ensures
        cache_lookup(keys, key, i) is Some,
    decreases keys.len() - i,
{
    if !pipeline_eq(keys[i], key) {
        lemma_cache_lookup_finds(keys, key, i + 1, j);
    }
}

/// Law: keys that differ in output format or in the depth flag are never
/// equal, so each such combination gets its own pipeline object.
pub proof fn lemma_pipeline_keys_distinct(a: RenderPipelineInfo, b: RenderPipelineInfo)
    requires
        a.output_format != b.output_format || a.depth != b.depth,
    ensures
        !pipeline_eq(a, b),
{
}

/// The long-lived rendering state: the binding pool, the texture and shader
/// module registries, and the pipeline cache.  The GPU objects themselves —
/// buffers, bind groups, compiled modules and pipelines — are owned by the
/// embedding application in arrays parallel to these.
pub struct RenderingContext {
    /// The swap surface's format as a numeric code.
    pub swapchain_format: u32,
    /// Current surface size.
    pub surface_width: u32,
    pub surface_height: u32,
    /// Number of registered shader modules; handles are dense indices.
    pub shader_module_count: usize,
    /// The reusable binding pool; it only grows.
    pub uniform_bindings: Vec<UniformBindGroup>,
    /// The registered textures.
    pub textures: Vec<TextureInfo>,
    /// The pipeline cache: at most one entry per distinct key.
    pub render_pipelines: Vec<RenderPipelineInfo>,
}

impl RenderingContext {
    /// A fresh context for a surface of the given format and size, with
    /// empty pool, registries and cache.
    pub fn new(swapchain_format: u32, surface_size: (u32, u32)) -> (r: RenderingContext)
        ensures
            r.swapchain_format == swapchain_format,
            r.surface_width == surface_size.0,
            r.surface_height == surface_size.1,
            r.shader_module_count == 0,
            r.uniform_bindings@.len() == 0,
            r.textures@.len() == 0,
            r.render_pipelines@.len() == 0,
    {
        RenderingContext {
            swapchain_format,
            surface_width: surface_size.0,
            surface_height: surface_size.1,
            shader_module_count: 0,
            uniform_bindings: Vec::new(),
            textures: Vec::new(),
            render_pipelines: Vec::new(),
        }
    }

    /// Records the surface's new size after a resize; the embedding
    /// application reconfigures the surface to match.
    pub fn update_surface(&mut self, new_size: (u32, u32))
        ensures
            *final(self) == (RenderingContext {
                surface_width: new_size.0,
                surface_height: new_size.1,
                ..*old(self)
            }),
    {
        self.surface_width = new_size.0;
        self.surface_height = new_size.1;
    }

    /// Registers one compiled shader module and returns its stable handle.
    pub fn register_shader_module(&mut self) -> (h: usize)
        requires
            old(self).shader_module_count < usize::MAX,
        ensures
            h == old(self).shader_module_count,
            *final(self) == (RenderingContext {
                shader_module_count: (old(self).shader_module_count + 1) as usize,
                ..*old(self)
            }),
    {
        let h = self.shader_module_count;
        self.shader_module_count = self.shader_module_count + 1;
        h
    }

    /// Registers one texture and returns its handle: the next dense index.
    pub fn register_texture(&mut self, info: TextureInfo) -> (h: usize)
        ensures
            h == old(self).textures@.len(),
            final(self).textures@ == old(self).textures@.push(info),
            final(self).swapchain_format == old(self).swapchain_format,
            final(self).surface_width == old(self).surface_width,
            final(self).surface_height == old(self).surface_height,
            final(self).shader_module_count == old(self).shader_module_count,
            final(self).uniform_bindings == old(self).uniform_bindings,
            final(self).render_pipelines == old(self).render_pipelines,
    {
        let h = self.textures.len();
        self.textures.push(info);
        h
    }

    /// Serves every payload of a frame out of the binding pool, growing the
    /// pool where no eligible binding is free; see
    /// [`crate::uniform::allocate_bindings`] for the allocation order and
    /// the guarantees.
    pub fn find_or_create_uniform_bindings(&mut self, uniforms: &[Uniform]) -> (r: Vec<
        (usize, usize),
    >)
        ensures
            r@ == alloc_model(old(self).uniform_bindings@, uniforms@).0,
            final(self).uniform_bindings@ == alloc_model(
                old(self).uniform_bindings@,
                uniforms@,
            ).1,
            final(self).textures == old(self).textures,
            final(self).render_pipelines == old(self).render_pipelines,
            final(self).shader_module_count == old(self).shader_module_count,
            final(self).swapchain_format == old(self).swapchain_format,
            final(self).surface_width == old(self).surface_width,
            final(self).surface_height == old(self).surface_height,
            r@.len() == uniforms@.len(),
            ({
                let pool1 = final(self).uniform_bindings@;
                forall|t: int|
                    0 <= t < r@.len() ==> (#[trigger] r@[t].1 as int) < pool1.len() && (r@[t].0
                        as int) < uniforms@.len() && crate::uniform::covers(
                        pool1[r@[t].1 as int],
                        uniforms@[r@[t].0 as int],
                    )
            }),
            forall|i: usize|
                0 <= (i as int) < uniforms@.len() ==> #[trigger] crate::uniform::payload_assigned(
                    r@,
                    i,
                ),
    {
        crate::uniform::allocate_bindings(&mut self.uniform_bindings, uniforms)
    }

    /// Returns the handle of the cached pipeline equal to `info`, creating
    /// a cache entry when none exists yet.  The second component says
    /// whether an entry was created; exactly then must the embedding
    /// application compile the pipeline for the returned handle.  Creation
    /// is idempotent: a key equal to a cached one never creates.
    pub fn create_pipeline_if_doesnt_exist(&mut self, info: &RenderPipelineInfo) -> (r: (
        usize,
        bool,
    ))
        ensures
            final(self).swapchain_format == old(self).swapchain_format,
            final(self).surface_width == old(self).surface_width,
            final(self).surface_height == old(self).surface_height,
            final(self).shader_module_count == old(self).shader_module_count,
            final(self).uniform_bindings == old(self).uniform_bindings,
            final(self).textures == old(self).textures,
            ({
                let cache0 = old(self).render_pipelines@;
                let cache1 = final(self).render_pipelines@;
                match cache_lookup(cache0, *info, 0) {
                    Some(j) => r.0 == j && r.1 == false && cache1 == cache0,
                    None => {
                        &&& r.0 == cache0.len()
                        &&& r.1 == true
                        &&& cache1.len() == cache0.len() + 1
                        &&& forall|j: int| 0 <= j < cache0.len() ==> cache1[j] == cache0[j]
                        &&& pipeline_eq(cache1[cache0.len() as int], *info)
                    },
                }
            }),
            r.0 < final(self).render_pipelines@.len(),
            pipeline_eq(final(self).render_pipelines@[r.0 as int], *info),
    {
        let n = self.render_pipelines.len();
        let mut j: usize = 0;
        while j < n
            invariant
                j <= n,
                n == self.render_pipelines@.len(),
                cache_lookup(self.render_pipelines@, *info, 0) == cache_lookup(
                    self.render_pipelines@,
                    *info,
                    j as int,
                ),
            decreases n - j,
        {
            if self.render_pipelines[j].same_key(info) {
                return (j, false);
            }
            j += 1;
        }
        let key = RenderPipelineInfo {
            vertex_layout: info.vertex_layout.duplicate(),
            shader: info.shader.duplicate(),
            textures: copy_usizes(&info.textures),
            output_format: info.output_format,
            depth: info.depth,
            uniform_binding_ids: copy_usizes(&info.uniform_binding_ids),
            depth_class: info.depth_class,
        };
        self.render_pipelines.push(key);
        (n, true)
    }
}

/// One draw request: a mesh, the shader to draw it with, the textures it
/// samples and the positions of the uniform payloads it depends on, into
/// the frame's payload list.
pub struct DrawRequest {
    pub mesh: Mesh,
    pub shader: Shader,
    pub textures: Vec<TextureHandle>,
    pub uniform_ids: Vec<usize>,
}

/// The byte range of one request inside the shared vertex buffer and the
/// element range inside the shared index buffer (two bytes per element).
#[derive(Clone, Copy, PartialEq, Eq, Structural, Debug)]
pub struct BatchRange {
    pub vertex_start: usize,
    pub vertex_end: usize,
    pub index_start: usize,
    pub index_end: usize,
}

/// The shared vertex buffer after the first `n` requests: their vertex
/// bytes, concatenated in request order.
pub open spec fn concat_vertices(rs: Seq<DrawRequest>, n: int) -> Seq<u8>
    decreases n,
{
    if n <= 0 {
        Seq::empty()
    } else {
        concat_vertices(rs, n - 1) + rs[n - 1].mesh.vertices@
    }
}

/// The shared index buffer after the first `n` requests: their padded index
/// lists, concatenated in request order.
pub open spec fn concat_indices(rs: Seq<DrawRequest>, n: int) -> Seq<u16>
    decreases n,
{
    if n <= 0 {
        Seq::empty()
    } else {
        concat_indices(rs, n - 1) + padded_indices(rs[n - 1].mesh.indices@)
    }
}

fn append_bytes(dst: &mut Vec<u8>, src: &Vec<u8>)
    ensures
        final(dst)@ == old(dst)@ + src@,
{
    let n = src.len();
    let mut i: usize = 0;
    while i < n
        invariant
            i <= n,
            n == src@.len(),
            dst@.len() == old(dst)@.len() + i,
            forall|j: int| 0 <= j < old(dst)@.len() ==> (#[trigger] dst@[j]) == old(dst)@[j],
            forall|j: int|
                old(dst)@.len() <= j < dst@.len() ==> (#[trigger] dst@[j]) == src@[j - old(
                    dst,
                )@.len()],
        decreases n - i,
    {
        dst.push(src[i]);
        i += 1;
    }
    proof {
        assert(dst@ =~= old(dst)@ + src@);
    }
}

/// Appends `src`'s padded index list to `dst`.
fn append_padded_indices(dst: &mut Vec<u16>, src: &Vec<u16>)
    requires
        src@.len() + 3 <= usize::MAX,
    ensures
        final(dst)@ == old(dst)@ + padded_indices(src@),
{
    let mut tmp: Vec<u16> = Vec::new();
    let n = src.len();
    let mut i: usize = 0;
    while i < n
        invariant
            i <= n,
            n == src@.len(),
            tmp@.len() == i,
            forall|j: int| 0 <= j < i ==> (#[trigger] tmp@[j]) == src@[j],
        decreases n - i,
    {
        tmp.push(src[i]);
        i += 1;
    }
    proof {
        assert(tmp@ =~= src@);
    }
    crate::mesh::pad_indices(&mut tmp);
    dst.append(&mut tmp);
}

/// Packs the frame's requests into the shared buffers: pads each request's
/// index list to the copy alignment, then appends each request's data in
/// request order, handing back each request's ranges into both buffers.
pub fn pack_requests(requests: &Vec<DrawRequest>) -> (r: (Vec<u8>, Vec<u16>, Vec<BatchRange>))
    requires
        forall|i: int|
            0 <= i < requests@.len() ==> (#[trigger] requests@[i]).mesh.indices@.len() + 3
                <= usize::MAX,
    ensures
        r.0@ == concat_vertices(requests@, requests@.len() as int),
        r.1@ == concat_indices(requests@, requests@.len() as int),
        r.2@.len() == requests@.len(),
        forall|i: int|
            0 <= i < requests@.len() ==> {
                let rg = #[trigger] r.2@[i];
                &&& rg.vertex_start == concat_vertices(requests@, i).len()
                &&& rg.vertex_end == concat_vertices(requests@, i + 1).len()
                &&& rg.index_start == concat_indices(requests@, i).len()
                &&& rg.index_end == concat_indices(requests@, i + 1).len()
            },
{
    let n = requests.len();
    let mut verts: Vec<u8> = Vec::new();
    let mut idxs: Vec<u16> = Vec::new();
    let mut ranges: Vec<BatchRange> = Vec::new();
    let mut i: usize = 0;
    while i < n
        invariant
            i <= n,
            n == requests@.len(),
            forall|k: int|
                0 <= k < requests@.len() ==> (#[trigger] requests@[k]).mesh.indices@.len() + 3
                    <= usize::MAX,
            verts@ == concat_vertices(requests@, i as int),
            idxs@ == concat_indices(requests@, i as int),
            ranges@.len() == i,
            forall|k: int|
                0 <= k < i ==> {
                    let rg = #[trigger] ranges@[k];
                    &&& rg.vertex_start == concat_vertices(requests@, k).len()
                    &&& rg.vertex_end == concat_vertices(requests@, k + 1).len()
                    &&& rg.index_start == concat_indices(requests@, k).len()
                    &&& rg.index_end == concat_indices(requests@, k + 1).len()
                },
        decreases n - i,
    {
        let vertex_start = verts.len();
        let index_start = idxs.len();
        append_bytes(&mut verts, &requests[i].mesh.vertices);
        append_padded_indices(&mut idxs, &requests[i].mesh.indices);
        let vertex_end = verts.len();
        let index_end = idxs.len();
        ranges.push(BatchRange { vertex_start, vertex_end, index_start, index_end });
        i += 1;
    }
    (verts, idxs, ranges)
}

/// First assignment entry at or after position `t` whose payload is `id`.
pub open spec fn first_assignment_from(a: Seq<(usize, usize)>, id: usize, t: int) -> Option<int>
    decreases a.len() - t,
{
    if t < 0 || t >= a.len() {
        None
    } else if a[t].0 == id {
        Some(t)
    } else {
        first_assignment_from(a, id, t + 1)
    }
}

/// The binding assigned to payload `id` by the assignment list `a`.
pub open spec fn resolve_one(a: Seq<(usize, usize)>, id: usize) -> usize {
    match first_assignment_from(a, id, 0) {
        Some(t) => a[t].1,
        None => 0,
    }
}

/// A request's payload positions, resolved to binding indices.
pub open spec fn resolved_ids(a: Seq<(usize, usize)>, ids: Seq<usize>) -> Seq<usize> {
    ids.map_values(|id: usize| resolve_one(a, id))
}

proof fn lemma_first_assignment_exists(a: Seq<(usize, usize)>, id: usize, t: int)
    requires
        0 <= t <= a.len(),
        exists|k: int| t <= k < a.len() && (#[trigger] a[k]).0 == id,
    ensures
        first_assignment_from(a, id, t) is Some,
    decreases a.len() - t,
{
    if a[t].0 == id {
    } else {
        let k = choose|k: int| t <= k < a.len() && (#[trigger] a[k]).0 == id;
        assert(t + 1 <= k);
        lemma_first_assignment_exists(a, id, t + 1);
    }
}

/// Resolves each payload position in `ids` to its assigned binding: the
/// first assignment entry for that payload.
pub(crate) fn resolve_ids(a: &Vec<(usize, usize)>, ids: &Vec<usize>) -> (r: Vec<usize>)
    requires
        forall|k: int|
            0 <= k < ids@.len() ==> crate::uniform::payload_assigned(a@, #[trigger] ids@[k]),
    ensures
        r@ == resolved_ids(a@, ids@),
{
    let n = ids.len();
    let mut r: Vec<usize> = Vec::new();
    let mut k: usize = 0;
    while k < n
        invariant
            k <= n,
            n == ids@.len(),
            forall|m: int|
                0 <= m < ids@.len() ==> crate::uniform::payload_assigned(a@, #[trigger] ids@[m]),
            r@.len() == k,
            forall|m: int| 0 <= m < k ==> (#[trigger] r@[m]) == resolve_one(a@, ids@[m]),
        decreases n - k,
    {
        let id = ids[k];
        let an = a.len();
        let mut t: usize = 0;
        let mut value: usize = 0;
        let mut found: bool = false;
        while t < an && !found
            invariant
                t <= an,
                an == a@.len(),
                !found ==> first_assignment_from(a@, id, 0) == first_assignment_from(
                    a@,
                    id,
                    t as int,
                ),
                found ==> t > 0 && first_assignment_from(a@, id, 0) == Some(t - 1 as int) && value
                    == a@[t - 1 as int].1,
            decreases an - t, (if found { 0int } else { 1int }),
        {
            if a[t].0 == id {
                value = a[t].1;
                found = true;
            }
            t += 1;
        }
        if !found {
            proof {
                assert(crate::uniform::payload_assigned(a@, id));
                lemma_first_assignment_exists(a@, id, 0);
                assert(false);
            }
        }
        r.push(value);
        k += 1;
    }
    proof {
        assert(r@ =~= resolved_ids(a@, ids@));
    }
    r
}

/// Whether every handle a request names exists: each texture handle is a
/// registered texture, each payload position lies inside the frame's
/// payload list.
pub open spec fn request_valid(req: DrawRequest, texture_count: int, payload_count: int) -> bool {
    &&& forall|k: int|
        0 <= k < req.textures@.len() ==> (#[trigger] req.textures@[k] as int) < texture_count
    &&& forall|k: int|
        0 <= k < req.uniform_ids@.len() ==> (#[trigger] req.uniform_ids@[k] as int) < payload_count
}

/// Whether a frame's inputs name only existing resources.
pub open spec fn frame_inputs_valid(
    texture_count: int,
    payload_count: int,
    rs: Seq<DrawRequest>,
    output: usize,
    depth: Option<usize>,
) -> bool {
    &&& (output as int) < texture_count
    &&& match depth {
        Some(d) => (d as int) < texture_count,
        None => true,
    }
    &&& forall|i: int| 0 <= i < rs.len() ==> request_valid(#[trigger] rs[i], texture_count, payload_count)
}

fn check_request(req: &DrawRequest, texture_count: usize, payload_count: usize) -> (r: bool)
    ensures
        r == request_valid(*req, texture_count as int, payload_count as int),
{
    let nt = req.textures.len();
    let mut k: usize = 0;
    while k < nt
        invariant
            k <= nt,
            nt == req.textures@.len(),
            forall|m: int|
                0 <= m < k ==> (#[trigger] req.textures@[m] as int) < texture_count as int,
        decreases nt - k,
    {
        if req.textures[k] >= texture_count {
            return false;
        }
        k += 1;
    }
    let nu = req.uniform_ids.len();
    let mut m: usize = 0;
    while m < nu
        invariant
            m <= nu,
            nu == req.uniform_ids@.len(),
            forall|j: int|
                0 <= j < m ==> (#[trigger] req.uniform_ids@[j] as int) < payload_count as int,
        decreases nu - m,
    {
        if req.uniform_ids[m] >= payload_count {
            return false;
        }
        m += 1;
    }
    true
}

/// Whether a cached pipeline key is the one a request needs for the given
/// output format, depth flag and binding assignment.
pub open spec fn key_matches_request(
    p: RenderPipelineInfo,
    req: DrawRequest,
    output_format: u32,
    depth: bool,
    a: Seq<(usize, usize)>,
) -> bool {
    &&& layout_eq(p.vertex_layout, req.mesh.layout)
    &&& shader_eq(p.shader, req.shader)
    &&& p.textures@ == req.textures@
    &&& p.output_format == output_format
    &&& p.depth == depth
    &&& p.uniform_binding_ids@ == resolved_ids(a, req.uniform_ids@)
    &&& p.depth_class == crate::batch::depth_class_of(req.mesh)
}

/// One recorded draw: which request it came from, the pipeline to bind, the
/// bind groups in order (uniform bindings first, then textures), and the
/// request's ranges into the shared buffers.
pub struct DrawCall {
    pub request: usize,
    pub pipeline: usize,
    pub uniform_bindings: Vec<usize>,
    pub textures: Vec<TextureHandle>,
    pub vertex_start: usize,
    pub vertex_end: usize,
    pub index_start: usize,
    pub index_end: usize,
}

/// Whether some draw call came from request `i`.
pub open spec fn request_drawn(draws: Seq<DrawCall>, i: usize) -> bool {
    exists|t: int| 0 <= t < draws.len() && (#[trigger] draws[t]).request == i
}

/// Everything the embedding application replays against the GPU, in order:
/// create the bindings the pool gained, write each payload into its
/// binding, upload the two merged buffers, compile the pipelines the cache
/// gained, then record one render pass that issues the draw calls in order
/// and submit it.
pub struct FramePlan {
    /// `(payload position, binding index)` for every payload: write the
    /// payload's bytes into that binding's buffer.
    pub binding_updates: Vec<(usize, usize)>,
    /// Bindings at indices `created_bindings_from..` of the pool are new
    /// this frame and need their GPU objects created first.
    pub created_bindings_from: usize,
    /// The shared vertex buffer's content for this frame.
    pub merged_vertices: Vec<u8>,
    /// The shared index buffer's content for this frame.
    pub merged_indices: Vec<u16>,
    /// Pipelines at indices `created_pipelines_from..` of the cache are new
    /// this frame and need compiling before the pass is recorded.
    pub created_pipelines_from: usize,
    /// The frame's draw calls, one per non-empty batch, in request order.
    pub draws: Vec<DrawCall>,
    /// The texture the pass renders to.
    pub output: TextureHandle,
    /// The depth attachment, if any.
    pub depth: Option<TextureHandle>,
    /// Whether the color attachment is cleared before drawing (with the
    /// caller's clear color) or loaded.
    pub clear: bool,
    /// Whether the depth attachment is cleared to the farthest depth before
    /// drawing, or loaded.
    pub clear_depth: bool,
}

impl RenderingContext {
    /// Plans one frame over the given requests and uniform payloads: every
    /// payload is assigned a binding (the pool growing as needed), each
    /// request's mesh data is packed into the two shared buffers, each
    /// request's pipeline is ensured in the cache, and one draw call is
    /// laid out per non-empty batch, in request order.  Refused with
    /// `MissingResource`, changing nothing, exactly when a named texture
    /// or payload does not exist.
    pub fn plan_render(
        &mut self,
        requests: &Vec<DrawRequest>,
        uniforms: &[Uniform],
        output: TextureHandle,
        depth: Option<TextureHandle>,
        clear: bool,
        clear_depth: bool,
    ) -> (r: Result<FramePlan, RenderError>)
        requires
            forall|i: int|
                0 <= i < requests@.len() ==> (#[trigger] requests@[i]).mesh.indices@.len() + 3
                    <= usize::MAX,
        ensures
            r is Err <==> !frame_inputs_valid(
                old(self).textures@.len() as int,
                uniforms@.len() as int,
                requests@,
                output,
                depth,
            ),
            r is Err ==> r == Result::<FramePlan, RenderError>::Err(RenderError::MissingResource)
                && *final(self) == *old(self),
            r is Ok ==> ({
                let plan = r->Ok_0;
                let a = alloc_model(old(self).uniform_bindings@, uniforms@).0;
                let rs = requests@;
                let n = rs.len() as int;
                let fmt = old(self).textures@[output as int].format;
                let dflag = depth is Some;
                &&& final(self).uniform_bindings@ == alloc_model(
                    old(self).uniform_bindings@,
                    uniforms@,
                ).1
                &&& final(self).textures == old(self).textures
                &&& final(self).shader_module_count == old(self).shader_module_count
                &&& final(self).swapchain_format == old(self).swapchain_format
                &&& final(self).surface_width == old(self).surface_width
                &&& final(self).surface_height == old(self).surface_height
                &&& final(self).render_pipelines@.len() >= old(self).render_pipelines@.len()
                &&& ({
                    let cache0 = old(self).render_pipelines@;
                    let cache1 = final(self).render_pipelines@;
                    forall|j: int| 0 <= j < cache0.len() ==> cache1[j] == cache0[j]
                })
                &&& plan.binding_updates@ == a
                &&& plan.created_bindings_from == old(self).uniform_bindings@.len()
                &&& plan.merged_vertices@ == concat_vertices(rs, n)
                &&& plan.merged_indices@ == concat_indices(rs, n)
                &&& plan.created_pipelines_from == old(self).render_pipelines@.len()
                &&& plan.output == output
                &&& plan.depth == depth
                &&& plan.clear == clear
                &&& plan.clear_depth == clear_depth
                &&& forall|t: int|
                    0 <= t < plan.draws@.len() ==> {
                        let d = #[trigger] plan.draws@[t];
                        &&& (d.request as int) < n
                        &&& d.vertex_start == concat_vertices(rs, d.request as int).len()
                        &&& d.vertex_end == concat_vertices(rs, d.request as int + 1).len()
                        &&& d.index_start == concat_indices(rs, d.request as int).len()
                        &&& d.index_end == concat_indices(rs, d.request as int + 1).len()
                        &&& d.index_start != d.index_end
                        &&& d.uniform_bindings@ == resolved_ids(a, rs[d.request as int].uniform_ids@)
                        &&& d.textures@ == rs[d.request as int].textures@
                        &&& (d.pipeline as int) < final(self).render_pipelines@.len()
                        &&& key_matches_request(
                            final(self).render_pipelines@[d.pipeline as int],
                            rs[d.request as int],
                            fmt,
                            dflag,
                            a,
                        )
                    }
                &&& forall|t1: int, t2: int|
                    0 <= t1 < t2 < plan.draws@.len() ==> (#[trigger] plan.draws@[t1]).request < (
                    #[trigger] plan.draws@[t2]).request
                &&& forall|i: usize|
                    0 <= (i as int) < n && concat_indices(rs, i as int).len() != concat_indices(
                        rs,
                        i as int + 1,
                    ).len() ==> #[trigger] request_drawn(plan.draws@, i)
            }),
    {
        let texture_count = self.textures.len();
        let payload_count = uniforms.len();
        if output >= texture_count {
            return Err(RenderError::MissingResource);
        }
        match depth {
            Some(d) => {
                if d >= texture_count {
                    return Err(RenderError::MissingResource);
                }
            },
            None => {},
        }
        let nr = requests.len();
        let mut i: usize = 0;
        while i < nr
            invariant
                i <= nr,
                nr == requests@.len(),
                texture_count == self.textures@.len(),
                payload_count == uniforms@.len(),
                forall|k: int|
                    0 <= k < i ==> request_valid(
                        #[trigger] requests@[k],
                        texture_count as int,
                        payload_count as int,
                    ),
            decreases nr - i,
        {
            if !check_request(&requests[i], texture_count, payload_count) {
                return Err(RenderError::MissingResource);
            }
            i += 1;
        }
        let ghost pool0 = self.uniform_bindings@;
        let ghost cache0 = self.render_pipelines@;
        let ghost rs = requests@;
        let created_bindings_from = self.uniform_bindings.len();
        let created_pipelines_from = self.render_pipelines.len();
        let assignments = crate::uniform::allocate_bindings(&mut self.uniform_bindings, uniforms);
        let (merged_vertices, merged_indices, ranges) = pack_requests(requests);
        let output_format = self.textures[output].format;
        let depth_flag = match depth {
            Some(_) => true,
            None => false,
        };
        let mut draws: Vec<DrawCall> = Vec::new();
        let mut i: usize = 0;
        while i < nr
            invariant
                i <= nr,
                nr == rs.len(),
                rs == requests@,
                payload_count == uniforms@.len(),
                forall|k: int|
                    0 <= k < rs.len() ==> request_valid(
                        #[trigger] rs[k],
                        texture_count as int,
                        payload_count as int,
                    ),
                assignments@ == alloc_model(pool0, uniforms@).0,
                forall|id: usize|
                    0 <= (id as int) < payload_count ==> #[trigger] crate::uniform::payload_assigned(
                        assignments@,
                        id,
                    ),
                self.uniform_bindings@ == alloc_model(pool0, uniforms@).1,
                self.textures@ == old(self).textures@,
                self.textures == old(self).textures,
                self.shader_module_count == old(self).shader_module_count,
                self.swapchain_format == old(self).swapchain_format,
                self.surface_width == old(self).surface_width,
                self.surface_height == old(self).surface_height,
                texture_count == self.textures@.len(),
                output_format == self.textures@[output as int].format,
                (output as int) < self.textures@.len(),
                depth_flag == (depth is Some),
                self.render_pipelines@.len() >= cache0.len(),
                forall|j: int| 0 <= j < cache0.len() ==> self.render_pipelines@[j] == cache0[j],
                ranges@.len() == rs.len(),
                forall|k: int|
                    0 <= k < rs.len() ==> {
                        let rg = #[trigger] ranges@[k];
                        &&& rg.vertex_start == concat_vertices(rs, k).len()
                        &&& rg.vertex_end == concat_vertices(rs, k + 1).len()
                        &&& rg.index_start == concat_indices(rs, k).len()
                        &&& rg.index_end == concat_indices(rs, k + 1).len()
                    },
                forall|t: int|
                    0 <= t < draws@.len() ==> {
                        let d = #[trigger] draws@[t];
                        &&& (d.request as int) < i as int
                        &&& d.vertex_start == concat_vertices(rs, d.request as int).len()
                        &&& d.vertex_end == concat_vertices(rs, d.request as int + 1).len()
                        &&& d.index_start == concat_indices(rs, d.request as int).len()
                        &&& d.index_end == concat_indices(rs, d.request as int + 1).len()
                        &&& d.index_start != d.index_end
                        &&& d.uniform_bindings@ == resolved_ids(
                            assignments@,
                            rs[d.request as int].uniform_ids@,
                        )
                        &&& d.textures@ == rs[d.request as int].textures@
                        &&& (d.pipeline as int) < self.render_pipelines@.len()
                        &&& key_matches_request(
                            self.render_pipelines@[d.pipeline as int],
                            rs[d.request as int],
                            output_format,
                            depth_flag,
                            assignments@,
                        )
                    },
                forall|t1: int, t2: int|
                    0 <= t1 < t2 < draws@.len() ==> (#[trigger] draws@[t1]).request < (
                    #[trigger] draws@[t2]).request,
                forall|k: usize|
                    0 <= (k as int) < i as int && concat_indices(rs, k as int).len()
                        != concat_indices(rs, k as int + 1).len() ==> #[trigger] request_drawn(
                        draws@,
                        k,
                    ),
            decreases nr - i,
        {
            let req = &requests[i];
            let resolved = resolve_ids(&assignments, &req.uniform_ids);
            let resolved_for_draw = copy_usizes(&resolved);
            let key = RenderPipelineInfo {
                vertex_layout: req.mesh.layout.duplicate(),
                shader: req.shader.duplicate(),
                textures: copy_usizes(&req.textures),
                output_format,
                depth: depth_flag,
                uniform_binding_ids: resolved,
                depth_class: if req.mesh.could_be_transparent {
                    BatchDepth::Blended { depth: req.mesh.max_depth }
                } else {
                    BatchDepth::Opaque
                },
            };
            proof {
                assert(key_matches_request(key, rs[i as int], output_format, depth_flag, assignments@));
            }
            let ghost cache_before = self.render_pipelines@;
            let ghost draws_before = draws@;
            let (handle, _created) = self.create_pipeline_if_doesnt_exist(&key);
            proof {
                assert(forall|j: int|
                    0 <= j < cache_before.len() ==> self.render_pipelines@[j] == cache_before[j]);
            }
            let rg = ranges[i];
            if rg.index_start != rg.index_end {
                draws.push(
                    DrawCall {
                        request: i,
                        pipeline: handle,
                        uniform_bindings: resolved_for_draw,
                        textures: copy_usizes(&req.textures),
                        vertex_start: rg.vertex_start,
                        vertex_end: rg.vertex_end,
                        index_start: rg.index_start,
                        index_end: rg.index_end,
                    },
                );
                proof {
                    assert(forall|t: int|
                        0 <= t < draws_before.len() ==> draws@[t] == draws_before[t]);
                    assert(draws@[draws_before.len() as int].request == i);
                }
            }
            proof {
                assert forall|k: usize|
                    0 <= (k as int) < i as int + 1 && concat_indices(rs, k as int).len()
                        != concat_indices(rs, k as int + 1).len() implies #[trigger] request_drawn(
                    draws@,
                    k,
                ) by {
                    if (k as int) < i as int {
                        assert(request_drawn(draws_before, k));
                        let t = choose|t: int|
                            0 <= t < draws_before.len() && (#[trigger] draws_before[t]).request
                                == k;
                        assert(draws@[t].request == k);
                    } else {
                        assert(ranges@[i as int].index_start != ranges@[i as int].index_end);
                        assert(draws@[draws_before.len() as int].request == i);
                    }
                }
            }
            i += 1;
        }
        Ok(
            FramePlan {
                binding_updates: assignments,
                created_bindings_from,
                merged_vertices,
                merged_indices,
                created_pipelines_from,
                draws,
                output,
                depth,
                clear,
                clear_depth,
            },
        )
    }
}

/// The plan for presenting a texture to the surface: bind the cached
/// fullscreen pipeline, bind the texture, draw two triangles covering the
/// surface, submit and present.
pub struct DisplayPlan {
    /// The cached fullscreen pipeline's handle.
    pub pipeline: usize,
    /// Pipelines at indices `created_pipelines_from..` of the cache are new
    /// and need compiling before the pass is recorded.
    pub created_pipelines_from: usize,
    /// The texture drawn onto the surface.
    pub texture: TextureHandle,
}

/// Whether a cached pipeline key is the fullscreen-present key for the
/// given shader, texture and surface format: no vertex attributes, no
/// uniform bindings, no depth, the texture as the only bind group.
pub open spec fn key_matches_display(
    p: RenderPipelineInfo,
    shader: Shader,
    texture: TextureHandle,
    surface_format: u32,
) -> bool {
    &&& p.vertex_layout.array_stride == 0
    &&& p.vertex_layout.attributes@.len() == 0
    &&& p.vertex_layout.total_size == 0
    &&& shader_eq(p.shader, shader)
    &&& p.textures@ == seq![texture]
    &&& p.output_format == surface_format
    &&& p.depth == false
    &&& p.uniform_binding_ids@.len() == 0
    &&& p.depth_class == BatchDepth::Opaque
}

impl RenderingContext {
    /// Builds a shader from two registered module handles and the entry
    /// point names.
    pub fn load_shader(
        &self,
        vert_module: usize,
        vert_entry: String,
        frag_module: usize,
        frag_entry: String,
    ) -> (r: Shader)
        requires
            vert_module < self.shader_module_count,
            frag_module < self.shader_module_count,
        ensures
            r.modules == if vert_module == frag_module {
                crate::shader::ShaderModule::Single { module: vert_module }
            } else {
                crate::shader::ShaderModule::Separate {
                    vertex: vert_module,
                    fragment: frag_module,
                }
            },
            r.vert_entry == vert_entry,
            r.frag_entry == frag_entry,
    {
        Shader::new(vert_module, vert_entry, frag_module, frag_entry)
    }

    /// Plans the presentation of a texture to the surface: ensures the
    /// fullscreen pipeline (no vertex attributes, no uniforms, no depth,
    /// the surface's format) exists for the given shader, and names the
    /// texture to bind.  Refused with `MissingResource`, changing nothing,
    /// exactly when the texture does not exist.
    pub fn plan_display(&mut self, texture: TextureHandle, fullscreen_shader: &Shader) -> (r:
        Result<DisplayPlan, RenderError>)
        ensures
            r is Err <==> (texture as int) >= old(self).textures@.len(),
            r is Err ==> r == Result::<DisplayPlan, RenderError>::Err(RenderError::MissingResource)
                && *final(self) == *old(self),
            r is Ok ==> ({
                let plan = r->Ok_0;
                let cache0 = old(self).render_pipelines@;
                let cache1 = final(self).render_pipelines@;
                &&& final(self).uniform_bindings == old(self).uniform_bindings
                &&& final(self).textures == old(self).textures
                &&& final(self).shader_module_count == old(self).shader_module_count
                &&& final(self).swapchain_format == old(self).swapchain_format
                &&& final(self).surface_width == old(self).surface_width
                &&& final(self).surface_height == old(self).surface_height
                &&& cache1.len() >= cache0.len()
                &&& forall|j: int| 0 <= j < cache0.len() ==> cache1[j] == cache0[j]
                &&& plan.created_pipelines_from == cache0.len()
                &&& plan.texture == texture
                &&& (plan.pipeline as int) < cache1.len()
                &&& key_matches_display(
                    cache1[plan.pipeline as int],
                    *fullscreen_shader,
                    texture,
                    old(self).swapchain_format,
                )
            }),
    {
        if texture >= self.textures.len() {
            return Err(RenderError::MissingResource);
        }
        let created_pipelines_from = self.render_pipelines.len();
        let mut only_texture: Vec<TextureHandle> = Vec::new();
        only_texture.push(texture);
        let key = RenderPipelineInfo {
            vertex_layout: VertexLayoutInfo {
                array_stride: 0,
                step_mode: crate::mesh::VertexStepMode::Vertex,
                attributes: Vec::new(),
                total_size: 0,
            },
            shader: fullscreen_shader.duplicate(),
            textures: only_texture,
            output_format: self.swapchain_format,
            depth: false,
            uniform_binding_ids: Vec::new(),
            depth_class: BatchDepth::Opaque,
        };
        proof {
            assert(key.textures@ =~= seq![texture]);
        }
        let (handle, _created) = self.create_pipeline_if_doesnt_exist(&key);
        Ok(DisplayPlan { pipeline: handle, created_pipelines_from, texture })
    }
}

/// Builds a copy of a `usize` list with the same view.
pub(crate) fn copy_usizes(src: &Vec<usize>) -> (r: Vec<usize>)
    ensures
        r@ == src@,
{
    let n = src.len();
    let mut r: Vec<usize> = Vec::new();
    let mut i: usize = 0;
    while i < n
        invariant
            i <= n,
            n == src@.len(),
            r@.len() == i,
            forall|j: int| 0 <= j < i ==> (#[trigger] r@[j]) == src@[j],
        decreases n - i,
    {
        r.push(src[i]);
        i += 1;
    }
    proof {
        assert(r@ =~= src@);
    }
    r
}

} // verus!
