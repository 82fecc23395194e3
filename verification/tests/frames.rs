use indigo::error::RenderError;
use indigo::mesh::{Mesh, VertexAttribute, VertexLayoutInfo, VertexStepMode};
use indigo::renderer::{DrawRequest, RenderPipelineInfo, RenderingContext, TextureInfo};
use indigo::shader::Shader;
use indigo::uniform::Uniform;

fn layout() -> VertexLayoutInfo {
    VertexLayoutInfo {
        array_stride: 1,
        step_mode: VertexStepMode::Vertex,
        attributes: vec![VertexAttribute { offset: 0, shader_location: 0, format: 1 }],
        total_size: 1,
    }
}

fn mesh(vertices: Vec<u8>, indices: Vec<u16>) -> Mesh {
    Mesh { vertices, indices, layout: layout(), could_be_transparent: false, max_depth: 0 }
}

fn shader() -> Shader {
    Shader::new(0, "vs".to_string(), 0, "fs".to_string())
}

fn request(vertices: Vec<u8>, indices: Vec<u16>, textures: Vec<usize>, uniforms: Vec<usize>) -> DrawRequest {
    DrawRequest { mesh: mesh(vertices, indices), shader: shader(), textures, uniform_ids: uniforms }
}

fn context_with_textures(n: usize) -> RenderingContext {
    let mut ctx = RenderingContext::new(7, (640, 480));
    for k in 0..n {
        let h = ctx.register_texture(TextureInfo { format: 20, width: 64, height: 64 });
        assert_eq!(h, k);
    }
    ctx
}

#[test]
fn pipeline_cache_creates_one_object_per_key() {
    let mut ctx = context_with_textures(1);
    let key = RenderPipelineInfo {
        vertex_layout: layout(),
        shader: shader(),
        textures: vec![0],
        output_format: 20,
        depth: false,
        uniform_binding_ids: vec![],
        depth_class: indigo::batch::BatchDepth::Opaque,
    };
    let (h1, created1) = ctx.create_pipeline_if_doesnt_exist(&key);
    assert!(created1);
    let (h2, created2) = ctx.create_pipeline_if_doesnt_exist(&key);
    assert!(!created2);
    assert_eq!(h1, h2);
    assert_eq!(ctx.render_pipelines.len(), 1);
}

#[test]
fn pipeline_cache_splits_on_format_and_depth() {
    let mut ctx = context_with_textures(1);
    let base = RenderPipelineInfo {
        vertex_layout: layout(),
        shader: shader(),
        textures: vec![0],
        output_format: 20,
        depth: false,
        uniform_binding_ids: vec![],
        depth_class: indigo::batch::BatchDepth::Opaque,
    };
    let (h1, _) = ctx.create_pipeline_if_doesnt_exist(&base);

    let mut other_format = RenderPipelineInfo {
        vertex_layout: layout(),
        shader: shader(),
        textures: vec![0],
        output_format: 21,
        depth: false,
        uniform_binding_ids: vec![],
        depth_class: indigo::batch::BatchDepth::Opaque,
    };
    let (h2, created2) = ctx.create_pipeline_if_doesnt_exist(&other_format);
    assert!(created2);
    assert_ne!(h1, h2);

    other_format.output_format = 20;
    other_format.depth = true;
    let (h3, created3) = ctx.create_pipeline_if_doesnt_exist(&other_format);
    assert!(created3);
    assert_ne!(h1, h3);
    assert_ne!(h2, h3);
    assert_eq!(ctx.render_pipelines.len(), 3);
}

#[test]
fn plan_skips_empty_batches() {
    let mut ctx = context_with_textures(1);
    let requests = vec![
        request(vec![1, 2, 3], vec![0, 1, 2], vec![], vec![]),
        request(vec![], vec![], vec![], vec![]),
        request(vec![4, 5], vec![0, 1], vec![], vec![]),
    ];
    let plan = ctx.plan_render(&requests, &[], 0, None, true, false).unwrap();
    // The middle batch has equal start and end offsets: no draw call.
    assert_eq!(plan.draws.len(), 2);
    assert_eq!(plan.draws[0].request, 0);
    assert_eq!(plan.draws[1].request, 2);
    for d in &plan.draws {
        assert_ne!(d.index_start, d.index_end);
    }
}

#[test]
fn plan_computes_contiguous_offsets() {
    let mut ctx = context_with_textures(1);
    let requests = vec![
        request(vec![1, 2, 3], vec![0, 1, 2], vec![], vec![]),
        request(vec![4, 5], vec![0, 1], vec![], vec![]),
    ];
    let plan = ctx.plan_render(&requests, &[], 0, None, false, false).unwrap();
    // Indices pad to 4 entries each; offsets are element counts.
    assert_eq!(plan.merged_vertices, vec![1, 2, 3, 4, 5]);
    assert_eq!(plan.merged_indices, vec![0, 1, 2, 2, 0, 1, 1, 1]);
    assert_eq!(plan.draws.len(), 2);
    assert_eq!((plan.draws[0].vertex_start, plan.draws[0].vertex_end), (0, 3));
    assert_eq!((plan.draws[1].vertex_start, plan.draws[1].vertex_end), (3, 5));
    assert_eq!((plan.draws[0].index_start, plan.draws[0].index_end), (0, 4));
    assert_eq!((plan.draws[1].index_start, plan.draws[1].index_end), (4, 8));
}

#[test]
fn plan_resolves_uniform_bindings() {
    let mut ctx = context_with_textures(1);
    let uniforms = vec![
        Uniform { data: vec![0; 4], stages: 3, dynamic: None },
        Uniform { data: vec![0; 16], stages: 3, dynamic: None },
    ];
    let requests = vec![request(vec![1], vec![0], vec![], vec![0, 1])];
    let plan = ctx.plan_render(&requests, &uniforms, 0, None, false, false).unwrap();
    assert_eq!(plan.created_bindings_from, 0);
    assert_eq!(ctx.uniform_bindings.len(), 2);
    assert_eq!(plan.binding_updates.len(), 2);
    // The draw's bind list resolves payload positions through the frame's
    // assignment: payload 1 (16 bytes) took binding 0, payload 0 binding 1.
    assert_eq!(plan.draws[0].uniform_bindings, vec![1, 0]);
}

#[test]
fn plan_refuses_missing_output() {
    let mut ctx = context_with_textures(1);
    let r = ctx.plan_render(&vec![], &[], 3, None, false, false);
    assert_eq!(r.err(), Some(RenderError::MissingResource));
}

#[test]
fn plan_refuses_missing_depth_texture() {
    let mut ctx = context_with_textures(1);
    let r = ctx.plan_render(&vec![], &[], 0, Some(9), false, false);
    assert_eq!(r.err(), Some(RenderError::MissingResource));
}

#[test]
fn plan_refuses_missing_request_resources() {
    let mut ctx = context_with_textures(2);
    let bad_texture = vec![request(vec![1], vec![0], vec![5], vec![])];
    assert_eq!(
        ctx.plan_render(&bad_texture, &[], 0, None, false, false).err(),
        Some(RenderError::MissingResource)
    );
    let bad_uniform = vec![request(vec![1], vec![0], vec![1], vec![2])];
    let uniforms = vec![Uniform { data: vec![0; 4], stages: 1, dynamic: None }];
    assert_eq!(
        ctx.plan_render(&bad_uniform, &uniforms, 0, None, false, false).err(),
        Some(RenderError::MissingResource)
    );
}

#[test]
fn plan_records_pass_settings() {
    let mut ctx = context_with_textures(3);
    let plan = ctx.plan_render(&vec![], &[], 1, Some(2), true, true).unwrap();
    assert_eq!(plan.output, 1);
    assert_eq!(plan.depth, Some(2));
    assert!(plan.clear);
    assert!(plan.clear_depth);
    assert!(plan.draws.is_empty());
}

#[test]
fn display_plan_caches_fullscreen_pipeline() {
    let mut ctx = context_with_textures(1);
    let fullscreen = shader();
    let first = ctx.plan_display(0, &fullscreen).unwrap();
    assert_eq!(ctx.render_pipelines.len(), 1);
    assert_eq!(first.texture, 0);
    let second = ctx.plan_display(0, &fullscreen).unwrap();
    assert_eq!(ctx.render_pipelines.len(), 1);
    assert_eq!(second.pipeline, first.pipeline);
}

#[test]
fn display_plan_refuses_missing_texture() {
    let mut ctx = context_with_textures(1);
    let r = ctx.plan_display(4, &shader());
    assert_eq!(r.err(), Some(RenderError::MissingResource));
}

#[test]
fn surface_update_and_registries() {
    let mut ctx = RenderingContext::new(9, (100, 100));
    ctx.update_surface((256, 128));
    assert_eq!((ctx.surface_width, ctx.surface_height), (256, 128));
    let m0 = ctx.register_shader_module();
    let m1 = ctx.register_shader_module();
    assert_eq!((m0, m1), (0, 1));
    let s = ctx.load_shader(m0, "vs".to_string(), m1, "fs".to_string());
    assert_eq!(
        s.modules,
        indigo::shader::ShaderModule::Separate { vertex: 0, fragment: 1 }
    );
}
