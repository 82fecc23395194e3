use indigo::batch::{BatchDepth, BatchInfo};
use indigo::mesh::{Mesh, VertexAttribute, VertexLayoutInfo, VertexStepMode};
use indigo::shader::{Shader, ShaderModule};

fn layout() -> VertexLayoutInfo {
    VertexLayoutInfo {
        array_stride: 4,
        step_mode: VertexStepMode::Vertex,
        attributes: vec![VertexAttribute { offset: 0, shader_location: 0, format: 3 }],
        total_size: 4,
    }
}

fn mesh(transparent: bool, max_depth: u32) -> Mesh {
    Mesh {
        vertices: vec![0; 12],
        indices: vec![0, 1, 2],
        layout: layout(),
        could_be_transparent: transparent,
        max_depth,
    }
}

fn shader() -> Shader {
    Shader::new(0, "vs".to_string(), 0, "fs".to_string())
}

#[test]
fn shader_single_module_when_handles_equal() {
    let s = Shader::new(2, "vs".to_string(), 2, "fs".to_string());
    assert_eq!(s.modules, ShaderModule::Single { module: 2 });
    let t = Shader::new(2, "vs".to_string(), 3, "fs".to_string());
    assert_eq!(t.modules, ShaderModule::Separate { vertex: 2, fragment: 3 });
}

#[test]
fn opaque_requests_share_key_despite_depth() {
    // Identical layout, shader, textures and uniforms; different depths.
    let a = BatchInfo::new(&mesh(false, 1), shader(), vec![0], vec![0, 1]);
    let b = BatchInfo::new(&mesh(false, 200), shader(), vec![0], vec![0, 1]);
    assert_eq!(a.depth_class, BatchDepth::Opaque);
    assert!(a.same_key(&b));
}

#[test]
fn blended_requests_with_differing_depth_split() {
    let a = BatchInfo::new(&mesh(true, 1), shader(), vec![0], vec![0, 1]);
    let b = BatchInfo::new(&mesh(true, 2), shader(), vec![0], vec![0, 1]);
    assert_eq!(a.depth_class, BatchDepth::Blended { depth: 1 });
    assert!(!a.same_key(&b));
}

#[test]
fn blended_requests_with_equal_depth_share_key() {
    let a = BatchInfo::new(&mesh(true, 5), shader(), vec![1, 2], vec![3]);
    let b = BatchInfo::new(&mesh(true, 5), shader(), vec![1, 2], vec![3]);
    assert!(a.same_key(&b));
}

#[test]
fn key_sensitive_to_each_field() {
    let base = BatchInfo::new(&mesh(false, 0), shader(), vec![0], vec![1]);

    let other_shader = BatchInfo::new(
        &mesh(false, 0),
        Shader::new(1, "vs".to_string(), 1, "fs".to_string()),
        vec![0],
        vec![1],
    );
    assert!(!base.same_key(&other_shader));

    let other_entry = BatchInfo::new(
        &mesh(false, 0),
        Shader::new(0, "main".to_string(), 0, "fs".to_string()),
        vec![0],
        vec![1],
    );
    assert!(!base.same_key(&other_entry));

    let other_textures = BatchInfo::new(&mesh(false, 0), shader(), vec![0, 1], vec![1]);
    assert!(!base.same_key(&other_textures));

    let other_uniforms = BatchInfo::new(&mesh(false, 0), shader(), vec![0], vec![2]);
    assert!(!base.same_key(&other_uniforms));

    let mut narrow = mesh(false, 0);
    narrow.layout.array_stride = 8;
    let other_layout = BatchInfo::new(&narrow, shader(), vec![0], vec![1]);
    assert!(!base.same_key(&other_layout));

    let transparent = BatchInfo::new(&mesh(true, 0), shader(), vec![0], vec![1]);
    assert!(!base.same_key(&transparent));
}
