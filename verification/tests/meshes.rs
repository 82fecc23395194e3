use indigo::error::RenderError;
use indigo::mesh::{
    pad_indices, Mesh, VertexAttribute, VertexField, VertexLayoutInfo, VertexStepMode,
};

fn byte_layout() -> VertexLayoutInfo {
    VertexLayoutInfo {
        array_stride: 1,
        step_mode: VertexStepMode::Vertex,
        attributes: vec![VertexAttribute { offset: 0, shader_location: 0, format: 1 }],
        total_size: 1,
    }
}

fn byte_mesh(vertices: Vec<u8>, indices: Vec<u16>) -> Mesh {
    Mesh { vertices, indices, layout: byte_layout(), could_be_transparent: false, max_depth: 0 }
}

#[test]
fn merge_rebases_and_bridges() {
    // A and B each hold 3 one-byte vertices with indices [0, 1, 2].
    let mut a = byte_mesh(vec![10, 11, 12], vec![0, 1, 2]);
    let mut b = byte_mesh(vec![20, 21, 22], vec![0, 1, 2]);
    a.merge(&mut b).unwrap();

    // B's indices become [3, 4, 5]; the bridge adds three more entries.
    assert_eq!(a.indices, vec![0, 1, 2, 2, 2, 5, 3, 4, 5]);
    assert_eq!(a.vertices, vec![10, 11, 12, 20, 21, 22]);
    assert!(b.vertices.is_empty());
    assert!(b.indices.is_empty());
}

#[test]
fn merge_refuses_layout_mismatch() {
    let mut a = byte_mesh(vec![1], vec![0]);
    let mut b = byte_mesh(vec![2], vec![0]);
    b.layout.array_stride = 2;
    b.layout.total_size = 2;
    let before_a = a.indices.clone();
    assert_eq!(a.merge(&mut b), Err(RenderError::LayoutMismatch));
    assert_eq!(a.indices, before_a);
    assert_eq!(b.vertices, vec![2]);
}

#[test]
fn merge_with_empty_side_adds_no_bridge() {
    let mut a = byte_mesh(vec![1, 2], vec![0, 1]);
    let mut b = byte_mesh(vec![], vec![]);
    a.merge(&mut b).unwrap();
    assert_eq!(a.indices, vec![0, 1]);

    let mut c = byte_mesh(vec![], vec![]);
    let mut d = byte_mesh(vec![3, 4], vec![0, 1]);
    c.merge(&mut d).unwrap();
    assert_eq!(c.indices, vec![0, 1]);
    assert_eq!(c.vertices, vec![3, 4]);
}

#[test]
fn merge_combines_transparency_and_depth() {
    let mut a = byte_mesh(vec![1], vec![0]);
    let mut b = byte_mesh(vec![2], vec![0]);
    b.could_be_transparent = true;
    b.max_depth = 9;
    a.max_depth = 4;
    a.merge(&mut b).unwrap();
    assert!(a.could_be_transparent);
    assert_eq!(a.max_depth, 9);
}

#[test]
fn padding_reaches_multiple_of_four_for_odd_lengths() {
    for len in [1usize, 2, 3, 5, 6, 7, 9] {
        let mut indices: Vec<u16> = (0..len as u16).collect();
        let original = indices.clone();
        pad_indices(&mut indices);
        assert_eq!(indices.len() % 4, 0);
        assert!(indices.len() < original.len() + 4);
        // Content is never changed, only the count grows.
        assert_eq!(&indices[..original.len()], &original[..]);
        let last = *original.last().unwrap();
        assert!(indices[original.len()..].iter().all(|i| *i == last));
    }
}

#[test]
fn padding_leaves_aligned_lengths_alone() {
    let mut empty: Vec<u16> = vec![];
    pad_indices(&mut empty);
    assert!(empty.is_empty());

    let mut four = vec![5u16, 6, 7, 5];
    pad_indices(&mut four);
    assert_eq!(four, vec![5, 6, 7, 5]);
}

#[test]
fn vertex_layout_offsets_are_prefix_sums() {
    let fields = vec![
        VertexField { format: 30, size: 12 },
        VertexField { format: 31, size: 8 },
        VertexField { format: 32, size: 4 },
    ];
    let layout = VertexLayoutInfo::from_vertex(&fields);
    assert_eq!(layout.array_stride, 24);
    assert_eq!(layout.total_size, 24);
    assert_eq!(layout.attributes.len(), 3);
    assert_eq!(layout.attributes[0], VertexAttribute { offset: 0, shader_location: 0, format: 30 });
    assert_eq!(layout.attributes[1], VertexAttribute { offset: 12, shader_location: 1, format: 31 });
    assert_eq!(layout.attributes[2], VertexAttribute { offset: 20, shader_location: 2, format: 32 });
}

#[test]
fn layout_equality_is_structural() {
    let a = byte_layout();
    let b = a.duplicate();
    assert!(a.matches(&b));
    let mut c = a.duplicate();
    c.attributes[0].format = 2;
    assert!(!a.matches(&c));
}

#[test]
fn error_descriptions() {
    assert_eq!(RenderError::SurfaceUnavailable.describe(), "surface unavailable");
    assert_eq!(RenderError::MissingResource.describe(), "missing resource");
    assert_eq!(RenderError::LayoutMismatch.describe(), "vertex layout mismatch");
}
