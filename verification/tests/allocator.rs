use indigo::renderer::RenderingContext;
use indigo::uniform::{DynamicInfo, Uniform, UniformBindGroup};

fn static_payload(bytes: usize) -> Uniform {
    Uniform { data: vec![0u8; bytes], stages: 3, dynamic: None }
}

fn dynamic_payload(bytes: usize, min_size: u64, max_size: u64) -> Uniform {
    Uniform { data: vec![0u8; bytes], stages: 3, dynamic: Some(DynamicInfo { min_size, max_size }) }
}

fn fresh_context() -> RenderingContext {
    RenderingContext::new(7, (800, 600))
}

#[test]
fn allocator_creates_exact_bindings() {
    let mut ctx = fresh_context();
    let uniforms = vec![static_payload(4), static_payload(16)];
    let assignment = ctx.find_or_create_uniform_bindings(&uniforms);

    // Largest payload is served first and takes the first new binding.
    assert_eq!(assignment, vec![(1, 0), (0, 1)]);
    assert_eq!(ctx.uniform_bindings.len(), 2);
    assert_eq!(ctx.uniform_bindings[0], UniformBindGroup { min_size: 16, max_size: 16 });
    assert_eq!(ctx.uniform_bindings[1], UniformBindGroup { min_size: 4, max_size: 4 });
}

#[test]
fn allocator_never_fails_on_any_payload_set() {
    let mut ctx = fresh_context();
    let uniforms = vec![
        static_payload(0),
        static_payload(1),
        dynamic_payload(2, 0, 1024),
        static_payload(65536),
        dynamic_payload(512, 512, 512),
    ];
    let assignment = ctx.find_or_create_uniform_bindings(&uniforms);
    assert_eq!(assignment.len(), uniforms.len());
    // Every payload appears exactly once and its binding covers its range.
    let mut seen = vec![false; uniforms.len()];
    for (payload, binding) in assignment.iter().copied() {
        assert!(!seen[payload]);
        seen[payload] = true;
        let b = ctx.uniform_bindings[binding];
        let (need_min, need_max) = match uniforms[payload].dynamic {
            Some(DynamicInfo { min_size, max_size }) => (min_size, max_size),
            None => (uniforms[payload].data.len() as u64, uniforms[payload].data.len() as u64),
        };
        assert!(b.min_size <= need_min && b.max_size >= need_max);
    }
    assert!(seen.iter().all(|s| *s));
}

#[test]
fn allocator_reuses_pool_on_identical_second_frame() {
    let mut ctx = fresh_context();
    let uniforms = vec![static_payload(8), static_payload(8), dynamic_payload(4, 2, 64)];
    let first = ctx.find_or_create_uniform_bindings(&uniforms);
    let pool_after_first = ctx.uniform_bindings.clone();
    let second = ctx.find_or_create_uniform_bindings(&uniforms);
    assert_eq!(ctx.uniform_bindings, pool_after_first);
    assert_eq!(second, first);
}

#[test]
fn allocator_reuses_pool_when_only_sizes_match() {
    let mut ctx = fresh_context();
    let first_frame = vec![static_payload(8), dynamic_payload(4, 2, 64)];
    ctx.find_or_create_uniform_bindings(&first_frame);
    let pool_after_first = ctx.uniform_bindings.clone();
    // Same sizes and ranges, different content bytes.
    let second_frame = vec![
        Uniform { data: vec![9u8; 8], stages: 1, dynamic: None },
        Uniform { data: vec![7u8; 4], stages: 1, dynamic: Some(DynamicInfo { min_size: 2, max_size: 64 }) },
    ];
    ctx.find_or_create_uniform_bindings(&second_frame);
    assert_eq!(ctx.uniform_bindings, pool_after_first);
}

#[test]
fn allocator_distinct_bindings_within_frame() {
    let mut ctx = fresh_context();
    let uniforms = vec![static_payload(8), static_payload(8), static_payload(8)];
    let assignment = ctx.find_or_create_uniform_bindings(&uniforms);
    let mut bindings: Vec<usize> = assignment.iter().map(|p| p.1).collect();
    bindings.sort();
    bindings.dedup();
    assert_eq!(bindings.len(), 3);
    assert_eq!(ctx.uniform_bindings.len(), 3);
}

#[test]
fn allocator_dynamic_binding_serves_static_payload_in_range() {
    let mut ctx = fresh_context();
    ctx.find_or_create_uniform_bindings(&vec![dynamic_payload(10, 8, 32)]);
    assert_eq!(ctx.uniform_bindings, vec![UniformBindGroup { min_size: 8, max_size: 32 }]);
    // A static payload of 16 bytes fits inside [8, 32]: no growth.
    ctx.find_or_create_uniform_bindings(&vec![static_payload(16)]);
    assert_eq!(ctx.uniform_bindings.len(), 1);
    // One of 40 bytes does not: a new exact binding appears.
    ctx.find_or_create_uniform_bindings(&vec![static_payload(40)]);
    assert_eq!(ctx.uniform_bindings.len(), 2);
    assert_eq!(ctx.uniform_bindings[1], UniformBindGroup { min_size: 40, max_size: 40 });
}

#[test]
fn allocator_empty_frame_changes_nothing() {
    let mut ctx = fresh_context();
    let assignment = ctx.find_or_create_uniform_bindings(&vec![]);
    assert!(assignment.is_empty());
    assert!(ctx.uniform_bindings.is_empty());
}

#[test]
fn binding_descriptor_matches_payload_range() {
    let b = UniformBindGroup::for_uniform(&static_payload(5));
    assert_eq!(b, UniformBindGroup { min_size: 5, max_size: 5 });
    let d = UniformBindGroup::for_uniform(&dynamic_payload(1, 3, 9));
    assert_eq!(d, UniformBindGroup { min_size: 3, max_size: 9 });
    assert!(d.accepts(&static_payload(4)));
    assert!(!d.accepts(&static_payload(2)));
    assert!(!d.accepts(&static_payload(10)));
}
