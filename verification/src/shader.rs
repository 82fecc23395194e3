//! Shader identity.
//!
//! A shader module is registered once with the rendering context and is
//! referred to by a stable opaque handle (a dense index).  A `Shader` pairs
//! the module handle(s) with the entry point names for the vertex and
//! fragment stages.  When both stages come from the same module the shader
//! records that fact structurally, so that pipeline keys can compare shader
//! identity without looking at source text.

use vstd::prelude::*;

verus! {

/// Handle of a compiled shader module, assigned at registration time.
pub type ModuleHandle = usize;

/// Which module(s) a shader draws its two stages from: one module shared by
/// both stages, or two distinct modules.
#[derive(Clone, Copy, PartialEq, Eq, Structural, Debug)]
pub enum ShaderModule {
    Single { module: ModuleHandle },
    Separate { vertex: ModuleHandle, fragment: ModuleHandle },
}

/// A shader: module identity plus the entry point of each stage.
#[derive(Clone, Debug)]
pub struct Shader {
    pub modules: ShaderModule,
    pub vert_entry: String,
    pub frag_entry: String,
}

/// Spec-level equality of two shaders: same module identity and the same
/// entry point names.
pub open spec fn shader_eq(a: Shader, b: Shader) -> bool {
    &&& a.modules == b.modules
    &&& a.vert_entry@ == b.vert_entry@
    &&& a.frag_entry@ == b.frag_entry@
}

impl Shader {
    /// Builds a shader from two module handles.  The two stages share a
    /// single module exactly when the handles are equal.
    pub fn new(
        vert_module: ModuleHandle,
        vert_entry: String,
        frag_module: ModuleHandle,
        frag_entry: String,
    ) -> (r: Shader)
        ensures
            r.modules == if vert_module == frag_module {
                ShaderModule::Single { module: vert_module }
            } else {
                ShaderModule::Separate { vertex: vert_module, fragment: frag_module }
            },
            r.vert_entry == vert_entry,
            r.frag_entry == frag_entry,
    {
        match vert_module == frag_module {
            true => Shader {
                modules: ShaderModule::Single { module: vert_module },
                vert_entry,
                frag_entry,
            },
            false => Shader {
                modules: ShaderModule::Separate { vertex: vert_module, fragment: frag_module },
                vert_entry,
                frag_entry,
            },
        }
    }

    /// Builds a copy of this shader that compares equal to it.
    pub fn duplicate(&self) -> (r: Shader)
        ensures
            shader_eq(r, *self),
    {
        Shader {
            modules: self.modules,
            vert_entry: self.vert_entry.clone(),
            frag_entry: self.frag_entry.clone(),
        }
    }

    /// Decides spec-level shader equality.
    pub fn same_shader(&self, other: &Shader) -> (r: bool)
        ensures
            r == shader_eq(*self, *other),
    {
        let modules_eq = match (self.modules, other.modules) {
            (ShaderModule::Single { module: a }, ShaderModule::Single { module: b }) => a == b,
            (
                ShaderModule::Separate { vertex: av, fragment: af },
                ShaderModule::Separate { vertex: bv, fragment: bf },
            ) => av == bv && af == bf,
            _ => false,
        };
        modules_eq && self.vert_entry == other.vert_entry && self.frag_entry == other.frag_entry
    }
}

} // verus!
