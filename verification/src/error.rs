use vstd::prelude::*;

verus! {

/// All possible errors of the core.
///
/// Each variant stands for one failure class of the graphics backend the
/// shell drives: allocating a render target, building the full-screen
/// quad, compiling a shader program, running a pipeline pass, or touching
/// a texture. The core itself fails only where a request is invalid on
/// its face (for example a zero-sized grid, reported as a framebuffer
/// error, or an out-of-range texel write, reported as a texture error);
/// the shell maps backend failures onto the remaining variants.
#[derive(Clone, Copy, Debug, PartialEq, Eq, Structural)]
pub enum CoreError {
    FramebufferError,
    TessError,
    ProgramError,
    PipelineError,
    TextureError,
}

impl CoreError {
    /// A short description of the error, one fixed text per variant.
    pub fn message(&self) -> (r: &'static str)
        ensures
            *self == CoreError::FramebufferError ==> r@ == "framebuffer error"@,
            *self == CoreError::TessError ==> r@ == "tessellation error"@,
            *self == CoreError::ProgramError ==> r@ == "shader program error"@,
            *self == CoreError::PipelineError ==> r@ == "pipeline error"@,
            *self == CoreError::TextureError ==> r@ == "texture error"@,
    {
        match *self {
            CoreError::FramebufferError => "framebuffer error",
            CoreError::TessError => "tessellation error",
            CoreError::ProgramError => "shader program error",
            CoreError::PipelineError => "pipeline error",
            CoreError::TextureError => "texture error",
        }
    }
}

} // verus!
