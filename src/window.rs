//! What the current state asks of the window, and shader stages.
use vstd::prelude::*;

verus! {

#[derive(Debug, Clone)]
pub struct WindowFlags {
    pub grab_cursor: bool,
    pub window_title: String,
}

/// Shader stage of a GLSL source.
#[derive(Debug, Clone, Copy, PartialEq, Eq, Structural)]
pub enum ShaderStage {
    Vertex,
    Fragment,
}

} // verus!
