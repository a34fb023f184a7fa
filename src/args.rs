use vstd::prelude::*;

verus! {

/// Command-line arguments of the renderer.
#[derive(Clone, Debug, PartialEq, Eq, Default)]
pub struct Args {
    /// Path of the Wavefront OBJ file to render.
    pub file_path: String,
}

} // verus!
