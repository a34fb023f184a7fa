//! Float-free core of a terminal renderer for triangle meshes: the
//! Wavefront OBJ reader, the grouping of face corners into triangles, the
//! brightness-to-glyph shading table and the interactive viewer's state
//! machine. The floating-point geometry (projection, rotation, lighting)
//! is the caller's.
mod args;
pub mod loader;
pub mod obj;
pub mod shading;
pub mod viewer;

pub use args::Args;
pub use loader::{check_extension, check_obj_path, LoadError};
pub use obj::{group_triangles, parse_obj, resolve_faces, ObjEntry};
pub use shading::glyph_for_brightness;
pub use viewer::{Action, Axis, Command, Event, Turn, Viewer};
