use vstd::prelude::*;
use vstd::string::StringExecFns;

verus! {

/// Why a mesh file could not be loaded.
#[derive(Clone, Copy, Debug, PartialEq, Eq)]
pub enum LoadError {
    /// The path does not carry the `obj` extension.
    NotObjFile,
    /// The file could not be read.
    Unreadable,
}

impl LoadError {
    /// The message shown to the user for this error.
    pub fn message(&self) -> (m: String)
        ensures
            m@ == match self {
                LoadError::NotObjFile => "Your file is not an OBJ file"@,
                LoadError::Unreadable => "Problem to read the file"@,
            },
    {
        match self {
            LoadError::NotObjFile => String::from_str("Your file is not an OBJ file"),
            LoadError::Unreadable => String::from_str("Problem to read the file"),
        }
    }
}

/// The extension of a path's final component under the target's path
/// syntax, if it has one: what follows the last `.` of the file name.
pub uninterp spec fn path_extension(path: Seq<char>) -> Option<Seq<char>>;

/// Relies on `std::path::Path::extension`, which depends on the path alone.
#[verifier::external_body]
fn extension_of(path: &str) -> (r: Option<String>)
    ensures
        match r {
            Some(e) => path_extension(path@) == Some(e@),
            None => path_extension(path@) is None,
        },
{
    match std::path::Path::new(path).extension() {
        Some(e) => Some(e.to_string_lossy().into_owned()),
        None => None,
    }
}

/// Accepts a file extension only when it is exactly `obj`.
pub fn check_extension(extension: Option<String>) -> (r: Result<(), LoadError>)
    ensures
        r is Ok <==> (extension matches Some(e) && e@ == "obj"@),
        r is Err ==> r == Err::<(), LoadError>(LoadError::NotObjFile),
{
    let expected = String::from_str("obj");
    match extension {
        Some(e) => {
            if e == expected {
                Ok(())
            } else {
                Err(LoadError::NotObjFile)
            }
        },
        None => Err(LoadError::NotObjFile),
    }
}

/// Accepts a path only when its extension is `obj`.
pub fn check_obj_path(path: &str) -> (r: Result<(), LoadError>)
    ensures
        r is Ok <==> path_extension(path@) == Some("obj"@),
        r is Err ==> r == Err::<(), LoadError>(LoadError::NotObjFile),
{
    check_extension(extension_of(path))
}

} // verus!
