use console_renderer::{check_extension, check_obj_path, Args, LoadError};

#[test]
fn obj_extension_is_accepted() {
    assert_eq!(check_obj_path("model.obj"), Ok(()));
    assert_eq!(check_obj_path("assets/teapot.v2.obj"), Ok(()));
}

#[test]
fn other_extensions_are_refused() {
    assert_eq!(check_obj_path("model.txt"), Err(LoadError::NotObjFile));
    assert_eq!(check_obj_path("model.OBJ"), Err(LoadError::NotObjFile));
    assert_eq!(check_obj_path("model.obj.bak"), Err(LoadError::NotObjFile));
}

#[test]
fn path_without_extension_is_refused() {
    assert_eq!(check_obj_path("model"), Err(LoadError::NotObjFile));
    assert_eq!(check_obj_path(".obj"), Err(LoadError::NotObjFile));
    assert_eq!(check_obj_path(""), Err(LoadError::NotObjFile));
}

#[test]
fn errors_have_their_messages() {
    assert_eq!(LoadError::NotObjFile.message(), "Your file is not an OBJ file");
    assert_eq!(LoadError::Unreadable.message(), "Problem to read the file");
}

#[test]
fn args_hold_the_path() {
    let args = Args { file_path: "cube.obj".to_string() };
    assert_eq!(args.clone(), args);
    assert_eq!(args.file_path, "cube.obj");
}

#[test]
fn only_the_obj_extension_is_accepted() {
    assert_eq!(check_extension(Some("obj".to_string())), Ok(()));
    assert_eq!(check_extension(Some("ob".to_string())), Err(LoadError::NotObjFile));
    assert_eq!(check_extension(Some("objx".to_string())), Err(LoadError::NotObjFile));
    assert_eq!(check_extension(Some(String::new())), Err(LoadError::NotObjFile));
    assert_eq!(check_extension(None), Err(LoadError::NotObjFile));
}
