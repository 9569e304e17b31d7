use worldedit::names::{check_image_name, prepare_schematic_name, NameError};

#[test]
fn schematic_names() {
    assert_eq!(prepare_schematic_name("castle.schem", None), Ok("castle.schem".to_string()));
    assert_eq!(prepare_schematic_name("my_build.schematic", None), Ok("my_build.schematic".to_string()));
    assert_eq!(prepare_schematic_name("castle.schem", Some("1234-abcd")), Ok("1234-abcd/castle.schem".to_string()));
    assert_eq!(prepare_schematic_name("castle.txt", None), Err(NameError::Invalid));
    assert_eq!(prepare_schematic_name(".schem", None), Err(NameError::Invalid));
    // the pattern is not anchored: a matching part anywhere is enough
    assert_eq!(prepare_schematic_name("dir/x.schem", None), Ok("dir/x.schem".to_string()));
}

#[test]
fn image_names() {
    assert_eq!(check_image_name("img_01.bin"), Ok(()));
    assert_eq!(check_image_name("a/b"), Err(NameError::Invalid));
    assert_eq!(check_image_name(""), Err(NameError::Invalid));
}

#[test]
fn image_names_with_separators_or_other_characters_are_refused() {
    assert_eq!(check_image_name("..\\secret"), Err(NameError::Invalid));
    assert_eq!(check_image_name("../secret"), Err(NameError::Invalid));
    assert_eq!(check_image_name("name.png\n"), Err(NameError::Invalid));
    assert_eq!(check_image_name("é.png"), Err(NameError::Invalid));
    assert_eq!(check_image_name("A.Z_9"), Ok(()));
}
