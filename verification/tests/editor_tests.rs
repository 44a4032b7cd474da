use virtual_texture::file_type::EFileType;
use virtual_texture::project::is_project_name_valid;

#[test]
fn test_case() {
    assert_eq!(is_project_name_valid("name1"), false);
    assert_eq!(is_project_name_valid("1name"), false);
    assert_eq!(is_project_name_valid("*name"), false);
    assert_eq!(is_project_name_valid("name*"), false);
    assert_eq!(is_project_name_valid("*****"), false);
    assert_eq!(is_project_name_valid("11111"), false);
    assert_eq!(is_project_name_valid("na me"), false);

    assert_eq!(is_project_name_valid(""), false);
    assert_eq!(
        is_project_name_valid(&vec!['a'; 999].iter().collect::<String>()),
        false
    );

    assert_eq!(is_project_name_valid("name"), true);
}

#[test]
fn file_type_from_path() {
    assert_eq!(EFileType::from_path("model.fbx"), Some(EFileType::Fbx));
    assert_eq!(EFileType::from_path("a/b/c.blend"), Some(EFileType::Blend));
    assert_eq!(EFileType::from_path("photo.jpeg"), Some(EFileType::Jpeg));
    assert_eq!(EFileType::from_path("photo.jpg"), Some(EFileType::Jpg));
    assert_eq!(EFileType::from_path("tex.png"), Some(EFileType::Png));
    assert_eq!(EFileType::from_path("sky.hdr"), Some(EFileType::Hdr));
    assert_eq!(EFileType::from_path("sky.exr"), Some(EFileType::Exr));
    assert_eq!(EFileType::from_path("mesh.glb"), Some(EFileType::Glb));
    assert_eq!(EFileType::from_path("mesh.dae"), Some(EFileType::Dae));
    assert_eq!(EFileType::from_path("archive.tar.png"), Some(EFileType::Png));
    assert_eq!(EFileType::from_path("no_extension"), None);
    assert_eq!(EFileType::from_path("unknown.txt"), None);
}

#[test]
fn md5_short_hex() {
    // The digest of the empty string is d41d8cd98f00b204e9800998ecf8427e;
    // bytes below 16 print as one digit.
    let h = virtual_texture::misc::get_md5_from_string("");
    assert_eq!(h, "d41d8cd98f0b24e980998ecf8427e");
    let h2 = virtual_texture::misc::get_md5_from_string("abc");
    // 900150983cd24fb0d6963f7d28e17f72, with the one single-digit byte kept short.
    assert_eq!(h2, "90150983cd24fb0d6963f7d28e17f72");
}
