use cloud_drive::errors::FileError;
use cloud_drive::models::blobs::BlobStore;
use cloud_drive::models::files_model::{
    build_file_path, delete_contents, delete_file, delete_file_content, delete_user_files,
    duplicate_file, file_type_of_extension, find_file, get_file, get_file_by_id, get_file_type,
    get_files, move_file, new_file, read_file_content, rename_file, save_file_content,
    validate_name, FILES_FOLDER,
};
use cloud_drive::models::folders_model::{init_root_folders, new_folder, MoveOutcome};
use cloud_drive::models::store::TreeStore;

/// Roots 1 and 2 of user 1, folder 3 in root 1, roots 4 and 5 of user 2.
fn stores() -> (TreeStore, BlobStore) {
    let mut t = TreeStore::new();
    init_root_folders(&mut t, 1, 0).unwrap();
    new_folder(&mut t, "docs", 1, 1, 0).unwrap();
    init_root_folders(&mut t, 2, 0).unwrap();
    (t, BlobStore::new())
}

#[test]
fn names_are_valid_with_one_to_255_characters_after_trimming() {
    assert!(validate_name("a"));
    assert!(validate_name("  a  "));
    assert!(validate_name("\t\n a b \u{3000}"));
    assert!(!validate_name(""));
    assert!(!validate_name(" \t\r\n"));
    assert!(!validate_name("\u{a0}\u{2003}\u{85}"));
    assert!(validate_name(&"n".repeat(255)));
    assert!(!validate_name(&"n".repeat(256)));
    assert!(validate_name(&format!("  {}  ", "n".repeat(255))));
    assert!(validate_name(&"é".repeat(255)));
    assert!(!validate_name(&"é".repeat(256)));
    assert!(validate_name("\u{200b}"));
}

#[test]
fn trimming_agrees_with_the_standard_library() {
    let samples = [
        "", " ", "a", " a", "a ", " a b ", "\u{1680}x\u{2028}", "\u{feff}x", "\u{180e}",
        "\u{2029}\u{202f}\u{205f}", "\u{1f}x\u{1c}", "\u{0b}\u{0c}", "x\u{200a}", "\u{200b}x",
    ];
    for s in samples {
        let n = s.trim().chars().count();
        assert_eq!(validate_name(s), (1..=255).contains(&n), "{:?}", s);
        assert_eq!(cloud_drive::text::trimmed_len(s), n, "{:?}", s);
    }
    for c in (0u32..0x3100).filter_map(char::from_u32) {
        assert_eq!(cloud_drive::text::is_white_space(c), c.is_whitespace(), "{:?}", c);
    }
}

#[test]
fn the_path_of_a_content_is_the_folder_and_the_id() {
    assert_eq!(FILES_FOLDER, "files_data");
    assert_eq!(build_file_path(7), "files_data/7");
    assert_eq!(build_file_path(0), "files_data/0");
    assert_eq!(build_file_path(1234567890), "files_data/1234567890");
    assert_eq!(build_file_path(i32::MAX), "files_data/2147483647");
    assert_eq!(build_file_path(-12), "files_data/-12");
    assert_eq!(build_file_path(i32::MIN), "files_data/-2147483648");
}

#[test]
fn the_tag_of_a_file_follows_its_extension() {
    let text = [
        "txt", "c", "cpp", "h", "hpp", "py", "js", "html", "css", "md", "json", "xml", "yaml",
        "toml", "rs", "svelte", "jsx", "nim", "go", "java", "php", "rb", "lua", "swift", "kt",
        "scala", "pl", "sh", "bat", "ps1", "ts", "asm", "config", "yml", "env", "sql",
        "gitignore", "tsx", "cs",
    ];
    let image = [
        "png", "jpg", "jpeg", "gif", "bmp", "svg", "ico", "webp", "tiff", "tif", "heif", "heic",
    ];
    for e in text {
        assert_eq!(file_type_of_extension(e).as_deref(), Some("Text"), "{}", e);
        assert_eq!(get_file_type(&format!("name.{}", e)).as_deref(), Some("Text"), "{}", e);
    }
    for e in image {
        assert_eq!(file_type_of_extension(e).as_deref(), Some("Image"), "{}", e);
        assert_eq!(get_file_type(&format!("name.{}", e)).as_deref(), Some("Image"), "{}", e);
    }
    for e in ["", "exe", "pdf", "TXT", "tx", "txtx", " txt", "stl"] {
        assert_eq!(file_type_of_extension(e), None, "{}", e);
    }
}

#[test]
fn the_extension_is_what_follows_the_last_dot() {
    assert_eq!(get_file_type("my essay.txt").as_deref(), Some("Text"));
    assert_eq!(get_file_type("archive.tar.png").as_deref(), Some("Image"));
    assert_eq!(get_file_type("photo.png.exe"), None);
    assert_eq!(get_file_type("README"), None);
    assert_eq!(get_file_type(""), None);
    assert_eq!(get_file_type("."), None);
    assert_eq!(get_file_type(".."), None);
    assert_eq!(get_file_type("txt"), None);
    assert_eq!(get_file_type(".gitignore"), None);
    assert_eq!(get_file_type(".txt"), None);
    assert_eq!(get_file_type("x.gitignore").as_deref(), Some("Text"));
    assert_eq!(get_file_type("..txt").as_deref(), Some("Text"));
    assert_eq!(get_file_type("name."), None);
    assert_eq!(get_file_type("a.b.c").as_deref(), Some("Text"));
    assert_eq!(get_file_type("é.rs").as_deref(), Some("Text"));
}

#[test]
fn the_extension_counts_in_lower_case() {
    assert_eq!(get_file_type("A.TXT").as_deref(), Some("Text"));
    assert_eq!(get_file_type("cat.JpEg").as_deref(), Some("Image"));
    assert_eq!(get_file_type("Main.\u{212a}T").as_deref(), Some("Text"));
    assert_eq!(get_file_type("x.\u{130}co"), None);
}

#[test]
fn a_new_file_gets_a_row_and_a_content() {
    let (mut t, mut blobs) = stores();
    let f = new_file(&mut t, &mut blobs, "notes.MD", b"hello", 3, 1, 55).unwrap();
    assert_eq!(f.get_id(), 1);
    assert_eq!(f.get_name(), "notes.MD");
    assert_eq!(f.get_file_type().as_deref(), Some("Text"));
    assert_eq!(f.get_size(), 5);
    assert_eq!(f.get_last_modified(), 55);
    assert!(!f.get_starred());
    assert_eq!((f.get_fk_owner(), f.get_fk_parent()), (1, 3));
    assert_eq!(read_file_content(&blobs, 1).unwrap(), b"hello");
    let g = new_file(&mut t, &mut blobs, "empty", b"", 3, 1, 56).unwrap();
    assert_eq!((g.get_id(), g.get_size(), g.get_file_type().clone()), (2, 0, None));
    assert_eq!(read_file_content(&blobs, 2).unwrap(), b"");
    let listed = get_files(&t, 3, 1);
    assert_eq!(listed.iter().map(|f| f.get_id()).collect::<Vec<_>>(), vec![1, 2]);
    assert!(get_files(&t, 3, 2).is_empty());
    assert!(get_files(&t, 1, 1).is_empty());
}

#[test]
fn a_file_that_is_refused_leaves_no_trace() {
    let (mut t, mut blobs) = stores();
    assert_eq!(
        new_file(&mut t, &mut blobs, "  ", b"x", 3, 1, 0).unwrap_err(),
        FileError::NameError
    );
    assert_eq!(
        new_file(&mut t, &mut blobs, "  ", b"x", 99, 1, 0).unwrap_err(),
        FileError::NameError
    );
    assert_eq!(
        new_file(&mut t, &mut blobs, "a", b"x", 99, 1, 0).unwrap_err(),
        FileError::InternalError
    );
    assert_eq!(
        new_file(&mut t, &mut blobs, "a", b"x", 4, 1, 0).unwrap_err(),
        FileError::InternalError
    );
    assert!(!blobs.holds(1));
    assert_eq!(new_file(&mut t, &mut blobs, "a", b"x", 3, 1, 0).unwrap().get_id(), 1);
}

#[test]
fn a_file_is_found_by_its_id_and_its_owner() {
    let (mut t, mut blobs) = stores();
    new_file(&mut t, &mut blobs, "a.txt", b"abc", 3, 1, 0).unwrap();
    assert_eq!(find_file(&t, 1, 1), Some(0));
    assert_eq!(find_file(&t, 1, 2), None);
    assert_eq!(get_file_by_id(&t, 1, 1).unwrap().get_name(), "a.txt");
    assert_eq!(get_file_by_id(&t, 1, 2).unwrap_err().0, "Failed to get the file");
    assert_eq!(get_file_by_id(&t, 2, 1).unwrap_err().0, "Failed to get the file");
    assert_eq!(get_file(&t, &blobs, 1, 1).unwrap(), ("a.txt".to_string(), b"abc".to_vec()));
    assert_eq!(get_file(&t, &blobs, 1, 2).unwrap_err().0, "Failed to get the file");
    delete_file_content(&mut blobs, 1).unwrap();
    assert_eq!(get_file(&t, &blobs, 1, 1).unwrap_err().0, "Failed to read content from '1'");
}

#[test]
fn renaming_a_file_changes_the_name_only() {
    let (mut t, mut blobs) = stores();
    new_file(&mut t, &mut blobs, "a.txt", b"abc", 3, 1, 9).unwrap();
    rename_file(&mut t, 1, 1, "b.png").unwrap();
    let f = get_file_by_id(&t, 1, 1).unwrap();
    assert_eq!(f.get_name(), "b.png");
    assert_eq!(f.get_file_type().as_deref(), Some("Text"));
    assert_eq!((f.get_size(), f.get_last_modified(), f.get_fk_parent()), (3, 9, 3));
    assert_eq!(rename_file(&mut t, 1, 1, "").unwrap_err(), FileError::NameError);
    rename_file(&mut t, 1, 2, "c").unwrap();
    rename_file(&mut t, 7, 1, "c").unwrap();
    assert_eq!(get_file_by_id(&t, 1, 1).unwrap().get_name(), "b.png");
}

#[test]
fn a_file_moves_into_any_folder_of_its_owner() {
    let (mut t, mut blobs) = stores();
    new_file(&mut t, &mut blobs, "a.txt", b"abc", 3, 1, 9).unwrap();
    assert_eq!(move_file(&mut t, 1, 2, 1), MoveOutcome::Moved);
    assert_eq!(get_file_by_id(&t, 1, 1).unwrap().get_fk_parent(), 2);
    assert_eq!(move_file(&mut t, 1, 2, 1), MoveOutcome::Moved);
    assert_eq!(move_file(&mut t, 1, 4, 1), MoveOutcome::Unchanged);
    assert_eq!(move_file(&mut t, 1, 4, 2), MoveOutcome::Unchanged);
    assert_eq!(move_file(&mut t, 1, 99, 1), MoveOutcome::Unchanged);
    assert_eq!(move_file(&mut t, 9, 3, 1), MoveOutcome::Unchanged);
    let f = get_file_by_id(&t, 1, 1).unwrap();
    assert_eq!((f.get_fk_parent(), f.get_last_modified()), (2, 9));
}

#[test]
fn deleting_a_file_takes_the_row_and_the_content() {
    let (mut t, mut blobs) = stores();
    new_file(&mut t, &mut blobs, "a.txt", b"abc", 3, 1, 9).unwrap();
    new_file(&mut t, &mut blobs, "b.txt", b"de", 3, 1, 9).unwrap();
    assert_eq!(delete_file(&mut t, &mut blobs, 1, 2).unwrap_err().0, "Failed to delete the file");
    assert_eq!(delete_file(&mut t, &mut blobs, 5, 1).unwrap_err().0, "Failed to delete the file");
    assert!(blobs.holds(1) && blobs.holds(2));
    delete_file(&mut t, &mut blobs, 1, 1).unwrap();
    assert!(!blobs.holds(1) && blobs.holds(2));
    assert_eq!(get_files(&t, 3, 1).iter().map(|f| f.get_id()).collect::<Vec<_>>(), vec![2]);
    delete_file_content(&mut blobs, 2).unwrap();
    let e = delete_file(&mut t, &mut blobs, 2, 1).unwrap_err();
    assert_eq!(e.0, "Failed to delete content for file '2'");
    assert!(get_files(&t, 3, 1).is_empty());
}

#[test]
fn a_copy_has_a_new_id_and_the_same_content() {
    let (mut t, mut blobs) = stores();
    new_file(&mut t, &mut blobs, "a.PNG", b"abc", 3, 1, 9).unwrap();
    let copy = duplicate_file(&mut t, &mut blobs, 1, 1, 77).unwrap();
    assert_eq!(copy.get_id(), 2);
    assert_eq!(copy.get_name(), "a.PNG");
    assert_eq!(copy.get_file_type().as_deref(), Some("Image"));
    assert_eq!((copy.get_size(), copy.get_last_modified()), (3, 77));
    assert_eq!((copy.get_fk_owner(), copy.get_fk_parent()), (1, 3));
    assert_eq!(read_file_content(&blobs, 2).unwrap(), b"abc");
    assert_eq!(read_file_content(&blobs, 1).unwrap(), b"abc");
    assert_eq!(get_files(&t, 3, 1).len(), 2);
    let e = duplicate_file(&mut t, &mut blobs, 1, 2, 78).unwrap_err();
    assert_eq!(e.0, "Failed to duplicate the file");
    let e = duplicate_file(&mut t, &mut blobs, 9, 1, 78).unwrap_err();
    assert_eq!(e.0, "Failed to duplicate the file");
    assert_eq!(get_files(&t, 3, 1).len(), 2);
}

#[test]
fn a_copy_without_a_content_writes_nothing() {
    let (mut t, mut blobs) = stores();
    new_file(&mut t, &mut blobs, "a", b"abc", 3, 1, 9).unwrap();
    delete_file_content(&mut blobs, 1).unwrap();
    let e = duplicate_file(&mut t, &mut blobs, 1, 1, 77).unwrap_err();
    assert_eq!(e.0, "Failed to read content from '1'");
    assert_eq!(get_files(&t, 3, 1).len(), 1);
    assert!(!blobs.holds(1) && !blobs.holds(2));
    let e = duplicate_file(&mut t, &mut blobs, 1, 2, 77).unwrap_err();
    assert_eq!(e.0, "Failed to duplicate the file");
    save_file_content(&mut blobs, 1, b"abc");
    assert_eq!(duplicate_file(&mut t, &mut blobs, 1, 1, 77).unwrap().get_id(), 2);
}

#[test]
fn the_extension_is_that_of_the_last_part_of_a_path() {
    assert_eq!(get_file_type("dir/.png"), None);
    assert_eq!(get_file_type("x.png/").as_deref(), Some("Image"));
    assert_eq!(get_file_type("x.png/.").as_deref(), Some("Image"));
    assert_eq!(get_file_type("x.png//./").as_deref(), Some("Image"));
    assert_eq!(get_file_type("a.txt/b"), None);
    assert_eq!(get_file_type("a.d/b.rs").as_deref(), Some("Text"));
    assert_eq!(get_file_type("/b.rs").as_deref(), Some("Text"));
    assert_eq!(get_file_type("a.rs/.."), None);
    assert_eq!(get_file_type("/"), None);
    assert_eq!(get_file_type("/."), None);
    assert_eq!(get_file_type("./."), None);
    assert_eq!(get_file_type("./.rs"), None);
    assert_eq!(get_file_type("./x.rs").as_deref(), Some("Text"));
    assert_eq!(get_file_type("a\\b.rs").as_deref(), Some("Text"));
}

#[test]
fn the_tag_agrees_with_the_paths_of_the_standard_library() {
    let by_path = |name: &str| {
        let e = std::path::Path::new(name).extension()?.to_str()?.to_lowercase();
        file_type_of_extension(&e)
    };
    let parts = ["", "a", ".", "..", "/", "x.png", ".png", "b.TXT", "c.d", "/.", "//", "./", "a.rs/", "e."];
    for a in parts {
        for b in parts {
            for c in parts {
                let name = format!("{}{}{}", a, b, c);
                assert_eq!(get_file_type(&name), by_path(&name), "{:?}", name);
                let name = format!("{}/{}/{}", a, b, c);
                assert_eq!(get_file_type(&name), by_path(&name), "{:?}", name);
            }
        }
    }
}

#[test]
fn the_files_of_a_user_go_with_their_contents() {
    let (mut t, mut blobs) = stores();
    new_file(&mut t, &mut blobs, "a", b"1", 3, 1, 0).unwrap();
    new_file(&mut t, &mut blobs, "b", b"22", 4, 2, 0).unwrap();
    new_file(&mut t, &mut blobs, "c", b"333", 1, 1, 0).unwrap();
    delete_user_files(&mut t, &mut blobs, 1).unwrap();
    assert!(get_files(&t, 3, 1).is_empty() && get_files(&t, 1, 1).is_empty());
    assert_eq!(get_files(&t, 4, 2).len(), 1);
    assert!(!blobs.holds(1) && blobs.holds(2) && !blobs.holds(3));
}

#[test]
fn contents_are_deleted_up_to_the_first_that_is_missing() {
    let mut blobs = BlobStore::new();
    for id in [1, 2, 4] {
        save_file_content(&mut blobs, id, &[id as u8]);
    }
    let e = delete_contents(&mut blobs, &vec![2, 3, 4]).unwrap_err();
    assert_eq!(e.0, "Failed to delete content for file '3'");
    assert!(blobs.holds(1) && !blobs.holds(2) && blobs.holds(4));
    delete_contents(&mut blobs, &vec![4, 1]).unwrap();
    assert!(!blobs.holds(1) && !blobs.holds(4));
    delete_contents(&mut blobs, &vec![]).unwrap();
    save_file_content(&mut blobs, 5, b"x");
    save_file_content(&mut blobs, 6, b"y");
    let e = delete_contents(&mut blobs, &vec![5, 5, 6]).unwrap_err();
    assert_eq!(e.0, "Failed to delete content for file '5'");
    assert!(!blobs.holds(5) && blobs.holds(6));
}
