use cloud_drive::models::blobs::{copy_bytes, BlobStore};
use cloud_drive::models::files_model::{delete_file_content, read_file_content, save_file_content};

#[test]
fn what_was_written_is_read_back() {
    let mut blobs = BlobStore::new();
    let bytes: Vec<u8> = (0..=255).collect();
    save_file_content(&mut blobs, 3, &bytes);
    assert_eq!(read_file_content(&blobs, 3).unwrap(), bytes);
    assert!(blobs.holds(3));
    assert!(!blobs.holds(4));
}

#[test]
fn a_second_write_replaces_the_first() {
    let mut blobs = BlobStore::new();
    save_file_content(&mut blobs, 3, b"first");
    save_file_content(&mut blobs, 3, b"second one");
    assert_eq!(read_file_content(&blobs, 3).unwrap(), b"second one");
    save_file_content(&mut blobs, 3, b"");
    assert_eq!(read_file_content(&blobs, 3).unwrap(), b"");
}

#[test]
fn what_was_deleted_is_not_found() {
    let mut blobs = BlobStore::new();
    save_file_content(&mut blobs, 3, b"abc");
    save_file_content(&mut blobs, -4, b"d");
    delete_file_content(&mut blobs, 3).unwrap();
    assert_eq!(read_file_content(&blobs, 3).unwrap_err().0, "Failed to read content from '3'");
    assert_eq!(read_file_content(&blobs, -4).unwrap(), b"d");
    assert_eq!(
        delete_file_content(&mut blobs, 3).unwrap_err().0,
        "Failed to delete content for file '3'"
    );
    assert_eq!(
        read_file_content(&blobs, -2147483648).unwrap_err().0,
        "Failed to read content from '-2147483648'"
    );
}

#[test]
fn a_copy_of_bytes_holds_the_same_bytes() {
    assert_eq!(copy_bytes(b""), b"");
    assert_eq!(copy_bytes(&[0, 255, 7]), vec![0, 255, 7]);
}
