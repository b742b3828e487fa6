use git_plumbing::error::GitError;
use git_plumbing::object::Object;
use git_plumbing::{git_cat_file, git_hash_object, git_init};

const EMPTY_FILE_HASH: &str = "e69de29bb2d1d6434b8b29ae775ad8c2e48c5391";

#[test]
fn initialize_repo() {
    let plan = git_init();
    assert_eq!(plan.dirs.len(), 3);
    assert_eq!(plan.dirs[0], ".git");
    assert_eq!(plan.dirs[1], ".git/objects");
    assert_eq!(plan.dirs[2], ".git/refs");
    assert_eq!(plan.head_file, ".git/HEAD");
    assert_eq!(plan.head_contents, "ref: refs/heads/master\n");
}

#[test]
fn hash_object() {
    let (hex, record) = git_hash_object(Vec::new());
    assert_eq!(hex, EMPTY_FILE_HASH.as_bytes().to_vec());
    assert_eq!(record.dir, EMPTY_FILE_HASH.as_bytes()[..2].to_vec());
    assert_eq!(record.name, EMPTY_FILE_HASH.as_bytes()[2..].to_vec());
}

#[test]
fn hash_is_deterministic() {
    let a = Object::Blob(b"same bytes".to_vec());
    let b = Object::Blob(b"same bytes".to_vec());
    assert_eq!(a.to_bytes(), b.to_bytes());
    assert_eq!(a.hash(), b.hash());
}

#[test]
fn writes_are_idempotent() {
    let (hex1, rec1) = git_hash_object(b"twice".to_vec());
    let (hex2, rec2) = git_hash_object(b"twice".to_vec());
    assert_eq!(hex1, hex2);
    assert_eq!(rec1.dir, rec2.dir);
    assert_eq!(rec1.name, rec2.name);
    assert_eq!(rec1.data, rec2.data);
}

#[test]
fn stored_blob_reads_back() {
    let content = b"hello world".to_vec();
    let (_, record) = git_hash_object(content.clone());
    assert_ne!(record.data, Object::Blob(content.clone()).to_bytes());
    let read = git_cat_file(&record.data).unwrap();
    assert_eq!(read, content);
}

#[test]
fn stored_tag_has_no_content() {
    let tag_bytes = b"tag 0\x00";
    let mut enc = flate2::write::ZlibEncoder::new(Vec::new(), flate2::Compression::default());
    std::io::Write::write_all(&mut enc, tag_bytes).unwrap();
    let compressed = enc.finish().unwrap();
    assert!(matches!(git_cat_file(&compressed), Err(GitError::TypeMismatch)));
}

#[test]
fn garbage_bytes_are_an_io_failure() {
    assert!(matches!(git_cat_file(b"not zlib data"), Err(GitError::IOFailure)));
}

#[test]
fn split_hash_divides_a_digest() {
    let (dir, name) = git_plumbing::store::split_hash(EMPTY_FILE_HASH.as_bytes()).unwrap();
    assert_eq!(dir, b"e6".to_vec());
    assert_eq!(name, EMPTY_FILE_HASH.as_bytes()[2..].to_vec());
    assert!(git_plumbing::store::split_hash(b"e6").is_none());
}

#[test]
fn hash_path_splits_after_two_characters() {
    let (hex, record) = git_hash_object(b"path split".to_vec());
    assert_eq!(hex.len(), 40);
    assert_eq!(record.dir.len(), 2);
    assert_eq!(record.name.len(), 38);
    let mut joined = record.dir.clone();
    joined.extend(record.name.iter().copied());
    assert_eq!(joined, hex);
}
