use git_plumbing::error::GitError;
use git_plumbing::fields::parse_fields;
use git_plumbing::object::{Object, TreeEntry};

fn sample_hash(seed: u8) -> Vec<u8> {
    let mut h = Vec::new();
    for i in 0..20u8 {
        h.push(seed.wrapping_add(i));
    }
    h
}

#[test]
fn blob_encodes_with_header() {
    let blob = Object::Blob(b"abc".to_vec());
    assert_eq!(blob.to_bytes(), b"blob 3\x00abc".to_vec());
}

#[test]
fn empty_blob_encodes_with_zero_length() {
    let blob = Object::Blob(Vec::new());
    assert_eq!(blob.to_bytes(), b"blob 0\x00".to_vec());
}

#[test]
fn commit_encodes_verbatim() {
    let commit = Object::Commit(b"tree x\n".to_vec());
    assert_eq!(commit.to_bytes(), b"commit 7\x00tree x\n".to_vec());
}

#[test]
fn tree_entry_encodes_mode_name_hash() {
    let entry = TreeEntry { mode: 100644, name: b"file".to_vec(), hash: sample_hash(0) };
    let mut expected = b"100644 file\x00".to_vec();
    expected.extend(sample_hash(0));
    assert_eq!(entry.to_bytes(), expected);
}

#[test]
fn round_trip_blob() {
    let blob = Object::Blob(b"hello world".to_vec());
    let bytes = blob.to_bytes();
    match Object::from_bytes(&bytes).unwrap() {
        Object::Blob(c) => assert_eq!(c, b"hello world".to_vec()),
        _ => panic!("wrong kind"),
    }
}

#[test]
fn round_trip_commit() {
    let commit = Object::Commit(b"tree abc\n\nmsg\n".to_vec());
    let bytes = commit.to_bytes();
    match Object::from_bytes(&bytes).unwrap() {
        Object::Commit(c) => assert_eq!(c, b"tree abc\n\nmsg\n".to_vec()),
        _ => panic!("wrong kind"),
    }
}

#[test]
fn round_trip_tree() {
    let entries = vec![
        TreeEntry { mode: 100644, name: b"a.txt".to_vec(), hash: sample_hash(1) },
        TreeEntry { mode: 40000, name: b"sub dir".to_vec(), hash: sample_hash(7) },
    ];
    let tree = Object::Tree(entries);
    let bytes = tree.to_bytes();
    match Object::from_bytes(&bytes).unwrap() {
        Object::Tree(es) => {
            assert_eq!(es.len(), 2);
            assert_eq!(es[0].mode, 100644);
            assert_eq!(es[0].name, b"a.txt".to_vec());
            assert_eq!(es[0].hash, sample_hash(1));
            assert_eq!(es[1].mode, 40000);
            assert_eq!(es[1].name, b"sub dir".to_vec());
            assert_eq!(es[1].hash, sample_hash(7));
        },
        _ => panic!("wrong kind"),
    }
}

#[test]
fn decodes_tag_kind() {
    assert!(matches!(Object::from_bytes(b"tag 0\x00"), Ok(Object::Tag)));
}

#[test]
fn empty_buffer_is_malformed() {
    assert!(matches!(Object::from_bytes(b""), Err(GitError::MalformedHeader)));
}

#[test]
fn missing_space_is_malformed() {
    assert!(matches!(Object::from_bytes(b"blob3\x00abc"), Err(GitError::MalformedHeader)));
}

#[test]
fn missing_nul_is_malformed() {
    assert!(matches!(Object::from_bytes(b"blob 3abc"), Err(GitError::MalformedHeader)));
}

#[test]
fn size_mismatch_is_malformed() {
    assert!(matches!(Object::from_bytes(b"blob 4\x00abc"), Err(GitError::MalformedHeader)));
    assert!(matches!(Object::from_bytes(b"blob 2\x00abc"), Err(GitError::MalformedHeader)));
}

#[test]
fn non_numeric_size_is_malformed() {
    assert!(matches!(Object::from_bytes(b"blob x\x00abc"), Err(GitError::MalformedHeader)));
}

#[test]
fn unknown_kind_is_reported_with_its_token() {
    match Object::from_bytes(b"glob 3\x00abc") {
        Err(GitError::UnknownObjectKind(k)) => assert_eq!(k, b"glob".to_vec()),
        _ => panic!("expected an unknown-kind failure"),
    }
}

#[test]
fn tree_with_bad_mode_is_invalid() {
    let body = b"10a644 f\x00aaaaaaaaaaaaaaaaaaaa";
    let mut bytes = format!("tree {}\x00", body.len()).into_bytes();
    bytes.extend(body.iter().copied());
    assert!(matches!(Object::from_bytes(&bytes), Err(GitError::InvalidMode)));
}

#[test]
fn tree_with_short_hash_is_truncated() {
    let body = b"100644 f\x00aaaa";
    let mut bytes = format!("tree {}\x00", body.len()).into_bytes();
    bytes.extend(body.iter().copied());
    assert!(matches!(Object::from_bytes(&bytes), Err(GitError::TruncatedEntry)));
}

#[test]
fn empty_tree_decodes_to_no_entries() {
    match Object::from_bytes(b"tree 0\x00").unwrap() {
        Object::Tree(es) => assert_eq!(es.len(), 0),
        _ => panic!("wrong kind"),
    }
}

#[test]
fn non_utf8_kind_field_is_malformed() {
    assert!(matches!(Object::from_bytes(b"bl\xffb 3\x00abc"), Err(GitError::MalformedHeader)));
}

#[test]
fn non_utf8_size_field_is_malformed() {
    assert!(matches!(Object::from_bytes(b"blob \xff\x00abc"), Err(GitError::MalformedHeader)));
}

#[test]
fn non_utf8_entry_name_is_malformed() {
    let body = b"100644 f\xff\x00aaaaaaaaaaaaaaaaaaaa";
    let mut bytes = format!("tree {}\x00", body.len()).into_bytes();
    bytes.extend(body.iter().copied());
    assert!(matches!(Object::from_bytes(&bytes), Err(GitError::MalformedHeader)));
}

#[test]
fn fields_reject_non_utf8_text() {
    assert!(matches!(parse_fields(b"\xff \xff\x00"), Err(GitError::MalformedHeader)));
}

#[test]
fn fields_split_at_space_and_nul() {
    let (sp, nl) = parse_fields(b"blob 3\x00abc").unwrap().unwrap();
    assert_eq!(sp, 4);
    assert_eq!(nl, 6);
}

#[test]
fn fields_of_empty_buffer_are_absent() {
    assert!(matches!(parse_fields(b""), Ok(None)));
}

#[test]
fn fields_without_delimiters_are_malformed() {
    assert!(matches!(parse_fields(b"blob"), Err(GitError::MalformedHeader)));
    assert!(matches!(parse_fields(b"blob 3"), Err(GitError::MalformedHeader)));
}

#[test]
fn entry_parses_and_reports_consumed_length() {
    let mut bytes = b"40000 dir\x00".to_vec();
    bytes.extend(sample_hash(3));
    bytes.extend(b"tail");
    let (entry, used) = TreeEntry::from_bytes(&bytes).unwrap().unwrap();
    assert_eq!(entry.mode, 40000);
    assert_eq!(entry.name, b"dir".to_vec());
    assert_eq!(entry.hash, sample_hash(3));
    assert_eq!(used, bytes.len() - 4);
}

#[test]
fn kind_names() {
    assert_eq!(Object::Blob(Vec::new()).kind(), "blob");
    assert_eq!(Object::Commit(Vec::new()).kind(), "commit");
    assert_eq!(Object::Tag.kind(), "tag");
    assert_eq!(Object::Tree(Vec::new()).kind(), "tree");
}
