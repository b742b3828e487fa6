use git_plumbing::object::Object;
use git_plumbing::tree::{is_executable_mode, tree_walk_keeps, Tree, TreeNode, TreeNodeKind};
use git_plumbing::{git_ls_tree, git_write_tree};

const REPO_WITH_UNCOMMITED_FILES_HASH: &str = "7fa1ce0ba9e8fcc9d83854e44f48f0f25c477a1c";

fn blob_node(name: &[u8], content: &[u8]) -> TreeNode {
    TreeNode {
        name: name.to_vec(),
        kind: TreeNodeKind::Blob { obj: Object::Blob(content.to_vec()), is_executable: false },
    }
}

/// A snapshot with an empty `Cargo.toml` file and a `src` directory
/// holding an empty `main.rs`.
fn uncommited_files_tree() -> Tree {
    let sub = Tree(vec![blob_node(b"main.rs", b"")]);
    Tree(vec![
        TreeNode { name: b"src".to_vec(), kind: TreeNodeKind::Tree(sub) },
        blob_node(b"Cargo.toml", b""),
    ])
}

#[test]
fn write_tree() {
    let tree = uncommited_files_tree();
    let (hex, records) = git_write_tree(&tree);
    assert_eq!(hex, REPO_WITH_UNCOMMITED_FILES_HASH.as_bytes().to_vec());
    let root = records.last().unwrap();
    assert_eq!(root.dir, REPO_WITH_UNCOMMITED_FILES_HASH.as_bytes()[..2].to_vec());
    assert_eq!(root.name, REPO_WITH_UNCOMMITED_FILES_HASH.as_bytes()[2..].to_vec());
}

#[test]
fn ls_tree() {
    let tree = uncommited_files_tree();
    let (_, records) = git_write_tree(&tree);
    let root = records.last().unwrap();
    let names = git_ls_tree(&root.data).unwrap();
    assert_eq!(names.len(), 2);
    assert_eq!(names[0], b"Cargo.toml".to_vec());
    assert_eq!(names[1], b"src".to_vec());
}

#[test]
fn entries_sort_by_name() {
    let tree = Tree(vec![
        blob_node(b"b", b"1"),
        blob_node(b"a", b"2"),
        blob_node(b"c", b"3"),
    ]);
    let (_, records) = git_write_tree(&tree);
    let root = records.last().unwrap();
    let names = git_ls_tree(&root.data).unwrap();
    assert_eq!(names, vec![b"a".to_vec(), b"b".to_vec(), b"c".to_vec()]);
}

#[test]
fn nested_tree_is_persisted_independently() {
    let sub = Tree(vec![blob_node(b"inner.txt", b"payload")]);
    let (sub_hex, _) = git_write_tree(&sub);

    let sub_again = Tree(vec![blob_node(b"inner.txt", b"payload")]);
    let parent = Tree(vec![TreeNode { name: b"child".to_vec(), kind: TreeNodeKind::Tree(sub_again) }]);
    let (parent_hex, records) = git_write_tree(&parent);
    assert_ne!(parent_hex, sub_hex);

    // The subdirectory's own tree object appears among the records before
    // the parent's, and it can be listed on its own.
    let sub_pos = records
        .iter()
        .position(|r| {
            let mut joined = r.dir.clone();
            joined.extend(r.name.iter().copied());
            joined == sub_hex
        })
        .expect("the nested tree must have its own record");
    assert!(sub_pos < records.len() - 1);
    let names = git_ls_tree(&records[sub_pos].data).unwrap();
    assert_eq!(names, vec![b"inner.txt".to_vec()]);
}

#[test]
fn blobs_are_persisted_with_their_tree() {
    let tree = Tree(vec![blob_node(b"file.txt", b"content")]);
    let (_, records) = git_write_tree(&tree);
    // One record for the blob, one for the tree itself.
    assert_eq!(records.len(), 2);
}

#[test]
fn empty_directory_yields_empty_tree_object() {
    let tree = Tree(Vec::new());
    let (hex, records) = git_write_tree(&tree);
    // The digest of "tree 0\0".
    assert_eq!(hex, b"4b825dc642cb6eb9a060e54bf8d69288fbee4904".to_vec());
    assert_eq!(records.len(), 1);
}

#[test]
fn executable_files_get_their_mode() {
    let tree = Tree(vec![TreeNode {
        name: b"run.sh".to_vec(),
        kind: TreeNodeKind::Blob { obj: Object::Blob(b"#!/bin/sh\n".to_vec()), is_executable: true },
    }]);
    let (_, records) = git_write_tree(&tree);
    let root = records.last().unwrap();
    let raw = git_plumbing::store::read_object(&root.data).unwrap();
    match Object::from_bytes(&raw).unwrap() {
        Object::Tree(es) => {
            assert_eq!(es.len(), 1);
            assert_eq!(es[0].mode, 100755);
        },
        _ => panic!("wrong kind"),
    }
}

#[test]
fn execute_bits_mark_executables() {
    assert!(is_executable_mode(0o100755));
    assert!(is_executable_mode(0o100100));
    assert!(!is_executable_mode(0o100644));
}

#[test]
fn walk_skips_dot_names() {
    assert!(!tree_walk_keeps(b".git"));
    assert!(!tree_walk_keeps(b".hidden"));
    assert!(tree_walk_keeps(b"src"));
    assert!(tree_walk_keeps(b"a.b"));
}
