use git_plumbing::commit::{git_commit_tree, git_commit_tree_now};
use git_plumbing::git_cat_file;

const TREE_SHA: &[u8] = b"7fa1ce0ba9e8fcc9d83854e44f48f0f25c477a1c";
const PARENT_SHA: &[u8] = b"e69de29bb2d1d6434b8b29ae775ad8c2e48c5391";

fn body_of(record_data: &[u8]) -> Vec<u8> {
    git_cat_file(record_data).unwrap()
}

#[test]
fn commit_tree() {
    let (hex, record) = git_commit_tree(TREE_SHA, PARENT_SHA, b"A new commit", 1700000000, 0);
    assert_eq!(hex.len(), 40);
    assert_eq!(record.dir, hex[..2].to_vec());
    assert_eq!(record.name, hex[2..].to_vec());
}

#[test]
fn cat_file() {
    let (_, record) = git_commit_tree(TREE_SHA, PARENT_SHA, b"A new commit", 1700000000, 3600);
    let body = body_of(&record.data);
    let text = String::from_utf8(body).unwrap();
    let mut lines = text.lines();
    assert!(lines.next().unwrap().starts_with("tree "));
    assert!(lines.next().unwrap().starts_with("parent "));
    assert!(lines.next().unwrap().starts_with("author "));
    assert!(lines.next().unwrap().starts_with("committer "));
    assert!(lines.next().unwrap().is_empty());
    assert_eq!(lines.next().unwrap(), "A new commit");
    assert!(text.ends_with('\n'));
}

#[test]
fn commit_body_layout_is_exact() {
    let (_, record) = git_commit_tree(b"t", b"p", b"msg", 42, 0);
    let body = body_of(&record.data);
    let text = String::from_utf8(body).unwrap();
    let ident = "objstore <objstore@localhost>";
    let expected = format!(
        "tree t\nparent p\nauthor {} 42 +0000\ncommitter {} 42 +0000\n\nmsg\n",
        ident, ident
    );
    assert_eq!(text, expected);
}

#[test]
fn positive_offset_renders_as_hhmm() {
    let (_, record) = git_commit_tree(b"t", b"p", b"m", 0, 3600);
    let text = String::from_utf8(body_of(&record.data)).unwrap();
    assert!(text.contains(" 0 +0100\n"));
}

#[test]
fn negative_offset_renders_with_minus() {
    let (_, record) = git_commit_tree(b"t", b"p", b"m", 0, -12600);
    let text = String::from_utf8(body_of(&record.data)).unwrap();
    assert!(text.contains(" 0 -0330\n"));
}

#[test]
fn offset_with_seconds_gets_a_seconds_field() {
    let (_, record) = git_commit_tree(b"t", b"p", b"m", 0, 3661);
    let text = String::from_utf8(body_of(&record.data)).unwrap();
    assert!(text.contains(" 0 +0101:01\n"));
}

#[test]
fn negative_timestamp_renders_with_minus() {
    let (_, record) = git_commit_tree(b"t", b"p", b"m", -86400, 0);
    let text = String::from_utf8(body_of(&record.data)).unwrap();
    assert!(text.contains(" -86400 +0000\n"));
}

#[test]
fn commit_now_uses_the_local_clock() {
    let (hex, record) = git_commit_tree_now(TREE_SHA, PARENT_SHA, b"now");
    assert_eq!(hex.len(), 40);
    let text = String::from_utf8(body_of(&record.data)).unwrap();
    assert!(text.starts_with("tree "));
    assert!(text.ends_with("\n\nnow\n"));
}
