use bos_cli::document::{build_document, merge_into, DocNode};
use bos_cli::error::DocError;
use bos_cli::key_path::parse_key_path;

fn path(segs: &[&str]) -> Vec<String> {
    segs.iter().map(|s| s.to_string()).collect()
}

fn leaf_text(d: Option<&DocNode>) -> Option<String> {
    match d {
        Some(DocNode::Leaf(t)) => Some(t.clone()),
        _ => None,
    }
}

fn same(a: &DocNode, b: &DocNode) -> bool {
    match (a, b) {
        (DocNode::Leaf(x), DocNode::Leaf(y)) => x == y,
        (DocNode::Branch(xs), DocNode::Branch(ys)) => {
            xs.len() == ys.len()
                && xs.iter().zip(ys.iter()).all(|(x, y)| x.key == y.key && same(&x.node, &y.node))
        }
        _ => false,
    }
}

#[test]
fn parse_splits_on_dots() {
    assert_eq!(parse_key_path("a.b.widget").unwrap(), path(&["a", "b", "widget"]));
    assert_eq!(parse_key_path("widget").unwrap(), path(&["widget"]));
}

#[test]
fn parse_rejects_empty_segments() {
    assert_eq!(parse_key_path(""), Err(DocError::InvalidKeyPath));
    assert_eq!(parse_key_path(".a"), Err(DocError::InvalidKeyPath));
    assert_eq!(parse_key_path("a."), Err(DocError::InvalidKeyPath));
    assert_eq!(parse_key_path("a..b"), Err(DocError::InvalidKeyPath));
}

#[test]
fn build_then_read_back() {
    let p = path(&["alice.near", "profile", "name"]);
    let d = build_document(&p, "\"Alice\"".to_string()).unwrap();
    assert_eq!(
        leaf_text(d.get(&path(&["alice.near", "profile", "name"]))),
        Some("\"Alice\"".to_string())
    );
}

#[test]
fn build_rejects_empty_path() {
    assert!(matches!(build_document(&Vec::new(), "1".to_string()), Err(DocError::InvalidKeyPath)));
    assert!(matches!(
        build_document(&path(&["a", ""]), "1".to_string()),
        Err(DocError::InvalidKeyPath)
    ));
}

#[test]
fn merge_twice_equals_merge_once() {
    let mut once = build_document(&path(&["a", "x"]), "1".to_string()).unwrap();
    merge_into(&mut once, &path(&["a", "y", "z"]), "2".to_string()).unwrap();
    let mut twice = build_document(&path(&["a", "x"]), "1".to_string()).unwrap();
    merge_into(&mut twice, &path(&["a", "y", "z"]), "2".to_string()).unwrap();
    merge_into(&mut twice, &path(&["a", "y", "z"]), "2".to_string()).unwrap();
    assert!(same(&once, &twice));
}

#[test]
fn merge_keeps_disjoint_paths() {
    let mut d = build_document(&path(&["a", "x"]), "1".to_string()).unwrap();
    merge_into(&mut d, &path(&["a", "y"]), "2".to_string()).unwrap();
    merge_into(&mut d, &path(&["b"]), "3".to_string()).unwrap();
    assert_eq!(leaf_text(d.get(&path(&["a", "x"]))), Some("1".to_string()));
    assert_eq!(leaf_text(d.get(&path(&["a", "y"]))), Some("2".to_string()));
    assert_eq!(leaf_text(d.get(&path(&["b"]))), Some("3".to_string()));
}

#[test]
fn merge_overwrites_the_same_path() {
    let mut d = build_document(&path(&["a", "x"]), "1".to_string()).unwrap();
    merge_into(&mut d, &path(&["a", "x"]), "9".to_string()).unwrap();
    assert_eq!(leaf_text(d.get(&path(&["a", "x"]))), Some("9".to_string()));
}

#[test]
fn merge_through_leaf_conflicts_and_keeps_tree() {
    let mut d = build_document(&path(&["a", "x"]), "1".to_string()).unwrap();
    let before = build_document(&path(&["a", "x"]), "1".to_string()).unwrap();
    let r = merge_into(&mut d, &path(&["a", "x", "deeper"]), "2".to_string());
    assert_eq!(r, Err(DocError::KeyPathConflict));
    assert!(same(&d, &before));
}

#[test]
fn merge_into_leaf_root_conflicts() {
    let mut d = DocNode::Leaf("1".to_string());
    let r = merge_into(&mut d, &path(&["a"]), "2".to_string());
    assert_eq!(r, Err(DocError::KeyPathConflict));
    assert!(same(&d, &DocNode::Leaf("1".to_string())));
}

#[test]
fn merge_with_empty_path_is_invalid() {
    let mut d = DocNode::Branch(Vec::new());
    assert_eq!(merge_into(&mut d, &Vec::new(), "2".to_string()), Err(DocError::InvalidKeyPath));
    assert!(same(&d, &DocNode::Branch(Vec::new())));
}

#[test]
fn get_missing_or_through_leaf() {
    let d = build_document(&path(&["a", "x"]), "1".to_string()).unwrap();
    assert!(d.get(&path(&["a", "y"])).is_none());
    assert!(d.get(&path(&["a", "x", "z"])).is_none());
    assert!(matches!(d.get(&path(&["a"])), Some(DocNode::Branch(_))));
    assert!(matches!(d.get(&Vec::new()), Some(DocNode::Branch(_))));
}
