use miniredis::streams::{tree_lines, Stream, StreamNode};
use std::collections::HashMap;

fn fields(pairs: &[(&str, &str)]) -> HashMap<String, String> {
    pairs.iter().map(|(k, v)| (k.to_string(), v.to_string())).collect()
}

fn child<'a>(node: &'a StreamNode, prefix: &str) -> &'a StreamNode {
    node.children.iter().find(|c| c.prefix == prefix).expect("child with that fragment")
}

#[test]
fn a_new_node_has_no_children() {
    let n = StreamNode::new("1-".to_string(), Some(fields(&[("a", "1")])));
    assert_eq!(n.prefix, "1-");
    assert_eq!(n.data, fields(&[("a", "1")]));
    assert!(n.children.is_empty());
    let e = StreamNode::new(String::new(), None);
    assert!(e.data.is_empty());
}

#[test]
fn a_new_stream_is_empty() {
    let s = Stream::new();
    assert_eq!(s.root.prefix, "");
    assert!(s.root.data.is_empty());
    assert!(s.root.children.is_empty());
    assert_eq!(s.last_id, "0-0");
}

#[test]
fn first_insert_adds_a_child_of_the_root() {
    let mut s = Stream::new();
    s.insert("1-0".to_string(), Some(fields(&[("temp", "20")])));
    assert_eq!(s.root.children.len(), 1);
    let c = child(&s.root, "1-0");
    assert_eq!(c.data, fields(&[("temp", "20")]));
    assert!(c.children.is_empty());
    assert_eq!(s.last_id, "1-0");
}

#[test]
fn an_id_sharing_a_prefix_splits_the_node() {
    let mut s = Stream::new();
    s.insert("1-0".to_string(), Some(fields(&[("a", "1")])));
    s.insert("1-1".to_string(), Some(fields(&[("b", "2")])));
    assert_eq!(s.root.children.len(), 1);
    let mid = child(&s.root, "1-");
    assert!(mid.data.is_empty());
    assert_eq!(mid.children.len(), 2);
    assert_eq!(child(mid, "0").data, fields(&[("a", "1")]));
    assert_eq!(child(mid, "1").data, fields(&[("b", "2")]));
    assert_eq!(s.last_id, "1-1");
}

#[test]
fn ids_with_other_first_characters_are_siblings() {
    let mut s = Stream::new();
    s.insert("1-0".to_string(), None);
    s.insert("2-0".to_string(), Some(fields(&[("c", "3")])));
    assert_eq!(s.root.children.len(), 2);
    assert!(child(&s.root, "1-0").data.is_empty());
    assert_eq!(child(&s.root, "2-0").data, fields(&[("c", "3")]));
}

#[test]
fn inserting_an_existing_id_replaces_its_fields() {
    let mut s = Stream::new();
    s.insert("1-0".to_string(), Some(fields(&[("a", "1")])));
    s.insert("1-1".to_string(), Some(fields(&[("b", "2")])));
    s.insert("1-0".to_string(), Some(fields(&[("a", "9")])));
    let mid = child(&s.root, "1-");
    assert_eq!(mid.children.len(), 2);
    assert_eq!(child(mid, "0").data, fields(&[("a", "9")]));
    assert_eq!(s.last_id, "1-0");
}

#[test]
fn a_longer_id_goes_below_the_node_it_extends() {
    let mut s = Stream::new();
    s.insert("10".to_string(), Some(fields(&[("a", "1")])));
    s.insert("105".to_string(), Some(fields(&[("b", "2")])));
    let top = child(&s.root, "10");
    assert_eq!(top.data, fields(&[("a", "1")]));
    assert_eq!(child(top, "5").data, fields(&[("b", "2")]));
}

#[test]
fn the_tree_is_shown_one_fragment_per_line() {
    let mut s = Stream::new();
    s.insert("1-0".to_string(), None);
    s.insert("1-1".to_string(), None);
    s.insert("2-0".to_string(), None);
    let lines = tree_lines(&s.root, String::new());
    assert_eq!(
        lines,
        vec![
            " └── ".to_string(),
            "      └── 1-".to_string(),
            "           └── 0".to_string(),
            "           └── 1".to_string(),
            "      └── 2-0".to_string(),
        ]
    );
    let leaf = StreamNode::new("x".to_string(), None);
    assert_eq!(tree_lines(&leaf, ">".to_string()), vec!["> └── x".to_string()]);
}

#[test]
fn an_empty_id_goes_into_an_empty_tree() {
    let mut s = Stream::new();
    s.insert(String::new(), Some(fields(&[("a", "1")])));
    assert_eq!(s.root.children.len(), 1);
    assert_eq!(child(&s.root, "").data, fields(&[("a", "1")]));
    assert_eq!(s.last_id, "");
}

#[test]
fn a_non_ascii_id_with_a_new_first_character_becomes_a_child() {
    let mut s = Stream::new();
    s.insert("1-0".to_string(), None);
    s.insert("é-1".to_string(), Some(fields(&[("b", "2")])));
    assert_eq!(s.root.children.len(), 2);
    assert_eq!(child(&s.root, "é-1").data, fields(&[("b", "2")]));
    assert_eq!(s.last_id, "é-1");
}

#[test]
fn an_insert_only_needs_the_nodes_it_visits_to_be_sound() {
    let mut s = Stream::new();
    s.insert("1-5".to_string(), Some(fields(&[("a", "1")])));
    s.insert("1-".to_string(), Some(fields(&[("b", "2")])));
    let mid = child(&s.root, "1-");
    assert!(mid.data.is_empty());
    assert_eq!(child(mid, "5").data, fields(&[("a", "1")]));
    assert_eq!(child(mid, "").data, fields(&[("b", "2")]));
    s.insert("2-0".to_string(), Some(fields(&[("c", "3")])));
    assert_eq!(child(&s.root, "2-0").data, fields(&[("c", "3")]));
    assert_eq!(s.last_id, "2-0");
}

#[test]
fn a_non_ascii_rest_after_an_ascii_shared_part_is_split_off() {
    let mut s = Stream::new();
    s.insert("1-0".to_string(), None);
    s.insert("1é".to_string(), Some(fields(&[("e", "5")])));
    let top = child(&s.root, "1");
    assert_eq!(top.children.len(), 2);
    assert!(child(top, "-0").data.is_empty());
    assert_eq!(child(top, "é").data, fields(&[("e", "5")]));
}
