use unzip::entry::{normalize_entry, ArchiveEntry, RawEntry};
use unzip::tree::TreeNode;

fn entry(path: &str, is_dir: bool, size: u64) -> ArchiveEntry {
    normalize_entry(&RawEntry { path: path.to_string(), is_dir, size, mtime: None })
}

#[test]
fn test_forest_two_roots() {
    let items = vec![entry("a/", true, 0), entry("a/b.txt", false, 3), entry("c.txt", false, 5)];
    let forest = TreeNode::build_tree(items, String::new());
    assert_eq!(forest.len(), 2);
    assert_eq!(forest[0].item.path, "a/");
    assert_eq!(forest[0].item.parent_path, None);
    let kids = forest[0].children.as_ref().unwrap();
    assert_eq!(kids.len(), 1);
    assert_eq!(kids[0].item.name, "b.txt");
    assert_eq!(kids[0].item.size, 3);
    assert_eq!(forest[1].item.path, "c.txt");
    assert_eq!(forest[1].item.size, 5);
    assert_eq!(forest[1].item.parent_path, None);
}

#[test]
fn test_build_tree_deterministic() {
    let items = || {
        vec![entry("a/", true, 0), entry("a/b.txt", false, 3), entry("c.txt", false, 5)]
    };
    let f1 = TreeNode::build_tree(items(), String::new());
    let f2 = TreeNode::build_tree(items(), String::new());
    assert_eq!(f1, f2);
}

#[test]
fn test_unreachable_entries_absent() {
    let items = vec![entry("a/b.txt", false, 3), entry("c.txt", false, 5)];
    let forest = TreeNode::build_tree(items, String::new());
    assert_eq!(forest.len(), 1);
    assert_eq!(forest[0].item.path, "c.txt");
}

#[test]
fn test_sibling_order_follows_input() {
    let items = vec![entry("z.txt", false, 1), entry("a.txt", false, 2), entry("m.txt", false, 3)];
    let forest = TreeNode::build_tree(items, String::new());
    let names: Vec<&str> = forest.iter().map(|n| n.item.name.as_str()).collect();
    assert_eq!(names, vec!["z.txt", "a.txt", "m.txt"]);
}

#[test]
fn test_empty_input_empty_forest() {
    let forest = TreeNode::build_tree(Vec::<ArchiveEntry>::new(), String::new());
    assert!(forest.is_empty());
}

#[test]
fn test_init_tree_wraps_items() {
    let items = vec![entry("a.txt", false, 1), entry("b.txt", false, 2)];
    let nodes = TreeNode::init_tree(items);
    assert_eq!(nodes.len(), 2);
    assert_eq!(nodes[0].item.path, "a.txt");
    assert!(nodes[0].children.is_none());
    assert!(nodes[1].children.is_none());
}

#[test]
fn test_set_tree_matches_parent_key() {
    let nodes = TreeNode::init_tree(vec![
        entry("a/", true, 0),
        entry("a/x.txt", false, 1),
        entry("b.txt", false, 2),
    ]);
    let sub = TreeNode::set_tree(&nodes, &"a/".to_string());
    assert_eq!(sub.len(), 1);
    assert_eq!(sub[0].item.name, "x.txt");
}

#[test]
fn test_deep_nesting() {
    let items = vec![
        entry("a/", true, 0),
        entry("a/b/", true, 0),
        entry("a/b/c/", true, 0),
        entry("a/b/c/d.txt", false, 4),
    ];
    let forest = TreeNode::build_tree(items, String::new());
    assert_eq!(forest.len(), 1);
    let l1 = forest[0].children.as_ref().unwrap();
    let l2 = l1[0].children.as_ref().unwrap();
    let l3 = l2[0].children.as_ref().unwrap();
    assert_eq!(l3[0].item.name, "d.txt");
    assert!(l3[0].children.as_ref().unwrap().is_empty());
}
