use tere::history::{HistoryTree, HistoryTreeEntry};

fn init_history_tree() -> HistoryTree {
    HistoryTree::from_root(HistoryTreeEntry::new("/"))
}

fn child_labels(e: &HistoryTreeEntry) -> Vec<String> {
    e.children().iter().map(|c| c.label().clone()).collect()
}

#[test]
fn test_history_tree_visit() {
    let mut tree = init_history_tree();

    tree.visit("foo");
    assert_eq!(tree.current_entry().label(), "foo");
    assert_eq!(tree.parent_entry().unwrap().label(), "/");

    tree.visit("bar");
    assert_eq!(tree.current_entry().label(), "bar");
    assert_eq!(tree.parent_entry().unwrap().label(), "foo");
    assert_eq!(tree.current_path_labels(), vec!["/", "foo", "bar"]);
}

#[test]
fn test_history_tree_go_up_down() {
    let mut tree = init_history_tree();

    tree.visit("foo");
    tree.visit("bar");

    tree.go_up();
    assert_eq!(tree.current_entry().label(), "foo");
    assert_eq!(tree.current_entry().children()[0].label(), "bar");

    tree.go_up();
    assert_eq!(tree.current_entry().label(), "/");
    assert_eq!(tree.current_entry().children()[0].label(), "foo");

    tree.go_up();
    assert_eq!(tree.current_entry().label(), "/");
    assert_eq!(tree.current_entry().children()[0].label(), "foo");
}

#[test]
fn test_tree_pointer_counts() {
    // The tree owns its entries, so what the counts of shared pointers checked
    // is checked here on the structure: each folder is stored once, under its
    // parent, and the last visited child is recorded by the parent.
    let mut tree = init_history_tree();
    tree.visit("foo");
    tree.visit("bar");

    assert_eq!(child_labels(tree.root()), vec!["foo"]);
    assert_eq!(child_labels(&tree.root().children()[0]), vec!["bar"]);
    assert_eq!(tree.root().last_visited_child_label(), Some("foo".to_string()));
    assert_eq!(tree.root().children()[0].last_visited_child_label(), Some("bar".to_string()));

    tree.go_up();
    tree.go_up();
    assert_eq!(child_labels(&tree.root().children()[0]), vec!["bar"]);
    assert_eq!(tree.root().children()[0].last_visited_child_label(), Some("bar".to_string()));

    tree.visit("baz");
    assert_eq!(child_labels(tree.root()), vec!["foo", "baz"]);
}

#[test]
fn test_last_visisted_child() {
    let mut tree = init_history_tree();
    tree.visit("foo");
    let foo = tree.current_entry().label().clone();
    tree.go_up();
    assert_eq!(tree.current_entry().last_visited_child_label(), Some(foo));
}

#[test]
fn test_go_to_root() {
    let mut tree = init_history_tree();
    tree.visit("foo");
    tree.visit("bar");
    tree.visit("baz");
    tree.go_to_root();
    assert_eq!(tree.current_path_labels(), vec!["/"]);
    assert_eq!(tree.current_entry().label(), "/");
}

#[test]
fn test_from_abs_path() {
    let mut tree = HistoryTree::from_abs_path("/foo/bar/baz");
    assert_eq!(tree.current_entry().label(), "baz");
    tree.go_to_root();
    assert_eq!(tree.current_entry().last_visited_child_label().unwrap(), "foo");
    tree.visit("foo");
    assert_eq!(tree.current_entry().label(), "foo");
    assert_eq!(tree.current_entry().last_visited_child_label().unwrap(), "bar");
    tree.visit("bar");
    assert_eq!(tree.current_entry().label(), "bar");
    assert_eq!(tree.current_entry().last_visited_child_label().unwrap(), "baz");
    tree.visit("baz");
    assert_eq!(tree.current_entry().label(), "baz");
    assert_eq!(tree.current_entry().last_visited_child_label(), None);
}

#[test]
fn test_change_dir() {
    let mut tree = HistoryTree::from_abs_path("/foo/bar/baz");
    tree.change_dir("/foo/bax");
    assert_eq!(tree.current_entry().label(), "bax");
    tree.go_up();
    assert_eq!(
        vec!["bar".to_string(), "bax".to_string()],
        child_labels(tree.current_entry())
    );
    tree.visit("bar");
    assert_eq!(tree.current_entry().last_visited_child_label(), Some("baz".to_string()));

    tree.change_dir("/");
    assert_eq!(tree.current_path_labels(), vec!["/"]);

    tree.change_dir("/foo/bax");
}

#[test]
fn test_debug_print() {
    let mut tree = HistoryTree::from_abs_path("/foo/bar/baz");
    tree.change_dir("/foo/bar/boo");
    tree.change_dir("/qux/zoo");
    println!("{:#?}", tree);
}

#[test]
fn history_visit_then_go_up_returns_to_parent() {
    let mut tree = HistoryTree::from_abs_path("/a/b");
    let before = tree.current_path_labels();
    tree.visit("c");
    tree.go_up();
    assert_eq!(tree.current_path_labels(), before);
    assert_eq!(tree.current_entry().last_visited_child_label(), Some("c".to_string()));
}

#[test]
fn history_go_up_at_root_does_nothing() {
    let mut tree = HistoryTree::from_abs_path("/");
    tree.go_up();
    assert_eq!(tree.current_path_labels(), vec!["/"]);
}

#[test]
fn history_revisit_reuses_entry() {
    let mut tree = HistoryTree::from_abs_path("/");
    tree.visit("x");
    tree.go_up();
    tree.visit("x");
    tree.go_up();
    assert_eq!(child_labels(tree.current_entry()), vec!["x"]);
}

#[test]
fn history_from_parts_finds_last_visited_child() {
    let a = HistoryTreeEntry::from_parts("a".to_string(), None, vec![]);
    let b = HistoryTreeEntry::from_parts("b".to_string(), None, vec![]);
    let root = HistoryTreeEntry::from_parts("/".to_string(), Some("b".to_string()), vec![a, b]);
    assert_eq!(root.last_visited_child_label(), Some("b".to_string()));
    let c = HistoryTreeEntry::from_parts("c".to_string(), Some("missing".to_string()), vec![]);
    assert_eq!(c.last_visited_child_label(), None);
}
