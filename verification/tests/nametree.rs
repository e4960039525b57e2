use pdflib::graph::ObjectGraph;
use pdflib::nametree::{name_tree_iter, number_tree_iter};
use pdflib::object::{Dictionary, Object};

fn text(s: &str) -> Object {
    Object::string_literal(s.as_bytes().to_vec())
}

fn node(key: &str, items: Vec<Object>) -> Dictionary {
    let mut d = Dictionary::new();
    d.set(key.as_bytes().to_vec(), Object::Array(items));
    d
}

#[test]
fn two_kids_with_one_pair_each() {
    let mut graph = ObjectGraph::new();
    graph.set_object((1, 0), Object::Dictionary(node("Names", vec![text("a"), Object::Integer(1)])));
    graph.set_object((2, 0), Object::Dictionary(node("Names", vec![text("b"), Object::Integer(2)])));
    let root = node("Kids", vec![Object::Reference((1, 0)), Object::Reference((2, 0))]);
    let pairs = name_tree_iter(&graph, &root);
    assert_eq!(
        pairs,
        vec![(&text("a"), &Object::Integer(1)), (&text("b"), &Object::Integer(2))]
    );
}

#[test]
fn kid_order_is_kept_not_key_order() {
    let mut graph = ObjectGraph::new();
    graph.set_object((1, 0), Object::Dictionary(node("Names", vec![text("z"), Object::Integer(1)])));
    graph.set_object((2, 0), Object::Dictionary(node("Names", vec![text("a"), Object::Integer(2)])));
    let root = node("Kids", vec![Object::Reference((2, 0)), Object::Reference((1, 0))]);
    let pairs = name_tree_iter(&graph, &root);
    assert_eq!(
        pairs,
        vec![(&text("a"), &Object::Integer(2)), (&text("z"), &Object::Integer(1))]
    );
}

#[test]
fn node_without_kids_or_names_is_empty() {
    let graph = ObjectGraph::new();
    let mut root = Dictionary::new();
    root.set(b"Limits".to_vec(), Object::Array(vec![text("a"), text("z")]));
    assert!(name_tree_iter(&graph, &root).is_empty());
    assert!(number_tree_iter(&graph, &root).is_empty());
    assert!(name_tree_iter(&graph, &Dictionary::new()).is_empty());
}

#[test]
fn leaf_pairs_come_two_by_two() {
    let graph = ObjectGraph::new();
    let root = node(
        "Names",
        vec![text("a"), Object::Integer(1), text("b"), Object::Integer(2), text("c")],
    );
    let pairs = name_tree_iter(&graph, &root);
    assert_eq!(
        pairs,
        vec![(&text("a"), &Object::Integer(1)), (&text("b"), &Object::Integer(2))]
    );
}

#[test]
fn number_tree_reads_nums_at_every_level() {
    let mut graph = ObjectGraph::new();
    graph.set_object(
        (1, 0),
        Object::Dictionary(node("Nums", vec![Object::Integer(0), text("i"), Object::Integer(4), text("1")])),
    );
    graph.set_object((2, 0), Object::Dictionary(node("Names", vec![text("x"), text("y")])));
    let root = node("Kids", vec![Object::Reference((1, 0)), Object::Reference((2, 0))]);
    let pairs = number_tree_iter(&graph, &root);
    assert_eq!(
        pairs,
        vec![(&Object::Integer(0), &text("i")), (&Object::Integer(4), &text("1"))]
    );
    let names = name_tree_iter(&graph, &root);
    assert_eq!(names, vec![(&text("x"), &text("y"))]);
}

#[test]
fn kids_win_over_names() {
    let mut graph = ObjectGraph::new();
    graph.set_object((1, 0), Object::Dictionary(node("Names", vec![text("k"), Object::Integer(1)])));
    let mut root = node("Names", vec![text("own"), Object::Integer(0)]);
    root.set(b"Kids".to_vec(), Object::Array(vec![Object::Reference((1, 0))]));
    assert_eq!(name_tree_iter(&graph, &root), vec![(&text("k"), &Object::Integer(1))]);
}

#[test]
fn kids_that_are_no_array_leave_the_names() {
    let mut graph = ObjectGraph::new();
    graph.set_object((1, 0), Object::Array(vec![]));
    let mut root = node("Names", vec![text("own"), Object::Integer(0)]);
    root.set(b"Kids".to_vec(), Object::Reference((1, 0)));
    assert_eq!(name_tree_iter(&graph, &root), vec![(&text("own"), &Object::Integer(0))]);
}

#[test]
fn kid_that_does_not_resolve_is_skipped() {
    let mut graph = ObjectGraph::new();
    graph.set_object((1, 0), Object::Integer(5));
    graph.set_object((3, 0), Object::Dictionary(node("Names", vec![text("c"), Object::Null])));
    let root = node(
        "Kids",
        vec![
            Object::Reference((1, 0)),
            Object::Reference((2, 0)),
            Object::Integer(8),
            Object::Reference((3, 0)),
        ],
    );
    assert_eq!(name_tree_iter(&graph, &root), vec![(&text("c"), &Object::Null)]);
}

#[test]
fn kid_written_in_place_is_a_node() {
    let graph = ObjectGraph::new();
    let leaf = node("Names", vec![text("in"), Object::Integer(1)]);
    let branch = node("Kids", vec![Object::Dictionary(leaf)]);
    let root = node("Kids", vec![Object::Dictionary(branch)]);
    assert_eq!(name_tree_iter(&graph, &root), vec![(&text("in"), &Object::Integer(1))]);
}

#[test]
fn three_levels_are_flattened_in_order() {
    let mut graph = ObjectGraph::new();
    graph.set_object((1, 0), Object::Dictionary(node("Kids", vec![Object::Reference((2, 0)), Object::Reference((3, 0))])));
    graph.set_object((2, 0), Object::Dictionary(node("Names", vec![text("a"), Object::Integer(1)])));
    graph.set_object((3, 0), Object::Dictionary(node("Names", vec![text("b"), Object::Integer(2)])));
    graph.set_object((4, 0), Object::Dictionary(node("Names", vec![text("c"), Object::Integer(3)])));
    let root = node("Kids", vec![Object::Reference((1, 0)), Object::Reference((4, 0))]);
    assert_eq!(
        name_tree_iter(&graph, &root),
        vec![
            (&text("a"), &Object::Integer(1)),
            (&text("b"), &Object::Integer(2)),
            (&text("c"), &Object::Integer(3)),
        ]
    );
}

#[test]
fn a_tree_that_refers_to_itself_ends() {
    let mut graph = ObjectGraph::new();
    graph.set_object((1, 0), Object::Dictionary(node("Kids", vec![Object::Reference((1, 0))])));
    let root = node("Kids", vec![Object::Reference((1, 0))]);
    assert!(name_tree_iter(&graph, &root).is_empty());
}

#[test]
fn a_cycle_beside_a_leaf_keeps_the_leaf() {
    let mut graph = ObjectGraph::new();
    graph.set_object(
        (1, 0),
        Object::Dictionary(node("Kids", vec![Object::Reference((2, 0)), Object::Reference((1, 0))])),
    );
    graph.set_object((2, 0), Object::Dictionary(node("Names", vec![text("a"), Object::Integer(1)])));
    let root = node("Kids", vec![Object::Reference((1, 0))]);
    let pairs = name_tree_iter(&graph, &root);
    // two objects, so a path may follow two references: the leaf is reached
    // through the branch, and the repetition of the branch has no hop left
    assert_eq!(pairs.len(), 1);
    assert_eq!(pairs[0], (&text("a"), &Object::Integer(1)));
}
