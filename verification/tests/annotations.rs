use pdflib::annotation::page_annotations_iter;
use pdflib::graph::ObjectGraph;
use pdflib::object::{Dictionary, Object};

fn page_with(annots: Option<Object>) -> Object {
    let mut page = Dictionary::new();
    page.set(b"Type".to_vec(), Object::Name(b"Page".to_vec()));
    if let Some(annots) = annots {
        page.set(b"Annots".to_vec(), annots);
    }
    Object::Dictionary(page)
}

#[test]
fn only_references_are_listed() {
    let mut graph = ObjectGraph::new();
    let inline = Object::Dictionary(Dictionary::new());
    graph.set_object(
        (1, 0),
        page_with(Some(Object::Array(vec![
            Object::Reference((7, 0)),
            inline,
            Object::Integer(3),
            Object::Reference((5, 2)),
        ]))),
    );
    assert_eq!(page_annotations_iter(&graph, &vec![(1, 0)]), vec![(7, 0), (5, 2)]);
}

#[test]
fn pages_are_taken_in_walking_order() {
    let mut graph = ObjectGraph::new();
    graph.set_object((1, 0), page_with(Some(Object::Array(vec![Object::Reference((11, 0))]))));
    graph.set_object((2, 0), page_with(Some(Object::Array(vec![Object::Reference((21, 0)), Object::Reference((22, 0))]))));
    graph.set_object((3, 0), page_with(None));
    assert_eq!(
        page_annotations_iter(&graph, &vec![(2, 0), (3, 0), (1, 0)]),
        vec![(21, 0), (22, 0), (11, 0)]
    );
    assert_eq!(page_annotations_iter(&graph, &vec![]), vec![]);
}

#[test]
fn the_array_may_be_an_object_of_its_own() {
    let mut graph = ObjectGraph::new();
    graph.set_object((1, 0), page_with(Some(Object::Reference((9, 0)))));
    graph.set_object((9, 0), Object::Array(vec![Object::Reference((4, 0))]));
    assert_eq!(page_annotations_iter(&graph, &vec![(1, 0)]), vec![(4, 0)]);
}

#[test]
fn pages_without_a_usable_array_have_no_annotations() {
    let mut graph = ObjectGraph::new();
    graph.set_object((1, 0), page_with(None));
    graph.set_object((2, 0), page_with(Some(Object::Integer(1))));
    graph.set_object((3, 0), page_with(Some(Object::Reference((99, 0)))));
    graph.set_object((4, 0), page_with(Some(Object::Reference((5, 0)))));
    graph.set_object((5, 0), Object::Reference((6, 0)));
    graph.set_object((6, 0), Object::Array(vec![Object::Reference((7, 0))]));
    graph.set_object((8, 0), Object::Integer(0));
    let pages = vec![(1, 0), (2, 0), (3, 0), (4, 0), (8, 0), (77, 0)];
    assert_eq!(page_annotations_iter(&graph, &pages), vec![]);
}

#[test]
fn a_page_listed_twice_is_read_twice() {
    let mut graph = ObjectGraph::new();
    graph.set_object((1, 0), page_with(Some(Object::Array(vec![Object::Reference((4, 0))]))));
    assert_eq!(page_annotations_iter(&graph, &vec![(1, 0), (1, 0)]), vec![(4, 0), (4, 0)]);
}
