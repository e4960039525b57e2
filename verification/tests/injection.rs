use pdflib::destination::NamedDestination;
use pdflib::document::PdfDocument;
use pdflib::error::{PdfLibError, StructureError};
use pdflib::graph::ObjectGraph;
use pdflib::inject::{add_links, annots_slot, append_annots_to_page, AnnotsSlot, DestinationLink};
use pdflib::object::{Dictionary, Number, Object, Real, StringFormat};
use pdflib::overlay::{overlay_rectangle, rectangle_link, Colour, RectangleObject};

fn name(s: &str) -> Object {
    Object::Name(s.as_bytes().to_vec())
}

fn real_of(x: f32) -> Real {
    Real { bits: x.to_bits() }
}

fn as_f32(n: Number) -> f32 {
    match n {
        Number::Integer(i) => i as f32,
        Number::Real(x) => f32::from_bits(x.bits),
    }
}

fn fill() -> Colour {
    Colour {
        red: real_of((143.0f64 / 255.0) as f32),
        green: real_of((188.0f64 / 255.0) as f32),
        blue: real_of((187.0f64 / 255.0) as f32),
    }
}

fn minus(number: Number, offset: i64) -> Real {
    real_of(as_f32(number) - offset as f32)
}

#[test]
fn the_rectangle_lies_before_the_position() {
    let at = overlay_rectangle(
        Number::Real(real_of(100.0)),
        Number::Real(real_of(200.0)),
        fill(),
        &minus,
    );
    assert_eq!(at, rect(90.0, 190.0, 95.0, 195.0));
    let default = overlay_rectangle(Number::Integer(10), Number::Integer(10), fill(), &minus);
    assert_eq!(default, rect(0.0, 0.0, 5.0, 5.0));
    let mixed = overlay_rectangle(Number::Integer(72), Number::Real(real_of(0.5)), fill(), &minus);
    assert_eq!(mixed, rect(62.0, -9.5, 67.0, -4.5));
    assert_eq!(mixed.colour, fill());
}

fn rect(a: f32, b: f32, c: f32, d: f32) -> RectangleObject {
    RectangleObject { x_ll: real_of(a), y_ll: real_of(b), x_ur: real_of(c), y_ur: real_of(d), colour: fill() }
}

fn page_with(annots: Option<Object>) -> Object {
    let mut page = Dictionary::new();
    page.set(b"Type".to_vec(), name("Page"));
    if let Some(annots) = annots {
        page.set(b"Annots".to_vec(), annots);
    }
    Object::Dictionary(page)
}

fn refs(ids: &[(u32, u16)]) -> Vec<Object> {
    ids.iter().map(|id| Object::Reference(*id)).collect()
}

#[test]
fn the_two_annotations_of_a_link() {
    let r = rect(90.0, 190.0, 95.0, 195.0);
    let objects = rectangle_link(&r, "akl://cite-document/?uri=x".to_string());
    let rect_array = Object::Array(vec![
        Object::Real(real_of(90.0)),
        Object::Real(real_of(190.0)),
        Object::Real(real_of(95.0)),
        Object::Real(real_of(195.0)),
    ]);
    let border = Object::Array(vec![Object::Integer(0), Object::Integer(0), Object::Integer(0)]);
    let mut action = Dictionary::new();
    action.set(b"S".to_vec(), name("URI"));
    action.set(b"Type".to_vec(), name("Action"));
    action.set(
        b"URI".to_vec(),
        Object::String(b"akl://cite-document/?uri=x".to_vec(), StringFormat::Literal),
    );
    let mut link = Dictionary::new();
    link.set(b"Type".to_vec(), name("Annot"));
    link.set(b"Subtype".to_vec(), name("Link"));
    link.set(b"Rect".to_vec(), rect_array.clone());
    link.set(b"Border".to_vec(), border.clone());
    link.set(b"A".to_vec(), Object::Dictionary(action));
    let mut square = Dictionary::new();
    square.set(b"Type".to_vec(), name("Annot"));
    square.set(b"Subtype".to_vec(), name("Square"));
    square.set(b"Rect".to_vec(), rect_array);
    square.set(b"Border".to_vec(), border);
    square.set(
        b"IC".to_vec(),
        Object::Array(vec![
            Object::Real(fill().red),
            Object::Real(fill().green),
            Object::Real(fill().blue),
        ]),
    );
    assert_eq!(objects, vec![Object::Dictionary(link), Object::Dictionary(square)]);
    assert_eq!(objects[0].as_dict().unwrap().key_at(4), &b"A".to_vec());
}

#[test]
fn a_page_without_annots_gets_an_array_of_its_own() {
    let mut graph = ObjectGraph::new();
    graph.set_object((1, 0), page_with(None));
    let mut elts = refs(&[(7, 0), (8, 0)]);
    assert_eq!(append_annots_to_page(&mut graph, (1, 0), &mut elts), Ok(()));
    assert!(elts.is_empty());
    assert_eq!(graph.get_object((1, 0)), Ok(&page_with(Some(Object::Array(refs(&[(7, 0), (8, 0)]))))));
    assert_eq!(graph.objects.len(), 1);
}

#[test]
fn an_array_in_the_page_gets_the_new_items_behind_its_own() {
    let mut graph = ObjectGraph::new();
    graph.set_object((1, 0), page_with(Some(Object::Array(vec![Object::Reference((3, 0)), Object::Null]))));
    let mut elts = refs(&[(7, 0)]);
    assert_eq!(append_annots_to_page(&mut graph, (1, 0), &mut elts), Ok(()));
    assert_eq!(
        graph.get_object((1, 0)),
        Ok(&page_with(Some(Object::Array(vec![
            Object::Reference((3, 0)),
            Object::Null,
            Object::Reference((7, 0)),
        ]))))
    );
}

#[test]
fn an_array_behind_a_reference_is_extended_in_its_place() {
    let mut graph = ObjectGraph::new();
    graph.set_object((1, 0), page_with(Some(Object::Reference((2, 0)))));
    graph.set_object((2, 0), Object::Array(refs(&[(3, 0), (4, 0)])));
    let mut elts = refs(&[(7, 0), (8, 0)]);
    assert_eq!(append_annots_to_page(&mut graph, (1, 0), &mut elts), Ok(()));
    assert!(elts.is_empty());
    assert_eq!(graph.get_object((1, 0)), Ok(&page_with(Some(Object::Reference((2, 0))))));
    assert_eq!(
        graph.get_object((2, 0)),
        Ok(&Object::Array(refs(&[(3, 0), (4, 0), (7, 0), (8, 0)])))
    );
}

#[test]
fn any_other_annots_entry_is_an_invalid_annotation() {
    let mut graph = ObjectGraph::new();
    graph.set_object((1, 0), page_with(Some(Object::Integer(5))));
    let before = graph.clone();
    let mut elts = refs(&[(7, 0)]);
    assert_eq!(
        append_annots_to_page(&mut graph, (1, 0), &mut elts),
        Err(PdfLibError::InvalidAnnotation(1, 0))
    );
    assert_eq!(graph, before);
    assert_eq!(elts, refs(&[(7, 0)]));
    graph.set_object((1, 0), page_with(Some(Object::Dictionary(Dictionary::new()))));
    assert_eq!(
        append_annots_to_page(&mut graph, (1, 0), &mut elts),
        Err(PdfLibError::InvalidAnnotation(1, 0))
    );
}

#[test]
fn a_page_or_an_array_that_is_not_there() {
    let mut graph = ObjectGraph::new();
    graph.set_object((1, 0), page_with(Some(Object::Reference((2, 0)))));
    graph.set_object((3, 0), Object::Integer(0));
    graph.set_object((4, 0), page_with(Some(Object::Reference((3, 0)))));
    let before = graph.clone();
    let mut elts = refs(&[(7, 0)]);
    assert_eq!(
        append_annots_to_page(&mut graph, (9, 0), &mut elts),
        Err(PdfLibError::PDFError(StructureError::ObjectNotFound(9, 0)))
    );
    assert_eq!(
        append_annots_to_page(&mut graph, (3, 0), &mut elts),
        Err(PdfLibError::PDFError(StructureError::ObjectType))
    );
    assert_eq!(
        append_annots_to_page(&mut graph, (1, 0), &mut elts),
        Err(PdfLibError::PDFError(StructureError::ObjectNotFound(2, 0)))
    );
    assert_eq!(
        append_annots_to_page(&mut graph, (4, 0), &mut elts),
        Err(PdfLibError::PDFError(StructureError::ObjectType))
    );
    assert_eq!(graph, before);
    assert_eq!(elts, refs(&[(7, 0)]));
}

#[test]
fn the_slot_of_a_page() {
    let as_dict = |o: Object| match o {
        Object::Dictionary(d) => d,
        _ => Dictionary::new(),
    };
    assert_eq!(annots_slot(&as_dict(page_with(None))), AnnotsSlot::Missing);
    assert_eq!(annots_slot(&as_dict(page_with(Some(Object::Array(vec![]))))), AnnotsSlot::Direct);
    assert_eq!(
        annots_slot(&as_dict(page_with(Some(Object::Reference((4, 2)))))),
        AnnotsSlot::Indirect((4, 2))
    );
    assert_eq!(annots_slot(&as_dict(page_with(Some(Object::Null)))), AnnotsSlot::Other);
}

fn link_to(page: u32, url: &str) -> DestinationLink {
    DestinationLink { page: (page, 0), rect: rect(0.0, 0.0, 5.0, 5.0), url: url.to_string() }
}

#[test]
fn links_become_objects_and_go_to_their_pages() {
    let mut graph = ObjectGraph::new();
    graph.max_id = 20;
    graph.set_object((1, 0), page_with(None));
    graph.set_object((2, 0), page_with(Some(Object::Reference((3, 0)))));
    graph.set_object((3, 0), Object::Array(refs(&[(15, 0)])));
    let mut annotations = vec![(15, 0)];
    let links = vec![link_to(2, "a"), link_to(1, "b"), link_to(2, "c")];
    assert_eq!(add_links(&mut graph, &mut annotations, &links), Ok(()));
    assert_eq!(graph.max_id, 26);
    assert_eq!(graph.objects.len(), 9);
    for (i, link) in links.iter().enumerate() {
        let made = rectangle_link(&link.rect, link.url.clone());
        assert_eq!(graph.get_object((21 + 2 * i as u32, 0)), Ok(&made[0]));
        assert_eq!(graph.get_object((22 + 2 * i as u32, 0)), Ok(&made[1]));
    }
    assert_eq!(
        graph.get_object((3, 0)),
        Ok(&Object::Array(refs(&[(15, 0), (21, 0), (22, 0), (25, 0), (26, 0)])))
    );
    assert_eq!(graph.get_object((1, 0)), Ok(&page_with(Some(Object::Array(refs(&[(23, 0), (24, 0)]))))));
    assert_eq!(
        annotations,
        vec![(15, 0), (21, 0), (22, 0), (25, 0), (26, 0), (23, 0), (24, 0)]
    );
}

#[test]
fn the_first_page_that_refuses_ends_the_injection() {
    let mut graph = ObjectGraph::new();
    graph.max_id = 3;
    graph.set_object((1, 0), page_with(None));
    graph.set_object((2, 0), page_with(Some(Object::Boolean(false))));
    graph.set_object((3, 0), page_with(None));
    let mut annotations = vec![];
    let links = vec![link_to(1, "a"), link_to(2, "b"), link_to(3, "c")];
    assert_eq!(
        add_links(&mut graph, &mut annotations, &links),
        Err(PdfLibError::InvalidAnnotation(2, 0))
    );
    // nothing is undone: the objects are there, the first page has its link,
    // the annotations of the refusing page are known, the third page was not reached
    assert_eq!(graph.max_id, 9);
    assert_eq!(graph.objects.len(), 9);
    assert_eq!(graph.get_object((1, 0)), Ok(&page_with(Some(Object::Array(refs(&[(4, 0), (5, 0)]))))));
    assert_eq!(graph.get_object((2, 0)), Ok(&page_with(Some(Object::Boolean(false)))));
    assert_eq!(graph.get_object((3, 0)), Ok(&page_with(None)));
    assert_eq!(annotations, vec![(4, 0), (5, 0), (6, 0), (7, 0)]);
}

#[test]
fn no_links_change_nothing() {
    let mut graph = ObjectGraph::new();
    graph.max_id = 1;
    graph.set_object((1, 0), page_with(None));
    let before = graph.clone();
    let mut annotations = vec![(1, 0)];
    assert_eq!(add_links(&mut graph, &mut annotations, &vec![]), Ok(()));
    assert_eq!(graph, before);
    assert_eq!(annotations, vec![(1, 0)]);
}

fn document_with_destinations() -> PdfDocument {
    let mut graph = ObjectGraph::new();
    graph.max_id = 6;
    graph.trailer.set(b"Root".to_vec(), Object::Reference((1, 0)));
    let mut flat = Dictionary::new();
    flat.set(
        b"intro".to_vec(),
        Object::Array(vec![
            Object::Reference((3, 0)),
            name("XYZ"),
            Object::Real(real_of(100.0)),
            Object::Real(real_of(200.0)),
        ]),
    );
    flat.set(b"end".to_vec(), Object::Array(vec![Object::Reference((4, 0)), name("Fit")]));
    let mut catalog = Dictionary::new();
    catalog.set(b"Pages".to_vec(), Object::Reference((2, 0)));
    catalog.set(b"Dests".to_vec(), Object::Dictionary(flat));
    graph.set_object((1, 0), Object::Dictionary(catalog));
    graph.set_object((2, 0), Object::Dictionary(Dictionary::new()));
    graph.set_object((3, 0), page_with(None));
    graph.set_object((4, 0), page_with(Some(Object::Reference((5, 0)))));
    graph.set_object((5, 0), Object::Array(refs(&[(6, 0)])));
    graph.set_object((6, 0), Object::Dictionary(Dictionary::new()));
    PdfDocument::new(graph, &vec![(3, 0), (4, 0)]).unwrap()
}

#[test]
fn every_destination_is_marked_on_its_page() {
    let mut doc = document_with_destinations();
    assert_eq!(doc.annotations(), &vec![(6, 0)]);
    let lik = |dest: NamedDestination| format!("akl://cite/?dest={}&page={}", dest.name, dest.page_num);
    assert_eq!(doc.add_destinations_links(lik, minus, fill()), Ok(()));
    let graph = doc.graph();
    assert_eq!(graph.max_id, 10);
    assert_eq!(
        graph.get_object((7, 0)),
        Ok(&rectangle_link(&rect(90.0, 190.0, 95.0, 195.0), "akl://cite/?dest=intro&page=1".to_string())[0])
    );
    assert_eq!(
        graph.get_object((8, 0)),
        Ok(&rectangle_link(&rect(90.0, 190.0, 95.0, 195.0), String::new())[1])
    );
    assert_eq!(
        graph.get_object((9, 0)),
        Ok(&rectangle_link(&rect(0.0, 0.0, 5.0, 5.0), "akl://cite/?dest=end&page=2".to_string())[0])
    );
    assert_eq!(graph.get_object((3, 0)), Ok(&page_with(Some(Object::Array(refs(&[(7, 0), (8, 0)]))))));
    assert_eq!(graph.get_object((4, 0)), Ok(&page_with(Some(Object::Reference((5, 0))))));
    assert_eq!(graph.get_object((5, 0)), Ok(&Object::Array(refs(&[(6, 0), (9, 0), (10, 0)]))));
    assert_eq!(doc.annotations(), &vec![(6, 0), (7, 0), (8, 0), (9, 0), (10, 0)]);
    assert_eq!(doc.named_destinations().len(), 2);
}

#[test]
fn injected_links_can_be_rewritten_afterwards() {
    let mut doc = document_with_destinations();
    doc.add_destinations_links(|dest: NamedDestination| format!("old:{}", dest.name), minus, fill()).unwrap();
    doc.update_links(&|uri: String| uri.replace("old", "new")).unwrap();
    assert_eq!(pdflib::link::link_target(doc.graph(), (7, 0)), Some("new:intro".to_string()));
    assert_eq!(pdflib::link::link_target(doc.graph(), (9, 0)), Some("new:end".to_string()));
    assert_eq!(pdflib::link::link_target(doc.graph(), (8, 0)), None);
}

#[test]
fn links_given_by_hand() {
    let mut doc = document_with_destinations();
    let links = vec![link_to(4, "x")];
    assert_eq!(doc.add_links(&links), Ok(()));
    assert_eq!(doc.max_id(), 8);
    assert_eq!(doc.graph().get_object((5, 0)), Ok(&Object::Array(refs(&[(6, 0), (7, 0), (8, 0)]))));
    assert_eq!(doc.annotations(), &vec![(6, 0), (7, 0), (8, 0)]);
    let graph = doc.into_graph();
    assert_eq!(graph.objects.len(), 8);
}
