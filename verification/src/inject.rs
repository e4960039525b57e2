//! Attaching annotations to pages, and adding the annotations that mark
//! destinations.
//!
//! A page keeps its annotations under `Annots`: in an array of its own, or in
//! an array that is an object of the graph and that the page refers to.

use vstd::prelude::*;
use vstd::slice::slice_to_vec;
use crate::error::{PdfLibError, StructureError};
use crate::graph::{GraphValue, ObjectGraph};
use crate::names::ANNOTS;
use crate::object::{
    Dictionary,
    Entries,
    Object,
    ObjectId,
    Value,
    copy_object,
    copy_objects,
    lemma_array_value,
    values,
};
use crate::overlay::{RectangleObject, link_annotation, rectangle_link, square_annotation};

verus! {

/// Where a page keeps its annotations.
#[derive(Debug, Clone, Copy, PartialEq, Eq)]
pub enum AnnotsSlot {
    /// The page has no `Annots` entry.
    Missing,
    /// The entry is an array.
    Direct,
    /// The entry refers to the object with this identity.
    Indirect(ObjectId),
    /// The entry is neither an array nor a reference.
    Other,
}

/// Where the page with the entries `page` keeps its annotations.
pub open spec fn slot_of(page: Entries) -> AnnotsSlot {
    match page.get(ANNOTS@) {
        None => AnnotsSlot::Missing,
        Some(Value::Array(_)) => AnnotsSlot::Direct,
        Some(Value::Reference(target)) => AnnotsSlot::Indirect(target),
        Some(_) => AnnotsSlot::Other,
    }
}

/// The graph after `items` are attached to the page `page`, or the error
/// that prevents it.
///
/// A page without `Annots` gets the entry, with the items as its array. An
/// array that the page holds itself, or one that it refers to, gets the
/// items behind those it has. Any other entry is an invalid annotation.
pub open spec fn attach(g: GraphValue, page: ObjectId, items: Seq<Value>) -> Result<
    GraphValue,
    PdfLibError,
> {
    match g.get_dictionary(page) {
        Err(e) => Err(PdfLibError::PDFError(e)),
        Ok(entries) => match entries.get(ANNOTS@) {
            None => Ok(
                g.insert(page, Value::Dictionary(entries.set(ANNOTS@, Value::Array(items)))),
            ),
            Some(Value::Array(present)) => Ok(
                g.insert(
                    page,
                    Value::Dictionary(entries.set(ANNOTS@, Value::Array(present + items))),
                ),
            ),
            Some(Value::Reference(target)) => match g.get(target) {
                Ok(Value::Array(present)) => Ok(g.insert(target, Value::Array(present + items))),
                Ok(_) => Err(PdfLibError::PDFError(StructureError::ObjectType)),
                Err(e) => Err(PdfLibError::PDFError(e)),
            },
            Some(_) => Err(PdfLibError::InvalidAnnotation(page.0, page.1)),
        },
    }
}

/// Where the page `page` keeps its annotations.
pub fn annots_slot(page: &Dictionary) -> (slot: AnnotsSlot)
    ensures
        slot == slot_of(page@),
{
    match page.get(ANNOTS.as_slice()) {
        Err(_) => AnnotsSlot::Missing,
        Ok(Object::Array(items)) => {
            proof {
                lemma_array_value(*items);
            }
            AnnotsSlot::Direct
        },
        Ok(Object::Reference(target)) => AnnotsSlot::Indirect(*target),
        Ok(_) => AnnotsSlot::Other,
    }
}

/// Puts `elts` behind the items of the array object `target`.
fn append_to_array(pdf: &mut ObjectGraph, target: ObjectId, elts: &mut Vec<Object>) -> (r: Result<
    (),
    PdfLibError,
>)
    ensures
        match old(pdf)@.get(target) {
            Ok(Value::Array(present)) => r.is_ok() && final(pdf)@ == old(pdf)@.insert(
                target,
                Value::Array(present + values(old(elts)@)),
            ) && final(elts)@.len() == 0,
            Ok(_) => r == Err::<(), PdfLibError>(PdfLibError::PDFError(StructureError::ObjectType))
                && final(pdf)@ == old(pdf)@ && final(elts)@ == old(elts)@,
            Err(e) => r == Err::<(), PdfLibError>(PdfLibError::PDFError(e)) && final(pdf)@ == old(
                pdf,
            )@ && final(elts)@ == old(elts)@,
        },
{
    match pdf.objects.remove(&target) {
        None => {
            assert(pdf@.objects =~= old(pdf)@.objects);
            Err(PdfLibError::PDFError(StructureError::ObjectNotFound(target.0, target.1)))
        },
        Some(Object::Array(mut items)) => {
            proof {
                lemma_array_value(items);
            }
            let ghost present = values(items@);
            items.append(elts);
            proof {
                lemma_array_value(items);
                assert(values(items@) =~= present + values(old(elts)@));
            }
            pdf.objects.insert(target, Object::Array(items));
            assert(pdf@.objects =~= old(pdf)@.objects.insert(
                target,
                Value::Array(present + values(old(elts)@)),
            ));
            Ok(())
        },
        Some(other) => {
            pdf.objects.insert(target, other);
            assert(pdf@.objects =~= old(pdf)@.objects);
            Err(PdfLibError::PDFError(StructureError::ObjectType))
        },
    }
}

/// Attaches annotations to a page: `elts` are moved behind the annotations
/// that the page has.
///
/// On success `elts` is left empty. On an error the graph and `elts` are as
/// they were.
pub fn append_annots_to_page(pdf: &mut ObjectGraph, page_id: ObjectId, elts: &mut Vec<Object>) -> (r:
    Result<(), PdfLibError>)
    ensures
        match attach(old(pdf)@, page_id, values(old(elts)@)) {
            Ok(g) => r.is_ok() && final(pdf)@ == g && final(elts)@.len() == 0,
            Err(e) => r == Err::<(), PdfLibError>(e) && final(pdf)@ == old(pdf)@ && final(elts)@
                == old(elts)@,
        },
{
    let mut page = match pdf.objects.remove(&page_id) {
        None => {
            assert(pdf@.objects =~= old(pdf)@.objects);
            return Err(
                PdfLibError::PDFError(StructureError::ObjectNotFound(page_id.0, page_id.1)),
            );
        },
        Some(Object::Dictionary(page)) => page,
        Some(other) => {
            pdf.objects.insert(page_id, other);
            assert(pdf@.objects =~= old(pdf)@.objects);
            return Err(PdfLibError::PDFError(StructureError::ObjectType));
        },
    };
    let ghost entries = page@;
    match annots_slot(&page) {
        AnnotsSlot::Missing => {
            let mut items: Vec<Object> = Vec::new();
            items.append(elts);
            proof {
                lemma_array_value(items);
            }
            page.set(slice_to_vec(ANNOTS.as_slice()), Object::Array(items));
            pdf.objects.insert(page_id, Object::Dictionary(page));
            assert(pdf@.objects =~= old(pdf)@.objects.insert(
                page_id,
                Value::Dictionary(entries.set(ANNOTS@, Value::Array(values(old(elts)@)))),
            ));
            Ok(())
        },
        AnnotsSlot::Direct => {
            let mut items = match page.get(ANNOTS.as_slice()) {
                Ok(Object::Array(present)) => {
                    proof {
                        lemma_array_value(*present);
                    }
                    copy_objects(present)
                },
                _ => vstd::pervasive::unreached(),
            };
            let ghost present = values(items@);
            items.append(elts);
            proof {
                lemma_array_value(items);
                assert(values(items@) =~= present + values(old(elts)@));
            }
            page.set(slice_to_vec(ANNOTS.as_slice()), Object::Array(items));
            pdf.objects.insert(page_id, Object::Dictionary(page));
            assert(pdf@.objects =~= old(pdf)@.objects.insert(
                page_id,
                Value::Dictionary(
                    entries.set(ANNOTS@, Value::Array(present + values(old(elts)@))),
                ),
            ));
            Ok(())
        },
        AnnotsSlot::Indirect(target) => {
            pdf.objects.insert(page_id, Object::Dictionary(page));
            assert(pdf@.objects =~= old(pdf)@.objects);
            append_to_array(pdf, target, elts)
        },
        AnnotsSlot::Other => {
            pdf.objects.insert(page_id, Object::Dictionary(page));
            assert(pdf@.objects =~= old(pdf)@.objects);
            Err(PdfLibError::InvalidAnnotation(page_id.0, page_id.1))
        },
    }
}

/// A link to be put on a page: where, and to what.
#[derive(Debug, PartialEq, Eq)]
pub struct DestinationLink {
    /// The page that gets the link.
    pub page: ObjectId,
    /// The rectangle that the link covers.
    pub rect: RectangleObject,
    /// The target of the link.
    pub url: String,
}

/// The mathematical value of a [`DestinationLink`]; the target as the bytes
/// that are written into the document.
pub struct LinkValue {
    pub page: ObjectId,
    pub rect: RectangleObject,
    pub url: Seq<u8>,
}

impl View for DestinationLink {
    type V = LinkValue;

    open spec fn view(&self) -> LinkValue {
        LinkValue { page: self.page, rect: self.rect, url: vstd::utf8::encode_utf8(self.url@) }
    }
}

impl Clone for DestinationLink {
    fn clone(&self) -> (r: Self)
        ensures
            r@ == self@,
    {
        DestinationLink { page: self.page, rect: self.rect, url: self.url.clone() }
    }
}

/// The values of a sequence of links.
pub open spec fn link_values(links: Seq<DestinationLink>) -> Seq<LinkValue> {
    Seq::new(links.len(), |i: int| links[i]@)
}

/// The graph after the two annotations of every link are added as objects,
/// link after link: the link annotation, then the rectangle.
pub open spec fn with_link_objects(g: GraphValue, links: Seq<LinkValue>) -> GraphValue
    decreases links.len(),
{
    if links.len() == 0 {
        g
    } else {
        with_link_objects(g, links.drop_last()).add(
            Value::Dictionary(link_annotation(links.last().rect, links.last().url)),
        ).add(Value::Dictionary(square_annotation(links.last().rect)))
    }
}

/// The identity of an annotation of the link at position `i`, where `base`
/// was the highest object number before the links were added: of its link
/// annotation, or of its rectangle where `second` holds.
pub open spec fn link_object_id(base: u32, i: int, second: bool) -> ObjectId {
    (
        (base + 2 * i + (if second {
            2int
        } else {
            1int
        })) as u32,
        0u16,
    )
}

/// The pages that the links point at, each once, in the order in which they
/// first occur.
pub open spec fn link_pages(links: Seq<LinkValue>) -> Seq<ObjectId>
    decreases links.len(),
{
    if links.len() == 0 {
        Seq::empty()
    } else {
        let front = link_pages(links.drop_last());
        if front.contains(links.last().page) {
            front
        } else {
            front.push(links.last().page)
        }
    }
}

/// The identities of the annotations of the links that point at `page`, in
/// the order of the links.
pub open spec fn ids_on_page(base: u32, links: Seq<LinkValue>, page: ObjectId) -> Seq<ObjectId>
    decreases links.len(),
{
    if links.len() == 0 {
        Seq::empty()
    } else {
        let front = ids_on_page(base, links.drop_last(), page);
        if links.last().page == page {
            front.push(link_object_id(base, links.len() - 1, false)).push(
                link_object_id(base, links.len() - 1, true),
            )
        } else {
            front
        }
    }
}

/// References to the objects `ids`.
pub open spec fn references(ids: Seq<ObjectId>) -> Seq<Value> {
    Seq::new(ids.len(), |i: int| Value::Reference(ids[i]))
}

/// How far an injection has come: the graph, the annotations that are known,
/// and whether a page has refused its annotations.
pub struct Injection {
    pub graph: GraphValue,
    pub annotations: Seq<ObjectId>,
    pub outcome: Result<(), PdfLibError>,
}

/// The state after the annotations of the links were attached to the pages
/// `pages`, page after page. The annotations of a page are made known before
/// they are attached; the first page that refuses them ends the injection,
/// and nothing is undone.
pub open spec fn attach_pages(
    start: Injection,
    base: u32,
    links: Seq<LinkValue>,
    pages: Seq<ObjectId>,
) -> Injection
    decreases pages.len(),
{
    if pages.len() == 0 {
        start
    } else {
        let before = attach_pages(start, base, links, pages.drop_last());
        match before.outcome {
            Err(_) => before,
            Ok(_) => {
                let ids = ids_on_page(base, links, pages.last());
                match attach(before.graph, pages.last(), references(ids)) {
                    Ok(graph) => Injection {
                        graph,
                        annotations: before.annotations + ids,
                        outcome: Ok(()),
                    },
                    Err(e) => Injection {
                        graph: before.graph,
                        annotations: before.annotations + ids,
                        outcome: Err(e),
                    },
                }
            },
        }
    }
}

/// The state after `links` are injected into the graph `g` of a document
/// with the annotations `annotations`: their objects are added, and then
/// attached page by page.
pub open spec fn inject(g: GraphValue, annotations: Seq<ObjectId>, links: Seq<LinkValue>) -> Injection {
    attach_pages(
        Injection { graph: with_link_objects(g, links), annotations, outcome: Ok(()) },
        g.max_id,
        links,
        link_pages(links),
    )
}

/// Once a page has refused its annotations, the pages after it change nothing.
proof fn lemma_attach_pages_error(
    start: Injection,
    base: u32,
    links: Seq<LinkValue>,
    pages: Seq<ObjectId>,
    n: int,
)
    requires
        0 <= n <= pages.len(),
        attach_pages(start, base, links, pages.take(n)).outcome.is_err(),
    ensures
        attach_pages(start, base, links, pages) == attach_pages(start, base, links, pages.take(n)),
    decreases pages.len() - n,
{
    if n < pages.len() {
        assert(pages.take(n + 1).drop_last() =~= pages.take(n));
        lemma_attach_pages_error(start, base, links, pages, n + 1);
    } else {
        assert(pages.take(n) =~= pages);
    }
}

/// Whether `id` is among `ids`.
fn contains_id(ids: &Vec<ObjectId>, id: ObjectId) -> (found: bool)
    ensures
        found == ids@.contains(id),
{
    let mut i: usize = 0;
    while i < ids.len()
        invariant
            i <= ids.len(),
            forall|k: int| 0 <= k < i ==> ids@[k] != id,
        decreases ids.len() - i,
    {
        if ids[i].0 == id.0 && ids[i].1 == id.1 {
            return true;
        }
        i += 1;
    }
    false
}

/// Adds the two annotations of every link as objects and gives their
/// identities, two for each link.
fn add_link_objects(pdf: &mut ObjectGraph, links: &Vec<DestinationLink>) -> (ids: Vec<ObjectId>)
    requires
        old(pdf)@.valid(),
        old(pdf).max_id + 2 * links.len() <= u32::MAX,
    ensures
        final(pdf)@ == with_link_objects(old(pdf)@, link_values(links@)),
        ids@.len() == 2 * links.len(),
        forall|k: int|
            0 <= k < links.len() ==> ids@[2 * k] == link_object_id(old(pdf).max_id, k, false)
                && ids@[2 * k + 1] == link_object_id(old(pdf).max_id, k, true),
{
    let ghost all = link_values(links@);
    let ghost base = pdf.max_id;
    let mut ids: Vec<ObjectId> = Vec::new();
    let mut i: usize = 0;
    while i < links.len()
        invariant
            i <= links.len(),
            all == link_values(links@),
            base == old(pdf).max_id,
            base + 2 * links.len() <= u32::MAX,
            pdf.max_id == base + 2 * i,
            pdf@.valid(),
            pdf@ == with_link_objects(old(pdf)@, all.take(i as int)),
            ids@.len() == 2 * i,
            forall|k: int|
                0 <= k < i ==> ids@[2 * k] == link_object_id(base, k, false) && ids@[2 * k + 1]
                    == link_object_id(base, k, true),
        decreases links.len() - i,
    {
        assert(all.take(i + 1).drop_last() =~= all.take(i as int));
        let objects = rectangle_link(&links[i].rect, links[i].url.clone());
        let first = pdf.add_object(copy_object(&objects[0]));
        let second = pdf.add_object(copy_object(&objects[1]));
        ids.push(first);
        ids.push(second);
        i += 1;
    }
    assert(all.take(i as int) =~= all);
    ids
}

/// The pages that the links point at, each once, in the order in which they
/// first occur.
fn pages_of_links(links: &Vec<DestinationLink>) -> (pages: Vec<ObjectId>)
    ensures
        pages@ == link_pages(link_values(links@)),
{
    let ghost all = link_values(links@);
    let mut pages: Vec<ObjectId> = Vec::new();
    let mut i: usize = 0;
    while i < links.len()
        invariant
            i <= links.len(),
            all == link_values(links@),
            pages@ == link_pages(all.take(i as int)),
        decreases links.len() - i,
    {
        assert(all.take(i + 1).drop_last() =~= all.take(i as int));
        if !contains_id(&pages, links[i].page) {
            pages.push(links[i].page);
        }
        i += 1;
    }
    assert(all.take(i as int) =~= all);
    pages
}

/// The identities, among `ids`, of the annotations of the links that point
/// at `page`.
fn ids_of_page(links: &Vec<DestinationLink>, ids: &Vec<ObjectId>, page: ObjectId, base: Ghost<
    u32,
>) -> (found: Vec<ObjectId>)
    requires
        ids@.len() == 2 * links.len(),
        forall|k: int|
            0 <= k < links.len() ==> ids@[2 * k] == link_object_id(base@, k, false) && ids@[2 * k
                + 1] == link_object_id(base@, k, true),
    ensures
        found@ == ids_on_page(base@, link_values(links@), page),
{
    let ghost all = link_values(links@);
    let mut found: Vec<ObjectId> = Vec::new();
    let mut i: usize = 0;
    assert(ids.len() == 2 * links.len());
    while i < links.len()
        invariant
            i <= links.len(),
            all == link_values(links@),
            ids@.len() == 2 * links.len(),
            forall|k: int|
                0 <= k < links.len() ==> ids@[2 * k] == link_object_id(base@, k, false) && ids@[2
                    * k + 1] == link_object_id(base@, k, true),
            found@ == ids_on_page(base@, all.take(i as int), page),
            2 * links.len() <= usize::MAX,
        decreases links.len() - i,
    {
        assert(all.take(i + 1).drop_last() =~= all.take(i as int));
        if links[i].page.0 == page.0 && links[i].page.1 == page.1 {
            found.push(ids[2 * i]);
            found.push(ids[2 * i + 1]);
        }
        i += 1;
    }
    assert(all.take(i as int) =~= all);
    found
}

/// Reference objects to the objects `ids`.
fn reference_objects(ids: &Vec<ObjectId>) -> (objects: Vec<Object>)
    ensures
        values(objects@) == references(ids@),
{
    let mut objects: Vec<Object> = Vec::new();
    let mut i: usize = 0;
    while i < ids.len()
        invariant
            i <= ids.len(),
            objects@.len() == i,
            forall|k: int| 0 <= k < i ==> (#[trigger] objects@[k])@ == Value::Reference(ids@[k]),
        decreases ids.len() - i,
    {
        objects.push(Object::Reference(ids[i]));
        i += 1;
    }
    objects
}

/// Injects `links` into the graph: adds the two annotations of every link
/// as new objects, then attaches them to their pages, page after page in the
/// order in which the pages first occur among the links.
///
/// `annotations` is the list of the annotations that are known; the new
/// ones are put behind it. The first page that cannot take its annotations
/// ends the injection with its error; what was done before stays.
pub fn add_links(pdf: &mut ObjectGraph, annotations: &mut Vec<ObjectId>, links: &Vec<DestinationLink>) -> (r:
    Result<(), PdfLibError>)
    requires
        old(pdf)@.valid(),
        old(pdf).max_id + 2 * links.len() <= u32::MAX,
    ensures
        final(pdf)@.valid(),
        forall|i: int, second: bool|
            0 <= i < links.len() ==> !old(pdf)@.objects.contains_key(
                #[trigger] link_object_id(old(pdf).max_id, i, second),
            ),
        final(pdf)@ == inject(old(pdf)@, old(annotations)@, link_values(links@)).graph,
        final(annotations)@ == inject(
            old(pdf)@,
            old(annotations)@,
            link_values(links@),
        ).annotations,
        r == inject(old(pdf)@, old(annotations)@, link_values(links@)).outcome,
{
    let ghost all = link_values(links@);
    let ghost base = pdf.max_id;
    proof {
        lemma_injection_is_valid(pdf@, annotations@, all);
        lemma_link_objects_are_new(pdf@, all);
    }
    let ids = add_link_objects(pdf, links);
    let pages = pages_of_links(links);
    let ghost start = Injection {
        graph: with_link_objects(old(pdf)@, all),
        annotations: old(annotations)@,
        outcome: Ok(()),
    };
    let mut i: usize = 0;
    while i < pages.len()
        invariant
            i <= pages.len(),
            all == link_values(links@),
            ids@.len() == 2 * links.len(),
            forall|k: int|
                0 <= k < links.len() ==> ids@[2 * k] == link_object_id(base, k, false) && ids@[2 * k
                    + 1] == link_object_id(base, k, true),
            base == old(pdf).max_id,
            pages@ == link_pages(all),
            inject(old(pdf)@, old(annotations)@, all).graph.valid(),
            forall|i: int, second: bool|
                0 <= i < links.len() ==> !old(pdf)@.objects.contains_key(
                    #[trigger] link_object_id(old(pdf).max_id, i, second),
                ),
            start == (Injection {
                graph: with_link_objects(old(pdf)@, all),
                annotations: old(annotations)@,
                outcome: Ok(()),
            }),
            attach_pages(start, base, all, pages@.take(i as int)) == (Injection {
                graph: pdf@,
                annotations: annotations@,
                outcome: Ok(()),
            }),
        decreases pages.len() - i,
    {
        assert(pages@.take(i + 1).drop_last() =~= pages@.take(i as int));
        let mut found = ids_of_page(links, &ids, pages[i], Ghost(base));
        let mut elts = reference_objects(&found);
        annotations.append(&mut found);
        match append_annots_to_page(pdf, pages[i], &mut elts) {
            Ok(()) => {},
            Err(e) => {
                proof {
                    lemma_attach_pages_error(start, base, all, pages@, i + 1);
                }
                return Err(e);
            },
        }
        i += 1;
    }
    assert(pages@.take(i as int) =~= pages@);
    Ok(())
}

/// A page without `Annots` gets the entry: an array of its own that holds
/// the new items and nothing else. No other object changes.
pub proof fn lemma_attach_missing(g: GraphValue, page: ObjectId, entries: Entries, items: Seq<Value>)
    requires
        g.get(page) == Ok::<Value, StructureError>(Value::Dictionary(entries)),
        !entries.contains_key(ANNOTS@),
    ensures
        attach(g, page, items).is_ok(),
        attach(g, page, items).unwrap().get_dictionary(page).unwrap().get(ANNOTS@) == Some(
            Value::Array(items),
        ),
        forall|other: ObjectId|
            other != page ==> attach(g, page, items).unwrap().get(other) == g.get(other),
{
    crate::object::lemma_position(entries.pairs, ANNOTS@);
    let changed = entries.set(ANNOTS@, Value::Array(items));
    crate::object::lemma_position_is(changed.pairs, ANNOTS@, entries.pairs.len() as int);
}

/// An array that the page refers to gets the new items behind those it has,
/// which stay as they were. The page itself and all other objects stay too.
pub proof fn lemma_attach_indirect(
    g: GraphValue,
    page: ObjectId,
    entries: Entries,
    target: ObjectId,
    present: Seq<Value>,
    items: Seq<Value>,
)
    requires
        g.get(page) == Ok::<Value, StructureError>(Value::Dictionary(entries)),
        entries.get(ANNOTS@) == Some(Value::Reference(target)),
        g.get(target) == Ok::<Value, StructureError>(Value::Array(present)),
    ensures
        attach(g, page, items).is_ok(),
        attach(g, page, items).unwrap().get(target) == Ok::<Value, StructureError>(
            Value::Array(present + items),
        ),
        (present + items).take(present.len() as int) == present,
        forall|other: ObjectId|
            other != target ==> attach(g, page, items).unwrap().get(other) == g.get(other),
{
}

/// A page whose `Annots` is neither an array nor a reference is an invalid
/// annotation.
pub proof fn lemma_attach_other(g: GraphValue, page: ObjectId, entries: Entries, items: Seq<Value>)
    requires
        g.get(page) == Ok::<Value, StructureError>(Value::Dictionary(entries)),
        slot_of(entries) == AnnotsSlot::Other,
    ensures
        attach(g, page, items) == Err::<GraphValue, PdfLibError>(
            PdfLibError::InvalidAnnotation(page.0, page.1),
        ),
{
}

/// Attaching to pages forgets no annotation: those that were known stay
/// first, in their order.
pub proof fn lemma_attach_pages_keeps_annotations(
    start: Injection,
    base: u32,
    links: Seq<LinkValue>,
    pages: Seq<ObjectId>,
)
    ensures
        attach_pages(start, base, links, pages).annotations.len() >= start.annotations.len(),
        attach_pages(start, base, links, pages).annotations.take(start.annotations.len() as int)
            == start.annotations,
    decreases pages.len(),
{
    if pages.len() > 0 {
        lemma_attach_pages_keeps_annotations(start, base, links, pages.drop_last());
    }
}

/// An injection forgets no annotation: those that were known stay first, in
/// their order, whether the injection succeeds or not.
pub proof fn lemma_injection_keeps_annotations(
    g: GraphValue,
    annotations: Seq<ObjectId>,
    links: Seq<LinkValue>,
)
    ensures
        inject(g, annotations, links).annotations.len() >= annotations.len(),
        inject(g, annotations, links).annotations.take(annotations.len() as int) == annotations,
{
    lemma_attach_pages_keeps_annotations(
        Injection { graph: with_link_objects(g, links), annotations, outcome: Ok(()) },
        g.max_id,
        links,
        link_pages(links),
    );
}

/// The objects of links are new: in a valid graph no object has the
/// identity that an annotation of a link gets. The objects that were there
/// stay as they were, and the graph stays valid.
pub proof fn lemma_link_objects_are_new(g: GraphValue, links: Seq<LinkValue>)
    requires
        g.valid(),
        g.max_id + 2 * links.len() <= u32::MAX,
    ensures
        with_link_objects(g, links).valid(),
        with_link_objects(g, links).max_id == g.max_id + 2 * links.len(),
        with_link_objects(g, links).trailer == g.trailer,
        forall|id: ObjectId|
            g.objects.contains_key(id) ==> with_link_objects(g, links).get(id) == g.get(id),
        forall|i: int, second: bool|
            0 <= i < links.len() ==> !g.objects.contains_key(
                #[trigger] link_object_id(g.max_id, i, second),
            ),
        forall|i: int|
            0 <= i < links.len() ==> with_link_objects(g, links).get(
                #[trigger] link_object_id(g.max_id, i, false),
            ) == Ok::<Value, StructureError>(
                Value::Dictionary(link_annotation(links[i].rect, links[i].url)),
            ) && with_link_objects(g, links).get(link_object_id(g.max_id, i, true)) == Ok::<
                Value,
                StructureError,
            >(Value::Dictionary(square_annotation(links[i].rect))),
        forall|id: ObjectId|
            with_link_objects(g, links).objects.contains_key(id) ==> g.objects.contains_key(id)
                || exists|i: int, second: bool|
                0 <= i < links.len() && id == #[trigger] link_object_id(g.max_id, i, second),
    decreases links.len(),
{
    if links.len() > 0 {
        let front = links.drop_last();
        lemma_link_objects_are_new(g, front);
        let mid = with_link_objects(g, front);
        let last = links.len() - 1;
        assert(mid.next_id() == link_object_id(g.max_id, last, false));
        assert(mid.add(Value::Dictionary(link_annotation(links.last().rect, links.last().url))).next_id()
            == link_object_id(g.max_id, last, true));
        assert forall|i: int|
            0 <= i < links.len() implies with_link_objects(g, links).get(
            #[trigger] link_object_id(g.max_id, i, false),
        ) == Ok::<Value, StructureError>(
            Value::Dictionary(link_annotation(links[i].rect, links[i].url)),
        ) && with_link_objects(g, links).get(link_object_id(g.max_id, i, true)) == Ok::<
            Value,
            StructureError,
        >(Value::Dictionary(square_annotation(links[i].rect))) by {
            if i < last {
                assert(front[i] == links[i]);
                assert(mid.objects.contains_key(link_object_id(g.max_id, i, false)));
                assert(mid.objects.contains_key(link_object_id(g.max_id, i, true)));
            }
        }
        assert forall|id: ObjectId|
            with_link_objects(g, links).objects.contains_key(id) implies g.objects.contains_key(id)
                || exists|i: int, second: bool|
                0 <= i < links.len() && id == #[trigger] link_object_id(g.max_id, i, second) by {
            if !mid.objects.contains_key(id) {
                assert(id == link_object_id(g.max_id, last, false) || id == link_object_id(
                    g.max_id,
                    last,
                    true,
                ));
            }
        }
    }
}

/// Attaching changes an object that is there and adds none.
pub proof fn lemma_attach_keeps_identities(g: GraphValue, page: ObjectId, items: Seq<Value>)
    requires
        attach(g, page, items).is_ok(),
    ensures
        attach(g, page, items).unwrap().objects.dom() == g.objects.dom(),
        attach(g, page, items).unwrap().max_id == g.max_id,
        attach(g, page, items).unwrap().trailer == g.trailer,
        g.valid() ==> attach(g, page, items).unwrap().valid(),
{
    assert(attach(g, page, items).unwrap().objects.dom() =~= g.objects.dom());
}

/// Attaching to pages, page after page, changes objects that are there and
/// adds none.
pub proof fn lemma_attach_pages_keeps_identities(
    start: Injection,
    base: u32,
    links: Seq<LinkValue>,
    pages: Seq<ObjectId>,
)
    ensures
        attach_pages(start, base, links, pages).graph.objects.dom() == start.graph.objects.dom(),
        attach_pages(start, base, links, pages).graph.max_id == start.graph.max_id,
        attach_pages(start, base, links, pages).graph.trailer == start.graph.trailer,
        start.graph.valid() ==> attach_pages(start, base, links, pages).graph.valid(),
    decreases pages.len(),
{
    if pages.len() > 0 {
        lemma_attach_pages_keeps_identities(start, base, links, pages.drop_last());
        let before = attach_pages(start, base, links, pages.drop_last());
        let items = references(ids_on_page(base, links, pages.last()));
        if before.outcome.is_ok() && attach(before.graph, pages.last(), items).is_ok() {
            lemma_attach_keeps_identities(before.graph, pages.last(), items);
        }
    }
}

/// An injection into a valid graph leaves a valid graph, whose objects are
/// those that were there and those of the links.
pub proof fn lemma_injection_is_valid(
    g: GraphValue,
    annotations: Seq<ObjectId>,
    links: Seq<LinkValue>,
)
    requires
        g.valid(),
        g.max_id + 2 * links.len() <= u32::MAX,
    ensures
        inject(g, annotations, links).graph.valid(),
        inject(g, annotations, links).graph.objects.dom() == with_link_objects(
            g,
            links,
        ).objects.dom(),
        inject(g, annotations, links).graph.max_id == g.max_id + 2 * links.len(),
{
    lemma_link_objects_are_new(g, links);
    lemma_attach_pages_keeps_identities(
        Injection { graph: with_link_objects(g, links), annotations, outcome: Ok(()) },
        g.max_id,
        links,
        link_pages(links),
    );
}

/// No page occurs twice among the pages of links.
pub proof fn lemma_link_pages_are_distinct(links: Seq<LinkValue>)
    ensures
        link_pages(links).no_duplicates(),
    decreases links.len(),
{
    if links.len() > 0 {
        lemma_link_pages_are_distinct(links.drop_last());
    }
}

/// Attaching to one page leaves every other dictionary of the graph as it
/// was.
pub proof fn lemma_attach_keeps_other_dictionaries(
    g: GraphValue,
    page: ObjectId,
    items: Seq<Value>,
    other: ObjectId,
)
    requires
        other != page,
        g.get(other) matches Ok(Value::Dictionary(_)),
        attach(g, page, items).is_ok(),
    ensures
        attach(g, page, items).unwrap().get(other) == g.get(other),
{
}

/// Attaching to pages leaves a dictionary that is none of these pages as it
/// was.
pub proof fn lemma_attach_pages_keeps_other_dictionaries(
    start: Injection,
    base: u32,
    links: Seq<LinkValue>,
    pages: Seq<ObjectId>,
    other: ObjectId,
)
    requires
        !pages.contains(other),
        start.graph.get(other) matches Ok(Value::Dictionary(_)),
    ensures
        attach_pages(start, base, links, pages).graph.get(other) == start.graph.get(other),
    decreases pages.len(),
{
    if pages.len() > 0 {
        let front = pages.drop_last();
        assert forall|k: int| 0 <= k < front.len() implies front[k] != other by {
            assert(front[k] == pages[k]);
        }
        lemma_attach_pages_keeps_other_dictionaries(start, base, links, front, other);
        let before = attach_pages(start, base, links, front);
        let items = references(ids_on_page(base, links, pages.last()));
        assert(pages.last() == pages[pages.len() - 1]);
        if before.outcome.is_ok() && attach(before.graph, pages.last(), items).is_ok() {
            lemma_attach_keeps_other_dictionaries(before.graph, pages.last(), items, other);
        }
    }
}

/// A page whose `Annots` is neither an array nor a reference ends the whole
/// injection with an error: with the invalid annotation of this page where
/// no page before it has refused its annotations, and with the error of the
/// first page that has refused otherwise. `at` is the place of the page
/// among the pages of the links.
pub proof fn lemma_refusing_page_ends_injection(
    g: GraphValue,
    annotations: Seq<ObjectId>,
    links: Seq<LinkValue>,
    at: int,
)
    requires
        g.valid(),
        g.max_id + 2 * links.len() <= u32::MAX,
        0 <= at < link_pages(links).len(),
        g.get(link_pages(links)[at]) matches Ok(Value::Dictionary(entries)) && slot_of(entries)
            == AnnotsSlot::Other,
    ensures
        inject(g, annotations, links).outcome.is_err(),
        attach_pages(
            Injection { graph: with_link_objects(g, links), annotations, outcome: Ok(()) },
            g.max_id,
            links,
            link_pages(links).take(at),
        ).outcome.is_ok() ==> inject(g, annotations, links).outcome == Err::<(), PdfLibError>(
            PdfLibError::InvalidAnnotation(link_pages(links)[at].0, link_pages(links)[at].1),
        ),
{
    let pages = link_pages(links);
    let page = pages[at];
    let start = Injection { graph: with_link_objects(g, links), annotations, outcome: Ok(()) };
    let before = attach_pages(start, g.max_id, links, pages.take(at));
    lemma_link_pages_are_distinct(links);
    lemma_link_objects_are_new(g, links);
    assert(g.objects.contains_key(page));
    assert(start.graph.get(page) == g.get(page));
    assert forall|k: int| 0 <= k < pages.take(at).len() implies pages.take(at)[k] != page by {
        assert(pages.take(at)[k] == pages[k]);
    }
    lemma_attach_pages_keeps_other_dictionaries(start, g.max_id, links, pages.take(at), page);
    assert(pages.take(at + 1).drop_last() =~= pages.take(at));
    assert(pages.take(at + 1).last() == page);
    if before.outcome.is_ok() {
        lemma_attach_pages_error(start, g.max_id, links, pages, at + 1);
    } else {
        lemma_attach_pages_error(start, g.max_id, links, pages, at);
    }
}

} // verus!
