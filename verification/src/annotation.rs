//! Locating the link annotations of a document: the indirect entries of
//! every page's `Annots` array.

use vstd::prelude::*;
use crate::graph::{GraphValue, ObjectGraph};
use crate::names::ANNOTS;
use crate::object::{Object, ObjectId, Value, values};

verus! {

/// The identities that the references among `items` name, in order. Items
/// that are no references are passed over.
pub open spec fn references_in(items: Seq<Value>) -> Seq<ObjectId>
    decreases items.len(),
{
    if items.len() == 0 {
        Seq::empty()
    } else {
        match items.last() {
            Value::Reference(id) => references_in(items.drop_last()).push(id),
            _ => references_in(items.drop_last()),
        }
    }
}

/// The annotations of the page `page`: the references in its `Annots` array,
/// which is reached through one reference at most. A page that is no
/// dictionary, or has no such array, has none.
pub open spec fn annotations_of_page(g: GraphValue, page: ObjectId) -> Seq<ObjectId> {
    match g.get_dictionary(page) {
        Ok(entries) => match g.get_deref(entries, ANNOTS@) {
            Ok(Value::Array(items)) => references_in(items),
            _ => Seq::empty(),
        },
        Err(_) => Seq::empty(),
    }
}

/// The annotations of the pages `pages`, page after page.
pub open spec fn annotations_of_pages(g: GraphValue, pages: Seq<ObjectId>) -> Seq<ObjectId>
    decreases pages.len(),
{
    if pages.len() == 0 {
        Seq::empty()
    } else {
        annotations_of_pages(g, pages.drop_last()) + annotations_of_page(g, pages.last())
    }
}

/// Appends the identities that the references among `items` name to `out`.
fn collect_references(items: &Vec<Object>, out: &mut Vec<ObjectId>)
    ensures
        final(out)@ == old(out)@ + references_in(values(items@)),
{
    let ghost all = values(items@);
    let mut i: usize = 0;
    while i < items.len()
        invariant
            i <= items.len(),
            all == values(items@),
            out@ == old(out)@ + references_in(all.take(i as int)),
        decreases items.len() - i,
    {
        assert(all.take(i + 1).drop_last() =~= all.take(i as int));
        if let Object::Reference(id) = &items[i] {
            out.push(*id);
        }
        i += 1;
    }
    assert(all.take(i as int) =~= all);
}

/// Lists the annotations of a document, page after page in the order
/// `pages`: every entry of a page's `Annots` array that is a reference.
pub fn page_annotations_iter(graph: &ObjectGraph, pages: &Vec<ObjectId>) -> (ids: Vec<ObjectId>)
    ensures
        ids@ == annotations_of_pages(graph@, pages@),
{
    let mut ids: Vec<ObjectId> = Vec::new();
    let mut i: usize = 0;
    while i < pages.len()
        invariant
            i <= pages.len(),
            ids@ == annotations_of_pages(graph@, pages@.take(i as int)),
        decreases pages.len() - i,
    {
        assert(pages@.take(i + 1).drop_last() =~= pages@.take(i as int));
        if let Ok(page) = graph.get_dictionary(pages[i]) {
            if let Ok(annots) = graph.get_deref(page, ANNOTS.as_slice()) {
                if let Ok(items) = annots.as_array() {
                    collect_references(items, &mut ids);
                }
            }
        }
        i += 1;
    }
    assert(pages@.take(i as int) =~= pages@);
    ids
}

} // verus!
