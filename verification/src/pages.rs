//! The page index: the ordinal of each page, counted from 1 in the order in
//! which the document's pages are walked.

use vstd::prelude::*;
use std::collections::BTreeMap;
use crate::error::{PdfLibError, StructureError};
use crate::graph::{GraphValue, ObjectGraph};
use crate::names::PAGES;
use crate::object::{Dictionary, Entries, ObjectId, Value};

verus! {

/// The ordinal of each page of a document.
#[derive(Debug, Clone, PartialEq, Eq)]
pub struct PageIndex {
    pub ordinals: BTreeMap<ObjectId, u32>,
}

impl View for PageIndex {
    type V = Map<ObjectId, u32>;

    open spec fn view(&self) -> Map<ObjectId, u32> {
        self.ordinals@
    }
}

/// The ordinals of the pages walked in the order `pages`: the page at
/// position `i` has ordinal `i + 1`. A page that is walked twice keeps the
/// ordinal of its last visit.
pub open spec fn page_ordinals(pages: Seq<ObjectId>) -> Map<ObjectId, u32>
    decreases pages.len(),
{
    if pages.len() == 0 {
        Map::empty()
    } else {
        page_ordinals(pages.drop_last()).insert(pages.last(), pages.len() as u32)
    }
}

/// The root of the page tree: the dictionary that the catalog holds or
/// refers to under `Pages`. A document without a catalog, or whose catalog
/// has no such dictionary, has no pages that can be found.
pub open spec fn pages_root(g: GraphValue) -> Result<Entries, PdfLibError> {
    match g.catalog() {
        Err(e) => Err(PdfLibError::PDFError(e)),
        Ok(catalog) => match g.get_deref(catalog, PAGES@) {
            Ok(Value::Dictionary(root)) => Ok(root),
            Ok(_) => Err(PdfLibError::PDFError(StructureError::ObjectType)),
            Err(e) => Err(PdfLibError::PDFError(e)),
        },
    }
}

/// Finds the root of the page tree.
pub fn find_pages_root(graph: &ObjectGraph) -> (r: Result<&Dictionary, PdfLibError>)
    ensures
        match pages_root(graph@) {
            Ok(root) => r.is_ok() && r.unwrap()@ == root,
            Err(e) => r.is_err() && r.unwrap_err() == e,
        },
{
    let catalog = match graph.catalog() {
        Ok(catalog) => catalog,
        Err(e) => {
            return Err(PdfLibError::PDFError(e));
        },
    };
    match graph.get_deref(catalog, PAGES.as_slice()) {
        Ok(found) => match found.as_dict() {
            Ok(root) => Ok(root),
            Err(e) => Err(PdfLibError::PDFError(e)),
        },
        Err(e) => Err(PdfLibError::PDFError(e)),
    }
}

impl PageIndex {
    /// The index of the pages walked in the order `pages`.
    pub fn new(pages: &Vec<ObjectId>) -> (index: PageIndex)
        requires
            pages.len() <= u32::MAX,
        ensures
            index@ == page_ordinals(pages@),
    {
        let mut ordinals: BTreeMap<ObjectId, u32> = BTreeMap::new();
        let mut i: usize = 0;
        while i < pages.len()
            invariant
                i <= pages.len() <= u32::MAX,
                ordinals@ == page_ordinals(pages@.take(i as int)),
            decreases pages.len() - i,
        {
            assert(pages@.take(i + 1).drop_last() =~= pages@.take(i as int));
            ordinals.insert(pages[i], (i + 1) as u32);
            i += 1;
        }
        assert(pages@.take(i as int) =~= pages@);
        PageIndex { ordinals }
    }

    /// The ordinal of the page `id`, where the index knows it.
    pub fn get(&self, id: ObjectId) -> (r: Option<u32>)
        ensures
            r == if self@.contains_key(id) {
                Some(self@[id])
            } else {
                None
            },
    {
        match self.ordinals.get(&id) {
            Some(n) => Some(*n),
            None => None,
        }
    }
}

/// Over pages that are all different, the page index is a bijection onto the
/// ordinals from 1 to the number of pages, and it grows with the order in
/// which the pages are walked.
pub proof fn lemma_page_index_bijection(pages: Seq<ObjectId>)
    requires
        pages.no_duplicates(),
        pages.len() <= u32::MAX,
    ensures
        page_ordinals(pages).dom() == pages.to_set(),
        forall|i: int| 0 <= i < pages.len() ==> page_ordinals(pages)[#[trigger] pages[i]] == i + 1,
        forall|i: int, j: int|
            0 <= i < j < pages.len() ==> page_ordinals(pages)[#[trigger] pages[i]] < page_ordinals(
                pages,
            )[#[trigger] pages[j]],
        forall|n: int|
            1 <= n <= pages.len() ==> page_ordinals(pages).contains_key(#[trigger] pages[n - 1])
                && page_ordinals(pages)[pages[n - 1]] == n,
        forall|a: ObjectId, b: ObjectId|
            page_ordinals(pages).contains_key(a) && page_ordinals(pages).contains_key(b)
                && page_ordinals(pages)[a] == page_ordinals(pages)[b] ==> a == b,
    decreases pages.len(),
{
    if pages.len() > 0 {
        let front = pages.drop_last();
        lemma_page_index_bijection(front);
        assert forall|i: int| 0 <= i < pages.len() implies page_ordinals(pages)[#[trigger] pages[i]]
            == i + 1 by {
            if i < pages.len() - 1 {
                assert(pages[i] == front[i]);
            }
        }
        assert(page_ordinals(pages).dom() =~= pages.to_set()) by {
            assert forall|id: ObjectId| pages.to_set().contains(id) implies page_ordinals(
                pages,
            ).dom().contains(id) by {
                let i = choose|i: int| 0 <= i < pages.len() && pages[i] == id;
                if i < pages.len() - 1 {
                    assert(front[i] == id);
                }
            }
            assert forall|id: ObjectId| page_ordinals(pages).dom().contains(id) implies pages.to_set().contains(
                id,
            ) by {
                if id != pages.last() {
                    let i = choose|i: int| 0 <= i < front.len() && front[i] == id;
                    assert(pages[i] == id);
                }
            }
        }
        assert forall|a: ObjectId, b: ObjectId|
            page_ordinals(pages).contains_key(a) && page_ordinals(pages).contains_key(b)
                && page_ordinals(pages)[a] == page_ordinals(pages)[b] implies a == b by {
            let i = choose|i: int| 0 <= i < pages.len() && pages[i] == a;
            let j = choose|j: int| 0 <= j < pages.len() && pages[j] == b;
            assert(page_ordinals(pages)[pages[i]] == i + 1 && page_ordinals(pages)[pages[j]] == j + 1);
        }
    }
}

} // verus!
