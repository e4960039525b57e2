//! The document: an object graph together with the named destinations and
//! the link annotations that were found in it, and the two operations that
//! change it.

use vstd::prelude::*;
use vstd::utf8::encode_utf8;
use crate::annotation::{annotations_of_pages, page_annotations_iter};
use crate::destination::{
    DestinationValue,
    NamedDestination,
    collect_named_destinations,
    destination_pairs,
    destination_values,
    lemma_resolved_page_numbers,
    named_destinations,
};
use crate::digest::{checksum, checksum_text};
use crate::error::PdfLibError;
use crate::graph::{GraphValue, ObjectGraph};
use crate::inject::{
    DestinationLink,
    LinkValue,
    add_links,
    inject,
    link_object_id,
    link_values,
};
use crate::link::{lemma_rewriting_keeps_objects, links_rewritten, update_annotation};
use crate::metadata::{PdfMetaData, get_meta_data, meta_data};
use crate::object::{Number, ObjectId, Real};
use crate::overlay::{Colour, overlay_made, overlay_rectangle};
use crate::pages::{
    PageIndex,
    find_pages_root,
    lemma_page_index_bijection,
    page_ordinals,
    pages_root,
};

verus! {

/// A document that is being worked on.
#[derive(Debug, Clone)]
pub struct PdfDocument {
    /// The object graph.
    pdf: ObjectGraph,
    /// The named destinations that the graph had when the document was made.
    named_dests: Vec<NamedDestination>,
    /// The link annotations of the pages, and those that were added since.
    annotations: Vec<ObjectId>,
}

/// The mathematical value of a [`PdfDocument`].
pub struct DocumentValue {
    pub graph: GraphValue,
    pub named_dests: Seq<DestinationValue>,
    pub annotations: Seq<ObjectId>,
}

impl View for PdfDocument {
    type V = DocumentValue;

    closed spec fn view(&self) -> DocumentValue {
        DocumentValue {
            graph: self.pdf@,
            named_dests: destination_values(self.named_dests@),
            annotations: self.annotations@,
        }
    }
}

/// What the mapping `lik` may make of the destination `dest`: a link on its
/// page with the target that `lik` gives, over the rectangle that marks the
/// position of the destination in the colour `colour`.
pub open spec fn link_made<F: Fn(NamedDestination) -> String, M: Fn(Number, i64) -> Real>(
    lik: F,
    minus: M,
    colour: Colour,
    dest: DestinationValue,
    link: LinkValue,
) -> bool {
    &&& link.page == dest.page
    &&& overlay_made(minus, dest.left, dest.top, colour, link.rect)
    &&& exists|asked: NamedDestination, url: String|
        asked@ == dest && #[trigger] call_ensures(lik, (asked,), url) && link.url == encode_utf8(
            url@,
        )
}

/// What the mapping `lik` may make of the destinations `dests`: one link
/// for each, in order.
pub open spec fn links_made<F: Fn(NamedDestination) -> String, M: Fn(Number, i64) -> Real>(
    lik: F,
    minus: M,
    colour: Colour,
    dests: Seq<DestinationValue>,
    links: Seq<LinkValue>,
) -> bool {
    links.len() == dests.len() && forall|i: int|
        0 <= i < dests.len() ==> link_made(lik, minus, colour, dests[i], #[trigger] links[i])
}

/// The document that is made of the graph `g` whose pages are walked in the
/// order `pages`, or the error that prevents it: that the catalog or the
/// root of the page tree cannot be found, or that a destination does not
/// resolve.
pub open spec fn document_of(g: GraphValue, pages: Seq<ObjectId>) -> Result<
    DocumentValue,
    PdfLibError,
> {
    match pages_root(g) {
        Err(e) => Err(e),
        Ok(_) => match named_destinations(g, page_ordinals(pages)) {
            Err(e) => Err(e),
            Ok(dests) => Ok(
                DocumentValue {
                    graph: g,
                    named_dests: dests,
                    annotations: annotations_of_pages(g, pages),
                },
            ),
        },
    }
}

impl PdfDocument {
    /// Makes a document of an object graph and the pages of the graph in the
    /// order in which they are walked.
    ///
    /// The named destinations are resolved and the link annotations of the
    /// pages are listed. A graph whose catalog or whose page tree cannot be
    /// found, or with a destination that does not resolve, makes no
    /// document.
    pub fn new(graph: ObjectGraph, pages: &Vec<ObjectId>) -> (r: Result<PdfDocument, PdfLibError>)
        requires
            pages.len() <= u32::MAX,
        ensures
            match document_of(graph@, pages@) {
                Ok(document) => r.is_ok() && r.unwrap()@ == document,
                Err(e) => r.is_err() && r.unwrap_err() == e,
            },
    {
        if let Err(e) = find_pages_root(&graph) {
            return Err(e);
        }
        let page_nums = PageIndex::new(pages);
        let named_dests = match collect_named_destinations(&graph, &page_nums) {
            Ok(named_dests) => named_dests,
            Err(e) => {
                return Err(e);
            },
        };
        let annotations = page_annotations_iter(&graph, pages);
        Ok(PdfDocument { pdf: graph, named_dests, annotations })
    }

    /// The object graph.
    pub fn graph(&self) -> (graph: &ObjectGraph)
        ensures
            graph@ == self@.graph,
    {
        &self.pdf
    }

    /// The object graph, when the work on the document is done.
    pub fn into_graph(self) -> (graph: ObjectGraph)
        ensures
            graph@ == self@.graph,
    {
        self.pdf
    }

    /// The named destinations.
    pub fn named_destinations(&self) -> (dests: &Vec<NamedDestination>)
        ensures
            destination_values(dests@) == self@.named_dests,
    {
        &self.named_dests
    }

    /// The link annotations.
    pub fn annotations(&self) -> (ids: &Vec<ObjectId>)
        ensures
            ids@ == self@.annotations,
    {
        &self.annotations
    }

    /// Whether every object of the graph has a number that is not above the
    /// highest number in use, as adding links asks.
    pub fn is_valid(&self) -> (ok: bool)
        ensures
            ok == self@.graph.valid(),
    {
        self.pdf.is_valid()
    }

    /// The highest object number in use.
    pub fn max_id(&self) -> (n: u32)
        ensures
            n == self@.graph.max_id,
    {
        self.pdf.max_id
    }

    /// The checksum of the document: the SHA-256 digest of its serialized
    /// bytes, in lower-case hexadecimal digits.
    ///
    /// The library does not write documents: `serialize` gives the bytes of
    /// the graph, or the error that prevents it, which is handed on.
    pub fn get_checksum<S, E>(&self, serialize: S) -> (r: Result<String, E>) where
        S: Fn(&ObjectGraph) -> Result<Vec<u8>, E>,

        requires
            forall|graph: &ObjectGraph| call_requires(serialize, (graph,)),
        ensures
            exists|graph: ObjectGraph, written: Result<Vec<u8>, E>|
                graph@ == self@.graph && #[trigger] call_ensures(serialize, (&graph,), written)
                    && match written {
                    Ok(bytes) => r.is_ok() && r->Ok_0@ == checksum_text(bytes@),
                    Err(e) => r.is_err() && r->Err_0 == e,
                },
    {
        let written = serialize(&self.pdf);
        match written {
            Ok(bytes) => Ok(checksum(bytes.as_slice())),
            Err(e) => Err(e),
        }
    }

    /// Reads title, authors and year from the information dictionary.
    pub fn get_meta_data(&self) -> (r: Result<PdfMetaData, PdfLibError>)
        ensures
            match meta_data(self@.graph) {
                Ok(data) => r.is_ok() && r.unwrap()@ == data,
                Err(e) => r.is_err() && r.unwrap_err() == e,
            },
    {
        get_meta_data(&self.pdf)
    }

    /// Puts `links` on their pages and makes their annotations known.
    pub fn add_links(&mut self, links: &Vec<DestinationLink>) -> (r: Result<(), PdfLibError>)
        requires
            old(self)@.graph.valid(),
            old(self)@.graph.max_id + 2 * links.len() <= u32::MAX,
        ensures
            final(self)@.graph.valid(),
            forall|i: int, second: bool|
                0 <= i < links.len() ==> !old(self)@.graph.objects.contains_key(
                    #[trigger] link_object_id(old(self)@.graph.max_id, i, second),
                ),
            final(self)@.graph == inject(
                old(self)@.graph,
                old(self)@.annotations,
                link_values(links@),
            ).graph,
            final(self)@.annotations == inject(
                old(self)@.graph,
                old(self)@.annotations,
                link_values(links@),
            ).annotations,
            final(self)@.named_dests == old(self)@.named_dests,
            r == inject(old(self)@.graph, old(self)@.annotations, link_values(links@)).outcome,
    {
        add_links(&mut self.pdf, &mut self.annotations, links)
    }

    /// Marks every named destination on its page with a link: an invisible
    /// link annotation whose target `lik` gives, and a rectangle filled with
    /// `colour` that shows where the link is. `minus` does the subtraction
    /// of reals that places the rectangle.
    ///
    /// One link is made for each destination, in order, and the links are
    /// put on their pages as [`PdfDocument::add_links`] does it.
    pub fn add_destinations_links<F, M>(&mut self, lik: F, minus: M, colour: Colour) -> (r: Result<
        (),
        PdfLibError,
    >) where F: Fn(NamedDestination) -> String, M: Fn(Number, i64) -> Real
        requires
            forall|dest: NamedDestination| call_requires(lik, (dest,)),
            forall|number: Number, offset: i64| call_requires(minus, (number, offset)),
            old(self)@.graph.valid(),
            old(self)@.graph.max_id + 2 * old(self)@.named_dests.len() <= u32::MAX,
        ensures
            final(self)@.graph.valid(),
            forall|i: int, second: bool|
                0 <= i < old(self)@.named_dests.len() ==> !old(self)@.graph.objects.contains_key(
                    #[trigger] link_object_id(old(self)@.graph.max_id, i, second),
                ),
            final(self)@.named_dests == old(self)@.named_dests,
            exists|links: Seq<LinkValue>|
                links_made(lik, minus, colour, old(self)@.named_dests, links) && #[trigger] inject(
                    old(self)@.graph,
                    old(self)@.annotations,
                    links,
                ) == (crate::inject::Injection {
                    graph: final(self)@.graph,
                    annotations: final(self)@.annotations,
                    outcome: r,
                }),
    {
        let mut links: Vec<DestinationLink> = Vec::new();
        let mut i: usize = 0;
        while i < self.named_dests.len()
            invariant
                i <= self.named_dests.len(),
                *self == *old(self),
                forall|dest: NamedDestination| call_requires(lik, (dest,)),
                forall|number: Number, offset: i64| call_requires(minus, (number, offset)),
                links@.len() == i,
                forall|k: int|
                    0 <= k < i ==> link_made(
                        lik,
                        minus,
                        colour,
                        self.named_dests@[k]@,
                        #[trigger] link_values(links@)[k],
                    ),
            decreases self.named_dests.len() - i,
        {
            let asked = self.named_dests[i].clone();
            let rect = overlay_rectangle(asked.left, asked.top, colour, &minus);
            let page = asked.page;
            let url = lik(asked);
            let ghost before = link_values(links@);
            let link = DestinationLink { page, rect, url };
            links.push(link);
            assert forall|k: int| 0 <= k < i + 1 implies link_made(
                lik,
                minus,
                colour,
                self.named_dests@[k]@,
                #[trigger] link_values(links@)[k],
            ) by {
                if k < i {
                    assert(link_values(links@)[k] == before[k]);
                }
            }
            i += 1;
        }
        let ghost made = link_values(links@);
        let r = add_links(&mut self.pdf, &mut self.annotations, &links);
        assert(inject(old(self)@.graph, old(self)@.annotations, made) == (crate::inject::Injection {
            graph: self@.graph,
            annotations: self@.annotations,
            outcome: r,
        }));
        r
    }

    /// Rewrites the target of every link annotation by the mapping `lik`.
    ///
    /// The annotations are taken one after the other. One that is no link,
    /// or whose target does not decode, is left as it is; the others are
    /// rewritten all the same, and the result is always success.
    pub fn update_links<F>(&mut self, lik: &F) -> (r: Result<(), PdfLibError>) where
        F: Fn(String) -> String,

        requires
            forall|text: String| call_requires(*lik, (text,)),
        ensures
            r.is_ok(),
            final(self)@.named_dests == old(self)@.named_dests,
            final(self)@.annotations == old(self)@.annotations,
            links_rewritten(*lik, old(self)@.graph, old(self)@.annotations, final(self)@.graph),
            old(self)@.graph.valid() ==> final(self)@.graph.valid(),
    {
        let mut i: usize = 0;
        while i < self.annotations.len()
            invariant
                i <= self.annotations.len(),
                forall|text: String| call_requires(*lik, (text,)),
                self.named_dests == old(self).named_dests,
                self.annotations == old(self).annotations,
                links_rewritten(
                    *lik,
                    old(self).pdf@,
                    self.annotations@.take(i as int),
                    self.pdf@,
                ),
            decreases self.annotations.len() - i,
        {
            assert(self.annotations@.take(i + 1).drop_last() =~= self.annotations@.take(i as int));
            assert(self.annotations@.take(i + 1).last() == self.annotations@[i as int]);
            let id = self.annotations[i];
            update_annotation(&mut self.pdf, id, lik);
            i += 1;
        }
        assert(self.annotations@.take(i as int) =~= self.annotations@);
        proof {
            lemma_rewriting_keeps_objects(*lik, old(self).pdf@, self.annotations@, self.pdf@);
        }
        Ok(())
    }
}

/// Whether the page number of each of `dests` is the place of its page
/// among `pages`, counted from 1: it lies between 1 and the number of pages,
/// it is the place of every occurrence of the page, and two destinations
/// have one page number where they have one page and only there.
pub open spec fn numbered_by_place(dests: Seq<DestinationValue>, pages: Seq<ObjectId>) -> bool {
    &&& forall|k: int|
        0 <= k < dests.len() ==> 1 <= (#[trigger] dests[k]).page_num <= pages.len()
            && pages[dests[k].page_num - 1] == dests[k].page
    &&& forall|k: int, i: int|
        0 <= k < dests.len() && 0 <= i < pages.len() && #[trigger] pages[i] == (
        #[trigger] dests[k]).page ==> dests[k].page_num == i + 1
    &&& forall|a: int, b: int|
        0 <= a < dests.len() && 0 <= b < dests.len() ==> ((#[trigger] dests[a]).page_num == (
        #[trigger] dests[b]).page_num <==> dests[a].page == dests[b].page)
}

/// In a document whose pages are all different, the page number of every
/// destination is the place of its page in the order in which the pages are
/// walked. So a destination on an earlier page has the lower page number.
pub proof fn lemma_document_page_numbers(g: GraphValue, pages: Seq<ObjectId>)
    requires
        pages.no_duplicates(),
        pages.len() <= u32::MAX,
        document_of(g, pages).is_ok(),
    ensures
        numbered_by_place(document_of(g, pages).unwrap().named_dests, pages),
{
    let index = page_ordinals(pages);
    let dests = document_of(g, pages).unwrap().named_dests;
    lemma_page_index_bijection(pages);
    lemma_resolved_page_numbers(g, index, destination_pairs(g, g.catalog().unwrap()));
    assert forall|k: int| 0 <= k < dests.len() implies 1 <= (#[trigger] dests[k]).page_num
        <= pages.len() && pages[dests[k].page_num - 1] == dests[k].page by {
        let page = dests[k].page;
        assert(pages.to_set().contains(page));
        let i = choose|i: int| 0 <= i < pages.len() && pages[i] == page;
        assert(index[pages[i]] == i + 1);
    }
}

/// Whether the serializer goes by the value of a graph: graphs of one value
/// are both written or both refused, and written to the same bytes.
pub open spec fn writes_by_value<S: Fn(&ObjectGraph) -> Result<Vec<u8>, E>, E>(serialize: S) -> bool {
    forall|first: ObjectGraph, second: ObjectGraph, a: Result<Vec<u8>, E>, b: Result<Vec<u8>, E>|
        first@ == second@ && #[trigger] call_ensures(serialize, (&first,), a)
            && #[trigger] call_ensures(serialize, (&second,), b) ==> (a is Ok <==> b is Ok) && (a is Ok
            ==> a->Ok_0@ == b->Ok_0@)
}

/// With a serializer that goes by the value of a graph, one graph has one
/// checksum: whenever the checksum is taken of a document with the same
/// graph, be it the same document again, another document, or a document
/// whose links were rewritten and rewritten back, it is the same text.
pub proof fn lemma_one_graph_one_checksum<S: Fn(&ObjectGraph) -> Result<Vec<u8>, E>, E>(
    serialize: S,
    first: ObjectGraph,
    second: ObjectGraph,
    a: Result<Vec<u8>, E>,
    b: Result<Vec<u8>, E>,
)
    requires
        writes_by_value(serialize),
        first@ == second@,
        call_ensures(serialize, (&first,), a),
        call_ensures(serialize, (&second,), b),
        a is Ok,
    ensures
        b is Ok,
        checksum_text(a->Ok_0@) == checksum_text(b->Ok_0@),
{
}

} // verus!
