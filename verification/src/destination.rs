//! Named destinations: resolving a raw destination object into the page it
//! points at, its position on that page, and its name.

use vstd::prelude::*;
use crate::error::{PageTarget, PdfLibError, StructureError};
use crate::graph::{GraphValue, ObjectGraph};
use crate::names::{D, DESTS, NAMES, XYZ};
use crate::nametree::{name_tree_iter, name_tree_pairs, pair_values};
use crate::object::{
    Dictionary,
    Entries,
    Number,
    Object,
    ObjectId,
    Value,
    bytes_eq,
    copy_bytes,
    values,
};
use crate::pages::PageIndex;
use crate::text::{decode_text_string, parse_text_string};

verus! {

/// The position, in page units, that a destination without a position of its
/// own is given, both from the left and from the top.
pub const DEFAULT_ANCHOR: i64 = 10;

/// A named destination of a document.
#[derive(Debug, PartialEq, Eq)]
pub struct NamedDestination {
    /// The distance from the left edge of the page.
    pub left: Number,
    /// The distance from the top edge of the page.
    pub top: Number,
    /// The page that the destination points at.
    pub page: ObjectId,
    /// The ordinal of that page.
    pub page_num: u32,
    /// The name under which the destination is known.
    pub name: String,
}

/// The mathematical value of a [`NamedDestination`].
pub struct DestinationValue {
    pub left: Number,
    pub top: Number,
    pub page: ObjectId,
    pub page_num: u32,
    pub name: Seq<char>,
}

impl View for NamedDestination {
    type V = DestinationValue;

    open spec fn view(&self) -> DestinationValue {
        DestinationValue {
            left: self.left,
            top: self.top,
            page: self.page,
            page_num: self.page_num,
            name: self.name@,
        }
    }
}

impl Clone for NamedDestination {
    fn clone(&self) -> (r: Self)
        ensures
            r@ == self@,
    {
        NamedDestination {
            left: self.left,
            top: self.top,
            page: self.page,
            page_num: self.page_num,
            name: self.name.clone(),
        }
    }
}

/// The values of a sequence of destinations.
pub open spec fn destination_values(dests: Seq<NamedDestination>) -> Seq<DestinationValue> {
    Seq::new(dests.len(), |i: int| dests[i]@)
}

/// The bytes of a destination's key, which is a name or a string.
pub open spec fn key_bytes(key: Value) -> Result<Seq<u8>, PdfLibError> {
    match key {
        Value::Name(bytes) => Ok(bytes),
        Value::String(bytes, _) => Ok(bytes),
        _ => Err(PdfLibError::PDFError(StructureError::ObjectType)),
    }
}

/// The destination array of a resolved destination object: the object
/// itself, or what a dictionary holds under `D` where that resolves.
pub open spec fn destination_array(g: GraphValue, target: Value) -> Result<
    Seq<Value>,
    PdfLibError,
> {
    let holder = match target {
        Value::Dictionary(entries) => match g.get_deref(entries, D@) {
            Ok(inner) => inner,
            Err(_) => target,
        },
        _ => target,
    };
    match holder {
        Value::Array(items) => Ok(items),
        _ => Err(PdfLibError::PDFError(StructureError::ObjectType)),
    }
}

/// The number that `value` is, or `fallback` where it is no number.
pub open spec fn number_or(value: Value, fallback: Number) -> Number {
    match value {
        Value::Integer(i) => Number::Integer(i),
        Value::Real(x) => Number::Real(x),
        _ => fallback,
    }
}

/// The position of a destination array of kind `kind`: items 2 and 3 of an
/// `XYZ` array of at least four items, as far as they are numbers, and the
/// default anchor otherwise.
pub open spec fn destination_position(items: Seq<Value>, kind: Seq<u8>) -> (Number, Number) {
    if items.len() > 3 && kind == XYZ@ {
        (
            number_or(items[2], Number::Integer(DEFAULT_ANCHOR)),
            number_or(items[3], Number::Integer(DEFAULT_ANCHOR)),
        )
    } else {
        (Number::Integer(DEFAULT_ANCHOR), Number::Integer(DEFAULT_ANCHOR))
    }
}

/// The destination that the pair of `key` and `object` describes, or the
/// error that stops its resolution.
pub open spec fn resolve_destination(
    g: GraphValue,
    index: Map<ObjectId, u32>,
    key: Value,
    object: Value,
) -> Result<DestinationValue, PdfLibError> {
    match key_bytes(key) {
        Err(e) => Err(e),
        Ok(bytes) => match decode_text_string(bytes) {
            Err(e) => Err(e),
            Ok(name) => match g.resolve(object) {
                Err(e) => Err(PdfLibError::PDFError(e)),
                Ok(target) => match destination_array(g, target) {
                    Err(e) => Err(e),
                    Ok(items) => resolve_items(index, name, items),
                },
            },
        },
    }
}

/// The destination named `name` that the destination array `items` describes.
pub open spec fn resolve_items(index: Map<ObjectId, u32>, name: Seq<char>, items: Seq<Value>) -> Result<
    DestinationValue,
    PdfLibError,
> {
    if items.len() < 2 {
        Err(PdfLibError::InvalidPageId(PageTarget::Missing))
    } else {
        match (items[0], items[1]) {
            (Value::Reference(page), Value::Name(kind)) => {
                if index.contains_key(page) {
                    Ok(
                        DestinationValue {
                            left: destination_position(items, kind).0,
                            top: destination_position(items, kind).1,
                            page,
                            page_num: index[page],
                            name,
                        },
                    )
                } else {
                    Err(PdfLibError::InvalidPageId(PageTarget::Unknown(page.0, page.1)))
                }
            },
            _ => Err(PdfLibError::PDFError(StructureError::ObjectType)),
        }
    }
}

/// The bytes of an object that is a name or a string.
pub fn as_name_or_str(object: &Object) -> (r: Result<&[u8], PdfLibError>)
    ensures
        match key_bytes(object@) {
            Ok(bytes) => r.is_ok() && r.unwrap()@ == bytes,
            Err(e) => r.is_err() && r.unwrap_err() == e,
        },
{
    match object {
        Object::Name(name) => Ok(name.as_slice()),
        Object::String(name, _) => Ok(name.as_slice()),
        _ => Err(PdfLibError::PDFError(StructureError::ObjectType)),
    }
}

/// The destination array of the resolved destination object `object`.
pub fn array_of_named_dest_obj<'a>(graph: &'a ObjectGraph, object: &'a Object) -> (r: Result<
    &'a Vec<Object>,
    PdfLibError,
>)
    ensures
        match destination_array(graph@, object@) {
            Ok(items) => r.is_ok() && values(r.unwrap()@) == items,
            Err(e) => r.is_err() && r.unwrap_err() == e,
        },
{
    let holder = match object {
        Object::Dictionary(dict) => match graph.get_deref(dict, D.as_slice()) {
            Ok(inner) => inner,
            Err(_) => object,
        },
        _ => object,
    };
    match holder.as_array() {
        Ok(items) => Ok(items),
        Err(e) => Err(PdfLibError::PDFError(e)),
    }
}

/// The number that `object` is, or `fallback`.
fn as_number_or(object: &Object, fallback: Number) -> (n: Number)
    ensures
        n == number_or(object@, fallback),
{
    match object {
        Object::Integer(i) => Number::Integer(*i),
        Object::Real(x) => Number::Real(*x),
        _ => fallback,
    }
}

/// Resolves the destination that the name-tree pair of `key` and `object`
/// describes.
///
/// `object` is followed one level where it is a reference. What it gives is
/// the destination array, or a dictionary that holds the array under `D`.
/// Item 0 of the array names the page, item 1 the kind of destination.
pub fn named_dest_of_object(
    graph: &ObjectGraph,
    pnum: &PageIndex,
    key: &Object,
    object: &Object,
) -> (r: Result<NamedDestination, PdfLibError>)
    ensures
        match resolve_destination(graph@, pnum@, key@, object@) {
            Ok(dest) => r.is_ok() && r.unwrap()@ == dest,
            Err(e) => r.is_err() && r.unwrap_err() == e,
        },
{
    let name = match as_name_or_str(key) {
        Ok(bytes) => match parse_text_string(bytes) {
            Ok(name) => name,
            Err(e) => {
                return Err(e);
            },
        },
        Err(e) => {
            return Err(e);
        },
    };
    let target = match graph.dereference(object) {
        Ok(target) => target,
        Err(e) => {
            return Err(PdfLibError::PDFError(e));
        },
    };
    let items = match array_of_named_dest_obj(graph, target) {
        Ok(items) => items,
        Err(e) => {
            return Err(e);
        },
    };
    if items.len() < 2 {
        return Err(PdfLibError::InvalidPageId(PageTarget::Missing));
    }
    let kind = match items[1].as_name() {
        Ok(kind) => kind,
        Err(e) => {
            return Err(PdfLibError::PDFError(e));
        },
    };
    let page = match items[0].as_reference() {
        Ok(page) => page,
        Err(e) => {
            return Err(PdfLibError::PDFError(e));
        },
    };
    let fallback = Number::Integer(DEFAULT_ANCHOR);
    let mut left = fallback;
    let mut top = fallback;
    if items.len() > 3 && bytes_eq(kind, XYZ.as_slice()) {
        left = as_number_or(&items[2], fallback);
        top = as_number_or(&items[3], fallback);
    }
    match pnum.get(page) {
        Some(page_num) => Ok(NamedDestination { left, top, page, page_num, name }),
        None => Err(PdfLibError::InvalidPageId(PageTarget::Unknown(page.0, page.1))),
    }
}

/// The dictionary that `found` is, where a lookup gave one.
pub open spec fn found_entries(found: Result<Value, StructureError>) -> Option<Entries> {
    match found {
        Ok(Value::Dictionary(entries)) => Some(entries),
        _ => None,
    }
}

/// The root of the destinations name tree: what the catalog's `Names`
/// dictionary holds under `Dests`.
pub open spec fn destination_tree(g: GraphValue, catalog: Entries) -> Option<Entries> {
    match found_entries(g.get_deref(catalog, NAMES@)) {
        Some(names) => found_entries(g.get_deref(names, DESTS@)),
        None => None,
    }
}

/// The entries of a flat destinations dictionary as pairs, each key as a
/// name object.
pub open spec fn flat_pairs(dests: Entries) -> Seq<(Value, Value)> {
    Seq::new(dests.pairs.len(), |i: int| (Value::Name(dests.pairs[i].0), dests.pairs[i].1))
}

/// The pairs of every named destination of the document: those of the name
/// tree where the catalog has one, else those of the catalog's flat `Dests`
/// dictionary, else none. The two places are never both read.
pub open spec fn destination_pairs(g: GraphValue, catalog: Entries) -> Seq<(Value, Value)> {
    match destination_tree(g, catalog) {
        Some(tree) => name_tree_pairs(g, tree),
        None => match found_entries(g.get_deref(catalog, DESTS@)) {
            Some(dests) => flat_pairs(dests),
            None => Seq::empty(),
        },
    }
}

/// The destinations that `pairs` describe, in order, or the error of the
/// first pair that does not resolve.
pub open spec fn resolve_all(g: GraphValue, index: Map<ObjectId, u32>, pairs: Seq<(Value, Value)>) -> Result<
    Seq<DestinationValue>,
    PdfLibError,
>
    decreases pairs.len(),
{
    if pairs.len() == 0 {
        Ok(Seq::empty())
    } else {
        match resolve_all(g, index, pairs.drop_last()) {
            Err(e) => Err(e),
            Ok(front) => match resolve_destination(g, index, pairs.last().0, pairs.last().1) {
                Err(e) => Err(e),
                Ok(dest) => Ok(front.push(dest)),
            },
        }
    }
}

/// The named destinations of the document `g`, or the error that stops
/// their collection: a missing catalog, or the first destination that does
/// not resolve.
pub open spec fn named_destinations(g: GraphValue, index: Map<ObjectId, u32>) -> Result<
    Seq<DestinationValue>,
    PdfLibError,
> {
    match g.catalog() {
        Err(e) => Err(PdfLibError::PDFError(e)),
        Ok(catalog) => resolve_all(g, index, destination_pairs(g, catalog)),
    }
}

/// The dictionary that `dict` holds under `key`, resolved.
fn dictionary_under<'a>(graph: &'a ObjectGraph, dict: &'a Dictionary, key: &[u8]) -> (r: Option<
    &'a Dictionary,
>)
    ensures
        match found_entries(graph@.get_deref(dict@, key@)) {
            Some(entries) => r.is_some() && r.unwrap()@ == entries,
            None => r.is_none(),
        },
{
    match graph.get_deref(dict, key) {
        Ok(found) => match found.as_dict() {
            Ok(inner) => Some(inner),
            Err(_) => None,
        },
        Err(_) => None,
    }
}

/// Resolves the pairs of a name tree, in order.
fn resolve_tree_pairs(
    graph: &ObjectGraph,
    pnum: &PageIndex,
    pairs: &Vec<(&Object, &Object)>,
) -> (r: Result<Vec<NamedDestination>, PdfLibError>)
    ensures
        match resolve_all(graph@, pnum@, pair_values(pairs@)) {
            Ok(dests) => r.is_ok() && destination_values(r.unwrap()@) == dests,
            Err(e) => r.is_err() && r.unwrap_err() == e,
        },
{
    let ghost all = pair_values(pairs@);
    let mut dests: Vec<NamedDestination> = Vec::new();
    let mut i: usize = 0;
    assert(destination_values(dests@) =~= Seq::<DestinationValue>::empty());
    while i < pairs.len()
        invariant
            i <= pairs.len(),
            all == pair_values(pairs@),
            resolve_all(graph@, pnum@, all.take(i as int)) == Ok::<
                Seq<DestinationValue>,
                PdfLibError,
            >(destination_values(dests@)),
        decreases pairs.len() - i,
    {
        let ghost before = destination_values(dests@);
        assert(all.take(i + 1).drop_last() =~= all.take(i as int));
        match named_dest_of_object(graph, pnum, pairs[i].0, pairs[i].1) {
            Ok(dest) => {
                dests.push(dest);
                assert(destination_values(dests@) =~= before.push(dest@));
            },
            Err(e) => {
                proof {
                    lemma_resolve_all_error(graph@, pnum@, all, i + 1);
                }
                return Err(e);
            },
        }
        i += 1;
    }
    assert(all.take(i as int) =~= all);
    Ok(dests)
}

/// An error among the first `n` pairs is the error of all of them.
proof fn lemma_resolve_all_error(
    g: GraphValue,
    index: Map<ObjectId, u32>,
    pairs: Seq<(Value, Value)>,
    n: int,
)
    requires
        0 <= n <= pairs.len(),
        resolve_all(g, index, pairs.take(n)).is_err(),
    ensures
        resolve_all(g, index, pairs) == resolve_all(g, index, pairs.take(n)),
    decreases pairs.len() - n,
{
    if n < pairs.len() {
        assert(pairs.take(n + 1).drop_last() =~= pairs.take(n));
        lemma_resolve_all_error(g, index, pairs, n + 1);
    } else {
        assert(pairs.take(n) =~= pairs);
    }
}

/// Resolves the entries of a flat destinations dictionary, in order.
fn resolve_flat_pairs(graph: &ObjectGraph, pnum: &PageIndex, dests: &Dictionary) -> (r: Result<
    Vec<NamedDestination>,
    PdfLibError,
>)
    ensures
        match resolve_all(graph@, pnum@, flat_pairs(dests@)) {
            Ok(found) => r.is_ok() && destination_values(r.unwrap()@) == found,
            Err(e) => r.is_err() && r.unwrap_err() == e,
        },
{
    let ghost all = flat_pairs(dests@);
    let mut found: Vec<NamedDestination> = Vec::new();
    let mut i: usize = 0;
    assert(destination_values(found@) =~= Seq::<DestinationValue>::empty());
    while i < dests.len()
        invariant
            i <= dests@.pairs.len(),
            all == flat_pairs(dests@),
            resolve_all(graph@, pnum@, all.take(i as int)) == Ok::<
                Seq<DestinationValue>,
                PdfLibError,
            >(destination_values(found@)),
        decreases dests@.pairs.len() - i,
    {
        let ghost before = destination_values(found@);
        assert(all.take(i + 1).drop_last() =~= all.take(i as int));
        let key = Object::Name(copy_bytes(dests.key_at(i)));
        match named_dest_of_object(graph, pnum, &key, dests.value_at(i)) {
            Ok(dest) => {
                found.push(dest);
                assert(destination_values(found@) =~= before.push(dest@));
            },
            Err(e) => {
                proof {
                    lemma_resolve_all_error(graph@, pnum@, all, i + 1);
                }
                return Err(e);
            },
        }
        i += 1;
    }
    assert(all.take(i as int) =~= all);
    Ok(found)
}

/// Collects the named destinations of a document.
///
/// The name tree under the catalog's `Names` is read where there is one;
/// only where there is none, the catalog's flat `Dests` dictionary is read. A
/// document with neither has no destinations, which is no error.
pub fn collect_named_destinations(graph: &ObjectGraph, pnum: &PageIndex) -> (r: Result<
    Vec<NamedDestination>,
    PdfLibError,
>)
    ensures
        match named_destinations(graph@, pnum@) {
            Ok(dests) => r.is_ok() && destination_values(r.unwrap()@) == dests,
            Err(e) => r.is_err() && r.unwrap_err() == e,
        },
{
    let catalog = match graph.catalog() {
        Ok(catalog) => catalog,
        Err(e) => {
            return Err(PdfLibError::PDFError(e));
        },
    };
    let tree = match dictionary_under(graph, catalog, NAMES.as_slice()) {
        Some(names) => dictionary_under(graph, names, DESTS.as_slice()),
        None => None,
    };
    if let Some(tree) = tree {
        let pairs = name_tree_iter(graph, tree);
        resolve_tree_pairs(graph, pnum, &pairs)
    } else if let Some(dests) = dictionary_under(graph, catalog, DESTS.as_slice()) {
        resolve_flat_pairs(graph, pnum, dests)
    } else {
        let none: Vec<NamedDestination> = Vec::new();
        Ok(none)
    }
}

/// A destination array of fewer than two items names no page.
pub proof fn lemma_short_array_is_invalid(index: Map<ObjectId, u32>, name: Seq<char>, items: Seq<Value>)
    requires
        items.len() < 2,
    ensures
        resolve_items(index, name, items) == Err::<DestinationValue, PdfLibError>(
            PdfLibError::InvalidPageId(PageTarget::Missing),
        ),
{
}

/// A destination array of another kind than `XYZ`, or of fewer than four
/// items, gives the default position.
pub proof fn lemma_default_position(
    index: Map<ObjectId, u32>,
    name: Seq<char>,
    items: Seq<Value>,
    page: ObjectId,
    kind: Seq<u8>,
)
    requires
        items.len() >= 2,
        items[0] == Value::Reference(page),
        items[1] == Value::Name(kind),
        index.contains_key(page),
        kind != XYZ@ || items.len() < 4,
    ensures
        resolve_items(index, name, items) == Ok::<DestinationValue, PdfLibError>(
            DestinationValue {
                left: Number::Integer(DEFAULT_ANCHOR),
                top: Number::Integer(DEFAULT_ANCHOR),
                page,
                page_num: index[page],
                name,
            },
        ),
{
}

/// An `XYZ` destination array whose items 2 and 3 are numbers gives these
/// numbers as its position.
pub proof fn lemma_stated_position(
    index: Map<ObjectId, u32>,
    name: Seq<char>,
    items: Seq<Value>,
    page: ObjectId,
    left: Number,
    top: Number,
)
    requires
        items.len() >= 4,
        items[0] == Value::Reference(page),
        items[1] == Value::Name(XYZ@),
        index.contains_key(page),
        number_or(items[2], Number::Integer(DEFAULT_ANCHOR)) == left,
        number_or(items[3], Number::Integer(DEFAULT_ANCHOR)) == top,
    ensures
        resolve_items(index, name, items) == Ok::<DestinationValue, PdfLibError>(
            DestinationValue { left, top, page, page_num: index[page], name },
        ),
{
}

/// Every destination that resolves points at a page that the page index
/// knows, and has the ordinal of that page as its page number.
pub proof fn lemma_resolved_page_numbers(
    g: GraphValue,
    index: Map<ObjectId, u32>,
    pairs: Seq<(Value, Value)>,
)
    requires
        resolve_all(g, index, pairs).is_ok(),
    ensures
        forall|k: int|
            0 <= k < resolve_all(g, index, pairs).unwrap().len() ==> index.contains_key(
                (#[trigger] resolve_all(g, index, pairs).unwrap()[k]).page,
            ) && resolve_all(g, index, pairs).unwrap()[k].page_num == index[resolve_all(
                g,
                index,
                pairs,
            ).unwrap()[k].page],
    decreases pairs.len(),
{
    if pairs.len() > 0 {
        lemma_resolved_page_numbers(g, index, pairs.drop_last());
        let front = resolve_all(g, index, pairs.drop_last()).unwrap();
        let dests = resolve_all(g, index, pairs).unwrap();
        assert forall|k: int| 0 <= k < dests.len() implies index.contains_key(
            (#[trigger] dests[k]).page,
        ) && dests[k].page_num == index[dests[k].page] by {
            if k < front.len() {
                assert(dests[k] == front[k]);
            }
        }
    }
}

} // verus!
