//! Rewriting the target of a link annotation.
//!
//! A link annotation is a dictionary whose `A` entry is its action, a
//! dictionary of its own, and the action's `URI` entry is a string: the
//! target. An annotation of any other shape is no link and is left as it is.

use vstd::prelude::*;
use vstd::string::StrSliceExecFns;
use vstd::utf8::encode_utf8;
use crate::error::{PdfLibError, StructureError};
use crate::names::{A, URI};
use crate::graph::{GraphValue, ObjectGraph};
use crate::object::{
    Dictionary,
    Entries,
    Object,
    ObjectId,
    StringFormat,
    Value,
    copy_dictionary,
};
use crate::text::{decode_text_string, parse_text_string};

verus! {

/// The action of an annotation: the dictionary under `A`.
pub open spec fn action_of(annotation: Entries) -> Result<Entries, StructureError> {
    match annotation.get(A@) {
        Some(Value::Dictionary(action)) => Ok(action),
        Some(_) => Err(StructureError::ObjectType),
        None => Err(StructureError::DictKey),
    }
}

/// The raw target of a link annotation: the bytes of the string that its
/// action holds under `URI`.
pub open spec fn uri_of(annotation: Entries) -> Option<Seq<u8>> {
    match action_of(annotation) {
        Ok(action) => match action.get(URI@) {
            Some(Value::String(bytes, _)) => Some(bytes),
            _ => None,
        },
        Err(_) => None,
    }
}

/// The annotation with `uri` as its target, written as a literal string.
/// An annotation without an action is left as it is.
pub open spec fn with_uri(annotation: Entries, uri: Seq<u8>) -> Entries {
    match action_of(annotation) {
        Ok(action) => annotation.set(
            A@,
            Value::Dictionary(action.set(URI@, Value::String(uri, StringFormat::Literal))),
        ),
        Err(_) => annotation,
    }
}

/// What applying the mapping `lik` to the annotation `before` may give: the
/// annotation with the mapped target where `before` is a link whose target
/// decodes, and `before` itself otherwise.
pub open spec fn link_rewritten<F: Fn(String) -> String>(
    lik: F,
    before: Entries,
    after: Entries,
) -> bool {
    match uri_of(before) {
        Some(raw) => match decode_text_string(raw) {
            Ok(text) => exists|old_uri: String, new_uri: String|
                old_uri@ == text && #[trigger] call_ensures(lik, (old_uri,), new_uri) && after
                    == with_uri(
                    before,
                    encode_utf8(new_uri@),
                ),
            Err(_) => after == before,
        },
        None => after == before,
    }
}

/// The result that the rewriting of one annotation reports: the error of a
/// missing action or of a target that does not decode, and success otherwise.
pub open spec fn link_outcome(annotation: Entries) -> Result<(), PdfLibError> {
    match action_of(annotation) {
        Err(e) => Err(PdfLibError::PDFError(e)),
        Ok(_) => match uri_of(annotation) {
            Some(raw) => match decode_text_string(raw) {
                Ok(_) => Ok(()),
                Err(e) => Err(e),
            },
            None => Ok(()),
        },
    }
}

/// The raw target of a link annotation.
pub fn link_uri(annotation: &Dictionary) -> (r: Option<&[u8]>)
    ensures
        match uri_of(annotation@) {
            Some(raw) => r.is_some() && r.unwrap()@ == raw,
            None => r.is_none(),
        },
{
    match annotation.get(A.as_slice()) {
        Ok(entry) => match entry.as_dict() {
            Ok(action) => match action.get(URI.as_slice()) {
                Ok(target) => match target.as_str() {
                    Ok(raw) => Some(raw),
                    Err(_) => None,
                },
                Err(_) => None,
            },
            Err(_) => None,
        },
        Err(_) => None,
    }
}

/// Makes `uri` the target of the annotation, as a literal string. An
/// annotation without an action is left as it is.
pub fn set_link_uri(annotation: &mut Dictionary, uri: Vec<u8>)
    ensures
        final(annotation)@ == with_uri(old(annotation)@, uri@),
{
    let mut action = match annotation.get(A.as_slice()) {
        Ok(entry) => match entry.as_dict() {
            Ok(action) => copy_dictionary(action),
            Err(_) => {
                return ;
            },
        },
        Err(_) => {
            return ;
        },
    };
    action.set(vstd::slice::slice_to_vec(URI.as_slice()), Object::string_literal(uri));
    annotation.set(vstd::slice::slice_to_vec(A.as_slice()), Object::Dictionary(action));
}

/// Rewrites the target of one annotation by the mapping `lik`.
///
/// An annotation without an action is an error. One whose action has no
/// string under `URI` is left as it is. Otherwise the target is decoded,
/// mapped, and written back as a literal string.
pub fn update_link<F>(dct: &mut Dictionary, lik: &F) -> (r: Result<(), PdfLibError>) where
    F: Fn(String) -> String,

    requires
        forall|text: String| call_requires(*lik, (text,)),
    ensures
        r == link_outcome(old(dct)@),
        r.is_ok() ==> link_rewritten(*lik, old(dct)@, final(dct)@),
        r.is_err() ==> final(dct)@ == old(dct)@,
{
    match dct.get(A.as_slice()) {
        Ok(entry) => match entry.as_dict() {
            Ok(_) => {},
            Err(e) => {
                return Err(PdfLibError::PDFError(e));
            },
        },
        Err(e) => {
            return Err(PdfLibError::PDFError(e));
        },
    }
    let old_uri = match link_uri(dct) {
        Some(raw) => match parse_text_string(raw) {
            Ok(text) => text,
            Err(e) => {
                return Err(e);
            },
        },
        None => {
            return Ok(());
        },
    };
    let new_uri = lik(old_uri);
    set_link_uri(dct, new_uri.as_str().as_bytes_vec());
    Ok(())
}

/// The target of the link annotation `id` of the graph: the text of its
/// `URI` string. An object that is no link annotation, or whose target does
/// not decode, has none.
pub open spec fn target_of(g: GraphValue, id: ObjectId) -> Option<Seq<char>> {
    match g.get(id) {
        Ok(Value::Dictionary(annotation)) => match uri_of(annotation) {
            Some(raw) => match decode_text_string(raw) {
                Ok(text) => Some(text),
                Err(_) => None,
            },
            None => None,
        },
        _ => None,
    }
}

/// The graph in which the annotation `id` has the target `uri`. A graph in
/// which `id` is no dictionary with an action is left as it is.
pub open spec fn with_target(g: GraphValue, id: ObjectId, uri: Seq<u8>) -> GraphValue {
    match g.get(id) {
        Ok(Value::Dictionary(annotation)) => g.insert(
            id,
            Value::Dictionary(with_uri(annotation, uri)),
        ),
        _ => g,
    }
}

/// What applying the mapping `lik` to the annotation `id` of the graph
/// `before` may give. An object that is no dictionary is left as it is.
pub open spec fn annotation_rewritten<F: Fn(String) -> String>(
    lik: F,
    before: GraphValue,
    id: ObjectId,
    after: GraphValue,
) -> bool {
    match before.get(id) {
        Ok(Value::Dictionary(annotation)) => exists|changed: Entries|
            #[trigger] link_rewritten(lik, annotation, changed) && after == before.insert(
                id,
                Value::Dictionary(changed),
            ),
        _ => after == before,
    }
}

/// What applying the mapping `lik` to the annotations `ids`, one after the
/// other, may make of the graph `before`.
pub open spec fn links_rewritten<F: Fn(String) -> String>(
    lik: F,
    before: GraphValue,
    ids: Seq<ObjectId>,
    after: GraphValue,
) -> bool
    decreases ids.len(),
{
    if ids.len() == 0 {
        after == before
    } else {
        exists|mid: GraphValue|
            links_rewritten(lik, before, ids.drop_last(), mid) && #[trigger] annotation_rewritten(
                lik,
                mid,
                ids.last(),
                after,
            )
    }
}

/// The target of the link annotation `id`.
pub fn link_target(graph: &ObjectGraph, id: ObjectId) -> (r: Option<String>)
    ensures
        match target_of(graph@, id) {
            Some(text) => r.is_some() && r.unwrap()@ == text,
            None => r.is_none(),
        },
{
    match graph.get_dictionary(id) {
        Ok(annotation) => match link_uri(annotation) {
            Some(raw) => match parse_text_string(raw) {
                Ok(text) => Some(text),
                Err(_) => None,
            },
            None => None,
        },
        Err(_) => None,
    }
}

/// Makes `uri` the target of the annotation `id`, as a literal string.
pub fn set_link_target(graph: &mut ObjectGraph, id: ObjectId, uri: &str)
    ensures
        final(graph)@ == with_target(old(graph)@, id, encode_utf8(uri@)),
{
    match graph.objects.remove(&id) {
        None => {
            assert(graph@.objects =~= old(graph)@.objects);
        },
        Some(Object::Dictionary(mut annotation)) => {
            let ghost before = annotation@;
            set_link_uri(&mut annotation, uri.as_bytes_vec());
            graph.objects.insert(id, Object::Dictionary(annotation));
            assert(graph@.objects =~= old(graph)@.objects.insert(
                id,
                Value::Dictionary(with_uri(before, encode_utf8(uri@))),
            ));
        },
        Some(other) => {
            graph.objects.insert(id, other);
            assert(graph@.objects =~= old(graph)@.objects);
        },
    }
}

/// Rewrites the target of the annotation `id` by the mapping `lik`. What
/// goes wrong with this one annotation is passed over.
pub fn update_annotation<F>(graph: &mut ObjectGraph, id: ObjectId, lik: &F) where
    F: Fn(String) -> String,

    requires
        forall|text: String| call_requires(*lik, (text,)),
    ensures
        annotation_rewritten(*lik, old(graph)@, id, final(graph)@),
{
    match graph.objects.remove(&id) {
        None => {
            assert(graph@.objects =~= old(graph)@.objects);
        },
        Some(Object::Dictionary(mut annotation)) => {
            let ghost before = annotation@;
            let _ = update_link(&mut annotation, lik);
            let ghost changed = annotation@;
            graph.objects.insert(id, Object::Dictionary(annotation));
            assert(graph@.objects =~= old(graph)@.objects.insert(id, Value::Dictionary(changed)));
            assert(link_rewritten(*lik, before, changed));
            assert(old(graph)@.get(id) matches Ok(Value::Dictionary(a)) && a == before);
        },
        Some(other) => {
            graph.objects.insert(id, other);
            assert(graph@.objects =~= old(graph)@.objects);
        },
    }
}

/// A link whose target is a literal string in UTF-8 gets back the dictionary
/// it was when its target is rewritten and then set to the text it had.
pub proof fn lemma_restored_link(annotation: Entries, other: Seq<u8>)
    requires
        action_of(annotation) matches Ok(action) && action.get(URI@) matches Some(
            Value::String(raw, StringFormat::Literal),
        ) && vstd::utf8::valid_utf8(raw),
    ensures
        decode_text_string(uri_of(annotation).unwrap()).is_ok(),
        with_uri(
            with_uri(annotation, other),
            encode_utf8(decode_text_string(uri_of(annotation).unwrap()).unwrap()),
        ) == annotation,
{
    let action = action_of(annotation).unwrap();
    let raw = uri_of(annotation).unwrap();
    crate::text::lemma_utf8_has_no_mark(raw);
    vstd::utf8::decode_utf8_encode_utf8(raw);
    crate::object::lemma_position(annotation.pairs, A@);
    crate::object::lemma_position(action.pairs, URI@);
    let at_action = crate::object::position(annotation.pairs, A@);
    let at_uri = crate::object::position(action.pairs, URI@);
    let changed_action = action.set(URI@, Value::String(other, StringFormat::Literal));
    crate::object::lemma_position_is(changed_action.pairs, URI@, at_uri);
    let changed = with_uri(annotation, other);
    crate::object::lemma_position_is(changed.pairs, A@, at_action);
    let back_action = changed_action.set(URI@, Value::String(raw, StringFormat::Literal));
    assert(back_action.pairs =~= action.pairs);
    let back = with_uri(changed, raw);
    assert(back.pairs =~= annotation.pairs);
}

/// A link annotation whose target is a literal string in UTF-8 gives back
/// the graph it stood in when its target is rewritten to anything and then
/// set to the text it had.
pub proof fn lemma_restored_target(g: GraphValue, id: ObjectId, other: Seq<u8>)
    requires
        g.get(id) matches Ok(Value::Dictionary(annotation)) && action_of(annotation) matches Ok(
            action,
        ) && action.get(URI@) matches Some(Value::String(raw, StringFormat::Literal))
            && vstd::utf8::valid_utf8(raw),
    ensures
        target_of(g, id).is_some(),
        with_target(with_target(g, id, other), id, encode_utf8(target_of(g, id).unwrap())) == g,
{
    let annotation = g.get(id).unwrap()->Dictionary_0;
    lemma_restored_link(annotation, other);
    let changed = with_target(g, id, other);
    let back = with_target(changed, id, encode_utf8(target_of(g, id).unwrap()));
    assert(back.objects =~= g.objects);
}

/// An annotation without an action is left as it is, whatever the mapping.
pub proof fn lemma_no_action_is_untouched<F: Fn(String) -> String>(
    lik: F,
    before: Entries,
    after: Entries,
)
    requires
        !before.contains_key(A@),
        link_rewritten(lik, before, after),
    ensures
        after == before,
{
}

/// Rewriting a link changes its action and nothing else: the annotation has
/// the entries it had, in their order, and every entry but `A` has the value
/// it had.
pub proof fn lemma_rewriting_keeps_the_rest<F: Fn(String) -> String>(
    lik: F,
    before: Entries,
    after: Entries,
)
    requires
        link_rewritten(lik, before, after),
    ensures
        after.pairs.len() == before.pairs.len(),
        forall|i: int|
            0 <= i < before.pairs.len() ==> (#[trigger] after.pairs[i]).0 == before.pairs[i].0,
        forall|i: int|
            0 <= i < before.pairs.len() && before.pairs[i].0 != A@ ==> #[trigger] after.pairs[i]
                == before.pairs[i],
{
    crate::object::lemma_position(before.pairs, A@);
}

/// Rewriting links neither adds nor removes an object, and leaves the
/// trailer, the highest object number and every object that is not among the
/// annotations as they were.
pub proof fn lemma_rewriting_keeps_objects<F: Fn(String) -> String>(
    lik: F,
    before: GraphValue,
    ids: Seq<ObjectId>,
    after: GraphValue,
)
    requires
        links_rewritten(lik, before, ids, after),
    ensures
        after.objects.dom() == before.objects.dom(),
        after.trailer == before.trailer,
        after.max_id == before.max_id,
        forall|id: ObjectId|
            before.objects.contains_key(id) && !ids.contains(id) ==> after.objects[id]
                == before.objects[id],
    decreases ids.len(),
{
    if ids.len() > 0 {
        let mid = choose|mid: GraphValue|
            links_rewritten(lik, before, ids.drop_last(), mid) && #[trigger] annotation_rewritten(
                lik,
                mid,
                ids.last(),
                after,
            );
        lemma_rewriting_keeps_objects(lik, before, ids.drop_last(), mid);
        assert forall|id: ObjectId|
            before.objects.contains_key(id) && !ids.contains(id) implies after.objects[id]
                == before.objects[id] by {
            assert forall|k: int| 0 <= k < ids.drop_last().len() implies ids.drop_last()[k]
                != id by {
                assert(ids.drop_last()[k] == ids[k]);
            }
            assert(!ids.drop_last().contains(id));
        }
    }
}

/// Whether the annotation is no link, or a link whose target is a literal
/// string in UTF-8.
pub open spec fn plainly_linked(annotation: Entries) -> bool {
    match action_of(annotation) {
        Ok(action) => match action.get(URI@) {
            Some(Value::String(raw, format)) => format == StringFormat::Literal
                && vstd::utf8::valid_utf8(raw),
            _ => true,
        },
        Err(_) => true,
    }
}

/// Whether the mapping `back` undoes the mapping `lik`: from what `lik`
/// makes of a text, `back` makes this text.
pub open spec fn undoes<F: Fn(String) -> String, G: Fn(String) -> String>(back: G, lik: F) -> bool {
    forall|given: String, mapped: String, taken: String, returned: String|
        #[trigger] call_ensures(lik, (given,), mapped) && taken@ == mapped@ && #[trigger] call_ensures(
            back,
            (taken,),
            returned,
        ) ==> returned@ == given@
}

/// What rewriting the annotations `ids` makes of the object `id`: what the
/// mapping may make of it where it is a dictionary, and the object itself
/// otherwise.
pub open spec fn rewritten_at<F: Fn(String) -> String>(
    lik: F,
    before: GraphValue,
    id: ObjectId,
    after: GraphValue,
) -> bool {
    match before.get(id) {
        Ok(Value::Dictionary(annotation)) => exists|changed: Entries|
            #[trigger] link_rewritten(lik, annotation, changed) && after.get(id) == Ok::<
                Value,
                StructureError,
            >(Value::Dictionary(changed)),
        _ => after.get(id) == before.get(id),
    }
}

/// Annotations that are all different are rewritten each for itself.
pub proof fn lemma_rewritten_each_for_itself<F: Fn(String) -> String>(
    lik: F,
    before: GraphValue,
    ids: Seq<ObjectId>,
    after: GraphValue,
    id: ObjectId,
)
    requires
        links_rewritten(lik, before, ids, after),
        ids.no_duplicates(),
        ids.contains(id),
    ensures
        rewritten_at(lik, before, id, after),
    decreases ids.len(),
{
    let front = ids.drop_last();
    let mid = choose|mid: GraphValue|
        links_rewritten(lik, before, front, mid) && #[trigger] annotation_rewritten(
            lik,
            mid,
            ids.last(),
            after,
        );
    lemma_rewriting_keeps_objects(lik, before, front, mid);
    assert(ids.last() == ids[ids.len() - 1]);
    let at = choose|at: int| 0 <= at < ids.len() && ids[at] == id;
    if id == ids.last() {
        assert forall|k: int| 0 <= k < front.len() implies front[k] != id by {
            assert(front[k] == ids[k]);
        }
        assert(!front.contains(id));
        assert(mid.get(id) == before.get(id)) by {
            assert(mid.objects.dom().contains(id) == before.objects.dom().contains(id));
        }
        if before.get(id).is_ok() && before.get(id).unwrap() is Dictionary {
            let annotation = before.get(id).unwrap()->Dictionary_0;
            let changed = choose|changed: Entries|
                #[trigger] link_rewritten(lik, annotation, changed) && after == mid.insert(
                    id,
                    Value::Dictionary(changed),
                );
            assert(link_rewritten(lik, annotation, changed));
        }
    } else {
        assert(front[at] == id);
        assert(front.no_duplicates());
        lemma_rewritten_each_for_itself(lik, before, front, mid, id);
        assert(after.get(id) == mid.get(id));
    }
}

/// The annotation with `uri` as its target has `uri` as its target.
pub proof fn lemma_target_is_set(annotation: Entries, uri: Seq<u8>)
    requires
        action_of(annotation).is_ok(),
    ensures
        action_of(with_uri(annotation, uri)).is_ok(),
        action_of(with_uri(annotation, uri)).unwrap().get(URI@) == Some(
            Value::String(uri, StringFormat::Literal),
        ),
        uri_of(with_uri(annotation, uri)) == Some(uri),
{
    let action = action_of(annotation).unwrap();
    crate::object::lemma_position(annotation.pairs, A@);
    crate::object::lemma_position(action.pairs, URI@);
    let changed_action = action.set(URI@, Value::String(uri, StringFormat::Literal));
    crate::object::lemma_position_is(
        changed_action.pairs,
        URI@,
        crate::object::position(action.pairs, URI@),
    );
    crate::object::lemma_position_is(
        with_uri(annotation, uri).pairs,
        A@,
        crate::object::position(annotation.pairs, A@),
    );
}

/// A link whose target is a literal string in UTF-8, rewritten by a mapping
/// and then by one that undoes it, is the link it was. An annotation that
/// is no link is the annotation it was in any case.
pub proof fn lemma_link_rewritten_back<F: Fn(String) -> String, G: Fn(String) -> String>(
    lik: F,
    back: G,
    annotation: Entries,
    changed: Entries,
    restored: Entries,
)
    requires
        undoes(back, lik),
        plainly_linked(annotation),
        link_rewritten(lik, annotation, changed),
        link_rewritten(back, changed, restored),
    ensures
        restored == annotation,
{
    if uri_of(annotation).is_some() {
        let raw = uri_of(annotation).unwrap();
        crate::text::lemma_utf8_has_no_mark(raw);
        vstd::utf8::decode_utf8_encode_utf8(raw);
        let text = vstd::utf8::decode_utf8(raw);
        let (given, mapped) = choose|given: String, mapped: String|
            given@ == text && #[trigger] call_ensures(lik, (given,), mapped) && changed == with_uri(
                annotation,
                encode_utf8(mapped@),
            );
        let sent = encode_utf8(mapped@);
        lemma_target_is_set(annotation, sent);
        vstd::utf8::encode_utf8_valid_utf8(mapped@);
        vstd::utf8::encode_utf8_decode_utf8(mapped@);
        crate::text::lemma_utf8_has_no_mark(sent);
        let (taken, returned) = choose|taken: String, returned: String|
            taken@ == mapped@ && #[trigger] call_ensures(back, (taken,), returned) && restored
                == with_uri(changed, encode_utf8(returned@));
        assert(returned@ == given@);
        lemma_restored_link(annotation, sent);
    }
}

/// Rewriting the links and then rewriting them by a mapping that undoes the
/// first gives back the graph, where the annotations are all different and
/// every target is a literal string in UTF-8.
pub proof fn lemma_rewriting_back<F: Fn(String) -> String, G: Fn(String) -> String>(
    lik: F,
    back: G,
    before: GraphValue,
    ids: Seq<ObjectId>,
    changed: GraphValue,
    restored: GraphValue,
)
    requires
        undoes(back, lik),
        ids.no_duplicates(),
        forall|id: ObjectId|
            ids.contains(id) ==> (before.get(id) matches Ok(Value::Dictionary(annotation))
                ==> plainly_linked(annotation)),
        links_rewritten(lik, before, ids, changed),
        links_rewritten(back, changed, ids, restored),
    ensures
        restored == before,
{
    lemma_rewriting_keeps_objects(lik, before, ids, changed);
    lemma_rewriting_keeps_objects(back, changed, ids, restored);
    assert forall|id: ObjectId| before.objects.contains_key(id) implies restored.objects[id]
        == before.objects[id] by {
        assert(changed.objects.dom().contains(id));
        if ids.contains(id) {
            lemma_rewritten_each_for_itself(lik, before, ids, changed, id);
            lemma_rewritten_each_for_itself(back, changed, ids, restored, id);
            if before.get(id).is_ok() && before.get(id).unwrap() is Dictionary {
                let annotation = before.get(id).unwrap()->Dictionary_0;
                let first = choose|first: Entries|
                    #[trigger] link_rewritten(lik, annotation, first) && changed.get(id) == Ok::<
                        Value,
                        StructureError,
                    >(Value::Dictionary(first));
                let second = choose|second: Entries|
                    #[trigger] link_rewritten(back, first, second) && restored.get(id) == Ok::<
                        Value,
                        StructureError,
                    >(Value::Dictionary(second));
                lemma_link_rewritten_back(lik, back, annotation, first, second);
            }
        }
    }
    assert(restored.objects =~= before.objects);
}

} // verus!
