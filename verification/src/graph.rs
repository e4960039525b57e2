//! The object graph: the indirect objects of a document, its trailer, and
//! the lookups that follow a reference one level.

use vstd::prelude::*;
use std::collections::BTreeMap;
use crate::error::StructureError;
use crate::names::ROOT;
use crate::object::{Dictionary, Entries, Object, ObjectId, Value};

verus! {

/// The object graph of one document.
#[derive(Debug, Clone, PartialEq, Eq)]
pub struct ObjectGraph {
    /// The indirect objects, by identity.
    pub objects: BTreeMap<ObjectId, Object>,
    /// The trailer dictionary.
    pub trailer: Dictionary,
    /// The highest object number in use.
    pub max_id: u32,
}

/// The mathematical value of an [`ObjectGraph`].
pub struct GraphValue {
    pub objects: Map<ObjectId, Value>,
    pub trailer: Entries,
    pub max_id: u32,
}

impl View for ObjectGraph {
    type V = GraphValue;

    open spec fn view(&self) -> GraphValue {
        GraphValue {
            objects: self.objects@.map_values(|o: Object| o@),
            trailer: self.trailer@,
            max_id: self.max_id,
        }
    }
}

impl GraphValue {
    /// The object with identity `id`.
    pub open spec fn get(self, id: ObjectId) -> Result<Value, StructureError> {
        if self.objects.contains_key(id) {
            Ok(self.objects[id])
        } else {
            Err(StructureError::ObjectNotFound(id.0, id.1))
        }
    }

    /// `value` itself, or the object it names where it is a reference. One
    /// level is followed: a reference to a reference gives a reference.
    pub open spec fn resolve(self, value: Value) -> Result<Value, StructureError> {
        match value {
            Value::Reference(id) => self.get(id),
            _ => Ok(value),
        }
    }

    /// The entry of `entries` under `key`, resolved.
    pub open spec fn get_deref(self, entries: Entries, key: Seq<u8>) -> Result<
        Value,
        StructureError,
    > {
        match entries.get(key) {
            Some(value) => self.resolve(value),
            None => Err(StructureError::DictKey),
        }
    }

    /// The dictionary with identity `id`.
    pub open spec fn get_dictionary(self, id: ObjectId) -> Result<Entries, StructureError> {
        match self.get(id) {
            Ok(Value::Dictionary(entries)) => Ok(entries),
            Ok(_) => Err(StructureError::ObjectType),
            Err(e) => Err(e),
        }
    }

    /// The document catalog: the dictionary that the trailer's `Root` names.
    pub open spec fn catalog(self) -> Result<Entries, StructureError> {
        match self.trailer.get(ROOT@) {
            Some(Value::Reference(id)) => self.get_dictionary(id),
            Some(_) => Err(StructureError::ObjectType),
            None => Err(StructureError::DictKey),
        }
    }

    /// Every object has a number that is not above the highest number in
    /// use, so that an object that is added is new.
    pub open spec fn valid(self) -> bool {
        forall|id: ObjectId| self.objects.contains_key(id) ==> id.0 <= self.max_id
    }

    /// The graph after `value` is stored under `id`.
    pub open spec fn insert(self, id: ObjectId, value: Value) -> GraphValue {
        GraphValue { objects: self.objects.insert(id, value), ..self }
    }

    /// The identity that the next added object gets.
    pub open spec fn next_id(self) -> ObjectId {
        ((self.max_id + 1) as u32, 0u16)
    }

    /// The graph after `value` is added as a new indirect object.
    pub open spec fn add(self, value: Value) -> GraphValue {
        GraphValue {
            objects: self.objects.insert(self.next_id(), value),
            trailer: self.trailer,
            max_id: (self.max_id + 1) as u32,
        }
    }
}

impl ObjectGraph {
    /// A graph without objects, with an empty trailer.
    pub fn new() -> (g: ObjectGraph)
        ensures
            g@.objects == Map::<ObjectId, Value>::empty(),
            g@.trailer == Entries::empty(),
            g@.max_id == 0,
    {
        let g = ObjectGraph { objects: BTreeMap::new(), trailer: Dictionary::new(), max_id: 0 };
        g
    }

    /// The object with identity `id`.
    pub fn get_object(&self, id: ObjectId) -> (r: Result<&Object, StructureError>)
        ensures
            match self@.get(id) {
                Ok(value) => r.is_ok() && r.unwrap()@ == value,
                Err(e) => r.is_err() && r.unwrap_err() == e,
            },
    {
        match self.objects.get(&id) {
            Some(o) => Ok(o),
            None => Err(StructureError::ObjectNotFound(id.0, id.1)),
        }
    }

    /// `object` itself, or the object it names where it is a reference.
    pub fn dereference<'a>(&'a self, object: &'a Object) -> (r: Result<&'a Object, StructureError>)
        ensures
            match self@.resolve(object@) {
                Ok(value) => r.is_ok() && r.unwrap()@ == value,
                Err(e) => r.is_err() && r.unwrap_err() == e,
            },
    {
        match object {
            Object::Reference(id) => self.get_object(*id),
            _ => Ok(object),
        }
    }

    /// The entry of `dict` under `key`, resolved.
    pub fn get_deref<'a>(&'a self, dict: &'a Dictionary, key: &[u8]) -> (r: Result<
        &'a Object,
        StructureError,
    >)
        ensures
            match self@.get_deref(dict@, key@) {
                Ok(value) => r.is_ok() && r.unwrap()@ == value,
                Err(e) => r.is_err() && r.unwrap_err() == e,
            },
    {
        match dict.get(key) {
            Ok(object) => self.dereference(object),
            Err(e) => Err(e),
        }
    }

    /// The dictionary with identity `id`.
    pub fn get_dictionary(&self, id: ObjectId) -> (r: Result<&Dictionary, StructureError>)
        ensures
            match self@.get_dictionary(id) {
                Ok(entries) => r.is_ok() && r.unwrap()@ == entries,
                Err(e) => r.is_err() && r.unwrap_err() == e,
            },
    {
        match self.get_object(id) {
            Ok(object) => object.as_dict(),
            Err(e) => Err(e),
        }
    }

    /// The document catalog.
    pub fn catalog(&self) -> (r: Result<&Dictionary, StructureError>)
        ensures
            match self@.catalog() {
                Ok(entries) => r.is_ok() && r.unwrap()@ == entries,
                Err(e) => r.is_err() && r.unwrap_err() == e,
            },
    {
        match self.trailer.get(ROOT.as_slice()) {
            Ok(root) => match root.as_reference() {
                Ok(id) => self.get_dictionary(id),
                Err(e) => Err(e),
            },
            Err(e) => Err(e),
        }
    }

    /// Stores `object` under `id`, in the place of what was there.
    pub fn set_object(&mut self, id: ObjectId, object: Object)
        ensures
            final(self)@ == old(self)@.insert(id, object@),
    {
        self.objects.insert(id, object);
        assert(final(self)@.objects =~= old(self)@.objects.insert(id, object@));
    }

    /// Whether every object has a number that is not above the highest
    /// number in use.
    pub fn is_valid(&self) -> (ok: bool)
        ensures
            ok == self@.valid(),
    {
        let mut ok = true;
        let ghost mut seen: Seq<ObjectId> = Seq::empty();
        for id in it: self.objects.keys()
            invariant
                seen == it.seq().unref().take(it.index()),
                ok == (forall|k: int| 0 <= k < seen.len() ==> (#[trigger] seen[k]).0 <= self.max_id),
                it.seq().unref().to_set() == self.objects@.dom(),
                it.index() == it.seq().len() ==> seen.to_set() == self.objects@.dom(),
        {
            let ghost before = seen;
            proof {
                seen = seen.push(*id);
            }
            assert(seen =~= it.seq().unref().take(it.index() + 1));
            assert(forall|k: int| 0 <= k < before.len() ==> seen[k] == before[k]);
            assert(it.index() + 1 == it.seq().len() ==> seen =~= it.seq().unref());
            let ghost was_ok = ok;
            if id.0 > self.max_id {
                ok = false;
            }
            proof {
                assert(seen[before.len() as int] == *id);
                if !was_ok {
                    let k = choose|k: int|
                        0 <= k < before.len() && (#[trigger] before[k]).0 > self.max_id;
                    assert(seen[k] == before[k]);
                }
            }
        }
        proof {
            assert(self@.objects.dom() =~= self.objects@.dom());
            if ok {
                assert forall|id: ObjectId| self@.objects.contains_key(id) implies id.0
                    <= self.max_id by {
                    assert(seen.to_set().contains(id));
                }
            } else {
                let k = choose|k: int| 0 <= k < seen.len() && (#[trigger] seen[k]).0 > self.max_id;
                assert(seen.to_set().contains(seen[k]));
            }
        }
        ok
    }

    /// Adds `object` as a new indirect object and gives its identity: the
    /// next object number, generation 0.
    pub fn add_object(&mut self, object: Object) -> (id: ObjectId)
        requires
            old(self)@.valid(),
            old(self).max_id < u32::MAX,
        ensures
            id == old(self)@.next_id(),
            !old(self)@.objects.contains_key(id),
            final(self)@ == old(self)@.add(object@),
            final(self)@.valid(),
    {
        self.max_id = self.max_id + 1;
        let id: ObjectId = (self.max_id, 0);
        self.objects.insert(id, object);
        assert(final(self)@.objects =~= old(self)@.objects.insert(id, object@));
        id
    }
}

} // verus!
