//! The PDF object model: the values an object graph is made of.

use vstd::prelude::*;
use crate::error::StructureError;

verus! {

/// The identity of an indirect object: object number and generation.
pub type ObjectId = (u32, u16);

/// The two ways a string object is written.
#[derive(Debug, Clone, Copy, PartialEq, Eq, Structural)]
pub enum StringFormat {
    Literal,
    Hexadecimal,
}

/// A real number, held as the bit pattern of its single-precision value.
#[derive(Debug, Clone, Copy, PartialEq, Eq, Structural)]
pub struct Real {
    pub bits: u32,
}

/// A number as a document holds it: an integer or a real.
#[derive(Debug, Clone, Copy, PartialEq, Eq, Structural)]
pub enum Number {
    Integer(i64),
    Real(Real),
}

/// A PDF object.
#[derive(Debug, PartialEq, Eq)]
pub enum Object {
    Null,
    Boolean(bool),
    Integer(i64),
    Real(Real),
    Name(Vec<u8>),
    String(Vec<u8>, StringFormat),
    Array(Vec<Object>),
    Dictionary(Dictionary),
    Stream(Stream),
    Reference(ObjectId),
}

/// A dictionary object: its entries in the order in which their keys were
/// first set.
#[derive(Debug, PartialEq, Eq)]
pub struct Dictionary {
    entries: Vec<(Vec<u8>, Object)>,
}

/// A stream object.
#[derive(Debug, PartialEq, Eq)]
pub struct Stream {
    pub dict: Dictionary,
    pub content: Vec<u8>,
    pub allows_compression: bool,
    pub start_position: Option<usize>,
}

/// The mathematical value of an [`Object`].
pub enum Value {
    Null,
    Boolean(bool),
    Integer(i64),
    Real(Real),
    Name(Seq<u8>),
    String(Seq<u8>, StringFormat),
    Array(Seq<Value>),
    Dictionary(Entries),
    Stream(StreamValue),
    Reference(ObjectId),
}

/// The mathematical value of a [`Dictionary`]: keys with their values, in order.
pub struct Entries {
    pub pairs: Seq<(Seq<u8>, Value)>,
}

/// The mathematical value of a [`Stream`].
pub struct StreamValue {
    pub dict: Entries,
    pub content: Seq<u8>,
    pub allows_compression: bool,
    pub start_position: Option<usize>,
}

/// The values of a sequence of objects.
pub open spec fn values(items: Seq<Object>) -> Seq<Value> {
    Seq::new(items.len(), |i: int| object_value(items[i]))
}

/// The value of an object.
pub open spec fn object_value(o: Object) -> Value
    decreases o,
{
    match o {
        Object::Null => Value::Null,
        Object::Boolean(b) => Value::Boolean(b),
        Object::Integer(i) => Value::Integer(i),
        Object::Real(x) => Value::Real(x),
        Object::Name(n) => Value::Name(n@),
        Object::String(s, f) => Value::String(s@, f),
        Object::Array(items) => Value::Array(
            Seq::new(
                items@.len(),
                |i: int|
                    if 0 <= i < items@.len() {
                        object_value(items@[i])
                    } else {
                        Value::Null
                    },
            ),
        ),
        Object::Dictionary(d) => Value::Dictionary(dictionary_value(d)),
        Object::Stream(s) => Value::Stream(
            StreamValue {
                dict: dictionary_value(s.dict),
                content: s.content@,
                allows_compression: s.allows_compression,
                start_position: s.start_position,
            },
        ),
        Object::Reference(id) => Value::Reference(id),
    }
}

/// The value of a dictionary.
pub closed spec fn dictionary_value(d: Dictionary) -> Entries
    decreases d,
{
    Entries {
        pairs: Seq::new(
            d.entries@.len(),
            |i: int|
                if 0 <= i < d.entries@.len() {
                    (d.entries@[i].0@, object_value(d.entries@[i].1))
                } else {
                    (Seq::empty(), Value::Null)
                },
        ),
    }
}

impl View for Object {
    type V = Value;

    open spec fn view(&self) -> Value {
        object_value(*self)
    }
}

impl View for Dictionary {
    type V = Entries;

    open spec fn view(&self) -> Entries {
        dictionary_value(*self)
    }
}

impl View for Stream {
    type V = StreamValue;

    open spec fn view(&self) -> StreamValue {
        StreamValue {
            dict: self.dict@,
            content: self.content@,
            allows_compression: self.allows_compression,
            start_position: self.start_position,
        }
    }
}

/// The value of an array object is the array of its items' values.
pub proof fn lemma_array_value(items: Vec<Object>)
    ensures
        Object::Array(items)@ == Value::Array(values(items@)),
{
    assert(Object::Array(items)@->Array_0 =~= values(items@));
}

/// The first position of `key` among `pairs`, or their number where no pair
/// has that key.
pub open spec fn position(pairs: Seq<(Seq<u8>, Value)>, key: Seq<u8>) -> int
    decreases pairs.len(),
{
    if pairs.len() == 0 {
        0
    } else if pairs[0].0 == key {
        0
    } else {
        1 + position(pairs.skip(1), key)
    }
}

/// `position` is the least index that holds `key`.
pub proof fn lemma_position(pairs: Seq<(Seq<u8>, Value)>, key: Seq<u8>)
    ensures
        0 <= position(pairs, key) <= pairs.len(),
        position(pairs, key) < pairs.len() ==> pairs[position(pairs, key)].0 == key,
        forall|k: int| 0 <= k < position(pairs, key) ==> (#[trigger] pairs[k]).0 != key,
    decreases pairs.len(),
{
    if pairs.len() != 0 && pairs[0].0 != key {
        let rest = pairs.skip(1);
        lemma_position(rest, key);
        assert forall|k: int| 0 <= k < position(pairs, key) implies (#[trigger] pairs[k]).0
            != key by {
            if k > 0 {
                assert(pairs[k] == rest[k - 1]);
            }
        }
    }
}

/// An index that holds `key` and has no earlier one that does is `position`.
pub proof fn lemma_position_is(pairs: Seq<(Seq<u8>, Value)>, key: Seq<u8>, at: int)
    requires
        0 <= at <= pairs.len(),
        at < pairs.len() ==> pairs[at].0 == key,
        forall|k: int| 0 <= k < at ==> (#[trigger] pairs[k]).0 != key,
    ensures
        position(pairs, key) == at,
{
    lemma_position(pairs, key);
}

impl Entries {
    /// The dictionary without entries.
    pub open spec fn empty() -> Entries {
        Entries { pairs: Seq::empty() }
    }

    /// Some entry has `key`.
    pub open spec fn contains_key(self, key: Seq<u8>) -> bool {
        position(self.pairs, key) < self.pairs.len()
    }

    /// The value stored under `key`.
    pub open spec fn get(self, key: Seq<u8>) -> Option<Value> {
        if self.contains_key(key) {
            Some(self.pairs[position(self.pairs, key)].1)
        } else {
            None
        }
    }

    /// The dictionary after `value` is stored under `key`: in the place of the
    /// entry that had the key, or behind the last entry where none had it.
    pub open spec fn set(self, key: Seq<u8>, value: Value) -> Entries {
        if self.contains_key(key) {
            Entries { pairs: self.pairs.update(position(self.pairs, key), (key, value)) }
        } else {
            Entries { pairs: self.pairs.push((key, value)) }
        }
    }

    /// No two entries share a key.
    pub open spec fn distinct_keys(self) -> bool {
        forall|i: int, j: int|
            0 <= i < j < self.pairs.len() ==> (#[trigger] self.pairs[i]).0 != (
            #[trigger] self.pairs[j]).0
    }
}

/// Whether two byte strings are equal.
pub fn bytes_eq(a: &[u8], b: &[u8]) -> (same: bool)
    ensures
        same == (a@ == b@),
{
    if a.len() != b.len() {
        return false;
    }
    let mut i: usize = 0;
    while i < a.len()
        invariant
            a.len() == b.len(),
            i <= a.len(),
            forall|k: int| 0 <= k < i ==> a[k] == b[k],
        decreases a.len() - i,
    {
        if a[i] != b[i] {
            return false;
        }
        i += 1;
    }
    assert(a@ =~= b@);
    true
}

impl Dictionary {
    /// No two entries of a dictionary share a key.
    #[verifier::type_invariant]
    spec fn keys_are_distinct(self) -> bool {
        forall|i: int, j: int|
            0 <= i < j < self.entries@.len() ==> (#[trigger] self.entries@[i]).0@ != (
            #[trigger] self.entries@[j]).0@
    }

    /// Makes known that no two entries share a key.
    pub fn distinct(&self)
        ensures
            self@.distinct_keys(),
    {
        proof {
            use_type_invariant(self);
        }
    }

    /// A dictionary without entries.
    pub fn new() -> (d: Dictionary)
        ensures
            d@ == Entries::empty(),
    {
        let d = Dictionary { entries: Vec::new() };
        assert(d@.pairs =~= Seq::empty());
        d
    }

    /// The number of entries.
    pub fn len(&self) -> (n: usize)
        ensures
            n == self@.pairs.len(),
    {
        self.entries.len()
    }

    /// The key of the entry at `index`.
    pub fn key_at(&self, index: usize) -> (key: &Vec<u8>)
        requires
            index < self@.pairs.len(),
        ensures
            key@ == self@.pairs[index as int].0,
    {
        &self.entries[index].0
    }

    /// The value of the entry at `index`.
    pub fn value_at(&self, index: usize) -> (value: &Object)
        requires
            index < self@.pairs.len(),
        ensures
            value@ == self@.pairs[index as int].1,
    {
        &self.entries[index].1
    }

    /// The first index whose entry has `key`, or the number of entries.
    fn find(&self, key: &[u8]) -> (at: usize)
        ensures
            at == position(self@.pairs, key@),
    {
        let mut i: usize = 0;
        while i < self.entries.len()
            invariant
                i <= self.entries.len(),
                forall|k: int| 0 <= k < i ==> (#[trigger] self@.pairs[k]).0 != key@,
            decreases self.entries.len() - i,
        {
            if bytes_eq(self.entries[i].0.as_slice(), key) {
                proof {
                    lemma_position_is(self@.pairs, key@, i as int);
                }
                return i;
            }
            i += 1;
        }
        proof {
            lemma_position_is(self@.pairs, key@, i as int);
        }
        i
    }

    /// Whether an entry has `key`.
    pub fn has(&self, key: &[u8]) -> (found: bool)
        ensures
            found == self@.contains_key(key@),
    {
        self.find(key) < self.entries.len()
    }

    /// The value stored under `key`.
    pub fn get(&self, key: &[u8]) -> (r: Result<&Object, StructureError>)
        ensures
            match self@.get(key@) {
                Some(value) => r.is_ok() && r.unwrap()@ == value,
                None => r.is_err() && r.unwrap_err() == StructureError::DictKey,
            },
    {
        let at = self.find(key);
        if at < self.entries.len() {
            Ok(&self.entries[at].1)
        } else {
            Err(StructureError::DictKey)
        }
    }

    /// Stores `value` under `key`. An entry that has the key keeps its place
    /// and gets the value; otherwise a new entry is put behind the others.
    pub fn set(&mut self, key: Vec<u8>, value: Object)
        ensures
            final(self)@ == old(self)@.set(key@, value@),
    {
        proof {
            use_type_invariant(&*self);
        }
        let at = self.find(key.as_slice());
        let mut taken = Dictionary { entries: Vec::new() };
        core::mem::swap(self, &mut taken);
        let mut entries = taken.entries;
        let ghost before = entries@;
        proof {
            lemma_position(old(self)@.pairs, key@);
            assert(forall|k: int|
                0 <= k < before.len() ==> (#[trigger] before[k]).0@ == old(self)@.pairs[k].0);
        }
        if at < entries.len() {
            entries.set(at, (key, value));
        } else {
            entries.push((key, value));
        }
        assert forall|i: int, j: int| 0 <= i < j < entries@.len() implies (#[trigger] entries@[i]).0@
            != (#[trigger] entries@[j]).0@ by {
            if i != at && i < before.len() {
                assert(entries@[i] == before[i]);
            }
            if j != at && j < before.len() {
                assert(entries@[j] == before[j]);
            }
        }
        *self = Dictionary { entries };
        assert(self@.pairs =~= old(self)@.set(key@, value@).pairs);
    }
}

impl Object {
    /// The items of an array object.
    pub fn as_array(&self) -> (r: Result<&Vec<Object>, StructureError>)
        ensures
            match self@ {
                Value::Array(items) => r.is_ok() && values(r.unwrap()@) == items,
                _ => r.is_err() && r.unwrap_err() == StructureError::ObjectType,
            },
    {
        match self {
            Object::Array(items) => {
                proof {
                    lemma_array_value(*items);
                }
                Ok(items)
            },
            _ => Err(StructureError::ObjectType),
        }
    }

    /// The dictionary of a dictionary object.
    pub fn as_dict(&self) -> (r: Result<&Dictionary, StructureError>)
        ensures
            match self@ {
                Value::Dictionary(entries) => r.is_ok() && r.unwrap()@ == entries,
                _ => r.is_err() && r.unwrap_err() == StructureError::ObjectType,
            },
    {
        match self {
            Object::Dictionary(d) => Ok(d),
            _ => Err(StructureError::ObjectType),
        }
    }

    /// The identity a reference object names.
    pub fn as_reference(&self) -> (r: Result<ObjectId, StructureError>)
        ensures
            match self@ {
                Value::Reference(id) => r == Ok::<ObjectId, StructureError>(id),
                _ => r == Err::<ObjectId, StructureError>(StructureError::ObjectType),
            },
    {
        match self {
            Object::Reference(id) => Ok(*id),
            _ => Err(StructureError::ObjectType),
        }
    }

    /// The bytes of a name object.
    pub fn as_name(&self) -> (r: Result<&[u8], StructureError>)
        ensures
            match self@ {
                Value::Name(name) => r.is_ok() && r.unwrap()@ == name,
                _ => r.is_err() && r.unwrap_err() == StructureError::ObjectType,
            },
    {
        match self {
            Object::Name(name) => Ok(name.as_slice()),
            _ => Err(StructureError::ObjectType),
        }
    }

    /// The bytes of a string object.
    pub fn as_str(&self) -> (r: Result<&[u8], StructureError>)
        ensures
            match self@ {
                Value::String(bytes, _) => r.is_ok() && r.unwrap()@ == bytes,
                _ => r.is_err() && r.unwrap_err() == StructureError::ObjectType,
            },
    {
        match self {
            Object::String(bytes, _) => Ok(bytes.as_slice()),
            _ => Err(StructureError::ObjectType),
        }
    }

    /// A literal string object with the given bytes.
    pub fn string_literal(bytes: Vec<u8>) -> (o: Object)
        ensures
            o@ == Value::String(bytes@, StringFormat::Literal),
    {
        Object::String(bytes, StringFormat::Literal)
    }
}

/// A copy of a byte string.
pub fn copy_bytes(bytes: &Vec<u8>) -> (r: Vec<u8>)
    ensures
        r@ == bytes@,
{
    vstd::slice::slice_to_vec(bytes.as_slice())
}

/// A copy of an object, with the same value.
pub fn copy_object(o: &Object) -> (r: Object)
    ensures
        r@ == o@,
    decreases o,
{
    match o {
        Object::Null => Object::Null,
        Object::Boolean(b) => Object::Boolean(*b),
        Object::Integer(i) => Object::Integer(*i),
        Object::Real(x) => Object::Real(*x),
        Object::Name(n) => Object::Name(copy_bytes(n)),
        Object::String(s, f) => Object::String(copy_bytes(s), *f),
        Object::Array(items) => {
            let copies = copy_objects(items);
            proof {
                lemma_array_value(*items);
                lemma_array_value(copies);
            }
            Object::Array(copies)
        },
        Object::Dictionary(d) => Object::Dictionary(copy_dictionary(d)),
        Object::Stream(s) => Object::Stream(
            Stream {
                dict: copy_dictionary(&s.dict),
                content: copy_bytes(&s.content),
                allows_compression: s.allows_compression,
                start_position: s.start_position,
            },
        ),
        Object::Reference(id) => Object::Reference(*id),
    }
}

/// Copies of the objects of a vector, in order.
pub fn copy_objects(items: &Vec<Object>) -> (r: Vec<Object>)
    ensures
        values(r@) == values(items@),
    decreases items,
{
    let mut copies: Vec<Object> = Vec::new();
    let mut i: usize = 0;
    while i < items.len()
        invariant
            i <= items.len(),
            copies.len() == i,
            forall|k: int| 0 <= k < i ==> (#[trigger] copies[k])@ == items[k]@,
        decreases items.len() - i,
    {
        copies.push(copy_object(&items[i]));
        i += 1;
    }
    copies
}

/// A copy of a dictionary, with the same value.
pub fn copy_dictionary(d: &Dictionary) -> (r: Dictionary)
    ensures
        r@ == d@,
    decreases d,
{
    let mut entries: Vec<(Vec<u8>, Object)> = Vec::new();
    let mut i: usize = 0;
    proof {
        use_type_invariant(d);
    }
    while i < d.entries.len()
        invariant
            i <= d.entries.len(),
            entries.len() == i,
            forall|k: int|
                0 <= k < i ==> (#[trigger] entries[k]).0@ == d.entries[k].0@ && entries[k].1@
                    == d.entries[k].1@,
        decreases d.entries.len() - i,
    {
        entries.push((copy_bytes(&d.entries[i].0), copy_object(&d.entries[i].1)));
        i += 1;
    }
    assert forall|i: int, j: int| 0 <= i < j < entries@.len() implies (#[trigger] entries@[i]).0@
        != (#[trigger] entries@[j]).0@ by {
        assert(entries@[i].0@ == d.entries@[i].0@ && entries@[j].0@ == d.entries@[j].0@);
    }
    let r = Dictionary { entries };
    assert(r@.pairs =~= d@.pairs);
    r
}

impl Clone for Object {
    fn clone(&self) -> (r: Self)
        ensures
            r@ == self@,
    {
        copy_object(self)
    }
}

impl Clone for Dictionary {
    fn clone(&self) -> (r: Self)
        ensures
            r@ == self@,
    {
        copy_dictionary(self)
    }
}

impl Clone for Stream {
    fn clone(&self) -> (r: Self)
        ensures
            r@ == self@,
    {
        Stream {
            dict: copy_dictionary(&self.dict),
            content: copy_bytes(&self.content),
            allows_compression: self.allows_compression,
            start_position: self.start_position,
        }
    }
}

} // verus!
