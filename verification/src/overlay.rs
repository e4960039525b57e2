//! The two annotations that mark a destination on its page: an invisible
//! link that carries the target, and a filled rectangle that shows where the
//! link is.

use vstd::prelude::*;
use vstd::slice::slice_to_vec;
use crate::names::{A, ACTION, ANNOT, BORDER, IC, LINK, RECT, S, SQUARE, SUBTYPE, TYPE, URI};
use crate::object::{
    Dictionary,
    Entries,
    Number,
    Object,
    Real,
    StringFormat,
    Value,
    lemma_array_value,
};

verus! {

/// A fill colour: red, green and blue, each on the scale from 0 to 1.
#[derive(Debug, Clone, Copy, PartialEq, Eq, Structural)]
pub struct Colour {
    pub red: Real,
    pub green: Real,
    pub blue: Real,
}

/// A rectangle on a page with its fill colour.
#[derive(Debug, Clone, Copy, PartialEq, Eq, Structural)]
pub struct RectangleObject {
    /// The distance of the lower left corner from the left.
    pub x_ll: Real,
    /// The distance of the lower left corner from the top.
    pub y_ll: Real,
    /// The distance of the upper right corner from the left.
    pub x_ur: Real,
    /// The distance of the upper right corner from the top.
    pub y_ur: Real,
    /// The colour that fills the rectangle.
    pub colour: Colour,
}

/// How far before the position of a destination the lower left corner of
/// its rectangle lies, in both directions.
pub const LOWER_OFFSET: i64 = 10;

/// How far before the position of a destination the upper right corner of
/// its rectangle lies, in both directions.
pub const UPPER_OFFSET: i64 = 5;

/// Whether `rect` is a rectangle that marks the position `left`, `top` in
/// the colour `colour`, where `minus` does the subtraction: its lower left
/// corner is the position minus [`LOWER_OFFSET`], its upper right corner the
/// position minus [`UPPER_OFFSET`].
pub open spec fn overlay_made<M: Fn(Number, i64) -> Real>(
    minus: M,
    left: Number,
    top: Number,
    colour: Colour,
    rect: RectangleObject,
) -> bool {
    &&& call_ensures(minus, (left, LOWER_OFFSET), rect.x_ll)
    &&& call_ensures(minus, (top, LOWER_OFFSET), rect.y_ll)
    &&& call_ensures(minus, (left, UPPER_OFFSET), rect.x_ur)
    &&& call_ensures(minus, (top, UPPER_OFFSET), rect.y_ur)
    &&& rect.colour == colour
}

/// The rectangle that marks the position `left`, `top` in the colour
/// `colour`. The library does no arithmetic on reals: `minus` gives the real
/// that is a number minus an offset.
pub fn overlay_rectangle<M>(left: Number, top: Number, colour: Colour, minus: &M) -> (rect:
    RectangleObject) where M: Fn(Number, i64) -> Real
    requires
        forall|number: Number, offset: i64| call_requires(*minus, (number, offset)),
    ensures
        overlay_made(*minus, left, top, colour, rect),
{
    let x_ll = minus(left, LOWER_OFFSET);
    let x_ur = minus(left, UPPER_OFFSET);
    let y_ll = minus(top, LOWER_OFFSET);
    let y_ur = minus(top, UPPER_OFFSET);
    RectangleObject { x_ll, y_ll, x_ur, y_ur, colour }
}

/// The `Rect` entry of an annotation that covers `rect`.
pub open spec fn rect_value(rect: RectangleObject) -> Value {
    Value::Array(
        seq![
            Value::Real(rect.x_ll),
            Value::Real(rect.y_ll),
            Value::Real(rect.x_ur),
            Value::Real(rect.y_ur),
        ],
    )
}

/// The `Border` entry of an annotation without a border.
pub open spec fn border_value() -> Value {
    Value::Array(seq![Value::Integer(0), Value::Integer(0), Value::Integer(0)])
}

/// The `IC` entry of a rectangle filled with `colour`.
pub open spec fn colour_value(colour: Colour) -> Value {
    Value::Array(seq![Value::Real(colour.red), Value::Real(colour.green), Value::Real(colour.blue)])
}

/// The action that opens `url`.
pub open spec fn uri_action(url: Seq<u8>) -> Entries {
    Entries::empty().set(S@, Value::Name(URI@)).set(TYPE@, Value::Name(ACTION@)).set(
        URI@,
        Value::String(url, StringFormat::Literal),
    )
}

/// The link annotation over `rect` that opens `url`.
pub open spec fn link_annotation(rect: RectangleObject, url: Seq<u8>) -> Entries {
    Entries::empty().set(TYPE@, Value::Name(ANNOT@)).set(SUBTYPE@, Value::Name(LINK@)).set(
        RECT@,
        rect_value(rect),
    ).set(BORDER@, border_value()).set(A@, Value::Dictionary(uri_action(url)))
}

/// The filled rectangle annotation over `rect`.
pub open spec fn square_annotation(rect: RectangleObject) -> Entries {
    Entries::empty().set(TYPE@, Value::Name(ANNOT@)).set(SUBTYPE@, Value::Name(SQUARE@)).set(
        RECT@,
        rect_value(rect),
    ).set(BORDER@, border_value()).set(IC@, colour_value(rect.colour))
}

/// A name object with the given bytes.
fn name(bytes: &[u8]) -> (o: Object)
    ensures
        o@ == Value::Name(bytes@),
{
    Object::Name(slice_to_vec(bytes))
}

/// The `Rect` entry of an annotation that covers `rect`.
fn rect_array(rect: &RectangleObject) -> (o: Object)
    ensures
        o@ == rect_value(*rect),
{
    let mut items: Vec<Object> = Vec::new();
    items.push(Object::Real(rect.x_ll));
    items.push(Object::Real(rect.y_ll));
    items.push(Object::Real(rect.x_ur));
    items.push(Object::Real(rect.y_ur));
    proof {
        lemma_array_value(items);
        assert(crate::object::values(items@) =~= rect_value(*rect)->Array_0);
    }
    Object::Array(items)
}

/// The `Border` entry of an annotation without a border.
fn border_array() -> (o: Object)
    ensures
        o@ == border_value(),
{
    let mut items: Vec<Object> = Vec::new();
    items.push(Object::Integer(0));
    items.push(Object::Integer(0));
    items.push(Object::Integer(0));
    proof {
        lemma_array_value(items);
        assert(crate::object::values(items@) =~= border_value()->Array_0);
    }
    Object::Array(items)
}

/// The `IC` entry of a rectangle filled with `colour`.
fn colour_array(colour: &Colour) -> (o: Object)
    ensures
        o@ == colour_value(*colour),
{
    let mut items: Vec<Object> = Vec::new();
    items.push(Object::Real(colour.red));
    items.push(Object::Real(colour.green));
    items.push(Object::Real(colour.blue));
    proof {
        lemma_array_value(items);
        assert(crate::object::values(items@) =~= colour_value(*colour)->Array_0);
    }
    Object::Array(items)
}

/// Builds the two annotations that mark `rect` as a link to `url`: first the
/// borderless link annotation with its URI action, then the borderless
/// rectangle filled with the colour of `rect`.
pub fn rectangle_link(rect: &RectangleObject, url: String) -> (objects: Vec<Object>)
    ensures
        objects@.len() == 2,
        objects@[0]@ == Value::Dictionary(link_annotation(*rect, vstd::utf8::encode_utf8(url@))),
        objects@[1]@ == Value::Dictionary(square_annotation(*rect)),
{
    let mut action = Dictionary::new();
    action.set(slice_to_vec(S.as_slice()), name(URI.as_slice()));
    action.set(slice_to_vec(TYPE.as_slice()), name(ACTION.as_slice()));
    action.set(
        slice_to_vec(URI.as_slice()),
        Object::string_literal(vstd::string::StrSliceExecFns::as_bytes_vec(url.as_str())),
    );
    let mut link = Dictionary::new();
    link.set(slice_to_vec(TYPE.as_slice()), name(ANNOT.as_slice()));
    link.set(slice_to_vec(SUBTYPE.as_slice()), name(LINK.as_slice()));
    link.set(slice_to_vec(RECT.as_slice()), rect_array(rect));
    link.set(slice_to_vec(BORDER.as_slice()), border_array());
    link.set(slice_to_vec(A.as_slice()), Object::Dictionary(action));
    let mut square = Dictionary::new();
    square.set(slice_to_vec(TYPE.as_slice()), name(ANNOT.as_slice()));
    square.set(slice_to_vec(SUBTYPE.as_slice()), name(SQUARE.as_slice()));
    square.set(slice_to_vec(RECT.as_slice()), rect_array(rect));
    square.set(slice_to_vec(BORDER.as_slice()), border_array());
    square.set(slice_to_vec(IC.as_slice()), colour_array(&rect.colour));
    let mut objects: Vec<Object> = Vec::new();
    objects.push(Object::Dictionary(link));
    objects.push(Object::Dictionary(square));
    objects
}

} // verus!
