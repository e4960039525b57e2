//! The errors the library reports.

use vstd::prelude::*;

verus! {

/// A structural defect of the object graph.
#[derive(Debug, Clone, Copy, PartialEq, Eq, Structural)]
pub enum StructureError {
    /// A reference names an object the graph does not hold.
    ObjectNotFound(u32, u16),
    /// A dictionary lacks a key that was looked up.
    DictKey,
    /// An object is of another kind than the one that was asked for.
    ObjectType,
}

/// What a destination names where it should name a page.
#[derive(Debug, Clone, Copy, PartialEq, Eq, Structural)]
pub enum PageTarget {
    /// The destination array is too short to name a page.
    Missing,
    /// The object with this number and generation, which is no page that
    /// the page index knows.
    Unknown(u32, u16),
}

/// Every error a library operation can return.
#[derive(Debug, Clone, Copy, PartialEq, Eq, Structural)]
pub enum PdfLibError {
    /// Resolving a destination: it names no page, or one that the page index
    /// does not know.
    InvalidPageId(PageTarget),
    /// Attaching annotations: the `Annots` entry of the page with this number
    /// and generation is neither an array nor a reference.
    InvalidAnnotation(u32, u16),
    /// Decoding a text string: it is not valid UTF-8.
    NDConvError,
    /// Decoding a text string with a byte-order mark: it is not valid UTF-16.
    NDConvError16,
    /// Reading the object graph: it does not have the shape that is relied on.
    PDFError(StructureError),
}

impl PdfLibError {
    /// The message that describes the error.
    pub fn message(&self) -> (text: &'static str)
        ensures
            text@ == error_message(*self),
    {
        match self {
            PdfLibError::InvalidPageId(_) => "Invalid page_id found in the document",
            PdfLibError::InvalidAnnotation(_, _) => "Invalid annotation found in the document",
            PdfLibError::NDConvError => "Invalid UTF-8 byte sequence when reading 'text-string' object",
            PdfLibError::NDConvError16 => "Invalid UTF-16 byte sequence when reading a 'text-string' object",
            PdfLibError::PDFError(StructureError::ObjectNotFound(_, _)) => "Object not found in the document",
            PdfLibError::PDFError(StructureError::DictKey) => "Missing required dictionary key",
            PdfLibError::PDFError(StructureError::ObjectType) => "Object has the wrong type",
        }
    }
}

/// The text of [`PdfLibError::message`] for each error.
pub open spec fn error_message(e: PdfLibError) -> Seq<char> {
    match e {
        PdfLibError::InvalidPageId(_) => "Invalid page_id found in the document"@,
        PdfLibError::InvalidAnnotation(_, _) => "Invalid annotation found in the document"@,
        PdfLibError::NDConvError => "Invalid UTF-8 byte sequence when reading 'text-string' object"@,
        PdfLibError::NDConvError16 => "Invalid UTF-16 byte sequence when reading a 'text-string' object"@,
        PdfLibError::PDFError(StructureError::ObjectNotFound(_, _)) => "Object not found in the document"@,
        PdfLibError::PDFError(StructureError::DictKey) => "Missing required dictionary key"@,
        PdfLibError::PDFError(StructureError::ObjectType) => "Object has the wrong type"@,
    }
}

} // verus!
