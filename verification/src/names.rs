//! The dictionary keys and names that the library reads and writes.

use vstd::prelude::*;

verus! {

/// `Root`: the trailer's entry for the document catalog.
pub const ROOT: [u8; 4] = ['R' as u8, 'o' as u8, 'o' as u8, 't' as u8];

/// `Info`: the trailer's entry for the information dictionary.
pub const INFO: [u8; 4] = ['I' as u8, 'n' as u8, 'f' as u8, 'o' as u8];

/// `Pages`: the catalog's entry for the root of the page tree.
pub const PAGES: [u8; 5] = ['P' as u8, 'a' as u8, 'g' as u8, 'e' as u8, 's' as u8];

/// `Names`: the catalog's entry for the name dictionary, and a name-tree leaf's entry for its pairs.
pub const NAMES: [u8; 5] = ['N' as u8, 'a' as u8, 'm' as u8, 'e' as u8, 's' as u8];

/// `Dests`: the entry for named destinations, in the name dictionary and in the catalog.
pub const DESTS: [u8; 5] = ['D' as u8, 'e' as u8, 's' as u8, 't' as u8, 's' as u8];

/// `Kids`: a tree node's entry for its child nodes.
pub const KIDS: [u8; 4] = ['K' as u8, 'i' as u8, 'd' as u8, 's' as u8];

/// `Nums`: a number-tree leaf's entry for its pairs.
pub const NUMS: [u8; 4] = ['N' as u8, 'u' as u8, 'm' as u8, 's' as u8];

/// `D`: a destination dictionary's entry for the destination array.
pub const D: [u8; 1] = ['D' as u8];

/// `XYZ`: the destination kind that carries a position.
pub const XYZ: [u8; 3] = ['X' as u8, 'Y' as u8, 'Z' as u8];

/// `Annots`: a page's entry for its annotations.
pub const ANNOTS: [u8; 6] = ['A' as u8, 'n' as u8, 'n' as u8, 'o' as u8, 't' as u8, 's' as u8];

/// `A`: an annotation's entry for its action.
pub const A: [u8; 1] = ['A' as u8];

/// `URI`: an action's entry for its target, and the name of the action kind.
pub const URI: [u8; 3] = ['U' as u8, 'R' as u8, 'I' as u8];

/// `Type`: the entry that names what a dictionary describes.
pub const TYPE: [u8; 4] = ['T' as u8, 'y' as u8, 'p' as u8, 'e' as u8];

/// `Annot`: the type of an annotation dictionary.
pub const ANNOT: [u8; 5] = ['A' as u8, 'n' as u8, 'n' as u8, 'o' as u8, 't' as u8];

/// `Subtype`: the entry that names the kind of an annotation.
pub const SUBTYPE: [u8; 7] = ['S' as u8, 'u' as u8, 'b' as u8, 't' as u8, 'y' as u8, 'p' as u8, 'e' as u8];

/// `Link`: the annotation kind of a link.
pub const LINK: [u8; 4] = ['L' as u8, 'i' as u8, 'n' as u8, 'k' as u8];

/// `Square`: the annotation kind of a rectangle.
pub const SQUARE: [u8; 6] = ['S' as u8, 'q' as u8, 'u' as u8, 'a' as u8, 'r' as u8, 'e' as u8];

/// `Rect`: an annotation's entry for its rectangle.
pub const RECT: [u8; 4] = ['R' as u8, 'e' as u8, 'c' as u8, 't' as u8];

/// `Border`: an annotation's entry for its border.
pub const BORDER: [u8; 6] = ['B' as u8, 'o' as u8, 'r' as u8, 'd' as u8, 'e' as u8, 'r' as u8];

/// `S`: an action's entry for its kind.
pub const S: [u8; 1] = ['S' as u8];

/// `Action`: the type of an action dictionary.
pub const ACTION: [u8; 6] = ['A' as u8, 'c' as u8, 't' as u8, 'i' as u8, 'o' as u8, 'n' as u8];

/// `IC`: a rectangle annotation's entry for its interior colour.
pub const IC: [u8; 2] = ['I' as u8, 'C' as u8];

/// `Title`: the information dictionary's entry for the title.
pub const TITLE: [u8; 5] = ['T' as u8, 'i' as u8, 't' as u8, 'l' as u8, 'e' as u8];

/// `Author`: the information dictionary's entry for the author.
pub const AUTHOR: [u8; 6] = ['A' as u8, 'u' as u8, 't' as u8, 'h' as u8, 'o' as u8, 'r' as u8];

/// `CreationDate`: the information dictionary's entry for the creation date.
pub const CREATION_DATE: [u8; 12] = ['C' as u8, 'r' as u8, 'e' as u8, 'a' as u8, 't' as u8, 'i' as u8, 'o' as u8, 'n' as u8, 'D' as u8, 'a' as u8, 't' as u8, 'e' as u8];

} // verus!
