//! The descriptive data of a document: title, authors and year, read from
//! the information dictionary that the trailer names.

use vstd::prelude::*;
use vstd::string::StrSliceExecFns;
use crate::error::{PdfLibError, StructureError};
use crate::graph::{GraphValue, ObjectGraph};
use crate::names::{AUTHOR, CREATION_DATE, INFO, TITLE};
use crate::object::{Dictionary, Entries, Object, Value};
use crate::text::{decode_text_string, parse_text_string};

verus! {

/// What is known about a document.
#[derive(Debug, Clone, PartialEq, Eq)]
pub struct PdfMetaData {
    /// The title, where the document states one.
    pub title: Option<String>,
    /// Where the document appeared: publisher, conference and the like.
    pub context: Vec<String>,
    /// The authors.
    pub authors: Vec<String>,
    /// The year of publication.
    pub year: Option<u32>,
    /// Identifiers found in the document.
    pub identifiers: Vec<String>,
}

/// The mathematical value of a [`PdfMetaData`].
pub struct MetaDataValue {
    pub title: Option<Seq<char>>,
    pub context: Seq<Seq<char>>,
    pub authors: Seq<Seq<char>>,
    pub year: Option<u32>,
    pub identifiers: Seq<Seq<char>>,
}

/// The characters of each string of a sequence.
pub open spec fn texts(strings: Seq<String>) -> Seq<Seq<char>> {
    Seq::new(strings.len(), |i: int| strings[i]@)
}

impl View for PdfMetaData {
    type V = MetaDataValue;

    open spec fn view(&self) -> MetaDataValue {
        MetaDataValue {
            title: match self.title {
                Some(title) => Some(title@),
                None => None,
            },
            context: texts(self.context@),
            authors: texts(self.authors@),
            year: self.year,
            identifiers: texts(self.identifiers@),
        }
    }
}

/// Whether `c` is white space: one of the characters that have the Unicode
/// property White_Space.
pub open spec fn is_whitespace(c: char) -> bool {
    let code = c as u32;
    ||| 0x0009 <= code <= 0x000D
    ||| code == 0x0020
    ||| code == 0x0085
    ||| code == 0x00A0
    ||| code == 0x1680
    ||| 0x2000 <= code <= 0x200A
    ||| code == 0x2028
    ||| code == 0x2029
    ||| code == 0x202F
    ||| code == 0x205F
    ||| code == 0x3000
}

/// `char::is_whitespace` of std: whether the character has the Unicode
/// property White_Space, whose characters [`is_whitespace`] lists.
#[verifier::external_body]
fn char_is_whitespace(c: char) -> (r: bool)
    ensures
        r == is_whitespace(c),
{
    c.is_whitespace()
}

/// The calendar year of a PDF date string, read with the offset from
/// universal time that the string states; nothing where the string is no
/// date.
pub uninterp spec fn date_year(bytes: Seq<u8>) -> Option<i32>;

/// `Object::as_datetime` of lopdf on a string object with the given bytes,
/// chrono's conversion of what it gives into a date with a fixed offset, and
/// `Datelike::year` of that date. The three depend on the bytes alone.
#[verifier::external_body]
fn creation_year(bytes: &[u8]) -> (r: Option<i32>)
    ensures
        r == date_year(bytes@),
{
    let date = lopdf::Object::string_literal(bytes.to_vec()).as_datetime()?;
    match chrono::DateTime::<chrono::FixedOffset>::try_from(date) {
        Ok(moment) => Some(chrono::Datelike::year(&moment)),
        Err(_) => None,
    }
}

/// `text` without the white space it starts with.
pub open spec fn trim_start(text: Seq<char>) -> Seq<char>
    decreases text.len(),
{
    if text.len() > 0 && is_whitespace(text[0]) {
        trim_start(text.skip(1))
    } else {
        text
    }
}

/// `text` without the white space it ends with.
pub open spec fn trim_end(text: Seq<char>) -> Seq<char>
    decreases text.len(),
{
    if text.len() > 0 && is_whitespace(text.last()) {
        trim_end(text.drop_last())
    } else {
        text
    }
}

/// `text` without the white space around it.
pub open spec fn trim(text: Seq<char>) -> Seq<char> {
    trim_end(trim_start(text))
}

/// The position of the first comma of `text`, or its length where it has none.
pub open spec fn first_comma(text: Seq<char>) -> int
    decreases text.len(),
{
    if text.len() == 0 || text[0] == ',' {
        0
    } else {
        1 + first_comma(text.skip(1))
    }
}

/// The authors that an author string names: the pieces between its commas,
/// each without the white space around it. A string without a comma names one
/// author, the empty string included.
pub open spec fn author_names(text: Seq<char>) -> Seq<Seq<char>>
    decreases text.len(),
{
    let at = first_comma(text);
    if 0 <= at < text.len() {
        seq![trim(text.take(at))] + author_names(text.skip(at + 1))
    } else {
        seq![trim(text)]
    }
}

/// The text of the string that `info` holds under `key`, where there is one
/// and it decodes.
pub open spec fn text_under(info: Entries, key: Seq<u8>) -> Option<Seq<char>> {
    match info.get(key) {
        Some(Value::String(bytes, _)) => match decode_text_string(bytes) {
            Ok(text) => Some(text),
            Err(_) => None,
        },
        _ => None,
    }
}

/// The year as publication data hold it: a year before the year 0 is none.
pub open spec fn publication_year(year: Option<i32>) -> Option<u32> {
    match year {
        Some(y) => if y >= 0 {
            Some(y as u32)
        } else {
            None
        },
        None => None,
    }
}

/// The year that the creation date of `info` states.
pub open spec fn year_under(info: Entries) -> Option<u32> {
    match info.get(CREATION_DATE@) {
        Some(Value::String(bytes, _)) => publication_year(date_year(bytes)),
        _ => None,
    }
}

/// The information dictionary of the document, which the trailer holds or
/// refers to under `Info`.
pub open spec fn info_of(g: GraphValue) -> Result<Entries, PdfLibError> {
    match g.get_deref(g.trailer, INFO@) {
        Ok(Value::Dictionary(info)) => Ok(info),
        Ok(_) => Err(PdfLibError::PDFError(StructureError::ObjectType)),
        Err(e) => Err(PdfLibError::PDFError(e)),
    }
}

/// The descriptive data of the document, or the error of a missing
/// information dictionary.
pub open spec fn meta_data(g: GraphValue) -> Result<MetaDataValue, PdfLibError> {
    match info_of(g) {
        Err(e) => Err(e),
        Ok(info) => Ok(
            MetaDataValue {
                title: text_under(info, TITLE@),
                context: Seq::empty(),
                authors: match text_under(info, AUTHOR@) {
                    Some(text) => author_names(text),
                    None => Seq::empty(),
                },
                year: year_under(info),
                identifiers: Seq::empty(),
            },
        ),
    }
}

/// Where no comma stands before `at`, and one stands at `at` or `at` is the
/// end, `at` is the position of the first comma.
proof fn lemma_first_comma(text: Seq<char>, at: int)
    requires
        0 <= at <= text.len(),
        forall|k: int| 0 <= k < at ==> text[k] != ',',
        at < text.len() ==> text[at] == ',',
    ensures
        first_comma(text) == at,
    decreases text.len(),
{
    if text.len() != 0 && text[0] != ',' {
        lemma_first_comma(text.skip(1), at - 1);
    }
}

/// Without `n` leading characters of white space, before one that is none.
proof fn lemma_trim_start(text: Seq<char>, n: int)
    requires
        0 <= n <= text.len(),
        forall|k: int| 0 <= k < n ==> is_whitespace(text[k]),
        n < text.len() ==> !is_whitespace(text[n]),
    ensures
        trim_start(text) == text.skip(n),
    decreases text.len(),
{
    if n == 0 {
    } else {
        lemma_trim_start(text.skip(1), n - 1);
    }
}

/// Without the trailing characters of white space from `n` on, behind one
/// that is none.
proof fn lemma_trim_end(text: Seq<char>, n: int)
    requires
        0 <= n <= text.len(),
        forall|k: int| n <= k < text.len() ==> is_whitespace(text[k]),
        n > 0 ==> !is_whitespace(text[n - 1]),
    ensures
        trim_end(text) == text.take(n),
    decreases text.len(),
{
    if n == text.len() {
    } else {
        lemma_trim_end(text.drop_last(), n);
    }
}

/// The piece of `text` from `from` to `to`, without the white space around it.
fn trimmed(text: &str, from: usize, to: usize) -> (piece: String)
    requires
        from <= to <= text@.len(),
    ensures
        piece@ == trim(text@.subrange(from as int, to as int)),
{
    let ghost whole = text@.subrange(from as int, to as int);
    let mut start: usize = from;
    while start < to && char_is_whitespace(text.get_char(start))
        invariant
            from <= start <= to <= text@.len(),
            forall|k: int| from <= k < start ==> is_whitespace(text@[k]),
        decreases to - start,
    {
        start += 1;
    }
    let mut end: usize = to;
    while end > start && char_is_whitespace(text.get_char(end - 1))
        invariant
            start <= end <= to <= text@.len(),
            forall|k: int| end <= k < to ==> is_whitespace(text@[k]),
        decreases end - start,
    {
        end -= 1;
    }
    proof {
        lemma_trim_start(whole, start - from);
        let rest = whole.skip(start - from);
        lemma_trim_end(rest, end - start);
    }
    text.substring_char(start, end).to_owned()
}

/// The authors that the author string `text` names.
fn split_authors(text: &str) -> (names: Vec<String>)
    ensures
        texts(names@) == author_names(text@),
{
    let count = text.unicode_len();
    let mut names: Vec<String> = Vec::new();
    let mut start: usize = 0;
    let mut i: usize = 0;
    assert(text@.skip(0) =~= text@);
    while i < count
        invariant
            count == text@.len(),
            start <= i <= count,
            forall|k: int| start <= k < i ==> text@[k] != ',',
            texts(names@) + author_names(text@.skip(start as int)) == author_names(text@),
        decreases count - i,
    {
        if text.get_char(i) == ',' {
            let ghost rest = text@.skip(start as int);
            proof {
                lemma_first_comma(rest, i - start);
                assert(rest.take(i - start) =~= text@.subrange(start as int, i as int));
                assert(rest.skip(i - start + 1) =~= text@.skip(i + 1));
            }
            let piece = trimmed(text, start, i);
            names.push(piece);
            start = i + 1;
        }
        i += 1;
    }
    let ghost rest = text@.skip(start as int);
    proof {
        lemma_first_comma(rest, rest.len() as int);
    }
    let piece = trimmed(text, start, count);
    names.push(piece);
    names
}

/// The text of the string that `info` holds under `key`.
fn text_of(info: &Dictionary, key: &[u8]) -> (r: Option<String>)
    ensures
        match text_under(info@, key@) {
            Some(text) => r.is_some() && r.unwrap()@ == text,
            None => r.is_none(),
        },
{
    match info.get(key) {
        Ok(entry) => match entry.as_str() {
            Ok(bytes) => match parse_text_string(bytes) {
                Ok(text) => Some(text),
                Err(_) => None,
            },
            Err(_) => None,
        },
        Err(_) => None,
    }
}

/// The year as publication data hold it: a year before the year 0 is none.
pub fn year_of(year: Option<i32>) -> (r: Option<u32>)
    ensures
        r == publication_year(year),
{
    match year {
        Some(y) => if y >= 0 {
            Some(y as u32)
        } else {
            None
        },
        None => None,
    }
}

/// Reads the descriptive data of a document from its information
/// dictionary.
///
/// The title is the text under `Title`. The authors are the pieces of the
/// text under `Author` between its commas. The year is that of the date
/// under `CreationDate`. An entry that is missing, is no string or does not
/// decode leaves its part empty; only a missing information dictionary is an
/// error.
pub fn get_meta_data(graph: &ObjectGraph) -> (r: Result<PdfMetaData, PdfLibError>)
    ensures
        match meta_data(graph@) {
            Ok(data) => r.is_ok() && r.unwrap()@ == data,
            Err(e) => r.is_err() && r.unwrap_err() == e,
        },
{
    let info = match graph.get_deref(&graph.trailer, INFO.as_slice()) {
        Ok(found) => match found.as_dict() {
            Ok(info) => info,
            Err(e) => {
                return Err(PdfLibError::PDFError(e));
            },
        },
        Err(e) => {
            return Err(PdfLibError::PDFError(e));
        },
    };
    let title = text_of(info, TITLE.as_slice());
    let authors: Vec<String> = match text_of(info, AUTHOR.as_slice()) {
        Some(text) => split_authors(text.as_str()),
        None => Vec::new(),
    };
    let year: Option<u32> = match info.get(CREATION_DATE.as_slice()) {
        Ok(entry) => match entry.as_str() {
            Ok(bytes) => year_of(creation_year(bytes)),
            Err(_) => None,
        },
        Err(_) => None,
    };
    let context: Vec<String> = Vec::new();
    let identifiers: Vec<String> = Vec::new();
    let data = PdfMetaData { title, context, authors, year, identifiers };
    assert(data@.context =~= Seq::<Seq<char>>::empty());
    Ok(data)
}

} // verus!
