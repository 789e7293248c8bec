//! The object graph of a document, and writing it out with the `lopdf` crate.
//!
//! Everything here that touches the crate is believed, not proved; each item
//! says what it takes from the crate.

use crate::text::decimal_numeral;
use lopdf::{Dictionary, Document, Object, Stream, StringFormat};
use vstd::prelude::*;
use vstd::string::*;
use vstd::utf8::encode_utf8;

verus! {

/// A PDF object.
#[verifier::external_type_specification]
#[verifier::external_body]
pub struct ExObject(lopdf::Object);

/// A PDF dictionary.
#[verifier::external_type_specification]
#[verifier::external_body]
pub struct ExDictionary(lopdf::Dictionary);

/// A PDF document.
#[verifier::external_type_specification]
#[verifier::external_body]
pub struct ExDocument(lopdf::Document);

/// The value of a PDF object.
pub enum PdfValue {
    Name(Seq<char>),
    Integer(int),
    /// The bits of a number in single precision, in the IEEE 754 encoding, in
    /// which everything that is not a number counts as the same.
    Real(u32),
    Text(Seq<u8>),
    /// A reference to the object with this number, of generation zero.
    Reference(nat),
    Array(Seq<PdfValue>),
    Dict(Seq<(Seq<char>, PdfValue)>),
    /// A stream that decodes to these bytes.  The entries of its dictionary
    /// that tell the length and the filters are left out.
    Stream(Seq<(Seq<char>, PdfValue)>, Seq<u8>),
}

/// A document: its objects by number, and its trailer.
pub struct PdfFile {
    pub version: Seq<char>,
    pub objects: Map<nat, PdfValue>,
    pub trailer: Seq<(Seq<char>, PdfValue)>,
    /// The highest object number in use.
    pub last_id: nat,
}

/// The value of an object.
pub uninterp spec fn object_value(o: Object) -> PdfValue;

/// The entries of a dictionary, in order.
pub uninterp spec fn dictionary_entries(d: Dictionary) -> Seq<(Seq<char>, PdfValue)>;

/// What a document holds.
pub uninterp spec fn document_file(doc: Document) -> PdfFile;

/// Whether compressing a document once more would change nothing.
pub uninterp spec fn packed(doc: Document) -> bool;

/// Whether `data` is what the crate writes for a document, packed or not.
pub uninterp spec fn saved_as(file: PdfFile, packed: bool, data: Seq<u8>) -> bool;

/// The number in single precision that is nearest to the one that a text
/// denotes, by its bits; `None` for a text that denotes none.
pub uninterp spec fn real_bits(numeral: Seq<char>) -> Option<u32>;

/// Whether a text denotes a number in single precision.  Every decimal numeral
/// does.
pub open spec fn is_number(numeral: Seq<char>) -> bool {
    decimal_numeral(numeral) || real_bits(numeral) is Some
}

/// The number that a text denotes.
pub open spec fn number_value(numeral: Seq<char>) -> PdfValue {
    PdfValue::Real(real_bits(numeral)->0)
}

/// The values of a sequence of objects.
pub open spec fn object_values(objects: Seq<Object>) -> Seq<PdfValue> {
    Seq::new(objects.len(), |i: int| object_value(objects[i]))
}

/// Whether a dictionary has an entry under a key.
pub open spec fn has_key(entries: Seq<(Seq<char>, PdfValue)>, key: Seq<char>) -> bool {
    exists|i: int| 0 <= i < entries.len() && (#[trigger] entries[i]).0 == key
}

/// A value that is not made of other values.
pub enum Leaf {
    Name(&'static str),
    Integer(i64),
    Text(Vec<u8>),
    Reference(u32),
}

impl Leaf {
    /// The value.
    pub open spec fn model(self) -> PdfValue {
        match self {
            Leaf::Name(name) => PdfValue::Name(name@),
            Leaf::Integer(n) => PdfValue::Integer(n as int),
            Leaf::Text(bytes) => PdfValue::Text(bytes@),
            Leaf::Reference(id) => PdfValue::Reference(id as nat),
        }
    }
}

/// The variants of `Object` for values that are not made of others.  The
/// contract claims that the object has the value.
#[verifier::external_body]
pub(crate) fn leaf(value: Leaf) -> (o: Object)
    ensures
        object_value(o) == value.model(),
{
    match value {
        Leaf::Name(name) => Object::from(name),
        Leaf::Integer(n) => Object::Integer(n),
        Leaf::Text(bytes) => Object::String(bytes, StringFormat::Literal),
        Leaf::Reference(id) => Object::Reference((id, 0)),
    }
}

/// `Object::Real` of the number that the standard library's `str::parse` reads
/// a text as, in single precision.  The contract claims that the number, and
/// whether there is one, depends on the characters of the text and nothing
/// else; and that there is one where the text is a decimal numeral.
#[verifier::external_body]
pub(crate) fn number(numeral: &str) -> (r: Result<Object, String>)
    ensures
        r is Ok <==> is_number(numeral@),
        r matches Ok(o) ==> object_value(o) == PdfValue::Real(real_bits(numeral@)->0),
{
    numeral.parse().map(Object::Real).map_err(|e| e.to_string())
}

/// `Object::Array`: the object holds the values in order.
#[verifier::external_body]
pub(crate) fn array(items: Vec<Object>) -> (o: Object)
    ensures
        object_value(o) == PdfValue::Array(object_values(items@)),
{
    Object::Array(items)
}

/// `Object::Dictionary`: the object holds the entries of the dictionary.
#[verifier::external_body]
pub(crate) fn dict(entries: Dictionary) -> (o: Object)
    ensures
        object_value(o) == PdfValue::Dict(dictionary_entries(entries)),
{
    Object::Dictionary(entries)
}

/// `Object::Stream` of `Stream::new`, with no entries of its own: the object
/// decodes to the bytes.
#[verifier::external_body]
pub(crate) fn stream(data: Vec<u8>) -> (o: Object)
    ensures
        object_value(o) == PdfValue::Stream(Seq::empty(), data@),
{
    Object::Stream(Stream::new(Dictionary::new(), data))
}

/// `Dictionary::new`: a dictionary without entries.
#[verifier::external_body]
pub(crate) fn new_dict() -> (d: Dictionary)
    ensures
        dictionary_entries(d) == Seq::<(Seq<char>, PdfValue)>::empty(),
{
    Dictionary::new()
}

/// `Dictionary::set` with a key that the dictionary does not have yet: the
/// entry is added at the end.
#[verifier::external_body]
pub(crate) fn put(d: &mut Dictionary, key: &str, value: Object)
    requires
        !has_key(dictionary_entries(*old(d)), key@),
    ensures
        dictionary_entries(*final(d)) == dictionary_entries(*old(d)).push(
            (key@, object_value(value)),
        ),
{
    d.set(key, value)
}

/// `Document::with_version`: a document without objects and with an empty
/// trailer.
#[verifier::external_body]
pub(crate) fn new_document(version: &str) -> (doc: Document)
    ensures
        document_file(doc) == (PdfFile {
            version: version@,
            objects: Map::empty(),
            trailer: Seq::empty(),
            last_id: 0,
        }),
{
    Document::with_version(version)
}

/// `Document::new_object_id`: the next number, of generation zero.  The crate
/// panics or starts over when there is none left.
#[verifier::external_body]
pub(crate) fn new_id(doc: &mut Document) -> (id: u32)
    requires
        document_file(*old(doc)).last_id < u32::MAX,
    ensures
        id == document_file(*old(doc)).last_id + 1,
        document_file(*final(doc)) == (PdfFile {
            last_id: id as nat,
            ..document_file(*old(doc))
        }),
{
    doc.new_object_id().0
}

/// `BTreeMap::insert` on the objects of a document.
#[verifier::external_body]
pub(crate) fn insert(doc: &mut Document, id: u32, object: Object)
    ensures
        document_file(*final(doc)) == (PdfFile {
            objects: document_file(*old(doc)).objects.insert(id as nat, object_value(object)),
            ..document_file(*old(doc))
        }),
{
    doc.objects.insert((id, 0), object);
}

/// `Dictionary::set` on the trailer of a document, with a key that it does not
/// have yet.
#[verifier::external_body]
pub(crate) fn set_trailer(doc: &mut Document, key: &str, value: Object)
    requires
        !has_key(document_file(*old(doc)).trailer, key@),
    ensures
        document_file(*final(doc)) == (PdfFile {
            trailer: document_file(*old(doc)).trailer.push((key@, object_value(value))),
            ..document_file(*old(doc))
        }),
{
    doc.trailer.set(key, value)
}

/// `Document::compress`: what the streams decode to stays the same, and so
/// does everything else.  A stream that is compressed already, or that would
/// not shrink, is left alone, so that nothing is left to compress.
#[verifier::external_body]
pub(crate) fn compress(doc: &mut Document)
    ensures
        document_file(*final(doc)) == document_file(*old(doc)),
        packed(*final(doc)),
{
    doc.compress()
}

/// `Document::save_to` into memory.  The crate takes one more number for the
/// cross-reference stream and writes down the number after that, and panics
/// where there are none.  The contract claims that writing succeeds, and that
/// what is written begins with the header of the version.  Nothing is said of
/// the bytes beyond the header.
#[verifier::external_body]
pub(crate) fn save(doc: Document) -> (r: Result<Vec<u8>, String>)
    requires
        document_file(doc).last_id + 2 <= u32::MAX,
    ensures
        r is Ok,
        r matches Ok(data) ==> saved_as(document_file(doc), packed(doc), data@),
        r matches Ok(data) ==> encode_utf8("%PDF-"@ + document_file(doc).version).is_prefix_of(
            data@,
        ),
{
    let mut doc = doc;
    let mut data = Vec::new();
    doc.save_to(&mut data).map_err(|e| e.to_string())?;
    Ok(data)
}

} // verus!
