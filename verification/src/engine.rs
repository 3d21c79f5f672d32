//! The parts of the tantivy search engine that the index uses, with what the
//! library relies on of each.

use tantivy::collector::TopDocs;
use tantivy::query::{Query, QueryParser, QueryParserError};
use tantivy::schema::{Field, OwnedValue, Schema, SchemaBuilder, STORED, TEXT};
use tantivy::{DocAddress, Index, IndexReader, Searcher, TantivyDocument, TantivyError};

use vstd::prelude::*;

verus! {

/// tantivy's `SchemaBuilder`; its fields are described by `builder_fields`.
#[verifier::external_type_specification]
#[verifier::external_body]
pub struct ExSchemaBuilder(SchemaBuilder);

/// tantivy's `Schema`; its fields are described by `schema_fields`.
#[verifier::external_type_specification]
#[verifier::external_body]
pub struct ExSchema(Schema);

/// tantivy's `TantivyDocument`; its values are described by `document_values`.
#[verifier::external_type_specification]
#[verifier::external_body]
pub struct ExTantivyDocument(TantivyDocument);

/// tantivy's `Index`, an index on disk; opaque.
#[verifier::external_type_specification]
#[verifier::external_body]
pub struct ExIndex(Index);

/// tantivy's `IndexReader`; opaque.
#[verifier::external_type_specification]
#[verifier::external_body]
pub struct ExIndexReader(IndexReader);

/// tantivy's `Searcher`; its segments are described by `searcher_segments`.
#[verifier::external_type_specification]
#[verifier::external_body]
pub struct ExSearcher(Searcher);

/// tantivy's `QueryParser`; opaque.
#[verifier::external_type_specification]
#[verifier::external_body]
pub struct ExQueryParser(QueryParser);

/// tantivy's `QueryParserError`; opaque.
#[verifier::external_type_specification]
#[verifier::external_body]
pub struct ExQueryParserError(QueryParserError);

/// tantivy's `TantivyError`; opaque.
#[verifier::external_type_specification]
#[verifier::external_body]
pub struct ExTantivyError(TantivyError);

/// A parsed query. It holds tantivy's `Box<dyn Query>`, whose trait Verus cannot
/// be told about, so the value is carried through unopened.
#[verifier::external_body]
pub struct ParsedQuery {
    query: Box<dyn Query>,
}

/// The fields of a schema under construction, in the order they were added: each
/// field's name, whether it is indexed, and whether its values are stored. A
/// field's id is its position.
pub uninterp spec fn builder_fields(b: SchemaBuilder) -> Seq<(Seq<char>, bool, bool)>;

/// The fields of a schema, as `builder_fields` describes them.
pub uninterp spec fn schema_fields(s: Schema) -> Seq<(Seq<char>, bool, bool)>;

/// The values of a document, in the order they were added: the field id of each,
/// and its text where the value is text (`None` for any other kind of value).
pub uninterp spec fn document_values(d: TantivyDocument) -> Seq<(u32, Option<Seq<char>>)>;

/// The segments a searcher reads: for each, the number of document ids it holds
/// (its `max_doc`). An address names a segment by its position here.
pub uninterp spec fn searcher_segments(s: Searcher) -> Seq<u32>;

/// The fields of an index's schema, as `schema_fields` describes them.
pub uninterp spec fn index_fields(i: Index) -> Seq<(Seq<char>, bool, bool)>;

/// The directory path an index was created or opened at, as the caller wrote it
/// (tantivy itself keeps the canonical form of that path).
pub uninterp spec fn index_dir(i: Index) -> Seq<char>;

/// The index was created here as a new index: its metadata, written at creation,
/// listed no segment, so it held no document then.
pub uninterp spec fn index_created_empty(i: Index) -> bool;

/// The fields of the schema of the index that a reader reads.
pub uninterp spec fn reader_fields(r: IndexReader) -> Seq<(Seq<char>, bool, bool)>;

/// The fields of the schema of the index that a searcher searches.
pub uninterp spec fn searcher_fields(s: Searcher) -> Seq<(Seq<char>, bool, bool)>;

/// The default fields of a query parser: those that a query term naming no field
/// is looked up in, by id.
pub uninterp spec fn parser_fields(p: QueryParser) -> Seq<u32>;

/// The fields of the schema that a query parser resolves field names against.
pub uninterp spec fn parser_schema(p: QueryParser) -> Seq<(Seq<char>, bool, bool)>;

/// Whether a query parser accepts a text (what `QueryParser::parse_query` decides
/// from the parser and the text alone).
pub uninterp spec fn parses(p: QueryParser, text: Seq<char>) -> bool;

/// The text a parsed query was parsed from.
pub uninterp spec fn query_text(q: ParsedQuery) -> Seq<char>;

/// The fields of the schema a parsed query was resolved against: every field it
/// uses is one of them.
pub uninterp spec fn query_schema(q: ParsedQuery) -> Seq<(Seq<char>, bool, bool)>;

/// The default fields of the parser a query was parsed by.
pub uninterp spec fn query_default_fields(q: ParsedQuery) -> Seq<u32>;

/// The addresses that `Searcher::search` with `TopDocs::with_limit(limit)` gives
/// for a query on a searcher (a fixed set of segments): the best matches, best
/// first.
pub uninterp spec fn top_answer(s: Searcher, q: ParsedQuery, limit: usize) -> Seq<(u32, u32)>;

/// The document stored at an address of a searcher's segments.
pub uninterp spec fn stored_document(s: Searcher, address: (u32, u32)) -> TantivyDocument;

/// Some field of `fields` is called `name`.
pub open spec fn has_field_named(fields: Seq<(Seq<char>, bool, bool)>, name: Seq<char>) -> bool {
    exists|i: int| 0 <= i < fields.len() && #[trigger] fields[i].0 == name
}

/// `Schema::builder`: a builder with no fields.
#[verifier::external_body]
pub(crate) fn schema_builder() -> (b: SchemaBuilder)
    ensures
        builder_fields(b) == Seq::<(Seq<char>, bool, bool)>::empty(),
{
    Schema::builder()
}

/// `SchemaBuilder::add_text_field`, with `stored` turned into the options `TEXT |
/// STORED` (tokenized, indexed and stored) or `TEXT` (tokenized and indexed): the
/// field is appended, and its id is the number of fields before it. tantivy
/// panics on a name that is already taken.
#[verifier::external_body]
pub(crate) fn add_text_field(b: &mut SchemaBuilder, name: &str, stored: bool) -> (id: u32)
    requires
        !has_field_named(builder_fields(*old(b)), name@),
    ensures
        id == builder_fields(*old(b)).len(),
        builder_fields(*final(b)) == builder_fields(*old(b)).push((name@, true, stored)),
{
    let options = if stored { TEXT | STORED } else { TEXT };
    b.add_text_field(name, options).field_id()
}

/// `SchemaBuilder::build`: the schema has the builder's fields.
#[verifier::external_body]
pub(crate) fn build_schema(b: SchemaBuilder) -> (s: Schema)
    ensures
        schema_fields(s) == builder_fields(b),
{
    b.build()
}

/// `Schema::get_field`: the id of the field called `name`, or an error where the
/// schema has no such field.
#[verifier::external_body]
pub(crate) fn schema_field(s: &Schema, name: &str) -> (r: Result<u32, TantivyError>)
    ensures
        r matches Ok(id) ==> id < schema_fields(*s).len() && schema_fields(*s)[id as int].0 == name@,
        r is Err <==> !has_field_named(schema_fields(*s), name@),
{
    s.get_field(name).map(|f| f.field_id())
}

/// `Index::create_in_dir`: creates an index with `schema` in the directory
/// `path`. Whether it succeeds depends on the file system (it fails where the
/// directory is missing or already holds an index); the index it gives lies at
/// `path`, has `schema`, and was written with metadata that lists no segment.
#[verifier::external_body]
pub(crate) fn create_index(path: &str, schema: Schema) -> (r: Result<Index, TantivyError>)
    ensures
        r matches Ok(i) ==> index_fields(i) == schema_fields(schema) && index_dir(i) == path@
            && index_created_empty(i),
{
    Index::create_in_dir(path, schema)
}

/// `Index::open_in_dir`: opens the index in the directory `path`; the index it
/// gives lies at `path`. Whether it succeeds, and the schema of the index, depend
/// on what is on disk; nothing more is stated of them.
#[verifier::external_body]
pub(crate) fn open_index(path: &str) -> (r: Result<Index, TantivyError>)
    ensures
        r matches Ok(i) ==> index_dir(i) == path@,
{
    Index::open_in_dir(path)
}

/// `Index::schema`: a clone of the index's schema.
#[verifier::external_body]
pub(crate) fn index_schema(index: &Index) -> (s: Schema)
    ensures
        schema_fields(s) == index_fields(*index),
{
    index.schema()
}

/// `QueryParser::for_index`: a parser over the index's schema whose default
/// fields are `fields`. (tantivy takes any ids here; it is parsing that panics on
/// a default field outside the schema.)
#[verifier::external_body]
pub(crate) fn query_parser_for(index: &Index, fields: Vec<u32>) -> (p: QueryParser)
    ensures
        parser_fields(p) == fields@,
        parser_schema(p) == index_fields(*index),
{
    QueryParser::for_index(index, fields.into_iter().map(|f| Field::from_field_id(f)).collect())
}

/// `QueryParser::parse_query`: parses the query text. Whether it succeeds is
/// decided by the parser and the text (`parses`); which texts the grammar accepts
/// is not stated. The query uses fields of the parser's schema only. tantivy
/// panics on a default field outside the parser's schema.
#[verifier::external_body]
pub(crate) fn parse_query(parser: &QueryParser, text: &str) -> (r: Result<ParsedQuery, QueryParserError>)
    requires
        forall|k: int| 0 <= k < parser_fields(*parser).len() ==>
            (#[trigger] parser_fields(*parser)[k]) < parser_schema(*parser).len(),
    ensures
        r is Ok <==> parses(*parser, text@),
        r matches Ok(q) ==> query_text(q) == text@ && query_schema(q) == parser_schema(*parser)
            && query_default_fields(q) == parser_fields(*parser),
{
    parser.parse_query(text).map(|query| ParsedQuery { query })
}

/// `Index::reader`: a reader of the index's current state; whether it succeeds
/// depends on what is on disk. The reader reads this index, with its schema.
#[verifier::external_body]
pub(crate) fn index_reader(index: &Index) -> (r: Result<IndexReader, TantivyError>)
    ensures
        r matches Ok(reader) ==> reader_fields(reader) == index_fields(*index),
{
    index.reader()
}

/// `IndexReader::searcher`: a searcher over the reader's segments, with the
/// schema of the reader's index. Which segments it holds depends on the disk.
#[verifier::external_body]
pub(crate) fn reader_searcher(reader: &IndexReader) -> (s: Searcher)
    ensures
        searcher_fields(s) == reader_fields(*reader),
{
    reader.searcher()
}

/// `Searcher::search` with `TopDocs::with_limit(limit)`: the addresses, as
/// (segment, document) pairs, of the best matches, best first; at most `limit` of
/// them, each in one of the searcher's segments; they are `top_answer` of the
/// searcher, the query and the limit. The scores are dropped. Which documents
/// match is not stated. tantivy panics on a limit of zero, and on a query that
/// uses a field the searcher's schema lacks.
#[verifier::external_body]
pub(crate) fn top_documents(searcher: &Searcher, query: &ParsedQuery, limit: usize) -> (r: Result<Vec<(u32, u32)>, TantivyError>)
    requires
        limit >= 1,
        query_schema(*query) == searcher_fields(*searcher),
    ensures
        r matches Ok(v) ==> v@ == top_answer(*searcher, *query, limit),
        r matches Ok(v) ==> v.len() <= limit && forall|k: int| 0 <= k < v.len() ==>
            (#[trigger] v@[k]).0 < searcher_segments(*searcher).len()
                && v@[k].1 < searcher_segments(*searcher)[v@[k].0 as int],
{
    searcher.search(&*query.query, &TopDocs::with_limit(limit)).map(
        |hits| hits.into_iter().map(|(_, addr)| (addr.segment_ord, addr.doc_id)).collect(),
    )
}

/// `Searcher::doc`: reads the stored fields of the document at `address`, the
/// one `stored_document` names; whether the read succeeds depends on the disk.
/// tantivy panics on an address whose segment the searcher does not have.
#[verifier::external_body]
pub(crate) fn fetch_document(searcher: &Searcher, address: (u32, u32)) -> (r: Result<TantivyDocument, TantivyError>)
    requires
        address.0 < searcher_segments(*searcher).len(),
    ensures
        r matches Ok(d) ==> d == stored_document(*searcher, address),
{
    searcher.doc(DocAddress { segment_ord: address.0, doc_id: address.1 })
}

/// A read of a stored document that failed: the engine's error, with the searcher
/// and the address of the read. Only `read_document` makes one, from a failed
/// read, so a failure always names a read that was made and failed.
pub struct ReadFailure {
    cause: TantivyError,
    searcher: Ghost<Searcher>,
    address: Ghost<(u32, u32)>,
}

impl ReadFailure {
    /// The searcher of the failed read.
    pub closed spec fn searcher_view(self) -> Searcher {
        self.searcher@
    }

    /// The address of the failed read.
    pub closed spec fn address_view(self) -> (u32, u32) {
        self.address@
    }

    /// The engine's error.
    pub fn cause(self) -> (e: TantivyError) {
        self.cause
    }
}

/// Reads back the document at `address`: the document stored there, or a failure
/// that names this read.
pub fn read_document(searcher: &Searcher, address: (u32, u32)) -> (r: Result<TantivyDocument, ReadFailure>)
    requires
        address.0 < searcher_segments(*searcher).len(),
    ensures
        r matches Ok(d) ==> d == stored_document(*searcher, address),
        r matches Err(f) ==> f.searcher_view() == *searcher && f.address_view() == address,
{
    match fetch_document(searcher, address) {
        Ok(d) => Ok(d),
        Err(e) => Err(ReadFailure { cause: e, searcher: Ghost(*searcher), address: Ghost(address) }),
    }
}

/// `TantivyDocument::new`: a document with no values.
#[verifier::external_body]
pub(crate) fn new_document() -> (d: TantivyDocument)
    ensures
        document_values(d) == Seq::<(u32, Option<Seq<char>>)>::empty(),
{
    TantivyDocument::new()
}

/// `TantivyDocument::add_text`: appends a text value for the field `field`.
#[verifier::external_body]
pub(crate) fn add_text(doc: &mut TantivyDocument, field: u32, text: &str)
    ensures
        document_values(*final(doc)) == document_values(*old(doc)).push((field, Some(text@))),
{
    doc.add_text(Field::from_field_id(field), text)
}

/// The first value of `field` in `values`: `None` where the field has no value,
/// else that value's text, if it is text.
pub open spec fn first_value(values: Seq<(u32, Option<Seq<char>>)>, field: u32) -> Option<Option<Seq<char>>>
    decreases values.len(),
{
    if values.len() == 0 {
        None
    } else if values[0].0 == field {
        Some(values[0].1)
    } else {
        first_value(values.drop_first(), field)
    }
}

/// The first value of a field in a document.
pub enum FieldText {
    /// The document has no value for the field.
    Absent,
    /// The first value is this text.
    Text(String),
    /// The first value is not text.
    NotText,
}

/// `TantivyDocument::get_first`: the first value of `field`, in the order the
/// values were added.
#[verifier::external_body]
pub(crate) fn first_text(doc: &TantivyDocument, field: u32) -> (r: FieldText)
    ensures
        r is Absent <==> first_value(document_values(*doc), field) is None,
        r is NotText <==> first_value(document_values(*doc), field) == Some(None::<Seq<char>>),
        r matches FieldText::Text(s) ==> first_value(document_values(*doc), field) == Some(Some(s@)),
{
    match doc.get_first(Field::from_field_id(field)) {
        None => FieldText::Absent,
        Some(OwnedValue::Str(s)) => FieldText::Text(s.clone()),
        Some(_) => FieldText::NotText,
    }
}

} // verus!
