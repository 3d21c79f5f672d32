//! The search index of crates: its schema, the document of each crate, and what a
//! search returns.

use tantivy::{Index, Searcher, TantivyDocument};
use tantivy::query::QueryParser;
use tantivy::schema::Schema;

use vstd::prelude::*;

use crate::crates_io_client::{Category, Crate, Keyword};
use crate::engine::{
    add_text, add_text_field, build_schema, create_index, read_document, ReadFailure,
    first_text, first_value, has_field_named, index_reader, index_schema, new_document,
    open_index, parse_query, query_parser_for, reader_searcher, schema_builder, schema_field,
    top_documents, FieldText, ParsedQuery, index_created_empty, index_dir, builder_fields, document_values, index_fields,
    parser_fields, parser_schema, parses, query_default_fields, query_schema, query_text,
    schema_fields, searcher_fields, searcher_segments, stored_document, top_answer,
};
use crate::errors::Error;

verus! {

/// The name of the field of a crate's name.
pub open spec fn name_key() -> Seq<char> {
    seq!['n', 'a', 'm', 'e']
}

/// The name of the field of a crate's newest version.
pub open spec fn version_key() -> Seq<char> {
    seq!['v', 'e', 'r', 's', 'i', 'o', 'n']
}

/// The name of the field of a crate's categories.
pub open spec fn category_key() -> Seq<char> {
    seq!['c', 'a', 't', 'e', 'g', 'o', 'r', 'y']
}

/// The name of the field of a crate's keywords.
pub open spec fn keyword_key() -> Seq<char> {
    seq!['k', 'e', 'y', 'w', 'o', 'r', 'd']
}

/// The name of the field of a crate's description.
pub open spec fn description_key() -> Seq<char> {
    seq!['d', 'e', 's', 'c', 'r', 'i', 'p', 't', 'i', 'o', 'n']
}

/// The fields of the crate index, in order: name, version, category, keyword and
/// description, all text fields indexed with the default tokenizer; name,
/// version and description stored.
pub open spec fn crate_schema_fields() -> Seq<(Seq<char>, bool, bool)> {
    seq![
        (name_key(), true, true),
        (version_key(), true, true),
        (category_key(), true, false),
        (keyword_key(), true, false),
        (description_key(), true, true),
    ]
}

/// The ids of the five fields of the crate index.
#[derive(Clone, Copy)]
pub struct CrateFields {
    pub name: u32,
    pub version: u32,
    pub category: u32,
    pub keyword: u32,
    pub description: u32,
}

/// The field `id` of `fields` exists and is called `key`.
pub open spec fn field_is(fields: Seq<(Seq<char>, bool, bool)>, id: u32, key: Seq<char>) -> bool {
    id < fields.len() && fields[id as int].0 == key
}

/// Each id of `f` names the field of its name in `fields`.
pub open spec fn fields_resolved(fields: Seq<(Seq<char>, bool, bool)>, f: CrateFields) -> bool {
    &&& field_is(fields, f.name, name_key())
    &&& field_is(fields, f.version, version_key())
    &&& field_is(fields, f.category, category_key())
    &&& field_is(fields, f.keyword, keyword_key())
    &&& field_is(fields, f.description, description_key())
}

/// The first of the five field names, in schema order, that `fields` lacks.
pub open spec fn first_missing(fields: Seq<(Seq<char>, bool, bool)>) -> Option<Seq<char>> {
    if !has_field_named(fields, name_key()) {
        Some(name_key())
    } else if !has_field_named(fields, version_key()) {
        Some(version_key())
    } else if !has_field_named(fields, category_key()) {
        Some(category_key())
    } else if !has_field_named(fields, keyword_key()) {
        Some(keyword_key())
    } else if !has_field_named(fields, description_key()) {
        Some(description_key())
    } else {
        None
    }
}

/// A search hit as character sequences: name, version and description.
pub open spec fn hit_view(h: (String, String, Option<String>)) -> (Seq<char>, Seq<char>, Option<Seq<char>>) {
    (h.0@, h.1@, match h.2 {
        Some(d) => Some(d@),
        None => None,
    })
}

/// The category values of the document of crate `c`: one per category.
pub open spec fn category_values(f: CrateFields, c: Crate) -> Seq<(u32, Option<Seq<char>>)> {
    match c.categories {
        Some(cats) => cats@.map_values(|k: Category| (f.category, Some(k.category@))),
        None => Seq::empty(),
    }
}

/// The keyword values of the document of crate `c`: one per keyword.
pub open spec fn keyword_values(f: CrateFields, c: Crate) -> Seq<(u32, Option<Seq<char>>)> {
    c.keywords@.map_values(|k: Keyword| (f.keyword, Some(k.keyword@)))
}

/// The description value of the document of crate `c`, where it has a description.
pub open spec fn description_values(f: CrateFields, c: Crate) -> Seq<(u32, Option<Seq<char>>)> {
    match c.crate_.description {
        Some(d) => seq![(f.description, Some(d@))],
        None => Seq::empty(),
    }
}

/// The values that the document of crate `c` holds, in order: its name, its newest
/// version, each of its categories, each of its keywords, then its description
/// where it has one.
pub open spec fn crate_document_of(f: CrateFields, c: Crate) -> Seq<(u32, Option<Seq<char>>)> {
    seq![(f.name, Some(c.crate_.name@)), (f.version, Some(c.crate_.max_version@))]
        + category_values(f, c) + keyword_values(f, c) + description_values(f, c)
}

/// The hit that a stored document gives: the first name, the first version and the
/// first description, if any. `None` where the name or the version is missing or
/// not text, or the description is not text.
pub open spec fn document_hit_of(values: Seq<(u32, Option<Seq<char>>)>, f: CrateFields) -> Option<(Seq<char>, Seq<char>, Option<Seq<char>>)> {
    match (first_value(values, f.name), first_value(values, f.version)) {
        (Some(Some(n)), Some(Some(v))) => match first_value(values, f.description) {
            None => Some((n, v, None)),
            Some(Some(d)) => Some((n, v, Some(d))),
            Some(None) => None,
        },
        _ => None,
    }
}

/// The hits that a sequence of stored documents gives, or `None` where one of them
/// gives none.
pub open spec fn documents_hits(docs: Seq<TantivyDocument>, f: CrateFields) -> Option<Seq<(Seq<char>, Seq<char>, Option<Seq<char>>)>>
    decreases docs.len(),
{
    if docs.len() == 0 {
        Some(Seq::empty())
    } else {
        match (documents_hits(docs.drop_last(), f), document_hit_of(document_values(docs.last()), f)) {
            (Some(hs), Some(h)) => Some(hs.push(h)),
            _ => None,
        }
    }
}

/// The field names as the code writes them are the field keys.
proof fn lemma_key_literals()
    ensures
        "name"@ == name_key(),
        "version"@ == version_key(),
        "category"@ == category_key(),
        "keyword"@ == keyword_key(),
        "description"@ == description_key(),
{
    reveal_strlit("name");
    reveal_strlit("version");
    reveal_strlit("category");
    reveal_strlit("keyword");
    reveal_strlit("description");
    assert("name"@ =~= name_key());
    assert("version"@ =~= version_key());
    assert("category"@ =~= category_key());
    assert("keyword"@ =~= keyword_key());
    assert("description"@ =~= description_key());
}

/// How many hits a search returns at most.
pub const SEARCH_LIMIT: usize = 10;

/// Builds the schema of the crate index.
pub fn crate_schema() -> (s: Schema)
    ensures
        schema_fields(s) == crate_schema_fields(),
{
    proof {
        lemma_key_literals();
    }
    let mut builder = schema_builder();
    add_text_field(&mut builder, "name", true);
    proof {
        assert(builder_fields(builder) =~= seq![(name_key(), true, true)]);
    }
    add_text_field(&mut builder, "version", true);
    proof {
        assert(builder_fields(builder) =~= seq![(name_key(), true, true), (version_key(), true, true)]);
    }
    add_text_field(&mut builder, "category", false);
    proof {
        assert(builder_fields(builder) =~= seq![(name_key(), true, true), (version_key(), true, true), (category_key(), true, false)]);
    }
    add_text_field(&mut builder, "keyword", false);
    proof {
        assert(builder_fields(builder) =~= seq![(name_key(), true, true), (version_key(), true, true), (category_key(), true, false), (keyword_key(), true, false)]);
    }
    add_text_field(&mut builder, "description", true);
    proof {
        assert(builder_fields(builder) =~= crate_schema_fields());
    }
    build_schema(builder)
}

/// Looks up the ids of the five fields in `schema`; fails with the first field
/// name, in schema order, that the schema lacks.
pub fn resolve_fields(schema: &Schema) -> (r: Result<CrateFields, Error>)
    ensures
        r matches Ok(f) ==> fields_resolved(schema_fields(*schema), f),
        r is Ok <==> first_missing(schema_fields(*schema)) is None,
        r matches Err(e) ==> (e matches Error::MissingField(n) && first_missing(schema_fields(*schema)) == Some(n@)),
{
    proof {
        lemma_key_literals();
    }
    let name = match schema_field(schema, "name") {
        Ok(id) => id,
        Err(_) => return Err(Error::MissingField("name".to_owned())),
    };
    let version = match schema_field(schema, "version") {
        Ok(id) => id,
        Err(_) => return Err(Error::MissingField("version".to_owned())),
    };
    let category = match schema_field(schema, "category") {
        Ok(id) => id,
        Err(_) => return Err(Error::MissingField("category".to_owned())),
    };
    let keyword = match schema_field(schema, "keyword") {
        Ok(id) => id,
        Err(_) => return Err(Error::MissingField("keyword".to_owned())),
    };
    let description = match schema_field(schema, "description") {
        Ok(id) => id,
        Err(_) => return Err(Error::MissingField("description".to_owned())),
    };
    Ok(CrateFields { name, version, category, keyword, description })
}

/// The five field ids in schema order: the default fields of the query parser.
pub open spec fn field_ids(f: CrateFields) -> Seq<u32> {
    seq![f.name, f.version, f.category, f.keyword, f.description]
}

/// The documents of the reads in `outcomes` that succeeded, in order; the reads
/// that failed are left out.
pub open spec fn ok_values<E>(outcomes: Seq<Result<TantivyDocument, E>>) -> Seq<TantivyDocument>
    decreases outcomes.len(),
{
    if outcomes.len() == 0 {
        Seq::empty()
    } else {
        let rest = ok_values(outcomes.drop_last());
        match outcomes.last() {
            Ok(d) => rest.push(d),
            Err(_) => rest,
        }
    }
}

/// `outcomes` are the reads of the documents at `addrs` on searcher `s`, one per
/// address and in order: each gave the document stored there, or is the failure
/// of that very read.
pub open spec fn reads_of(s: Searcher, addrs: Seq<(u32, u32)>, outcomes: Seq<Result<TantivyDocument, ReadFailure>>) -> bool {
    &&& outcomes.len() == addrs.len()
    &&& forall|k: int| 0 <= k < outcomes.len() ==> match #[trigger] outcomes[k] {
        Ok(d) => d == stored_document(s, addrs[k]),
        Err(f) => f.searcher_view() == s && f.address_view() == addrs[k],
    }
}

/// The crate index: its schema, the index itself, the query parser over the five
/// fields, and the ids of those fields.
pub struct Indexer {
    schema: Schema,
    index: Index,
    query_parser: QueryParser,
    fields: CrateFields,
}

impl Indexer {
    /// The field ids name the fields of the schema, which is the index's; the query
    /// parser resolves names against that schema and looks a bare term up in the
    /// five fields.
    #[verifier::type_invariant]
    spec fn fields_match_schema(self) -> bool {
        &&& fields_resolved(schema_fields(self.schema), self.fields)
        &&& index_fields(self.index) == schema_fields(self.schema)
        &&& parser_schema(self.query_parser) == schema_fields(self.schema)
        &&& parser_fields(self.query_parser) == field_ids(self.fields)
    }

    /// The fields of the index's schema.
    pub closed spec fn schema_view(self) -> Seq<(Seq<char>, bool, bool)> {
        schema_fields(self.schema)
    }

    /// The ids of the five fields.
    pub closed spec fn fields_view(self) -> CrateFields {
        self.fields
    }

    /// The underlying index.
    pub closed spec fn index_view(self) -> Index {
        self.index
    }

    /// The fields that a query term naming no field is looked up in.
    pub closed spec fn query_fields_view(self) -> Seq<u32> {
        parser_fields(self.query_parser)
    }

    /// Whether the query parser accepts `text`.
    pub closed spec fn query_parses(self, text: Seq<char>) -> bool {
        parses(self.query_parser, text)
    }

    /// A search for `text` on searcher `s` with query `q`, whose best addresses
    /// were read back with the outcomes `outcomes`: `s` searches this index's
    /// schema, `q` is `text` parsed against that schema with the five fields as
    /// default fields, and `outcomes` are the reads of the best `SEARCH_LIMIT`
    /// addresses, in order.
    pub open spec fn search_run(self, text: Seq<char>, s: Searcher, q: ParsedQuery, outcomes: Seq<Result<TantivyDocument, ReadFailure>>) -> bool {
        &&& searcher_fields(s) == self.schema_view()
        &&& query_text(q) == text
        &&& query_schema(q) == self.schema_view()
        &&& query_default_fields(q) == self.query_fields_view()
        &&& reads_of(s, top_answer(s, q, SEARCH_LIMIT), outcomes)
    }

    /// The hits `hits` are what some search for `text` gives: those of the
    /// documents read back, in order, from the best `SEARCH_LIMIT` addresses, the
    /// failed reads left out.
    pub open spec fn found(self, text: Seq<char>, hits: Seq<(Seq<char>, Seq<char>, Option<Seq<char>>)>) -> bool {
        exists|s: Searcher, q: ParsedQuery, outcomes: Seq<Result<TantivyDocument, ReadFailure>>|
            #[trigger] self.search_run(text, s, q, outcomes)
                && documents_hits(ok_values(outcomes), self.fields_view()) == Some(hits)
    }

    /// Some search for `text` read back a document that gives no hit.
    pub open spec fn found_malformed(self, text: Seq<char>) -> bool {
        exists|s: Searcher, q: ParsedQuery, outcomes: Seq<Result<TantivyDocument, ReadFailure>>|
            #[trigger] self.search_run(text, s, q, outcomes)
                && documents_hits(ok_values(outcomes), self.fields_view()) is None
    }

    /// The five field ids in schema order.
    fn field_list(f: CrateFields) -> (r: Vec<u32>)
        ensures
            r@ == field_ids(f),
    {
        let mut r = Vec::new();
        r.push(f.name);
        r.push(f.version);
        r.push(f.category);
        r.push(f.keyword);
        r.push(f.description);
        r
    }

    /// The index of crates `index`, ready for searching and writing: its schema,
    /// the ids of the five fields in it, and a query parser over those fields.
    /// Fails where the schema lacks one of the five fields, with the first such
    /// name in schema order.
    pub fn for_index(index: Index) -> (r: Result<Indexer, Error>)
        ensures
            r is Ok <==> first_missing(index_fields(index)) is None,
            r matches Ok(ix) ==> ix.index_view() == index && ix.schema_view() == index_fields(index)
                && fields_resolved(ix.schema_view(), ix.fields_view())
                && ix.query_fields_view() == field_ids(ix.fields_view()),
            r matches Err(e) ==> (e matches Error::MissingField(n) && first_missing(index_fields(index)) == Some(n@)),
    {
        let schema = index_schema(&index);
        let fields = match resolve_fields(&schema) {
            Ok(f) => f,
            Err(e) => return Err(e),
        };
        let query_parser = query_parser_for(&index, Self::field_list(fields));
        Ok(Indexer { schema, index, query_parser, fields })
    }

    /// Creates a new, empty index of crates with the crate schema in the directory
    /// `index_path`. Fails only where the engine cannot create the index there.
    pub fn new(index_path: &str) -> (r: Result<Indexer, Error>)
        ensures
            r matches Ok(ix) ==> index_dir(ix.index_view()) == index_path@
                && index_created_empty(ix.index_view())
                && ix.schema_view() == crate_schema_fields()
                && index_fields(ix.index_view()) == crate_schema_fields()
                && ix.fields_view() == (CrateFields { name: 0, version: 1, category: 2, keyword: 3, description: 4 })
                && ix.query_fields_view() == seq![0u32, 1u32, 2u32, 3u32, 4u32],
            r matches Err(e) ==> e is Engine,
    {
        let schema = crate_schema();
        let index = match create_index(index_path, schema) {
            Ok(index) => index,
            Err(e) => return Err(Error::Engine(e)),
        };
        proof {
            lemma_crate_schema_complete();
        }
        let r = Self::for_index(index);
        proof {
            if r is Ok {
                lemma_crate_schema_ids(r->Ok_0.fields_view());
            }
        }
        r
    }

    /// Opens the index of crates in the directory `index_path`, for searching.
    /// Fails with an engine error where the index cannot be opened, and with the
    /// first missing field name where the opened index's schema lacks one of the
    /// five fields.
    pub fn searcher(index_path: &str) -> (r: Result<Indexer, Error>)
        ensures
            r matches Ok(ix) ==> index_dir(ix.index_view()) == index_path@
                && ix.schema_view() == index_fields(ix.index_view())
                && fields_resolved(ix.schema_view(), ix.fields_view())
                && ix.query_fields_view() == field_ids(ix.fields_view()),
            r matches Err(e) ==> (e is Engine || e is MissingField),
            r matches Err(Error::MissingField(n)) ==> exists|i: Index|
                #[trigger] index_dir(i) == index_path@ && first_missing(index_fields(i)) == Some(n@),
    {
        let index = match open_index(index_path) {
            Ok(index) => index,
            Err(e) => return Err(Error::Engine(e)),
        };
        Self::for_index(index)
    }

    /// The ids of the five fields; each names the field of its name in the schema.
    pub fn fields(&self) -> (f: CrateFields)
        ensures
            f == self.fields_view(),
            fields_resolved(self.schema_view(), f),
    {
        proof {
            use_type_invariant(self);
        }
        self.fields
    }

    /// The underlying index, for writing to it.
    pub fn index(&self) -> (r: &Index)
        ensures
            *r == self.index_view(),
    {
        &self.index
    }

    /// The document that indexes crate `cr8`.
    pub fn crate_document(&self, cr8: &Crate) -> (d: TantivyDocument)
        ensures
            document_values(d) == crate_document_of(self.fields_view(), *cr8),
            values_of_field(document_values(d), self.fields_view().keyword).len() == cr8.keywords.len(),
            forall|k: int| 0 <= k < cr8.keywords.len() ==>
                #[trigger] values_of_field(document_values(d), self.fields_view().keyword)[k] == Some(cr8.keywords@[k].keyword@),
            cr8.categories matches Some(cats) ==> values_of_field(document_values(d), self.fields_view().category).len() == cats.len()
                && forall|k: int| 0 <= k < cats.len() ==>
                    #[trigger] values_of_field(document_values(d), self.fields_view().category)[k] == Some(cats@[k].category@),
    {
        proof {
            use_type_invariant(self);
            lemma_resolved_fields_distinct(schema_fields(self.schema), self.fields);
            lemma_crate_document_fields(self.fields, *cr8);
        }
        let f = self.fields;
        let mut doc = new_document();
        add_text(&mut doc, f.name, cr8.crate_.name.as_str());
        add_text(&mut doc, f.version, cr8.crate_.max_version.as_str());
        let ghost head = seq![(f.name, Some(cr8.crate_.name@)), (f.version, Some(cr8.crate_.max_version@))];
        assert(document_values(doc) =~= head);
        let ghost cats = category_values(f, *cr8);
        if let Some(categories) = &cr8.categories {
            let mut i: usize = 0;
            while i < categories.len()
                invariant
                    cr8.categories == Some(*categories),
                    i <= categories.len(),
                    cats == categories@.map_values(|k: Category| (f.category, Some(k.category@))),
                    document_values(doc) =~= head + cats.take(i as int),
                decreases categories.len() - i,
            {
                add_text(&mut doc, f.category, categories[i].category.as_str());
                proof {
                    assert(cats.take(i + 1) =~= cats.take(i as int).push(cats[i as int]));
                }
                i = i + 1;
            }
            assert(cats.take(categories.len() as int) =~= cats);
        }
        let ghost kws = keyword_values(f, *cr8);
        assert(document_values(doc) =~= head + cats + kws.take(0));
        let mut j: usize = 0;
        while j < cr8.keywords.len()
            invariant
                j <= cr8.keywords.len(),
                kws == keyword_values(f, *cr8),
                document_values(doc) =~= head + cats + kws.take(j as int),
            decreases cr8.keywords.len() - j,
        {
            add_text(&mut doc, f.keyword, cr8.keywords[j].keyword.as_str());
            proof {
                assert(kws.take(j + 1) =~= kws.take(j as int).push(kws[j as int]));
            }
            j = j + 1;
        }
        assert(kws.take(cr8.keywords.len() as int) =~= kws);
        if let Some(desc) = &cr8.crate_.description {
            add_text(&mut doc, f.description, desc.as_str());
        }
        assert(document_values(doc) =~= crate_document_of(f, *cr8));
        doc
    }

    /// The hit that the stored document `doc` gives: its first name, its first
    /// version and its first description, if any; `None` where the document lacks a
    /// text name or version or has a description that is not text.
    pub fn document_hit(&self, doc: &TantivyDocument) -> (r: Option<(String, String, Option<String>)>)
        ensures
            r matches Some(h) ==> document_hit_of(document_values(*doc), self.fields_view()) == Some(hit_view(h)),
            r is None <==> document_hit_of(document_values(*doc), self.fields_view()) is None,
    {
        let name = match first_text(doc, self.fields.name) {
            FieldText::Text(s) => s,
            _ => return None,
        };
        let version = match first_text(doc, self.fields.version) {
            FieldText::Text(s) => s,
            _ => return None,
        };
        let description = match first_text(doc, self.fields.description) {
            FieldText::Absent => None,
            FieldText::Text(s) => Some(s),
            FieldText::NotText => return None,
        };
        Some((name, version, description))
    }

    /// The hits that the stored documents `docs` give, in order; fails where one of
    /// them gives none.
    pub fn document_hits(&self, docs: &Vec<TantivyDocument>) -> (r: Result<Vec<(String, String, Option<String>)>, Error>)
        ensures
            r matches Ok(hs) ==> documents_hits(docs@, self.fields_view()) == Some(hs@.map_values(|h: (String, String, Option<String>)| hit_view(h))),
            r is Err ==> documents_hits(docs@, self.fields_view()) is None,
            r matches Err(e) ==> e is MalformedDocument,
    {
        let mut hits: Vec<(String, String, Option<String>)> = Vec::new();
        let mut i: usize = 0;
        while i < docs.len()
            invariant
                i <= docs.len(),
                documents_hits(docs@.take(i as int), self.fields_view()) == Some(hits@.map_values(|h: (String, String, Option<String>)| hit_view(h))),
            decreases docs.len() - i,
        {
            proof {
                assert(docs@.take(i + 1).drop_last() =~= docs@.take(i as int));
            }
            match self.document_hit(&docs[i]) {
                Some(h) => {
                    let ghost before = hits@;
                    hits.push(h);
                    proof {
                        assert(hits@.map_values(|h: (String, String, Option<String>)| hit_view(h)) =~= before.map_values(|h: (String, String, Option<String>)| hit_view(h)).push(hit_view(h)));
                    }
                },
                None => {
                    proof {
                        lemma_hits_none_extends(docs@, i as int, self.fields_view());
                    }
                    return Err(Error::MalformedDocument);
                },
            }
            i = i + 1;
        }
        proof {
            assert(docs@.take(docs.len() as int) =~= docs@);
        }
        Ok(hits)
    }

    /// Searches the index for `query`: a reader of the index's current state gives
    /// a searcher; `query` is parsed by the index's parser (a term naming no field
    /// is looked up in all five fields); the document at each of the best
    /// `SEARCH_LIMIT` addresses, best first, is read back, one read per address;
    /// the documents of the reads that succeeded are kept in order
    /// (`documents_read`); and each of them becomes a hit. Fails with `Query` exactly
    /// where the reader was had and the parser refuses `query`, with
    /// `MalformedDocument` where a document read back gives no hit, and with
    /// `Engine` where the engine fails.
    pub fn search(&self, query: &str) -> (r: Result<Vec<(String, String, Option<String>)>, Error>)
        ensures
            r matches Ok(hs) ==> hs.len() <= SEARCH_LIMIT
                && self.found(query@, hs@.map_values(|h: (String, String, Option<String>)| hit_view(h))),
            !self.query_parses(query@) ==> (r matches Err(e) && (e is Query || e is Engine)),
            r matches Err(Error::Query(_)) ==> !self.query_parses(query@),
            r matches Err(Error::MalformedDocument) ==> self.found_malformed(query@),
            r matches Err(e) ==> (e is Engine || e is Query || e is MalformedDocument),
    {
        proof {
            use_type_invariant(self);
        }
        let reader = match index_reader(&self.index) {
            Ok(reader) => reader,
            Err(e) => return Err(Error::Engine(e)),
        };
        let searcher = reader_searcher(&reader);
        let parsed = match parse_query(&self.query_parser, query) {
            Ok(q) => q,
            Err(e) => return Err(Error::Query(e)),
        };
        let addresses = match top_documents(&searcher, &parsed, SEARCH_LIMIT) {
            Ok(a) => a,
            Err(e) => return Err(Error::Engine(e)),
        };
        let outcomes = read_documents(&searcher, &addresses);
        let ghost read = outcomes@;
        proof {
            assert(self.search_run(query@, searcher, parsed, read));
        }
        let docs = documents_read(outcomes);
        let hits = match self.document_hits(&docs) {
            Ok(h) => h,
            Err(e) => {
                assert(documents_hits(ok_values(read), self.fields_view()) is None);
                return Err(e);
            },
        };
        proof {
            assert(documents_hits(ok_values(read), self.fields_view()) == Some(hits@.map_values(|h: (String, String, Option<String>)| hit_view(h))));
            lemma_ok_values_count(read);
            lemma_hits_len(docs@, self.fields_view());
        }
        Ok(hits)
    }
}

/// Reads back the document at each of `addresses` on `searcher`, in order: one
/// outcome per address, each as the read gave it.
fn read_documents(searcher: &Searcher, addresses: &Vec<(u32, u32)>) -> (out: Vec<Result<TantivyDocument, ReadFailure>>)
    requires
        forall|k: int| 0 <= k < addresses.len() ==> (#[trigger] addresses@[k]).0 < searcher_segments(*searcher).len(),
    ensures
        reads_of(*searcher, addresses@, out@),
{
    let mut out: Vec<Result<TantivyDocument, ReadFailure>> = Vec::new();
    let mut i: usize = 0;
    while i < addresses.len()
        invariant
            i <= addresses.len(),
            reads_of(*searcher, addresses@.take(i as int), out@),
            forall|k: int| 0 <= k < addresses.len() ==> (#[trigger] addresses@[k]).0 < searcher_segments(*searcher).len(),
        decreases addresses.len() - i,
    {
        let outcome = read_document(searcher, addresses[i]);
        let ghost before = out@;
        out.push(outcome);
        proof {
            let a = addresses@.take(i + 1);
            assert forall|k: int| 0 <= k < out@.len() implies match #[trigger] out@[k] {
                Ok(d) => d == stored_document(*searcher, a[k]),
                Err(f) => f.searcher_view() == *searcher && f.address_view() == a[k],
            } by {
                if k < i {
                    assert(out@[k] == before[k]);
                    assert(a[k] == addresses@.take(i as int)[k]);
                }
            }
        }
        i = i + 1;
    }
    proof {
        assert(addresses@.take(addresses.len() as int) =~= addresses@);
    }
    out
}

/// The documents of the reads that succeeded, in order; the failed reads are left
/// out.
pub fn documents_read<E>(outcomes: Vec<Result<TantivyDocument, E>>) -> (d: Vec<TantivyDocument>)
    ensures
        d@ == ok_values(outcomes@),
{
    let ghost all = outcomes@;
    let mut d: Vec<TantivyDocument> = Vec::new();
    let ghost mut k: int = 0;
    let mut rest = outcomes;
    while rest.len() > 0
        invariant
            0 <= k <= all.len(),
            rest@ == all.skip(k),
            d@ == ok_values(all.take(k)),
        decreases rest.len(),
    {
        let outcome = rest.remove(0);
        proof {
            assert(outcome == all[k]);
            assert(rest@ =~= all.skip(k + 1));
            assert(all.take(k + 1).drop_last() =~= all.take(k));
        }
        match outcome {
            Ok(doc) => d.push(doc),
            Err(_) => {},
        }
        proof {
            k = k + 1;
        }
    }
    proof {
        assert(all.take(k) =~= all);
    }
    d
}

/// Where every read of the best addresses succeeds, the documents read back are
/// all of those stored at the addresses, in the addresses' order.
pub proof fn lemma_all_reads_kept(s: Searcher, addrs: Seq<(u32, u32)>, outcomes: Seq<Result<TantivyDocument, ReadFailure>>)
    requires
        reads_of(s, addrs, outcomes),
        forall|k: int| 0 <= k < outcomes.len() ==> #[trigger] outcomes[k] is Ok,
    ensures
        ok_values(outcomes) == addrs.map_values(|a: (u32, u32)| stored_document(s, a)),
    decreases outcomes.len(),
{
    if outcomes.len() > 0 {
        let n = outcomes.len() - 1;
        assert(outcomes[n] is Ok);
        assert(reads_of(s, addrs.drop_last(), outcomes.drop_last())) by {
            assert forall|k: int| 0 <= k < outcomes.drop_last().len() implies match #[trigger] outcomes.drop_last()[k] {
                Ok(d) => d == stored_document(s, addrs.drop_last()[k]),
                Err(f) => f.searcher_view() == s && f.address_view() == addrs.drop_last()[k],
            } by {
                assert(outcomes.drop_last()[k] == outcomes[k]);
            }
        }
        assert forall|k: int| 0 <= k < outcomes.drop_last().len() implies #[trigger] outcomes.drop_last()[k] is Ok by {
            assert(outcomes.drop_last()[k] == outcomes[k]);
        }
        lemma_all_reads_kept(s, addrs.drop_last(), outcomes.drop_last());
        assert(addrs.map_values(|a: (u32, u32)| stored_document(s, a)) =~= addrs.drop_last().map_values(|a: (u32, u32)| stored_document(s, a)).push(stored_document(s, addrs[n])));
    } else {
        assert(addrs.map_values(|a: (u32, u32)| stored_document(s, a)) =~= Seq::<TantivyDocument>::empty());
    }
}

/// Reading back the documents at the best addresses leaves out a document only
/// where its own read failed: every document that is not in the result stands at
/// an address whose outcome is the failure of reading that address on that
/// searcher, and every other outcome is the document stored there.
pub proof fn lemma_only_failed_reads_left_out(s: Searcher, addrs: Seq<(u32, u32)>, outcomes: Seq<Result<TantivyDocument, ReadFailure>>, k: int)
    requires
        reads_of(s, addrs, outcomes),
        0 <= k < addrs.len(),
    ensures
        outcomes[k] is Ok ==> outcomes[k]->Ok_0 == stored_document(s, addrs[k]),
        outcomes[k] is Err ==> outcomes[k]->Err_0.searcher_view() == s && outcomes[k]->Err_0.address_view() == addrs[k],
        ok_values(outcomes).len() == addrs.len() <==> forall|j: int| 0 <= j < outcomes.len() ==> #[trigger] outcomes[j] is Ok,
{
    lemma_ok_values_count(outcomes);
}

/// The documents kept are as many as the reads that succeeded: all of them exactly
/// when no read failed.
proof fn lemma_ok_values_count<E>(outcomes: Seq<Result<TantivyDocument, E>>)
    ensures
        ok_values(outcomes).len() <= outcomes.len(),
        ok_values(outcomes).len() == outcomes.len() <==> forall|j: int| 0 <= j < outcomes.len() ==> #[trigger] outcomes[j] is Ok,
    decreases outcomes.len(),
{
    if outcomes.len() > 0 {
        let init = outcomes.drop_last();
        lemma_ok_values_count(init);
        if forall|j: int| 0 <= j < init.len() ==> #[trigger] init[j] is Ok {
            assert forall|j: int| 0 <= j < init.len() implies #[trigger] outcomes[j] is Ok by {
                assert(init[j] == outcomes[j]);
            }
        } else {
            let j = choose|j: int| 0 <= j < init.len() && !(#[trigger] init[j] is Ok);
            assert(init[j] == outcomes[j]);
        }
        if forall|j: int| 0 <= j < outcomes.len() ==> #[trigger] outcomes[j] is Ok {
            assert forall|j: int| 0 <= j < init.len() implies #[trigger] init[j] is Ok by {
                assert(init[j] == outcomes[j]);
                assert(outcomes[j] is Ok);
            }
        }
    }
}

/// The five field names are pairwise different.
proof fn lemma_keys_distinct()
    ensures
        name_key() != version_key(),
        name_key() != category_key(),
        name_key() != keyword_key(),
        name_key() != description_key(),
        version_key() != category_key(),
        version_key() != keyword_key(),
        version_key() != description_key(),
        category_key() != keyword_key(),
        category_key() != description_key(),
        keyword_key() != description_key(),
{
    assert(name_key()[0] != version_key()[0]);
    assert(name_key()[0] != category_key()[0]);
    assert(name_key()[0] != keyword_key()[0]);
    assert(name_key()[0] != description_key()[0]);
    assert(version_key()[0] != category_key()[0]);
    assert(version_key()[0] != keyword_key()[0]);
    assert(version_key()[0] != description_key()[0]);
    assert(category_key()[0] != keyword_key()[0]);
    assert(category_key()[0] != description_key()[0]);
    assert(keyword_key()[0] != description_key()[0]);
}

/// The crate schema has each of the five fields.
proof fn lemma_crate_schema_complete()
    ensures
        first_missing(crate_schema_fields()) is None,
{
    let fields = crate_schema_fields();
    assert(fields[0].0 == name_key());
    assert(fields[1].0 == version_key());
    assert(fields[2].0 == category_key());
    assert(fields[3].0 == keyword_key());
    assert(fields[4].0 == description_key());
}

/// In the crate schema the five fields have the ids 0 to 4, in order.
proof fn lemma_crate_schema_ids(f: CrateFields)
    requires
        fields_resolved(crate_schema_fields(), f),
    ensures
        f == (CrateFields { name: 0, version: 1, category: 2, keyword: 3, description: 4 }),
{
    let fields = crate_schema_fields();
    assert(fields[0].0 == name_key());
    assert(fields[1].0 == version_key());
    assert(fields[2].0 == category_key());
    assert(fields[3].0 == keyword_key());
    assert(fields[4].0 == description_key());
    lemma_keys_distinct();
}

/// The five field ids are pairwise different.
pub open spec fn fields_distinct(f: CrateFields) -> bool {
    &&& f.name != f.version
    &&& f.name != f.category
    &&& f.name != f.keyword
    &&& f.name != f.description
    &&& f.version != f.category
    &&& f.version != f.keyword
    &&& f.version != f.description
    &&& f.category != f.keyword
    &&& f.category != f.description
    &&& f.keyword != f.description
}

/// Field ids resolved against any schema are pairwise different, since the five
/// field names are.
pub proof fn lemma_resolved_fields_distinct(fields: Seq<(Seq<char>, bool, bool)>, f: CrateFields)
    requires
        fields_resolved(fields, f),
    ensures
        fields_distinct(f),
{
    lemma_keys_distinct();
}

/// The values of field `x` among `values`, in order.
pub open spec fn values_of_field(values: Seq<(u32, Option<Seq<char>>)>, x: u32) -> Seq<Option<Seq<char>>>
    decreases values.len(),
{
    if values.len() == 0 {
        Seq::empty()
    } else {
        let rest = values_of_field(values.drop_last(), x);
        if values.last().0 == x {
            rest.push(values.last().1)
        } else {
            rest
        }
    }
}

/// The values of a field in a concatenation are those in the first part, then
/// those in the second.
proof fn lemma_values_of_field_concat(a: Seq<(u32, Option<Seq<char>>)>, b: Seq<(u32, Option<Seq<char>>)>, x: u32)
    ensures
        values_of_field(a + b, x) == values_of_field(a, x) + values_of_field(b, x),
    decreases b.len(),
{
    if b.len() == 0 {
        assert(a + b =~= a);
        assert(values_of_field(a, x) + values_of_field(b, x) =~= values_of_field(a, x));
    } else {
        assert((a + b).drop_last() =~= a + b.drop_last());
        lemma_values_of_field_concat(a, b.drop_last(), x);
        if b.last().0 == x {
            assert(values_of_field(a, x) + values_of_field(b.drop_last(), x).push(b.last().1)
                =~= (values_of_field(a, x) + values_of_field(b.drop_last(), x)).push(b.last().1));
        }
    }
}

/// Values all of field `y` give their texts, in order, for `y`, and nothing for
/// any other field.
proof fn lemma_values_of_one_field(s: Seq<(u32, Option<Seq<char>>)>, y: u32, x: u32)
    requires
        forall|i: int| 0 <= i < s.len() ==> (#[trigger] s[i]).0 == y,
    ensures
        values_of_field(s, x) == (if x == y { s.map_values(|v: (u32, Option<Seq<char>>)| v.1) } else { Seq::<Option<Seq<char>>>::empty() }),
    decreases s.len(),
{
    if s.len() > 0 {
        assert forall|i: int| 0 <= i < s.drop_last().len() implies (#[trigger] s.drop_last()[i]).0 == y by {
            assert(s.drop_last()[i] == s[i]);
        }
        lemma_values_of_one_field(s.drop_last(), y, x);
        assert(s[s.len() - 1].0 == y);
        if x == y {
            assert(s.map_values(|v: (u32, Option<Seq<char>>)| v.1) =~= s.drop_last().map_values(|v: (u32, Option<Seq<char>>)| v.1).push(s.last().1));
        }
    } else {
        assert(s.map_values(|v: (u32, Option<Seq<char>>)| v.1) =~= Seq::<Option<Seq<char>>>::empty());
    }
}

/// The document of a crate holds, field by field and in order: its name once, its
/// newest version once, one category value for each of its categories, one keyword
/// value for each of its keywords, and its description once where it has one;
/// nothing else.
pub proof fn lemma_crate_document_fields(f: CrateFields, c: Crate)
    requires
        fields_distinct(f),
    ensures
        values_of_field(crate_document_of(f, c), f.name) == seq![Some(c.crate_.name@)],
        values_of_field(crate_document_of(f, c), f.version) == seq![Some(c.crate_.max_version@)],
        values_of_field(crate_document_of(f, c), f.keyword).len() == c.keywords.len(),
        forall|k: int| 0 <= k < c.keywords.len() ==>
            #[trigger] values_of_field(crate_document_of(f, c), f.keyword)[k] == Some(c.keywords@[k].keyword@),
        c.categories matches Some(cats) ==> values_of_field(crate_document_of(f, c), f.category).len() == cats.len()
            && forall|k: int| 0 <= k < cats.len() ==>
                #[trigger] values_of_field(crate_document_of(f, c), f.category)[k] == Some(cats@[k].category@),
        c.categories is None ==> values_of_field(crate_document_of(f, c), f.category).len() == 0,
        values_of_field(crate_document_of(f, c), f.description) == (match c.crate_.description {
            Some(d) => seq![Some(d@)],
            None => Seq::<Option<Seq<char>>>::empty(),
        }),
        crate_document_of(f, c).len() == 2 + values_of_field(crate_document_of(f, c), f.category).len()
            + c.keywords.len() + values_of_field(crate_document_of(f, c), f.description).len(),
{
    let n = seq![(f.name, Some(c.crate_.name@))];
    let v = seq![(f.version, Some(c.crate_.max_version@))];
    let cats = category_values(f, c);
    let kws = keyword_values(f, c);
    let desc = description_values(f, c);
    let doc = crate_document_of(f, c);
    assert(seq![(f.name, Some(c.crate_.name@)), (f.version, Some(c.crate_.max_version@))] =~= n + v);
    assert(doc == n + v + cats + kws + desc);
    assert forall|i: int| 0 <= i < cats.len() implies (#[trigger] cats[i]).0 == f.category by {}
    assert forall|i: int| 0 <= i < kws.len() implies (#[trigger] kws[i]).0 == f.keyword by {}
    assert forall|i: int| 0 <= i < desc.len() implies (#[trigger] desc[i]).0 == f.description by {}
    assert forall|i: int| 0 <= i < n.len() implies (#[trigger] n[i]).0 == f.name by {}
    assert forall|i: int| 0 <= i < v.len() implies (#[trigger] v[i]).0 == f.version by {}
    let xs = seq![f.name, f.version, f.category, f.keyword, f.description];
    assert forall|j: int| 0 <= j < 5 implies {
        let x = #[trigger] xs[j];
        values_of_field(doc, x) == values_of_field(n, x) + values_of_field(v, x) + values_of_field(cats, x)
            + values_of_field(kws, x) + values_of_field(desc, x)
    } by {
        let x = xs[j];
        lemma_values_of_field_concat(n + v + cats + kws, desc, x);
        lemma_values_of_field_concat(n + v + cats, kws, x);
        lemma_values_of_field_concat(n + v, cats, x);
        lemma_values_of_field_concat(n, v, x);
        lemma_values_of_one_field(n, f.name, x);
        lemma_values_of_one_field(v, f.version, x);
        lemma_values_of_one_field(cats, f.category, x);
        lemma_values_of_one_field(kws, f.keyword, x);
        lemma_values_of_one_field(desc, f.description, x);
    }
    assert(xs[0] == f.name && xs[1] == f.version && xs[2] == f.category && xs[3] == f.keyword && xs[4] == f.description);
    lemma_values_of_one_field(n, f.name, f.name);
    lemma_values_of_one_field(v, f.version, f.name);
    lemma_values_of_one_field(cats, f.category, f.name);
    lemma_values_of_one_field(kws, f.keyword, f.name);
    lemma_values_of_one_field(desc, f.description, f.name);
    lemma_values_of_one_field(n, f.name, f.version);
    lemma_values_of_one_field(v, f.version, f.version);
    lemma_values_of_one_field(cats, f.category, f.version);
    lemma_values_of_one_field(kws, f.keyword, f.version);
    lemma_values_of_one_field(desc, f.description, f.version);
    lemma_values_of_one_field(n, f.name, f.category);
    lemma_values_of_one_field(v, f.version, f.category);
    lemma_values_of_one_field(cats, f.category, f.category);
    lemma_values_of_one_field(kws, f.keyword, f.category);
    lemma_values_of_one_field(desc, f.description, f.category);
    lemma_values_of_one_field(n, f.name, f.keyword);
    lemma_values_of_one_field(v, f.version, f.keyword);
    lemma_values_of_one_field(cats, f.category, f.keyword);
    lemma_values_of_one_field(kws, f.keyword, f.keyword);
    lemma_values_of_one_field(desc, f.description, f.keyword);
    lemma_values_of_one_field(n, f.name, f.description);
    lemma_values_of_one_field(v, f.version, f.description);
    lemma_values_of_one_field(cats, f.category, f.description);
    lemma_values_of_one_field(kws, f.keyword, f.description);
    lemma_values_of_one_field(desc, f.description, f.description);
    assert(values_of_field(doc, f.name) =~= seq![Some(c.crate_.name@)]);
    assert(values_of_field(doc, f.version) =~= seq![Some(c.crate_.max_version@)]);
    assert(values_of_field(doc, f.keyword) =~= kws.map_values(|x: (u32, Option<Seq<char>>)| x.1));
    assert(values_of_field(doc, f.category) =~= cats.map_values(|x: (u32, Option<Seq<char>>)| x.1));
    assert(values_of_field(doc, f.description) =~= desc.map_values(|x: (u32, Option<Seq<char>>)| x.1));
    match c.crate_.description {
        Some(d) => {
            assert(desc.map_values(|x: (u32, Option<Seq<char>>)| x.1) =~= seq![Some(d@)]);
        },
        None => {
            assert(desc.map_values(|x: (u32, Option<Seq<char>>)| x.1) =~= Seq::<Option<Seq<char>>>::empty());
        },
    }
}

/// The first value of a field in a concatenation is its first value in the first
/// part, or else in the second.
proof fn lemma_first_value_concat(a: Seq<(u32, Option<Seq<char>>)>, b: Seq<(u32, Option<Seq<char>>)>, x: u32)
    ensures
        first_value(a + b, x) == (if first_value(a, x) is Some { first_value(a, x) } else { first_value(b, x) }),
    decreases a.len(),
{
    if a.len() > 0 {
        assert((a + b).drop_first() =~= a.drop_first() + b);
        lemma_first_value_concat(a.drop_first(), b, x);
    } else {
        assert(a + b =~= b);
    }
}

/// A sequence of values all of another field has no value of `x`.
proof fn lemma_first_value_other_field(s: Seq<(u32, Option<Seq<char>>)>, x: u32)
    requires
        forall|i: int| 0 <= i < s.len() ==> #[trigger] s[i].0 != x,
    ensures
        first_value(s, x) is None,
    decreases s.len(),
{
    if s.len() > 0 {
        lemma_first_value_other_field(s.drop_first(), x);
    }
}

/// What a read gives back of a write: the document of a crate gives, as a hit,
/// the crate's name, newest version and description, whenever the field ids are
/// pairwise different (as those of every `Indexer` are).
pub proof fn lemma_document_round_trip(f: CrateFields, c: Crate)
    requires
        fields_distinct(f),
    ensures
        document_hit_of(crate_document_of(f, c), f) == Some((c.crate_.name@, c.crate_.max_version@, match c.crate_.description {
            Some(d) => Some(d@),
            None => None,
        })),
{
    let head = seq![(f.name, Some(c.crate_.name@)), (f.version, Some(c.crate_.max_version@))];
    let cats = category_values(f, c);
    let kws = keyword_values(f, c);
    let desc = description_values(f, c);
    let doc = crate_document_of(f, c);
    assert(doc == head + cats + kws + desc);
    assert forall|i: int| 0 <= i < cats.len() implies #[trigger] cats[i].0 != f.description && cats[i].0 != f.name && cats[i].0 != f.version by {}
    assert forall|i: int| 0 <= i < kws.len() implies #[trigger] kws[i].0 != f.description && kws[i].0 != f.name && kws[i].0 != f.version by {}
    lemma_first_value_other_field(cats, f.description);
    lemma_first_value_other_field(kws, f.description);
    lemma_first_value_concat(head + cats + kws, desc, f.name);
    lemma_first_value_concat(head + cats, kws, f.name);
    lemma_first_value_concat(head, cats, f.name);
    lemma_first_value_concat(head + cats + kws, desc, f.version);
    lemma_first_value_concat(head + cats, kws, f.version);
    lemma_first_value_concat(head, cats, f.version);
    lemma_first_value_concat(head + cats + kws, desc, f.description);
    lemma_first_value_concat(head + cats, kws, f.description);
    lemma_first_value_concat(head, cats, f.description);
    assert(head.drop_first() =~= seq![(f.version, Some(c.crate_.max_version@))]);
    assert(head.drop_first().drop_first() =~= Seq::<(u32, Option<Seq<char>>)>::empty());
    reveal_with_fuel(first_value, 3);
    assert(first_value(head, f.name) == Some(Some(c.crate_.name@)));
    assert(first_value(head, f.version) == Some(Some(c.crate_.max_version@)));
    assert(first_value(head, f.description) is None);
    match c.crate_.description {
        Some(d) => {
            assert(first_value(desc, f.description) == Some(Some(d@)));
        },
        None => {
            assert(first_value(desc, f.description) is None);
        },
    }
}

/// The values of a document whose field is stored in `fields`, in order: those
/// that a schema with these fields keeps for reading back.
pub open spec fn stored_values(values: Seq<(u32, Option<Seq<char>>)>, fields: Seq<(Seq<char>, bool, bool)>) -> Seq<(u32, Option<Seq<char>>)>
    decreases values.len(),
{
    if values.len() == 0 {
        Seq::empty()
    } else if values[0].0 < fields.len() && fields[values[0].0 as int].2 {
        seq![values[0]] + stored_values(values.drop_first(), fields)
    } else {
        stored_values(values.drop_first(), fields)
    }
}

/// Keeping the stored values keeps the first value of a stored field.
proof fn lemma_first_value_stored(values: Seq<(u32, Option<Seq<char>>)>, fields: Seq<(Seq<char>, bool, bool)>, x: u32)
    requires
        x < fields.len(),
        fields[x as int].2,
    ensures
        first_value(stored_values(values, fields), x) == first_value(values, x),
    decreases values.len(),
{
    if values.len() > 0 {
        lemma_first_value_stored(values.drop_first(), fields, x);
        let rest = stored_values(values.drop_first(), fields);
        if values[0].0 < fields.len() && fields[values[0].0 as int].2 {
            assert((seq![values[0]] + rest).drop_first() =~= rest);
        }
    }
}

/// Keeping only the values of stored fields (`stored_values`) leaves the hit of a
/// document as it was, wherever the name, version and description fields are
/// stored: the values that are not kept do not matter to a hit.
pub proof fn lemma_hit_survives_storage(values: Seq<(u32, Option<Seq<char>>)>, fields: Seq<(Seq<char>, bool, bool)>, f: CrateFields)
    requires
        fields_resolved(fields, f),
        fields[f.name as int].2,
        fields[f.version as int].2,
        fields[f.description as int].2,
    ensures
        document_hit_of(stored_values(values, fields), f) == document_hit_of(values, f),
{
    lemma_first_value_stored(values, fields, f.name);
    lemma_first_value_stored(values, fields, f.version);
    lemma_first_value_stored(values, fields, f.description);
}

/// The values of a crate's document that the crate schema stores
/// (`stored_values`) give, as a hit, the crate's name, newest version and
/// description: the crate schema stores the three fields a hit reads, and its five
/// field ids are pairwise different. This is a statement about the values a
/// document holds and the schema's stored flags; that `Searcher::doc` gives back
/// exactly those values is not stated by any engine wrapper.
pub proof fn lemma_indexed_crate_reads_back(f: CrateFields, c: Crate)
    requires
        fields_resolved(crate_schema_fields(), f),
    ensures
        document_hit_of(stored_values(crate_document_of(f, c), crate_schema_fields()), f)
            == Some((c.crate_.name@, c.crate_.max_version@, match c.crate_.description {
                Some(d) => Some(d@),
                None => None,
            })),
{
    let fields = crate_schema_fields();
    lemma_resolved_fields_distinct(fields, f);
    lemma_crate_schema_ids(f);
    lemma_hit_survives_storage(crate_document_of(f, c), fields, f);
    lemma_document_round_trip(f, c);
}

/// Once a document gives no hit, the documents up to it give none.
proof fn lemma_hits_none_extends(docs: Seq<TantivyDocument>, i: int, f: CrateFields)
    requires
        0 <= i < docs.len(),
        document_hit_of(document_values(docs[i]), f) is None,
    ensures
        documents_hits(docs, f) is None,
    decreases docs.len(),
{
    if i < docs.len() - 1 {
        lemma_hits_none_extends(docs.drop_last(), i, f);
    }
}

/// The hits of some documents are as many as the documents.
proof fn lemma_hits_len(docs: Seq<TantivyDocument>, f: CrateFields)
    ensures
        documents_hits(docs, f) matches Some(hs) ==> hs.len() == docs.len(),
    decreases docs.len(),
{
    if docs.len() > 0 {
        lemma_hits_len(docs.drop_last(), f);
    }
}

} // verus!
