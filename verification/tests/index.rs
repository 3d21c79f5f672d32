use std::collections::HashMap;

use crates_no::crates_io_client::{Category, Crate, CrateDetail, Keyword};
use crates_no::errors::Error;
use crates_no::index::{crate_schema, documents_read, resolve_fields, Indexer, SEARCH_LIMIT};
use crates_no::search::search_page;
use tantivy::schema::{OwnedValue, Schema, STORED, TEXT};
use tantivy::{Index, IndexWriter, TantivyDocument, TantivyError};

fn detail(name: &str, version: &str, description: Option<&str>) -> CrateDetail {
    CrateDetail {
        badges: Vec::new(),
        categories: None,
        created_at: "2017-01-01".to_string(),
        description: description.map(|d| d.to_string()),
        documentation: None,
        downloads: 10,
        exact_match: false,
        homepage: None,
        id: name.to_string(),
        keywords: Vec::new(),
        license: None,
        links: HashMap::new(),
        max_version: version.to_string(),
        name: name.to_string(),
        repository: None,
        updated_at: "2017-01-02".to_string(),
        versions: Vec::new(),
    }
}

fn category(name: &str) -> Category {
    Category {
        category: name.to_string(),
        crates_cnt: 1,
        created_at: String::new(),
        description: String::new(),
        id: name.to_string(),
        slug: name.to_string(),
    }
}

fn keyword(name: &str) -> Keyword {
    Keyword { crates_cnt: 1, created_at: String::new(), id: name.to_string(), keyword: name.to_string() }
}

fn sample(name: &str, version: &str, description: Option<&str>, categories: Option<Vec<&str>>, keywords: Vec<&str>) -> Crate {
    Crate {
        categories: categories.map(|cs| cs.into_iter().map(category).collect()),
        crate_: detail(name, version, description),
        keywords: keywords.into_iter().map(keyword).collect(),
        versions: Vec::new(),
    }
}

fn texts(doc: &TantivyDocument) -> Vec<(u32, String)> {
    doc.field_values()
        .iter()
        .map(|fv| match fv.value() {
            OwnedValue::Str(s) => (fv.field().field_id(), s.clone()),
            _ => (fv.field().field_id(), "<not text>".to_string()),
        })
        .collect()
}

#[test]
fn schema_has_the_five_fields() {
    let schema = crate_schema();
    assert_eq!(schema.num_fields(), 5);
    let expected = [("name", true), ("version", true), ("category", false), ("keyword", false), ("description", true)];
    for (i, (name, stored)) in expected.iter().enumerate() {
        let f = schema.get_field(name).unwrap();
        assert_eq!(f.field_id() as usize, i);
        assert_eq!(schema.get_field_entry(f).is_stored(), *stored);
        assert!(schema.get_field_entry(f).is_indexed());
    }
    let fields = match resolve_fields(&schema) {
        Ok(f) => f,
        Err(_) => panic!("the crate schema has every field"),
    };
    assert_eq!((fields.name, fields.version, fields.category, fields.keyword, fields.description), (0, 1, 2, 3, 4));
}

#[test]
fn resolving_reports_the_first_missing_field() {
    let mut builder = Schema::builder();
    builder.add_text_field("name", TEXT | STORED);
    builder.add_text_field("keyword", TEXT);
    let schema = builder.build();
    match resolve_fields(&schema) {
        Err(Error::MissingField(n)) => assert_eq!(n, "version"),
        _ => panic!("expected a missing field"),
    }
}

#[test]
fn new_index_in_a_directory() {
    let dir = tempfile::tempdir().unwrap();
    let indexer = match Indexer::new(dir.path().to_str().unwrap()) {
        Ok(i) => i,
        Err(_) => panic!("could not create the index"),
    };
    let f = indexer.fields();
    assert_eq!((f.name, f.version, f.category, f.keyword, f.description), (0, 1, 2, 3, 4));
}

#[test]
fn new_index_fails_without_its_directory() {
    let dir = tempfile::tempdir().unwrap();
    let missing = dir.path().join("absent");
    assert!(matches!(Indexer::new(missing.to_str().unwrap()), Err(Error::Engine(_))));
    assert!(matches!(Indexer::searcher(missing.to_str().unwrap()), Err(Error::Engine(_))));
}

#[test]
fn opening_an_index_with_another_schema() {
    let dir = tempfile::tempdir().unwrap();
    let mut builder = Schema::builder();
    builder.add_text_field("name", TEXT | STORED);
    builder.add_text_field("version", TEXT | STORED);
    Index::create_in_dir(dir.path(), builder.build()).unwrap();
    match Indexer::searcher(dir.path().to_str().unwrap()) {
        Err(Error::MissingField(n)) => assert_eq!(n, "category"),
        _ => panic!("expected a missing field"),
    }
}

#[test]
fn document_of_a_crate() {
    let dir = tempfile::tempdir().unwrap();
    let indexer = Indexer::new(dir.path().to_str().unwrap()).ok().unwrap();
    let c = sample("serde", "1.0.0", Some("serialization"), Some(vec!["encoding", "no-std"]), vec!["serde", "serialization"]);
    let doc = indexer.crate_document(&c);
    assert_eq!(
        texts(&doc),
        vec![
            (0, "serde".to_string()),
            (1, "1.0.0".to_string()),
            (2, "encoding".to_string()),
            (2, "no-std".to_string()),
            (3, "serde".to_string()),
            (3, "serialization".to_string()),
            (4, "serialization".to_string()),
        ]
    );
    let bare = sample("rand", "0.8.5", None, None, vec![]);
    assert_eq!(texts(&indexer.crate_document(&bare)), vec![(0, "rand".to_string()), (1, "0.8.5".to_string())]);
}

#[test]
fn document_round_trip() {
    let dir = tempfile::tempdir().unwrap();
    let indexer = Indexer::new(dir.path().to_str().unwrap()).ok().unwrap();
    let c = sample("serde", "1.0.0", Some("serialization"), Some(vec!["encoding"]), vec!["serde"]);
    assert_eq!(
        indexer.document_hit(&indexer.crate_document(&c)),
        Some(("serde".to_string(), "1.0.0".to_string(), Some("serialization".to_string())))
    );
    let bare = sample("rand", "0.8.5", None, None, vec!["random"]);
    assert_eq!(indexer.document_hit(&indexer.crate_document(&bare)), Some(("rand".to_string(), "0.8.5".to_string(), None)));
}

#[test]
fn malformed_documents() {
    let dir = tempfile::tempdir().unwrap();
    let indexer = Indexer::new(dir.path().to_str().unwrap()).ok().unwrap();
    let schema = crate_schema();
    let name = schema.get_field("name").unwrap();
    let version = schema.get_field("version").unwrap();
    let description = schema.get_field("description").unwrap();

    let mut no_version = TantivyDocument::new();
    no_version.add_text(name, "serde");
    assert_eq!(indexer.document_hit(&no_version), None);

    let mut numeric_version = TantivyDocument::new();
    numeric_version.add_text(name, "serde");
    numeric_version.add_u64(version, 1);
    assert_eq!(indexer.document_hit(&numeric_version), None);

    let mut numeric_description = TantivyDocument::new();
    numeric_description.add_text(name, "serde");
    numeric_description.add_text(version, "1.0.0");
    numeric_description.add_u64(description, 7);
    assert_eq!(indexer.document_hit(&numeric_description), None);

    let mut good = TantivyDocument::new();
    good.add_text(name, "serde");
    good.add_text(name, "second name");
    good.add_text(version, "1.0.0");
    assert_eq!(indexer.document_hit(&good), Some(("serde".to_string(), "1.0.0".to_string(), None)));

    assert!(matches!(indexer.document_hits(&vec![good.clone(), no_version]), Err(Error::MalformedDocument)));
    assert_eq!(indexer.document_hits(&vec![good]).ok().unwrap().len(), 1);
}

#[test]
fn search_finds_indexed_crates() {
    let dir = tempfile::tempdir().unwrap();
    let path = dir.path().to_str().unwrap().to_string();
    let indexer = Indexer::new(&path).ok().unwrap();
    let mut writer: IndexWriter = indexer.index().writer(50_000_000).unwrap();
    for c in [
        sample("serde", "1.0.0", Some("A serialization framework"), None, vec!["serialization"]),
        sample("serde_json", "1.0.1", Some("JSON for serde"), Some(vec!["encoding"]), vec!["json"]),
        sample("rand", "0.8.5", Some("Random numbers"), None, vec!["random"]),
    ] {
        writer.add_document(indexer.crate_document(&c)).unwrap();
    }
    writer.commit().unwrap();

    let hits = indexer.search("random").ok().unwrap();
    assert_eq!(hits, vec![("rand".to_string(), "0.8.5".to_string(), Some("Random numbers".to_string()))]);

    let json = indexer.search("encoding").ok().unwrap();
    assert_eq!(json.len(), 1);
    assert_eq!(json[0].0, "serde_json");

    assert!(indexer.search("nothing-matches-this").ok().unwrap().is_empty());
    assert!(matches!(indexer.search("nofield:serde"), Err(Error::Query(_))));

    let page = match search_page(&indexer, "  serialization  ") {
        Ok(p) => p,
        Err(_) => panic!("search failed"),
    };
    assert_eq!(page.len(), 1);
    assert_eq!(page[0].name, "serde");

    let reopened = Indexer::searcher(&path).ok().unwrap();
    let page = match search_page(&reopened, "serde json") {
        Ok(p) => p,
        Err(_) => panic!("search failed"),
    };
    let names: Vec<_> = page.iter().map(|r| r.name.clone()).collect();
    assert_eq!(names, vec!["serde".to_string(), "serde_json".to_string()]);
    assert!(page.len() <= SEARCH_LIMIT);
}

#[test]
fn an_index_in_memory_with_the_crate_schema() {
    let indexer = match Indexer::for_index(Index::create_in_ram(crate_schema())) {
        Ok(i) => i,
        Err(_) => panic!("the crate schema has every field"),
    };
    let f = indexer.fields();
    assert_eq!((f.name, f.version, f.category, f.keyword, f.description), (0, 1, 2, 3, 4));
    assert!(indexer.search("anything").ok().unwrap().is_empty());
}

#[test]
fn an_index_in_memory_missing_a_field() {
    let mut builder = Schema::builder();
    builder.add_text_field("name", TEXT | STORED);
    builder.add_text_field("version", TEXT | STORED);
    builder.add_text_field("category", TEXT);
    builder.add_text_field("description", TEXT | STORED);
    match Indexer::for_index(Index::create_in_ram(builder.build())) {
        Err(Error::MissingField(n)) => assert_eq!(n, "keyword"),
        _ => panic!("expected a missing field"),
    }
}

#[test]
fn fields_in_another_order_are_found_by_name() {
    let mut builder = Schema::builder();
    builder.add_text_field("description", TEXT | STORED);
    builder.add_text_field("keyword", TEXT);
    builder.add_text_field("name", TEXT | STORED);
    builder.add_text_field("category", TEXT);
    builder.add_text_field("version", TEXT | STORED);
    let indexer = Indexer::for_index(Index::create_in_ram(builder.build())).ok().unwrap();
    let f = indexer.fields();
    assert_eq!((f.name, f.version, f.category, f.keyword, f.description), (2, 4, 3, 1, 0));
    let mut writer: IndexWriter = indexer.index().writer(15_000_000).unwrap();
    writer.add_document(indexer.crate_document(&sample("rand", "0.8.5", None, None, vec!["random"]))).unwrap();
    writer.commit().unwrap();
    assert_eq!(indexer.search("random").ok().unwrap(), vec![("rand".to_string(), "0.8.5".to_string(), None)]);
}

#[test]
fn a_search_gives_at_most_ten_hits() {
    let indexer = Indexer::for_index(Index::create_in_ram(crate_schema())).ok().unwrap();
    let mut writer: IndexWriter = indexer.index().writer(15_000_000).unwrap();
    for k in 0..15 {
        let name = format!("tool{}", k);
        writer.add_document(indexer.crate_document(&sample(&name, "1.0.0", None, None, vec!["cli"]))).unwrap();
    }
    writer.commit().unwrap();
    assert_eq!(indexer.search("cli").ok().unwrap().len(), SEARCH_LIMIT);
    assert_eq!(search_page(&indexer, "cli").ok().unwrap().len(), SEARCH_LIMIT);
}

#[test]
fn failed_reads_are_left_out_in_order() {
    let indexer = Indexer::for_index(Index::create_in_ram(crate_schema())).ok().unwrap();
    let a = indexer.crate_document(&sample("rand", "0.8.5", None, None, vec![]));
    let b = indexer.crate_document(&sample("serde", "1.0.0", Some("serialization"), None, vec![]));
    let read = documents_read(vec![
        Err(TantivyError::InvalidArgument("unreadable".to_string())),
        Ok(a),
        Err(TantivyError::InvalidArgument("unreadable".to_string())),
        Ok(b),
    ]);
    assert_eq!(read.len(), 2);
    assert_eq!(texts(&read[0])[0], (0, "rand".to_string()));
    assert_eq!(texts(&read[1])[0], (0, "serde".to_string()));
    assert!(documents_read(vec![Err(TantivyError::InvalidArgument("x".to_string()))]).is_empty());
}

#[test]
fn a_new_index_holds_no_document() {
    let dir = tempfile::tempdir().unwrap();
    let indexer = Indexer::new(dir.path().to_str().unwrap()).ok().unwrap();
    assert!(indexer.search("serde").ok().unwrap().is_empty());
    assert!(matches!(Indexer::new(dir.path().to_str().unwrap()), Err(Error::Engine(_))));
}
