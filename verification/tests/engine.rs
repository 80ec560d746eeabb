use search_engine::application::{
    default_limit, schema_delete_outcome, schema_save_outcome, IndexDocumentRequest, IndexingService, SchemaService, SearchRequest,
    SearchService,
};
use search_engine::domain::{CollectionSchema, DocumentId, DomainError, FieldDefinition, FieldType};
use search_engine::errors::{map_application_error_to_response, ApplicationError};
use search_engine::index::{InMemoryIndex, Index};
use search_engine::repository::{
    DocumentRepository, InMemoryDocumentRepository, InMemorySchemaRepository, SchemaRepository,
};
use search_engine::search::{SortBy, SortOrder};
use search_engine::stats::{engine_stats, DiskSample, MemoryStats, StatsService, SystemSnapshot};
use search_engine::value::{DocValue, JsonMap, JsonNumber, JsonValue, NamedMap};

fn order_key(x: f64) -> u64 {
    let x = if x == 0.0 { 0.0 } else { x };
    let bits = x.to_bits();
    if bits >> 63 == 1 {
        !bits
    } else {
        bits | (1u64 << 63)
    }
}

fn from_order_key(k: u64) -> f64 {
    let bits = if k >> 63 == 1 { k & !(1u64 << 63) } else { !k };
    f64::from_bits(bits)
}

fn close(d: f64, f: f64) -> bool {
    (d - f).abs() < f64::EPSILON
}

/// The order keys of the least and the greatest numbers close to `f`.
fn near_bounds(f: f64) -> (u64, u64) {
    let key = order_key(f);
    let (mut outside, mut inside) = (order_key(f64::NEG_INFINITY), key);
    while inside - outside > 1 {
        let mid = outside + (inside - outside) / 2;
        if close(from_order_key(mid), f) {
            inside = mid;
        } else {
            outside = mid;
        }
    }
    let low = inside;
    let (mut inside, mut outside) = (key, order_key(f64::INFINITY));
    while outside - inside > 1 {
        let mid = inside + (outside - inside) / 2;
        if close(from_order_key(mid), f) {
            inside = mid;
        } else {
            outside = mid;
        }
    }
    (low, inside)
}

fn json_number(x: f64, integer: Option<i64>, text: &str) -> JsonNumber {
    let (near_low, near_high) = near_bounds(x);
    JsonNumber { order_key: order_key(x), near_low, near_high, integer, text: text.to_string() }
}

fn integer(i: i64) -> JsonValue {
    JsonValue::Number(json_number(i as f64, Some(i), &i.to_string()))
}

fn float(x: f64) -> JsonValue {
    JsonValue::Number(json_number(x, None, &x.to_string()))
}

fn string(s: &str) -> JsonValue {
    JsonValue::String(s.to_string())
}

fn object(pairs: Vec<(&str, JsonValue)>) -> JsonMap {
    let mut m = JsonMap::new();
    for (k, v) in pairs {
        m.insert(k.to_string(), v);
    }
    m
}

fn field(name: &str, field_type: FieldType, index: bool, optional: bool) -> FieldDefinition {
    FieldDefinition { name: name.to_string(), field_type, index, optional }
}

fn products_schema() -> CollectionSchema {
    CollectionSchema::new(
        "products".to_string(),
        vec![
            field("name", FieldType::Text, true, false),
            field("category", FieldType::Text, false, true),
            field("price", FieldType::Number, true, false),
        ],
    )
}

struct Engine {
    schemas: InMemorySchemaRepository,
    documents: InMemoryDocumentRepository,
    index: InMemoryIndex,
}

fn product(id: &str, name: &str, category: &str, price: JsonValue) -> IndexDocumentRequest {
    IndexDocumentRequest {
        id: id.to_string(),
        fields: object(vec![("name", string(name)), ("category", string(category)), ("price", price)]),
    }
}

fn engine_with_products() -> Engine {
    let mut e = Engine {
        schemas: InMemorySchemaRepository::new(),
        documents: InMemoryDocumentRepository::new(),
        index: InMemoryIndex::new(),
    };
    SchemaService::new().create_collection(&mut e.schemas, &mut e.index, products_schema()).unwrap();
    let svc = IndexingService::new();
    let batch = vec![
        product("p1", "Red Apple", "fruit", integer(3)),
        product("p2", "Green apple", "fruit", float(2.5)),
        product("p3", "Banana", "fruit", integer(1)),
        product("p4", "Apple Pie", "bakery", integer(12)),
    ];
    let r = svc.index_batch(&e.schemas, &mut e.documents, &mut e.index, "products", batch).unwrap();
    assert_eq!(r.total_processed, 4);
    assert_eq!(r.successful, 4);
    assert_eq!(r.failed, 0);
    e
}

fn request(query: &str) -> SearchRequest {
    SearchRequest {
        query: query.to_string(),
        limit: default_limit(),
        offset: 0,
        filters: None,
        sort: vec![],
        facets: vec![],
    }
}

fn hit_ids(hits: &[search_engine::application::SearchHit]) -> Vec<String> {
    hits.iter().map(|h| h.id.clone()).collect()
}

#[test]
fn create_collection_twice_is_refused() {
    let mut schemas = InMemorySchemaRepository::new();
    let mut index = InMemoryIndex::new();
    let svc = SchemaService::new();
    assert!(svc.create_collection(&mut schemas, &mut index, products_schema()).is_ok());
    match svc.create_collection(&mut schemas, &mut index, products_schema()) {
        Err(ApplicationError::CollectionAlreadyExists(name)) => assert_eq!(name, "products"),
        other => panic!("unexpected {:?}", other),
    }
    let got = svc.get_collection(&schemas, "products").unwrap();
    assert_eq!(got.name, "products");
    assert!(got.get_field("price").is_some());
    assert_eq!(svc.list_collections(&schemas).unwrap(), vec!["products".to_string()]);
}

#[test]
fn invalid_schema_is_a_domain_error() {
    let mut schemas = InMemorySchemaRepository::new();
    let mut index = InMemoryIndex::new();
    let bad = CollectionSchema::new("bad name".to_string(), vec![field("a", FieldType::Text, true, false)]);
    match SchemaService::new().create_collection(&mut schemas, &mut index, bad) {
        Err(ApplicationError::DomainError(DomainError::InvalidSchema(msg))) => {
            assert!(msg.contains("Collection name"))
        }
        other => panic!("unexpected {:?}", other),
    }
    assert!(SchemaService::new().list_collections(&schemas).unwrap().is_empty());
}

#[test]
fn delete_collection_then_get_is_not_found() {
    let mut e = engine_with_products();
    let svc = SchemaService::new();
    assert!(svc.delete_collection(&mut e.schemas, &mut e.index, "products").is_ok());
    assert!(matches!(svc.get_collection(&e.schemas, "products"), Err(ApplicationError::CollectionNotFound(_))));
    assert!(matches!(
        svc.delete_collection(&mut e.schemas, &mut e.index, "products"),
        Err(ApplicationError::CollectionNotFound(_))
    ));
    assert_eq!(e.index.get_total_document_count().unwrap(), 0);
}

#[test]
fn search_matches_query_case_insensitively() {
    let e = engine_with_products();
    let r = SearchService::new().search_documents(&e.schemas, &e.index, "products", request("  APPLE ")).unwrap();
    assert_eq!(r.query, "  APPLE ");
    assert_eq!(r.nb_hits, 3);
    let mut ids = hit_ids(&r.hits);
    ids.sort();
    assert_eq!(ids, vec!["p1", "p2", "p4"]);
    assert_eq!(r.limit, 20);
    assert_eq!(r.page, 1);
    assert_eq!(r.total_pages, 1);
    assert_eq!(r.processing_time_ms, 0);
}

#[test]
fn search_query_only_looks_at_indexed_text_fields() {
    let e = engine_with_products();
    // "category" is not indexed, so "bakery" matches nothing.
    let r = SearchService::new().search_documents(&e.schemas, &e.index, "products", request("bakery")).unwrap();
    assert_eq!(r.nb_hits, 0);
    assert!(r.hits.is_empty());
    assert_eq!(r.total_pages, 0);
}

#[test]
fn search_sorts_and_pages() {
    let e = engine_with_products();
    let mut req = request("a");
    req.sort = vec![SortBy { field: "price".to_string(), order: SortOrder::Desc }];
    req.limit = 2;
    req.offset = 1;
    let r = SearchService::new().search_documents(&e.schemas, &e.index, "products", req).unwrap();
    // All four names contain an "a": prices 12, 3, 2.5, 1 in descending order.
    assert_eq!(r.nb_hits, 4);
    assert_eq!(hit_ids(&r.hits), vec!["p1", "p2"]);
    assert_eq!(r.page, 1);
    assert_eq!(r.total_pages, 2);
    let mut req = request("a");
    req.sort = vec![SortBy { field: "name".to_string(), order: SortOrder::Asc }];
    let r = SearchService::new().search_documents(&e.schemas, &e.index, "products", req).unwrap();
    assert_eq!(hit_ids(&r.hits), vec!["p4", "p3", "p2", "p1"]);
}

#[test]
fn search_filters_by_equality_and_range() {
    let e = engine_with_products();
    let mut req = request("a");
    req.filters = Some(object(vec![("category", string("fruit"))]));
    let r = SearchService::new().search_documents(&e.schemas, &e.index, "products", req).unwrap();
    assert_eq!(r.nb_hits, 3);
    let mut req = request("a");
    req.filters = Some(object(vec![("price", JsonValue::Object(object(vec![("gte", integer(2)), ("lt", integer(12))])))]));
    req.sort = vec![SortBy { field: "price".to_string(), order: SortOrder::Asc }];
    let r = SearchService::new().search_documents(&e.schemas, &e.index, "products", req).unwrap();
    assert_eq!(hit_ids(&r.hits), vec!["p2", "p1"]);
    let mut req = request("a");
    req.filters = Some(object(vec![("price", integer(3))]));
    let r = SearchService::new().search_documents(&e.schemas, &e.index, "products", req).unwrap();
    assert_eq!(hit_ids(&r.hits), vec!["p1"]);
    let mut req = request("a");
    req.filters = Some(object(vec![("price", JsonValue::Object(object(vec![("between", integer(2))])))]));
    let r = SearchService::new().search_documents(&e.schemas, &e.index, "products", req).unwrap();
    assert_eq!(r.nb_hits, 0);
    let mut req = request("a");
    req.filters = Some(object(vec![("colour", string("red"))]));
    let r = SearchService::new().search_documents(&e.schemas, &e.index, "products", req).unwrap();
    assert_eq!(r.nb_hits, 0);
}

#[test]
fn index_search_counts_facets_over_all_hits() {
    let e = engine_with_products();
    let facets = vec!["category".to_string(), "category".to_string(), "missing".to_string()];
    let r = e.index.search("products", "a", None, &[], &facets, 0, 1).unwrap();
    assert_eq!(r.total_hits, 4);
    assert_eq!(r.documents.len(), 1);
    assert_eq!(r.facet_counts.len(), 1);
    let cats = r.facet_counts.get("category").unwrap();
    assert_eq!(cats.get("fruit"), Some(&3));
    assert_eq!(cats.get("bakery"), Some(&1));
    assert_eq!(cats.len(), 2);
    let r = e.index.search("products", "a", None, &[], &["price".to_string()], 0, 10).unwrap();
    let prices = r.facet_counts.get("price").unwrap();
    assert_eq!(prices.get("3"), Some(&1));
    assert_eq!(prices.get("2.5"), Some(&1));
}

#[test]
fn index_search_requires_query_or_filters() {
    let e = engine_with_products();
    match e.index.search("products", "", None, &[], &[], 0, 10) {
        Err(ApplicationError::InvalidInput(msg)) => assert_eq!(msg, "Search requires a query or filters."),
        other => panic!("unexpected {:?}", other.map(|r| r.total_hits)),
    }
    let filters = object(vec![("category", string("bakery"))]);
    let r = e.index.search("products", "", Some(&filters), &[], &[], 0, 10).unwrap();
    assert_eq!(r.total_hits, 1);
    assert!(matches!(
        e.index.search("nothing", "a", None, &[], &[], 0, 10),
        Err(ApplicationError::CollectionNotFound(_))
    ));
}

#[test]
fn search_errors() {
    let e = engine_with_products();
    let svc = SearchService::new();
    match svc.search_documents(&e.schemas, &e.index, "products", request("   ")) {
        Err(ApplicationError::InvalidInput(msg)) => assert_eq!(msg, "Search query cannot be empty"),
        _ => panic!("expected invalid input"),
    }
    assert!(matches!(
        svc.search_documents(&e.schemas, &e.index, "other", request("a")),
        Err(ApplicationError::CollectionNotFound(_))
    ));
}

#[test]
fn search_limit_is_clamped() {
    let e = engine_with_products();
    let mut req = request("a");
    req.limit = 0;
    let r = SearchService::new().search_documents(&e.schemas, &e.index, "products", req).unwrap();
    assert_eq!(r.limit, 1);
    assert_eq!(r.hits.len(), 1);
    assert_eq!(r.total_pages, 4);
    let mut req = request("a");
    req.limit = 5000;
    req.offset = 3;
    let r = SearchService::new().search_documents(&e.schemas, &e.index, "products", req).unwrap();
    assert_eq!(r.limit, 1000);
    assert_eq!(r.hits.len(), 1);
    let mut req = request("a");
    req.offset = 10;
    let r = SearchService::new().search_documents(&e.schemas, &e.index, "products", req).unwrap();
    assert!(r.hits.is_empty());
    assert_eq!(r.nb_hits, 4);
}

#[test]
fn index_document_validates_and_stores() {
    let mut e = engine_with_products();
    let svc = IndexingService::new();
    let bad = IndexDocumentRequest { id: "x".to_string(), fields: object(vec![("name", string("X"))]) };
    match svc.index_document(&e.schemas, &mut e.documents, &mut e.index, "products", bad) {
        Err(ApplicationError::DomainError(DomainError::MissingField(f))) => assert_eq!(f, "price"),
        other => panic!("unexpected {:?}", other),
    }
    let good = product("p5", "Cherry", "fruit", integer(7));
    assert!(svc.index_document(&e.schemas, &mut e.documents, &mut e.index, "products", good).is_ok());
    let stored = e.documents.get("products", &DocumentId::new("p5".to_string())).unwrap().unwrap();
    assert_eq!(stored.get_field_value("name"), Some(&DocValue::Text("Cherry".to_string())));
    assert_eq!(e.index.get_total_document_count().unwrap(), 5);
    let missing = product("p6", "Date", "fruit", integer(1));
    assert!(matches!(
        svc.index_document(&e.schemas, &mut e.documents, &mut e.index, "nothing", missing),
        Err(ApplicationError::CollectionNotFound(_))
    ));
}

#[test]
fn index_document_into_collection_missing_from_index() {
    let mut schemas = InMemorySchemaRepository::new();
    let mut documents = InMemoryDocumentRepository::new();
    let mut index = InMemoryIndex::new();
    schemas.save(&products_schema().build().unwrap()).unwrap();
    let r = IndexingService::new().index_document(
        &schemas,
        &mut documents,
        &mut index,
        "products",
        product("p1", "A", "b", integer(1)),
    );
    match r {
        Err(ApplicationError::IndexError { collection, source }) => {
            assert_eq!(collection, "products");
            assert!(matches!(*source, ApplicationError::CollectionNotFound(_)));
        }
        other => panic!("unexpected {:?}", other),
    }
    // The repository was written before the index refused.
    assert!(documents.get("products", &DocumentId::new("p1".to_string())).unwrap().is_some());
}

#[test]
fn delete_document_removes_it_everywhere() {
    let mut e = engine_with_products();
    let svc = IndexingService::new();
    assert!(svc.delete_document(&mut e.documents, &mut e.index, "products", "p1").is_ok());
    assert!(e.documents.get("products", &DocumentId::new("p1".to_string())).unwrap().is_none());
    assert_eq!(e.index.get_total_document_count().unwrap(), 3);
    // Deleting again, or from an unknown collection, still succeeds.
    assert!(svc.delete_document(&mut e.documents, &mut e.index, "products", "p1").is_ok());
    assert!(svc.delete_document(&mut e.documents, &mut e.index, "nothing", "p1").is_ok());
}

#[test]
fn batch_with_invalid_documents_stores_nothing() {
    let mut e = engine_with_products();
    let batch = vec![
        product("n1", "Kiwi", "fruit", integer(1)),
        IndexDocumentRequest { id: "n2".to_string(), fields: object(vec![("name", integer(5)), ("price", integer(1))]) },
        IndexDocumentRequest { id: "n3".to_string(), fields: object(vec![("name", string("Lime"))]) },
    ];
    match IndexingService::new().index_batch(&e.schemas, &mut e.documents, &mut e.index, "products", batch) {
        Err(ApplicationError::InvalidInput(msg)) => assert_eq!(
            msg,
            "Batch contained 2 validation errors. First error: Document at index 1 (ID: 'n2') failed validation: Invalid field value for field 'name': Expected a text string, got Number(5)"
        ),
        other => panic!("unexpected {:?}", other),
    }
    assert!(e.documents.get("products", &DocumentId::new("n1".to_string())).unwrap().is_none());
    assert_eq!(e.index.get_total_document_count().unwrap(), 4);
}

#[test]
fn empty_batch_is_accepted_without_lookup() {
    let mut e = engine_with_products();
    let r = IndexingService::new().index_batch(&e.schemas, &mut e.documents, &mut e.index, "unknown", vec![]).unwrap();
    assert_eq!((r.total_processed, r.successful, r.failed), (0, 0, 0));
    assert!(matches!(
        IndexingService::new().index_batch(&e.schemas, &mut e.documents, &mut e.index, "unknown", vec![product("a", "A", "b", integer(1))]),
        Err(ApplicationError::CollectionNotFound(_))
    ));
}

#[test]
fn reindexing_replaces_the_document() {
    let mut e = engine_with_products();
    let svc = IndexingService::new();
    svc.index_document(&e.schemas, &mut e.documents, &mut e.index, "products", product("p1", "Plum", "fruit", integer(4))).unwrap();
    assert_eq!(e.index.get_total_document_count().unwrap(), 4);
    let r = SearchService::new().search_documents(&e.schemas, &e.index, "products", request("plum")).unwrap();
    assert_eq!(hit_ids(&r.hits), vec!["p1"]);
    assert_eq!(r.hits[0].fields.get("price"), Some(&DocValue::Number(json_number(4.0, Some(4), "4"))));
}

#[test]
fn schema_repository_round_trip() {
    let mut repo = InMemorySchemaRepository::new();
    let schema = products_schema().build().unwrap();
    repo.save(&schema).unwrap();
    let back = repo.get("products").unwrap().unwrap();
    assert_eq!(back.fields, schema.fields);
    assert_eq!(repo.list().unwrap(), vec!["products".to_string()]);
    assert!(repo.delete("products").unwrap());
    assert!(!repo.delete("products").unwrap());
    assert!(repo.get("products").unwrap().is_none());
}

#[test]
fn document_repository_batch_and_delete() {
    let mut e = engine_with_products();
    assert!(e.documents.get("products", &DocumentId::new("p3".to_string())).unwrap().is_some());
    assert!(e.documents.delete("products", &DocumentId::new("p3".to_string())).unwrap());
    assert!(!e.documents.delete("products", &DocumentId::new("p3".to_string())).unwrap());
    assert!(!e.documents.delete("other", &DocumentId::new("p3".to_string())).unwrap());
    assert!(e.documents.get("other", &DocumentId::new("p1".to_string())).unwrap().is_none());
}

#[test]
fn error_messages_follow_their_variants() {
    let e = ApplicationError::IndexError {
        collection: "c".to_string(),
        source: Box::new(ApplicationError::CollectionNotFound("c".to_string())),
    };
    assert_eq!(e.message(), "Indexing failed in collection 'c': Collection not found: c");
    let d = ApplicationError::DomainError(DomainError::MissingField("f".to_string()));
    assert_eq!(d.message(), "Domain validation error: Missing required field 'f'");
}

#[test]
fn stats_count_collections_documents_and_pick_the_disk() {
    let e = engine_with_products();
    let memory = MemoryStats { total_bytes: 8, used_bytes: 4, free_bytes: 2, available_bytes: 3, process_used_bytes: 1 };
    let snapshot = SystemSnapshot {
        os_name: None,
        os_version: Some("1.0".to_string()),
        memory,
        current_dir: "/home/user/engine".to_string(),
        disks: vec![
            DiskSample { mount_point: "/".to_string(), mount_point_len: 1, total_bytes: 100, available_bytes: 50 },
            DiskSample { mount_point: "/home".to_string(), mount_point_len: 5, total_bytes: 200, available_bytes: 20 },
            DiskSample { mount_point: "/home/us".to_string(), mount_point_len: 8, total_bytes: 300, available_bytes: 30 },
        ],
    };
    let r = StatsService::new().get_stats(&e.schemas, &e.index, snapshot).unwrap();
    assert_eq!(r.engine.total_collections, 1);
    assert_eq!(r.engine.total_documents, 4);
    assert_eq!(r.memory, memory);
    assert_eq!(r.disk.disk_path, "/home");
    assert_eq!(r.disk.total_bytes, 200);
    assert_eq!(r.system_info.os_name, "Unknown OS");
    assert_eq!(r.system_info.os_version, "1.0");
    let snapshot = SystemSnapshot {
        os_name: Some("Linux".to_string()),
        os_version: None,
        memory,
        current_dir: "/srv".to_string(),
        disks: vec![DiskSample { mount_point: "/data".to_string(), mount_point_len: 5, total_bytes: 1, available_bytes: 1 }],
    };
    let r = StatsService::new().get_stats(&e.schemas, &e.index, snapshot).unwrap();
    assert_eq!(r.disk.disk_path, "unknown");
    assert_eq!(r.disk.total_bytes, 0);
    assert_eq!(r.system_info.os_name, "Linux");
    assert_eq!(r.system_info.os_version, "Unknown Version");
}

#[test]
fn json_map_insert_replaces() {
    let mut m: NamedMap<usize> = NamedMap::new();
    m.insert("a".to_string(), 1);
    m.insert("b".to_string(), 2);
    m.insert("a".to_string(), 3);
    assert_eq!(m.len(), 2);
    assert_eq!(m.get("a"), Some(&3));
    assert_eq!(m.entries()[0].0, "a");
}

#[test]
fn new_document_adds_one_to_the_total() {
    let mut e = engine_with_products();
    let svc = IndexingService::new();
    svc.index_document(&e.schemas, &mut e.documents, &mut e.index, "products", product("p5", "Cherry", "fruit", integer(7))).unwrap();
    assert_eq!(e.index.get_total_document_count().unwrap(), 5);
    // What the index returns for the new document is what the store holds.
    let stored = e.documents.get("products", &DocumentId::new("p5".to_string())).unwrap().unwrap();
    let r = SearchService::new().search_documents(&e.schemas, &e.index, "products", request("cherry")).unwrap();
    assert_eq!(hit_ids(&r.hits), vec!["p5"]);
    assert_eq!(&r.hits[0].fields, stored.fields());
}

#[test]
fn collections_stay_in_step_across_create_and_delete() {
    let mut e = engine_with_products();
    let schemas = SchemaService::new();
    let mut second = products_schema();
    second.name = "books".to_string();
    schemas.create_collection(&mut e.schemas, &mut e.index, second).unwrap();
    let mut names = schemas.list_collections(&e.schemas).unwrap();
    names.sort();
    assert_eq!(names, vec!["books".to_string(), "products".to_string()]);
    assert!(SearchService::new().search_documents(&e.schemas, &e.index, "books", request("x")).unwrap().hits.is_empty());
    schemas.delete_collection(&mut e.schemas, &mut e.index, "books").unwrap();
    assert!(matches!(
        SearchService::new().search_documents(&e.schemas, &e.index, "books", request("x")),
        Err(ApplicationError::CollectionNotFound(_))
    ));
    assert_eq!(schemas.list_collections(&e.schemas).unwrap(), vec!["products".to_string()]);
}

#[test]
fn errors_map_to_status_and_body() {
    let cases = vec![
        (ApplicationError::InvalidInput("bad".to_string()), 400, "bad"),
        (ApplicationError::CollectionNotFound("c".to_string()), 404, "Collection 'c' not found"),
        (ApplicationError::CollectionAlreadyExists("c".to_string()), 409, "Collection 'c' already exists"),
        (ApplicationError::SchemaError("oops".to_string()), 500, "Schema operation failed: oops"),
        (ApplicationError::NotFound("d".to_string()), 404, "Document 'd' not found"),
        (
            ApplicationError::IndexError {
                collection: "c".to_string(),
                source: Box::new(ApplicationError::CollectionNotFound("c".to_string())),
            },
            500,
            "Indexing failed in collection 'c'",
        ),
        (
            ApplicationError::SearchError {
                collection: "c".to_string(),
                source: Box::new(ApplicationError::InvalidInput("q".to_string())),
            },
            500,
            "Search failed in collection 'c'",
        ),
        (ApplicationError::InfrastructureError("disk".to_string()), 500, "An internal server error occurred"),
        (
            ApplicationError::DomainError(DomainError::MissingField("price".to_string())),
            400,
            "Missing required field 'price'",
        ),
    ];
    for (err, code, body) in cases {
        assert_eq!(map_application_error_to_response(err), (code, body.to_string()));
    }
}

#[test]
fn number_filter_counts_numbers_within_epsilon_as_equal() {
    let mut e = engine_with_products();
    IndexingService::new()
        .index_document(&e.schemas, &mut e.documents, &mut e.index, "products", product("t1", "Tiny", "dust", float(1e-20)))
        .unwrap();
    let mut req = request("tiny");
    req.filters = Some(object(vec![("price", float(2e-20))]));
    let r = SearchService::new().search_documents(&e.schemas, &e.index, "products", req).unwrap();
    assert_eq!(hit_ids(&r.hits), vec!["t1"]);
    let mut req = request("tiny");
    req.filters = Some(object(vec![("price", float(1e-15))]));
    let r = SearchService::new().search_documents(&e.schemas, &e.index, "products", req).unwrap();
    assert_eq!(r.nb_hits, 0);
    // 2.5 and the next larger number differ by more than the epsilon.
    let mut req = request("apple");
    req.filters = Some(object(vec![("price", float(f64::from_bits(2.5f64.to_bits() + 1)))]));
    let r = SearchService::new().search_documents(&e.schemas, &e.index, "products", req).unwrap();
    assert_eq!(r.nb_hits, 0);
}

#[test]
fn store_failures_are_reported_with_their_messages() {
    let failure = || ApplicationError::InfrastructureError("disk full".to_string());
    assert!(schema_save_outcome(Ok(())).is_ok());
    match schema_save_outcome(Err(failure())) {
        Err(ApplicationError::SchemaError(m)) => {
            assert_eq!(m, "Failed to save schema: Infrastructure error: disk full")
        }
        other => panic!("unexpected {:?}", other),
    }
    assert!(schema_delete_outcome("c", Ok(true)).is_ok());
    assert!(matches!(schema_delete_outcome("c", Ok(false)), Err(ApplicationError::CollectionNotFound(n)) if n == "c"));
    match schema_delete_outcome("c", Err(failure())) {
        Err(ApplicationError::SchemaError(m)) => {
            assert_eq!(m, "Failed to delete schema: Infrastructure error: disk full")
        }
        other => panic!("unexpected {:?}", other),
    }
    let e = engine_stats(Ok(vec!["a".to_string(), "b".to_string()]), Ok(7)).unwrap();
    assert_eq!((e.total_collections, e.total_documents), (2, 7));
    match engine_stats(Err(failure()), Err(failure())) {
        Err(ApplicationError::InfrastructureError(m)) => assert_eq!(m, "Failed to retrieve collection count"),
        other => panic!("unexpected {:?}", other),
    }
    match engine_stats(Ok(vec![]), Err(failure())) {
        Err(ApplicationError::InfrastructureError(m)) => assert_eq!(m, "Failed to retrieve document count"),
        other => panic!("unexpected {:?}", other),
    }
}
