//! The application services (use cases) and their request and response
//! models: collection management, document indexing and search.
use vstd::prelude::*;
use crate::domain::{
    document_error, domain_error_text, schema_problem, CollectionSchema, Document, DocumentId,
    DocumentView, DomainErrorView, SchemaView,
};
use crate::errors::{app_error_text, AppErrorView, ApplicationError};
use crate::index::{filter_pairs, ranks, with_indexed, Index};
use crate::repository::{
    document_views, lists_names, with_document, with_documents, DocumentRepository,
    SchemaRepository,
};
use crate::search::{page, views, SortBy};
use crate::text::{decimal, decimal_text, text, trim, trimmed};
use crate::value::{FieldMap, JsonMap};

verus! {

broadcast use vstd::string::group_string_axioms;

/// One collection, by name.
#[derive(Debug)]
pub struct CollectionResponse {
    pub name: String,
}

/// All collections.
#[derive(Debug)]
pub struct ListCollectionsResponse {
    pub collections: Vec<CollectionResponse>,
}

/// A request to index one document.
#[derive(Debug)]
pub struct IndexDocumentRequest {
    /// The document's identifier.
    pub id: String,
    /// The document's fields.
    pub fields: JsonMap,
}

/// What a batch of documents came to.
#[derive(Debug, Clone, Copy, PartialEq, Eq, Structural)]
pub struct BatchResponse {
    pub total_processed: usize,
    pub successful: usize,
    pub failed: usize,
}

/// A search request.
#[derive(Debug)]
pub struct SearchRequest {
    pub query: String,
    /// Maximum number of hits to return (page size).
    pub limit: usize,
    /// Number of hits to skip.
    pub offset: usize,
    /// Field conditions that every hit must meet.
    pub filters: Option<JsonMap>,
    /// Sort criteria, most significant first.
    pub sort: Vec<SortBy>,
    /// Fields whose values to count over all hits.
    pub facets: Vec<String>,
}

/// The page size used when a request gives none.
pub fn default_limit() -> (res: usize)
    ensures
        res == 20,
{
    20
}

/// One hit: a document's id and fields.
#[derive(Debug)]
pub struct SearchHit {
    pub id: String,
    pub fields: FieldMap,
}

/// The answer to a search.
#[derive(Debug)]
pub struct SearchResponse {
    /// The hits of the requested page.
    pub hits: Vec<SearchHit>,
    /// How many documents matched.
    pub nb_hits: usize,
    /// The search query, as the request gave it.
    pub query: String,
    /// The page size used.
    pub limit: usize,
    /// The number of hits skipped.
    pub offset: usize,
    /// The page number, from 1.
    pub page: usize,
    /// The number of pages.
    pub total_pages: usize,
    /// The time the search took, in milliseconds; measured and set by the
    /// caller, 0 here.
    pub processing_time_ms: u128,
}

/// The largest page a search returns.
pub const MAX_SEARCH_LIMIT: usize = 1000;

/// The schema of a valid schema definition, once built.
pub open spec fn built_view(name: Seq<char>, fields: Seq<crate::domain::FieldDefinition>) -> SchemaView {
    SchemaView { name, fields, lookup: Some(fields) }
}

/// Every stored schema is built.
pub open spec fn all_built(schemas: Map<Seq<char>, SchemaView>) -> bool {
    forall|k: Seq<char>| #[trigger] schemas.contains_key(k) ==> schemas[k].lookup is Some
}

/// The schema store and the index know the same collections, with the same
/// schemas.
pub open spec fn in_step(stored: Map<Seq<char>, SchemaView>, indexed: Map<Seq<char>, SchemaView>) -> bool {
    stored == indexed
}

/// Every document in the index is held by the document store, with the same
/// content.
pub open spec fn index_backed(
    stored: Map<(Seq<char>, Seq<char>), DocumentView>,
    indexed: Map<Seq<char>, Map<Seq<char>, DocumentView>>,
) -> bool {
    forall|c: Seq<char>, id: Seq<char>|
        indexed.contains_key(c) && #[trigger] indexed[c].contains_key(id) ==> stored.contains_key((c, id))
            && stored[(c, id)] == indexed[c][id]
}

/// Saving documents into collection `c` leaves the documents of every other
/// collection as they were.
proof fn lemma_with_documents_elsewhere(
    docs: Map<(Seq<char>, Seq<char>), DocumentView>,
    c: Seq<char>,
    ds: Seq<DocumentView>,
    k: (Seq<char>, Seq<char>),
)
    requires
        k.0 != c,
    ensures
        with_documents(docs, c, ds).contains_key(k) == docs.contains_key(k),
        docs.contains_key(k) ==> with_documents(docs, c, ds)[k] == docs[k],
    decreases ds.len(),
{
    if ds.len() > 0 {
        lemma_with_documents_elsewhere(docs, c, ds.drop_last(), k);
    }
}

/// Saving the same documents into the store and into the index keeps the
/// index backed by the store.
proof fn lemma_batch_keeps_backing(
    stored: Map<(Seq<char>, Seq<char>), DocumentView>,
    indexed: Map<Seq<char>, Map<Seq<char>, DocumentView>>,
    c: Seq<char>,
    ds: Seq<DocumentView>,
)
    requires
        index_backed(stored, indexed),
        indexed.contains_key(c),
    ensures
        index_backed(with_documents(stored, c, ds), with_indexed(indexed, c, ds)),
    decreases ds.len(),
{
    if ds.len() > 0 {
        lemma_batch_keeps_backing(stored, indexed, c, ds.drop_last());
        crate::index::lemma_with_indexed_keeps(indexed, c, ds.drop_last());
    }
}

/// Saving documents into a collection that the index does not hold keeps
/// the index backed by the store.
proof fn lemma_unindexed_save_keeps_backing(
    stored: Map<(Seq<char>, Seq<char>), DocumentView>,
    indexed: Map<Seq<char>, Map<Seq<char>, DocumentView>>,
    c: Seq<char>,
    ds: Seq<DocumentView>,
)
    requires
        index_backed(stored, indexed),
        !indexed.contains_key(c),
    ensures
        index_backed(with_documents(stored, c, ds), indexed),
{
    assert forall|c2: Seq<char>, id: Seq<char>|
        indexed.contains_key(c2) && #[trigger] indexed[c2].contains_key(id) implies with_documents(
            stored,
            c,
            ds,
        ).contains_key((c2, id)) && with_documents(stored, c, ds)[(c2, id)] == indexed[c2][id] by {
        lemma_with_documents_elsewhere(stored, c, ds, (c2, id));
    }
}

/// `failure` followed by the message of the error `e`.
pub open spec fn failure_text(failure: Seq<char>, e: AppErrorView) -> Seq<char> {
    failure + app_error_text(e)
}

/// What a schema save that gave `saved` makes of the creation: nothing
/// where it succeeded, else a schema error that carries its message.
pub fn schema_save_outcome(saved: Result<(), ApplicationError>) -> (res: Result<(), ApplicationError>)
    ensures
        match saved {
            Ok(()) => res is Ok,
            Err(e) => res matches Err(f) && f@ == AppErrorView::SchemaError(
                failure_text("Failed to save schema: "@, e@),
            ),
        },
{
    match saved {
        Ok(()) => Ok(()),
        Err(e) => {
            let mut msg = text("Failed to save schema: ");
            let inner = e.message();
            msg.append(inner.as_str());
            Err(ApplicationError::SchemaError(msg))
        },
    }
}

/// What a schema delete that gave `deleted` makes of the deletion of the
/// collection `name`: success where it removed the schema, the collection
/// not found where there was none, else a schema error that carries its
/// message.
pub fn schema_delete_outcome(name: &str, deleted: Result<bool, ApplicationError>) -> (res: Result<
    (),
    ApplicationError,
>)
    ensures
        match deleted {
            Ok(true) => res is Ok,
            Ok(false) => res matches Err(f) && f@ == AppErrorView::CollectionNotFound(name@),
            Err(e) => res matches Err(f) && f@ == AppErrorView::SchemaError(
                failure_text("Failed to delete schema: "@, e@),
            ),
        },
{
    match deleted {
        Ok(true) => Ok(()),
        Ok(false) => Err(ApplicationError::CollectionNotFound(text(name))),
        Err(e) => {
            let mut msg = text("Failed to delete schema: ");
            let inner = e.message();
            msg.append(inner.as_str());
            Err(ApplicationError::SchemaError(msg))
        },
    }
}

/// Manages collection schemas.
pub struct SchemaService {}

impl SchemaService {
    pub fn new() -> (res: Self) {
        SchemaService {}
    }

    /// Validates a schema and creates its collection in the schema store and
    /// in the index; where the index refuses, the saved schema is deleted
    /// again.
    pub fn create_collection<S: SchemaRepository, I: Index>(
        &self,
        schema_repo: &mut S,
        index: &mut I,
        schema_def: CollectionSchema,
    ) -> (res: Result<(), ApplicationError>)
        requires
            old(schema_repo).wf(),
            old(index).wf(),
        ensures
            final(schema_repo).wf(),
            final(index).wf(),
            all_built(old(schema_repo).schemas()) ==> all_built(final(schema_repo).schemas()),
            in_step(old(schema_repo).schemas(), old(index).schemas()) && (res is Ok || S::reliable()) ==> in_step(
                final(schema_repo).schemas(),
                final(index).schemas(),
            ),
            forall|stored: Map<(Seq<char>, Seq<char>), DocumentView>|
                #[trigger] index_backed(stored, old(index).documents()) ==> index_backed(
                    stored,
                    final(index).documents(),
                ),
            match schema_problem(schema_def@.name, schema_def@.fields) {
                Some(m) => (res matches Err(e) && e@ == AppErrorView::DomainError(
                    DomainErrorView::InvalidSchema(m),
                )) && final(schema_repo).schemas() == old(schema_repo).schemas() && final(index).schemas()
                    == old(index).schemas() && final(index).documents() == old(index).documents(),
                None => {
                    let n = schema_def@.name;
                    let built = built_view(n, schema_def@.fields);
                    &&& res is Ok ==> !old(schema_repo).schemas().contains_key(n) && final(schema_repo).schemas()
                        == old(schema_repo).schemas().insert(n, built)
                    &&& res is Ok && old(index).schemas().contains_key(n) ==> final(index).schemas() == old(index).schemas() && final(index).documents() == old(index).documents()
                    &&& res is Ok && !old(index).schemas().contains_key(n) ==> final(index).schemas() == old(index).schemas().insert(n, built) && final(index).documents() == old(index).documents().insert(
                        n,
                        Map::empty(),
                    )
                    &&& res is Err ==> final(index).schemas() == old(index).schemas() && final(index).documents()
                        == old(index).documents() && (final(schema_repo).schemas() == old(schema_repo).schemas() || (
                    !old(schema_repo).schemas().contains_key(n) && final(schema_repo).schemas() == old(schema_repo).schemas().insert(n, built)))
                    &&& S::reliable() && res is Err ==> final(schema_repo).schemas() == old(schema_repo).schemas()
                    &&& S::reliable() && old(schema_repo).schemas().contains_key(n) ==> (res matches Err(e) && e@
                        == AppErrorView::CollectionAlreadyExists(n))
                    &&& S::reliable() && I::reliable() && !old(schema_repo).schemas().contains_key(n) ==> res is Ok
                },
            },
    {
        let schema = match schema_def.build() {
            Ok(s) => s,
            Err(e) => {
                return Err(ApplicationError::DomainError(e));
            },
        };
        let existing = schema_repo.get(schema.collection_name().as_str())?;
        if existing.is_some() {
            return Err(ApplicationError::CollectionAlreadyExists(schema.collection_name().clone()));
        }
        let saved = schema_repo.save(&schema);
        schema_save_outcome(saved)?;
        match index.ensure_collection_exists(&schema) {
            Ok(()) => {},
            Err(e) => {
                let ghost after_save = schema_repo.schemas();
                let _ = schema_repo.delete(schema.collection_name().as_str());
                proof {
                    assert(after_save.remove(schema@.name) =~= old(schema_repo).schemas());
                }
                return Err(e);
            },
        }
        Ok(())
    }

    /// The schema of the collection `name`.
    pub fn get_collection<S: SchemaRepository>(&self, schema_repo: &S, name: &str) -> (res: Result<
        CollectionSchema,
        ApplicationError,
    >)
        requires
            schema_repo.wf(),
        ensures
            res matches Ok(s) ==> schema_repo.schemas().contains_key(name@) && s@ == schema_repo.schemas()[name@],
            !schema_repo.schemas().contains_key(name@) ==> res is Err,
            S::reliable() && schema_repo.schemas().contains_key(name@) ==> res is Ok,
            S::reliable() && !schema_repo.schemas().contains_key(name@) ==> (res matches Err(e) && e@
                == AppErrorView::CollectionNotFound(name@)),
    {
        match schema_repo.get(name)? {
            Some(s) => Ok(s),
            None => Err(ApplicationError::CollectionNotFound(text(name))),
        }
    }

    /// The names of all collections.
    pub fn list_collections<S: SchemaRepository>(&self, schema_repo: &S) -> (res: Result<
        Vec<String>,
        ApplicationError,
    >)
        requires
            schema_repo.wf(),
        ensures
            res matches Ok(names) ==> lists_names(names@, schema_repo.schemas().dom()),
            res matches Err(e) ==> exists|x: AppErrorView|
                e@ == AppErrorView::SchemaError(#[trigger] failure_text("Failed to list schemas: "@, x)),
            S::reliable() ==> res is Ok,
    {
        match schema_repo.list() {
            Ok(names) => Ok(names),
            Err(e) => {
                let mut msg = text("Failed to list schemas: ");
                let inner = e.message();
                msg.append(inner.as_str());
                assert(msg@ == failure_text("Failed to list schemas: "@, e@));
                Err(ApplicationError::SchemaError(msg))
            },
        }
    }

    /// Deletes the collection `name` from the index and from the schema
    /// store; where the index refuses, the schema is kept.
    pub fn delete_collection<S: SchemaRepository, I: Index>(
        &self,
        schema_repo: &mut S,
        index: &mut I,
        name: &str,
    ) -> (res: Result<(), ApplicationError>)
        requires
            old(schema_repo).wf(),
            old(index).wf(),
        ensures
            final(schema_repo).wf(),
            final(index).wf(),
            all_built(old(schema_repo).schemas()) ==> all_built(final(schema_repo).schemas()),
            in_step(old(schema_repo).schemas(), old(index).schemas()) && (res is Ok || (S::reliable()
                && I::reliable())) ==> in_step(final(schema_repo).schemas(), final(index).schemas()),
            forall|stored: Map<(Seq<char>, Seq<char>), DocumentView>|
                #[trigger] index_backed(stored, old(index).documents()) ==> index_backed(
                    stored,
                    final(index).documents(),
                ),
            res is Ok ==> old(schema_repo).schemas().contains_key(name@) && final(schema_repo).schemas() == old(schema_repo).schemas().remove(name@) && final(index).schemas() == old(index).schemas().remove(name@)
                && final(index).documents() == old(index).documents().remove(name@),
            res matches Err(e) ==> {
                &&& final(schema_repo).schemas() == old(schema_repo).schemas()
                &&& {
                    ||| final(index).schemas() == old(index).schemas()
                        && final(index).documents() == old(index).documents()
                    ||| old(schema_repo).schemas().contains_key(name@)
                        && final(index).schemas() == old(index).schemas().remove(name@)
                        && final(index).documents() == old(index).documents().remove(name@)
                        && (e@ == AppErrorView::CollectionNotFound(name@) || exists|x: AppErrorView|
                        e@ == AppErrorView::SchemaError(#[trigger] failure_text("Failed to delete schema: "@, x)))
                }
            },
            !old(schema_repo).schemas().contains_key(name@) ==> res is Err,
            S::reliable() && !old(schema_repo).schemas().contains_key(name@) ==> (res matches Err(e) && e@
                == AppErrorView::CollectionNotFound(name@)),
            S::reliable() && I::reliable() && old(schema_repo).schemas().contains_key(name@) ==> res is Ok,
    {
        if schema_repo.get(name)?.is_none() {
            return Err(ApplicationError::CollectionNotFound(text(name)));
        }
        match index.delete_collection(name) {
            Ok(()) => {},
            Err(e) => {
                return Err(e);
            },
        }
        let deleted = schema_repo.delete(name);
        let ghost outcome = deleted;
        let res = schema_delete_outcome(name, deleted);
        proof {
            if let Err(e) = outcome {
                assert(res matches Err(f) && f@ == AppErrorView::SchemaError(
                    failure_text("Failed to delete schema: "@, e@),
                ));
            }
        }
        res
    }
}

/// The document that a valid request makes.
pub open spec fn requested_document(r: IndexDocumentRequest) -> DocumentView {
    DocumentView {
        id: r.id@,
        fields: r.fields@.map_values(|v: crate::value::JsonValue| crate::domain::stored_value(v)),
    }
}

/// The report on request number `i` of a batch that fails validation.
pub open spec fn request_message(l: Seq<crate::domain::FieldDefinition>, i: nat, r: IndexDocumentRequest) -> Option<Seq<char>> {
    match document_error(l, r.fields) {
        Some(e) => Some(
            "Document at index "@ + decimal(i) + " (ID: '"@ + r.id@ + "') failed validation: "@
                + domain_error_text(e),
        ),
        None => None,
    }
}

/// The reports on all failing requests of a batch, in order.
pub open spec fn batch_messages(l: Seq<crate::domain::FieldDefinition>, reqs: Seq<IndexDocumentRequest>) -> Seq<Seq<char>>
    decreases reqs.len(),
{
    if reqs.len() == 0 {
        Seq::empty()
    } else {
        let before = batch_messages(l, reqs.drop_last());
        match request_message(l, (reqs.len() - 1) as nat, reqs.last()) {
            Some(m) => before.push(m),
            None => before,
        }
    }
}

/// The error text of a batch whose reports are `msgs`.
pub open spec fn batch_error_text(msgs: Seq<Seq<char>>) -> Seq<char> {
    "Batch contained "@ + decimal(msgs.len()) + " validation errors. First error: "@ + msgs[0]
}

/// Indexes documents: validates them against their collection's schema,
/// stores them and adds them to the index.
pub struct IndexingService {}

impl IndexingService {
    pub fn new() -> (res: Self) {
        IndexingService {}
    }

    /// Validates one document against its collection's schema, then stores
    /// it and adds it to the index.
    pub fn index_document<S: SchemaRepository, D: DocumentRepository, I: Index>(
        &self,
        schema_repo: &S,
        doc_repo: &mut D,
        index: &mut I,
        collection_name: &str,
        request: IndexDocumentRequest,
    ) -> (res: Result<(), ApplicationError>)
        requires
            schema_repo.wf(),
            old(doc_repo).wf(),
            old(index).wf(),
            all_built(schema_repo.schemas()),
        ensures
            final(doc_repo).wf(),
            final(index).wf(),
            final(index).schemas() == old(index).schemas(),
            index_backed(old(doc_repo).documents(), old(index).documents()) && (res is Ok || I::reliable())
                ==> index_backed(final(doc_repo).documents(), final(index).documents()),
            ({
                let c = collection_name@;
                let d = requested_document(request);
                let stored = schema_repo.schemas().contains_key(c) && document_error(
                    schema_repo.schemas()[c].lookup->0,
                    request.fields,
                ) is None;
                &&& res is Ok ==> stored && old(index).documents().contains_key(c) && final(doc_repo).documents()
                    == with_document(old(doc_repo).documents(), c, d) && final(index).documents()
                    == old(index).documents().insert(c, old(index).documents()[c].insert(d.id, d))
                &&& res matches Err(e) ==> {
                    ||| final(doc_repo).documents() == old(doc_repo).documents() && final(index).documents()
                        == old(index).documents()
                    ||| stored && final(doc_repo).documents() == with_document(old(doc_repo).documents(), c, d)
                        && final(index).documents() == old(index).documents() && (e@ matches AppErrorView::IndexError {
                        collection,
                        ..
                    } && collection == c)
                }
                &&& !schema_repo.schemas().contains_key(c) ==> res is Err
                &&& S::reliable() && !schema_repo.schemas().contains_key(c) ==> (res matches Err(e) && e@
                    == AppErrorView::CollectionNotFound(c))
                &&& S::reliable() && schema_repo.schemas().contains_key(c) ==> match document_error(
                    schema_repo.schemas()[c].lookup->0,
                    request.fields,
                ) {
                    Some(err) => (res matches Err(e) && e@ == AppErrorView::DomainError(err))
                        && final(doc_repo).documents() == old(doc_repo).documents() && final(index).documents()
                        == old(index).documents(),
                    None => {
                        &&& D::reliable() ==> final(doc_repo).documents() == with_document(
                            old(doc_repo).documents(),
                            c,
                            d,
                        )
                        &&& D::reliable() && I::reliable() && old(index).documents().contains_key(c) ==> res is Ok
                        &&& D::reliable() && I::reliable() && !old(index).documents().contains_key(c) ==> (res matches Err(
                            e,
                        ) && e@ == AppErrorView::IndexError {
                            collection: c,
                            source: Box::new(AppErrorView::CollectionNotFound(c)),
                        }) && final(index).documents() == old(index).documents()
                    },
                }
            }),
    {
        let schema = match schema_repo.get(collection_name)? {
            Some(s) => s,
            None => {
                return Err(ApplicationError::CollectionNotFound(text(collection_name)));
            },
        };
        let doc_id = DocumentId::new(request.id);
        let document = match Document::new(doc_id, request.fields, &schema) {
            Ok(d) => d,
            Err(e) => {
                return Err(ApplicationError::DomainError(e));
            },
        };
        match doc_repo.save(collection_name, &document) {
            Ok(()) => {},
            Err(e) => {
                let mut msg = text("Repository save failed: ");
                let inner = e.message();
                msg.append(inner.as_str());
                return Err(ApplicationError::InfrastructureError(msg));
            },
        }
        match index.index_document(collection_name, &document) {
            Ok(()) => Ok(()),
            Err(e) => Err(ApplicationError::IndexError { collection: text(collection_name), source: Box::new(e) }),
        }
    }

    /// Removes a document from the index, then from the document store;
    /// where the index refuses, the store is not touched.
    pub fn delete_document<D: DocumentRepository, I: Index>(
        &self,
        doc_repo: &mut D,
        index: &mut I,
        collection_name: &str,
        id: &str,
    ) -> (res: Result<(), ApplicationError>)
        requires
            old(doc_repo).wf(),
            old(index).wf(),
        ensures
            final(doc_repo).wf(),
            final(index).wf(),
            index_backed(old(doc_repo).documents(), old(index).documents()) ==> index_backed(
                final(doc_repo).documents(),
                final(index).documents(),
            ),
            final(index).schemas() == old(index).schemas(),
            ({
                let c = collection_name@;
                let removed = if old(index).documents().contains_key(c) {
                    old(index).documents().insert(c, old(index).documents()[c].remove(id@))
                } else {
                    old(index).documents()
                };
                &&& res is Ok ==> final(index).documents() == removed && final(doc_repo).documents() == old(doc_repo).documents().remove((c, id@))
                &&& res matches Err(e) ==> {
                    ||| final(doc_repo).documents() == old(doc_repo).documents() && final(index).documents()
                        == old(index).documents() && (e@ matches AppErrorView::IndexError { collection, .. }
                        && collection == c)
                    ||| final(doc_repo).documents() == old(doc_repo).documents() && final(index).documents()
                        == removed && exists|x: AppErrorView|
                        e@ == AppErrorView::InfrastructureError(
                            #[trigger] failure_text("Repository delete failed: "@, x),
                        )
                }
                &&& D::reliable() && I::reliable() ==> res is Ok
            }),
    {
        let doc_id = DocumentId::new(text(id));
        match index.delete_document(collection_name, &doc_id) {
            Ok(()) => {},
            Err(e) => {
                return Err(ApplicationError::IndexError { collection: text(collection_name), source: Box::new(e) });
            },
        }
        match doc_repo.delete(collection_name, &doc_id) {
            Ok(_) => Ok(()),
            Err(e) => {
                let mut msg = text("Repository delete failed: ");
                let inner = e.message();
                msg.append(inner.as_str());
                assert(msg@ == failure_text("Repository delete failed: "@, e@));
                Err(ApplicationError::InfrastructureError(msg))
            },
        }
    }

    /// Validates a batch of documents, then, if all are valid, stores and
    /// indexes them all; any invalid document fails the whole batch.
    pub fn index_batch<S: SchemaRepository, D: DocumentRepository, I: Index>(
        &self,
        schema_repo: &S,
        doc_repo: &mut D,
        index: &mut I,
        collection_name: &str,
        batch_request: Vec<IndexDocumentRequest>,
    ) -> (res: Result<BatchResponse, ApplicationError>)
        requires
            schema_repo.wf(),
            old(doc_repo).wf(),
            old(index).wf(),
            all_built(schema_repo.schemas()),
        ensures
            final(doc_repo).wf(),
            final(index).wf(),
            final(index).schemas() == old(index).schemas(),
            index_backed(old(doc_repo).documents(), old(index).documents()) && (res is Ok || (D::reliable()
                && I::reliable())) ==> index_backed(final(doc_repo).documents(), final(index).documents()),
            ({
                let c = collection_name@;
                let n = batch_request@.len();
                let known = schema_repo.schemas().contains_key(c);
                let msgs = batch_messages(schema_repo.schemas()[c].lookup->0, batch_request@);
                let ds = batch_request@.map_values(|r: IndexDocumentRequest| requested_document(r));
                let unchanged = final(doc_repo).documents() == old(doc_repo).documents() && final(index).documents()
                    == old(index).documents();
                &&& n == 0 ==> res == Ok::<BatchResponse, ApplicationError>(
                    BatchResponse { total_processed: 0, successful: 0, failed: 0 },
                ) && unchanged
                &&& res matches Ok(r) ==> r == (BatchResponse {
                    total_processed: n as usize,
                    successful: n as usize,
                    failed: 0,
                }) && (n > 0 ==> known && msgs.len() == 0 && final(doc_repo).documents() == with_documents(
                    old(doc_repo).documents(),
                    c,
                    ds,
                ) && final(index).documents() == with_indexed(old(index).documents(), c, ds))
                &&& res matches Err(e) ==> {
                    ||| unchanged
                    ||| final(index).documents() == old(index).documents() && exists|x: AppErrorView|
                        e@ == AppErrorView::InfrastructureError(
                            #[trigger] failure_text("Repository batch save failed: "@, x),
                        )
                    ||| n > 0 && known && msgs.len() == 0 && final(doc_repo).documents() == with_documents(
                        old(doc_repo).documents(),
                        c,
                        ds,
                    ) && (e@ matches AppErrorView::IndexError { collection, .. } && collection == c)
                }
                &&& n > 0 && !known ==> res is Err && unchanged
                &&& S::reliable() && n > 0 && !known ==> (res matches Err(e) && e@
                    == AppErrorView::CollectionNotFound(c))
                &&& S::reliable() && n > 0 && known && msgs.len() > 0 ==> (res matches Err(e) && e@
                    == AppErrorView::InvalidInput(batch_error_text(msgs))) && unchanged
                &&& S::reliable() && D::reliable() && n > 0 && known && msgs.len() == 0 ==> final(doc_repo).documents() == with_documents(old(doc_repo).documents(), c, ds)
                &&& S::reliable() && D::reliable() && I::reliable() && n > 0 && known && msgs.len() == 0 ==> {
                    &&& old(index).documents().contains_key(c) ==> res is Ok
                    &&& !old(index).documents().contains_key(c) ==> (res matches Err(e) && e@
                        == AppErrorView::IndexError {
                        collection: c,
                        source: Box::new(AppErrorView::CollectionNotFound(c)),
                    }) && final(index).documents() == old(index).documents()
                }
            }),
    {
        if batch_request.len() == 0 {
            return Ok(BatchResponse { total_processed: 0, successful: 0, failed: 0 });
        }
        let schema = match schema_repo.get(collection_name)? {
            Some(s) => s,
            None => {
                return Err(ApplicationError::CollectionNotFound(text(collection_name)));
            },
        };
        let ghost l = schema@.lookup->0;
        let ghost reqs = batch_request@;
        let total_processed = batch_request.len();
        let mut valid_documents: Vec<Document> = Vec::new();
        let mut validation_errors: Vec<String> = Vec::new();
        let mut index_no: usize = 0;
        for request in it: batch_request.into_iter()
            invariant
                it.seq() == reqs,
                index_no == it.index(),
                total_processed == reqs.len(),
                schema.is_built(),
                l == schema@.lookup->0,
                validation_errors@.map_values(|s: String| s@) == batch_messages(l, reqs.take(index_no as int)),
                validation_errors@.len() == 0 ==> views(valid_documents@) == reqs.take(index_no as int).map_values(
                    |r: IndexDocumentRequest| requested_document(r),
                ),
        {
            proof {
                assert(reqs[index_no as int] == request);
                assert(reqs.take(index_no + 1).drop_last() =~= reqs.take(index_no as int));
                assert(reqs.take(index_no + 1).last() == request);
            }
            let doc_id_str = request.id.clone();
            let doc_id = DocumentId::new(request.id);
            let ghost fields = request.fields;
            match Document::new(doc_id, request.fields, &schema) {
                Ok(doc) => {
                    let ghost before = views(valid_documents@);
                    valid_documents.push(doc);
                    proof {
                        assert(views(valid_documents@) =~= before.push(doc@));
                        assert(validation_errors@.len() == 0 ==> views(valid_documents@) =~= reqs.take(
                            index_no + 1,
                        ).map_values(|r: IndexDocumentRequest| requested_document(r)));
                    }
                },
                Err(domain_err) => {
                    let mut msg = text("Document at index ");
                    let number = decimal_text(index_no);
                    msg.append(number.as_str());
                    msg.append(" (ID: '");
                    msg.append(doc_id_str.as_str());
                    msg.append("') failed validation: ");
                    let detail = domain_err.message();
                    msg.append(detail.as_str());
                    let ghost before = validation_errors@;
                    validation_errors.push(msg);
                    proof {
                        assert(validation_errors@.map_values(|s: String| s@) =~= before.map_values(|s: String| s@).push(msg@));
                    }
                },
            }
            index_no = index_no + 1;
        }
        proof {
            assert(reqs.take(total_processed as int) =~= reqs);
        }
        if validation_errors.len() > 0 {
            let mut msg = text("Batch contained ");
            let count = decimal_text(validation_errors.len());
            msg.append(count.as_str());
            msg.append(" validation errors. First error: ");
            msg.append(validation_errors[0].as_str());
            proof {
                assert(validation_errors@.map_values(|s: String| s@)[0] == validation_errors@[0]@);
            }
            return Err(ApplicationError::InvalidInput(msg));
        }
        proof {
            assert(document_views(valid_documents@) =~= views(valid_documents@));
        }
        match doc_repo.save_batch(collection_name, valid_documents.as_slice()) {
            Ok(()) => {},
            Err(e) => {
                let mut msg = text("Repository batch save failed: ");
                let inner = e.message();
                msg.append(inner.as_str());
                assert(msg@ == failure_text("Repository batch save failed: "@, e@));
                return Err(ApplicationError::InfrastructureError(msg));
            },
        }
        match index.index_batch(collection_name, valid_documents.as_slice()) {
            Ok(()) => {
                proof {
                    if index_backed(old(doc_repo).documents(), old(index).documents()) {
                        lemma_batch_keeps_backing(
                            old(doc_repo).documents(),
                            old(index).documents(),
                            collection_name@,
                            views(valid_documents@),
                        );
                    }
                }
            },
            Err(e) => {
                proof {
                    if index_backed(old(doc_repo).documents(), old(index).documents()) && D::reliable()
                        && I::reliable() {
                        lemma_unindexed_save_keeps_backing(
                            old(doc_repo).documents(),
                            old(index).documents(),
                            collection_name@,
                            views(valid_documents@),
                        );
                    }
                }
                return Err(ApplicationError::IndexError { collection: text(collection_name), source: Box::new(e) });
            },
        }
        Ok(BatchResponse { total_processed, successful: valid_documents.len(), failed: 0 })
    }
}

/// The page size actually used: at least 1, at most `MAX_SEARCH_LIMIT`.
pub open spec fn effective_limit(requested: usize) -> usize {
    if requested > MAX_SEARCH_LIMIT {
        MAX_SEARCH_LIMIT
    } else if requested < 1 {
        1
    } else {
        requested
    }
}

/// A hit as plain values: id and fields.
pub open spec fn hit_view(h: SearchHit) -> (Seq<char>, Map<Seq<char>, crate::value::DocValue>) {
    (h.id@, h.fields@)
}

/// The hit that a document makes.
pub open spec fn document_hit(d: DocumentView) -> (Seq<char>, Map<Seq<char>, crate::value::DocValue>) {
    (d.id, d.fields)
}

/// The filters of a request as pairs, where it has any.
pub open spec fn request_filters(r: SearchRequest) -> Option<Seq<(String, crate::value::JsonValue)>> {
    match r.filters {
        Some(f) => Some(f.pairs()),
        None => None,
    }
}

/// Searches documents of collections.
pub struct SearchService {}

impl SearchService {
    pub fn new() -> (res: Self) {
        SearchService {}
    }

    /// Searches a collection: the query is trimmed and must not be empty; the
    /// page size is brought into `1..=MAX_SEARCH_LIMIT`; the collection must
    /// exist; the index then selects, sorts and pages the documents.
    pub fn search_documents<S: SchemaRepository, I: Index>(
        &self,
        schema_repo: &S,
        index: &I,
        collection_name: &str,
        request: SearchRequest,
    ) -> (res: Result<SearchResponse, ApplicationError>)
        requires
            schema_repo.wf(),
            index.wf(),
            trimmed(request.query@).len() > 0 && schema_repo.schemas().contains_key(collection_name@)
                && index.schemas().contains_key(collection_name@) ==> request.offset / effective_limit(
                request.limit,
            ) < usize::MAX,
        ensures
            ({
                let q = trimmed(request.query@);
                let limit = effective_limit(request.limit);
                let c = collection_name@;
                &&& q.len() == 0 ==> (res matches Err(e) && e@ == AppErrorView::InvalidInput(
                    "Search query cannot be empty"@,
                ))
                &&& res matches Ok(r) ==> q.len() > 0 && schema_repo.schemas().contains_key(c)
                    && index.schemas().contains_key(c) && {
                    &&& r.query@ == request.query@
                    &&& r.limit == limit
                    &&& r.offset == request.offset
                    &&& r.page == request.offset / limit + 1
                    &&& r.total_pages == (r.nb_hits + limit - 1) / (limit as int)
                    &&& r.processing_time_ms == 0
                    &&& exists|s: Seq<DocumentView>|
                        #[trigger] ranks(
                            s,
                            index.documents()[c],
                            index.schemas()[c],
                            q,
                            request_filters(request),
                            request.sort@,
                        ) && r.nb_hits == s.len() && r.hits@.map_values(|h: SearchHit| hit_view(h)) == page(
                            s,
                            request.offset as int,
                            limit as int,
                        ).map_values(|d: DocumentView| document_hit(d))
                }
                &&& S::reliable() && q.len() > 0 && !schema_repo.schemas().contains_key(c) ==> (res matches Err(e)
                    && e@ == AppErrorView::CollectionNotFound(c))
                &&& S::reliable() && I::reliable() && q.len() > 0 && schema_repo.schemas().contains_key(c)
                    && !index.schemas().contains_key(c) ==> (res matches Err(e) && e@ == AppErrorView::SearchError {
                    collection: c,
                    source: Box::new(AppErrorView::CollectionNotFound(c)),
                })
                &&& S::reliable() && I::reliable() && q.len() > 0 && schema_repo.schemas().contains_key(c)
                    && index.schemas().contains_key(c) ==> res is Ok
            }),
    {
        let trimmed_query = trim(request.query.as_str());
        let query = trimmed_query.as_str();
        if query.is_empty() {
            return Err(ApplicationError::InvalidInput(text("Search query cannot be empty")));
        }
        let limit = if request.limit > MAX_SEARCH_LIMIT {
            MAX_SEARCH_LIMIT
        } else if request.limit < 1 {
            1
        } else {
            request.limit
        };
        let offset = request.offset;
        if schema_repo.get(collection_name)?.is_none() {
            return Err(ApplicationError::CollectionNotFound(text(collection_name)));
        }
        let filters = match &request.filters {
            Some(f) => Some(f),
            None => None,
        };
        let outcome = index.search(
            collection_name,
            query,
            filters,
            request.sort.as_slice(),
            request.facets.as_slice(),
            offset,
            limit,
        );
        match outcome {
            Ok(search_result) => {
                let nb_hits = search_result.total_hits;
                proof {
                    assert(nb_hits / limit + 1 <= usize::MAX || nb_hits % limit == 0) by (nonlinear_arith)
                        requires
                            1 <= limit,
                            nb_hits <= usize::MAX,
                    {
                        if limit == 1 {
                            assert(nb_hits % 1 == 0);
                        } else {
                            assert(nb_hits / limit <= nb_hits / 2);
                        }
                    }
                }
                let total_pages = nb_hits / limit + if nb_hits % limit != 0 {
                    1
                } else {
                    0
                };
                proof {
                    assert(total_pages == (nb_hits + limit - 1) / (limit as int)) by (nonlinear_arith)
                        requires
                            limit >= 1,
                            total_pages == nb_hits / limit + if nb_hits % limit != 0 {
                                1int
                            } else {
                                0int
                            },
                    ;
                }
                let page_number = offset / limit + 1;
                let docs = &search_result.documents;
                let mut hits: Vec<SearchHit> = Vec::new();
                let n = docs.len();
                for i in 0..n
                    invariant
                        n == docs@.len(),
                        hits@.map_values(|h: SearchHit| hit_view(h)) == views(docs@).take(i as int).map_values(
                            |d: DocumentView| document_hit(d),
                        ),
                {
                    let doc = &docs[i];
                    let hit = SearchHit { id: text(doc.id().as_str()), fields: doc.fields().duplicate() };
                    assert(hit_view(hit) == document_hit(doc@));
                    let ghost before = hits@;
                    hits.push(hit);
                    proof {
                        assert(hits@ =~= before.push(hit));
                        assert(views(docs@)[i as int] == docs@[i as int]@);
                        let vt = views(docs@).take(i as int);
                        assert(views(docs@).take(i + 1) =~= vt.push(views(docs@)[i as int]));
                        assert(views(docs@).take(i + 1).map_values(|d: DocumentView| document_hit(d)) =~= vt.map_values(
                            |d: DocumentView| document_hit(d),
                        ).push(document_hit(doc@)));
                        assert(hits@.map_values(|h: SearchHit| hit_view(h)) =~= before.map_values(|h: SearchHit| hit_view(h)).push(
                            hit_view(hit),
                        ));
                        assert(hits@.map_values(|h: SearchHit| hit_view(h)) =~= views(docs@).take(i + 1).map_values(
                            |d: DocumentView| document_hit(d),
                        ));
                    }
                }
                proof {
                    assert(views(docs@).take(n as int) =~= views(docs@));
                }
                Ok(
                    SearchResponse {
                        hits,
                        nb_hits,
                        query: request.query.clone(),
                        limit,
                        offset,
                        page: page_number,
                        total_pages,
                        processing_time_ms: 0,
                    },
                )
            },
            Err(e) => Err(ApplicationError::SearchError { collection: text(collection_name), source: Box::new(e) }),
        }
    }
}

} // verus!
