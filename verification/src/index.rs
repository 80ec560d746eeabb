//! The search index: per-collection documents and schemas, and the search
//! over them.
use vstd::prelude::*;
use dashmap::DashMap;
use crate::domain::{CollectionSchema, Document, DocumentId, DocumentView, SchemaView};
use crate::errors::{AppErrorView, ApplicationError};
use crate::search::{
    calculate_facets, check_doc_matches_filters, facet_view, facets_of, filters_hold, ids_distinct,
    page, paginate, query_hits, query_matches, same_documents, sort_documents, sorted_by, views,
    FacetCounts, SortBy,
};
use crate::tables::{
    lists_documents, schema_entries, schema_map_get, schema_map_insert,
    schema_map_new, schema_map_remove, table_entries, table_map_contains, table_map_documents,
    table_map_insert, table_map_new, table_map_remove, table_map_sizes, DocumentTable,
};
use crate::text::{lowercase_text, text, text_lowercase};
use crate::value::{lemma_pairs_map, JsonMap, JsonValue, NamedMap};

verus! {

broadcast use vstd::string::group_string_axioms;

/// The outcome of a search.
#[derive(Debug)]
pub struct SearchResult {
    /// The documents of the requested page.
    pub documents: Vec<Document>,
    /// How many documents matched, before paging.
    pub total_hits: usize,
    /// Value counts of the requested fields over the matching documents.
    pub facet_counts: FacetCounts,
}

/// A document is selected by a query and filters: an empty query selects
/// every document, another one those with an indexed text field that holds
/// it (case-insensitively); every filter must hold.
pub open spec fn selected(
    schema: SchemaView,
    d: DocumentView,
    query: Seq<char>,
    filters: Option<Seq<(String, JsonValue)>>,
) -> bool {
    &&& (query.len() == 0 || query_hits(schema.fields, d, text_lowercase(query)))
    &&& match filters {
        Some(f) => filters_hold(schema, d, f),
        None => true,
    }
}

/// `s` ranks the selected documents of `docs`: each of them once, nothing
/// else, in sort order where there are sort criteria.
pub open spec fn ranks(
    s: Seq<DocumentView>,
    docs: Map<Seq<char>, DocumentView>,
    schema: SchemaView,
    query: Seq<char>,
    filters: Option<Seq<(String, JsonValue)>>,
    sort: Seq<SortBy>,
) -> bool {
    &&& ids_distinct(s)
    &&& forall|i: int|
        #![trigger s[i]]
        0 <= i < s.len() ==> docs.contains_key(s[i].id) && s[i] == docs[s[i].id] && selected(
            schema,
            s[i],
            query,
            filters,
        )
    &&& forall|k: Seq<char>|
        #[trigger] docs.contains_key(k) && selected(schema, docs[k], query, filters) ==> exists|i: int|
            0 <= i < s.len() && #[trigger] s[i].id == k
    &&& sort.len() > 0 ==> sorted_by(s, sort)
}

/// The filters as pairs, where there are any.
pub open spec fn filter_pairs(filters: Option<&JsonMap>) -> Option<Seq<(String, JsonValue)>> {
    match filters {
        Some(f) => Some(f.pairs()),
        None => None,
    }
}

/// What a successful search returns, given the documents of the
/// collection and its schema: the page `offset..offset + limit` of a
/// ranking of the selected documents, the number of selected documents,
/// and the facet counts over all of them.
pub open spec fn search_outcome(
    r: SearchResult,
    docs: Map<Seq<char>, DocumentView>,
    schema: SchemaView,
    query: Seq<char>,
    filters: Option<Seq<(String, JsonValue)>>,
    sort: Seq<SortBy>,
    facets: Seq<String>,
    offset: usize,
    limit: usize,
) -> bool {
    exists|s: Seq<DocumentView>|
        #[trigger] ranks(s, docs, schema, query, filters, sort) && r.total_hits == s.len() && views(
            r.documents@,
        ) == page(s, offset as int, limit as int) && facets_of(facet_view(r.facet_counts), s, facets)
}

/// The documents of collection `c` after indexing `ds` into it in order.
pub open spec fn with_indexed(
    docs: Map<Seq<char>, Map<Seq<char>, DocumentView>>,
    c: Seq<char>,
    ds: Seq<DocumentView>,
) -> Map<Seq<char>, Map<Seq<char>, DocumentView>>
    decreases ds.len(),
{
    if ds.len() == 0 {
        docs
    } else {
        let before = with_indexed(docs, c, ds.drop_last());
        before.insert(c, before[c].insert(ds.last().id, ds.last()))
    }
}

/// `names` lists the set `keys`: each key once, nothing else.
pub open spec fn enumerates(names: Seq<Seq<char>>, keys: Set<Seq<char>>) -> bool {
    &&& names.len() == keys.len()
    &&& forall|i: int, j: int| 0 <= i < j < names.len() ==> names[i] != names[j]
    &&& forall|i: int| 0 <= i < names.len() ==> keys.contains(#[trigger] names[i])
    &&& forall|k: Seq<char>| #[trigger] keys.contains(k) ==> exists|i: int| 0 <= i < names.len() && #[trigger] names[i] == k
}

/// The number of documents in the listed collections.
pub open spec fn sum_sizes(names: Seq<Seq<char>>, docs: Map<Seq<char>, Map<Seq<char>, DocumentView>>) -> nat
    decreases names.len(),
{
    if names.len() == 0 {
        0
    } else {
        sum_sizes(names.drop_last(), docs) + docs[names.last()].dom().len()
    }
}

/// The number of documents in all collections of `docs`, counted along
/// some listing of the collections (every listing gives the same number:
/// see `lemma_sum_sizes_any_listing`).
pub open spec fn total_documents(docs: Map<Seq<char>, Map<Seq<char>, DocumentView>>) -> nat {
    sum_sizes(choose|names: Seq<Seq<char>>| enumerates(names, docs.dom()), docs)
}

/// Taking one collection out of a listing takes its size out of the sum.
proof fn lemma_sum_sizes_remove(
    names: Seq<Seq<char>>,
    docs: Map<Seq<char>, Map<Seq<char>, DocumentView>>,
    j: int,
)
    requires
        0 <= j < names.len(),
    ensures
        sum_sizes(names, docs) == sum_sizes(names.remove(j), docs) + docs[names[j]].dom().len(),
    decreases names.len(),
{
    if j == names.len() - 1 {
        assert(names.remove(j) =~= names.drop_last());
    } else {
        let rest = names.drop_last();
        lemma_sum_sizes_remove(rest, docs, j);
        assert(names.remove(j).drop_last() =~= rest.remove(j));
        assert(names.remove(j).last() == names.last());
        assert(rest[j] == names[j]);
    }
}

/// Two listings of the same collections, each without repeats, give the
/// same sum.
proof fn lemma_sum_sizes_same_names(
    n1: Seq<Seq<char>>,
    n2: Seq<Seq<char>>,
    docs: Map<Seq<char>, Map<Seq<char>, DocumentView>>,
)
    requires
        n1.len() == n2.len(),
        forall|i: int, j: int| 0 <= i < j < n1.len() ==> n1[i] != n1[j],
        forall|i: int, j: int| 0 <= i < j < n2.len() ==> n2[i] != n2[j],
        forall|i: int| 0 <= i < n1.len() ==> #[trigger] n2.contains(n1[i]),
    ensures
        sum_sizes(n1, docs) == sum_sizes(n2, docs),
    decreases n1.len(),
{
    if n1.len() > 0 {
        let k = n1.last();
        assert(n2.contains(n1[n1.len() - 1]));
        let j = choose|j: int| 0 <= j < n2.len() && n2[j] == k;
        let m1 = n1.drop_last();
        let m2 = n2.remove(j);
        assert forall|i: int, q: int| 0 <= i < q < m2.len() implies m2[i] != m2[q] by {
            if i < j && q < j {
            } else if i < j {
                assert(m2[q] == n2[q + 1]);
            } else {
                assert(m2[i] == n2[i + 1]);
                assert(m2[q] == n2[q + 1]);
            }
        }
        assert forall|i: int| 0 <= i < m1.len() implies #[trigger] m2.contains(m1[i]) by {
            assert(m1[i] == n1[i]);
            assert(n2.contains(n1[i]));
            let p = choose|p: int| 0 <= p < n2.len() && n2[p] == n1[i];
            assert(n1[i] != k);
            assert(p != j);
            if p < j {
                assert(m2[p] == n2[p]);
            } else {
                assert(m2[p - 1] == n2[p]);
            }
        }
        lemma_sum_sizes_same_names(m1, m2, docs);
        lemma_sum_sizes_remove(n2, docs, j);
    }
}

/// Every listing of the collections gives the same sum: the total number of
/// documents.
pub proof fn lemma_sum_sizes_any_listing(
    names: Seq<Seq<char>>,
    docs: Map<Seq<char>, Map<Seq<char>, DocumentView>>,
)
    requires
        enumerates(names, docs.dom()),
    ensures
        sum_sizes(names, docs) == total_documents(docs),
{
    let other = choose|n: Seq<Seq<char>>| enumerates(n, docs.dom());
    assert(enumerates(other, docs.dom()));
    assert forall|i: int| 0 <= i < names.len() implies #[trigger] other.contains(names[i]) by {
        assert(docs.dom().contains(names[i]));
        let q = choose|q: int| 0 <= q < other.len() && #[trigger] other[q] == names[i];
    }
    lemma_sum_sizes_same_names(names, other, docs);
}

/// Keeps the documents that the query and filters select, in order.
fn select_documents(
    docs: &Vec<Document>,
    schema: &CollectionSchema,
    query: &str,
    query_lower: &str,
    filters: Option<&JsonMap>,
) -> (res: Vec<Document>)
    requires
        ids_distinct(views(docs@)),
        query_lower@ == text_lowercase(query@),
    ensures
        ids_distinct(views(res@)),
        forall|q: int|
            #![trigger views(res@)[q]]
            0 <= q < views(res@).len() ==> crate::search::occurs_at(views(docs@), views(res@)[q]) && selected(
                schema@,
                views(res@)[q],
                query@,
                filter_pairs(filters),
            ),
        forall|j: int|
            #![trigger views(docs@)[j]]
            0 <= j < views(docs@).len() && selected(schema@, views(docs@)[j], query@, filter_pairs(filters))
                ==> crate::search::occurs_at(views(res@), views(docs@)[j]),
{
    let ghost src = views(docs@);
    let ghost fpairs = filter_pairs(filters);
    let has_query = !query.is_empty();
    let mut res: Vec<Document> = Vec::new();
    let n = docs.len();
    for i in 0..n
        invariant
            n == docs@.len(),
            src == views(docs@),
            ids_distinct(src),
            fpairs == filter_pairs(filters),
            has_query == (query@.len() > 0),
            query_lower@ == text_lowercase(query@),
            ids_distinct(views(res@)),
            forall|q: int|
                #![trigger views(res@)[q]]
                0 <= q < views(res@).len() ==> crate::search::occurs_at(src.take(i as int), views(res@)[q])
                    && selected(schema@, views(res@)[q], query@, fpairs),
            forall|j: int|
                #![trigger src[j]]
                0 <= j < i && selected(schema@, src[j], query@, fpairs) ==> crate::search::occurs_at(views(res@), src[j]),
    {
        let d = &docs[i];
        let ghost dv = d@;
        assert(src[i as int] == dv);
        let mut keep = true;
        if has_query && !query_matches(schema, d, query_lower) {
            keep = false;
        }
        if keep {
            match filters {
                Some(f) => {
                    if !check_doc_matches_filters(d, schema, f) {
                        keep = false;
                    }
                },
                None => {},
            }
        }
        assert(keep == selected(schema@, dv, query@, fpairs));
        let ghost before = views(res@);
        if keep {
            let copy = d.clone();
            let ghost raw = res@;
            res.push(copy);
            assert(res@ =~= raw.push(copy));
            assert(views(res@) =~= before.push(dv));
        }
        proof {
            let after = views(res@);
            lemma_select_step(src, i as int, before, after, keep);
            assert forall|q: int|
                #![trigger after[q]]
                0 <= q < after.len() implies selected(schema@, after[q], query@, fpairs) by {
                if q < before.len() {
                    assert(after[q] == before[q]);
                }
            }
            assert forall|j: int|
                #![trigger src[j]]
                0 <= j < i + 1 && selected(schema@, src[j], query@, fpairs) implies crate::search::occurs_at(after, src[j]) by {
                if j < i {
                    assert(crate::search::occurs_at(before, src[j]));
                    let q = choose|q: int| 0 <= q < before.len() && before[q] == src[j];
                    assert(after[q] == before[q]);
                } else {
                    assert(after[after.len() - 1] == src[j]);
                }
            }
        }
    }
    proof {
        assert(src.take(n as int) =~= src);
    }
    res
}

proof fn lemma_select_step(
    src: Seq<DocumentView>,
    i: int,
    before: Seq<DocumentView>,
    after: Seq<DocumentView>,
    keep: bool,
)
    requires
        0 <= i < src.len(),
        ids_distinct(src),
        ids_distinct(before),
        forall|q: int| #![trigger before[q]] 0 <= q < before.len() ==> crate::search::occurs_at(src.take(i), before[q]),
        keep ==> after == before.push(src[i]),
        !keep ==> after == before,
    ensures
        ids_distinct(after),
        forall|q: int| #![trigger after[q]] 0 <= q < after.len() ==> crate::search::occurs_at(src.take(i + 1), after[q]),
{
    assert forall|q: int| #![trigger before[q]] 0 <= q < before.len() implies crate::search::occurs_at(src.take(i + 1), before[q]) && before[q].id != src[i].id by {
        let j = choose|j: int| 0 <= j < src.take(i).len() && src.take(i)[j] == before[q];
        assert(src.take(i + 1)[j] == before[q]);
        assert(src[j] == before[q]);
        assert(src[j].id != src[i].id);
    }
    if keep {
        assert forall|a: int, b: int| 0 <= a < b < after.len() implies #[trigger] after[a].id != #[trigger] after[b].id by {
            assert(after[a] == before[a]);
            if b < before.len() {
                assert(after[b] == before[b]);
            }
        }
        assert forall|q: int| #![trigger after[q]] 0 <= q < after.len() implies crate::search::occurs_at(src.take(i + 1), after[q]) by {
            if q < before.len() {
                assert(after[q] == before[q]);
            } else {
                assert(src.take(i + 1)[i] == after[q]);
            }
        }
    }
}

/// The search index.
pub trait Index: Sized {
    /// The schemas of the collections in the index.
    spec fn schemas(&self) -> Map<Seq<char>, SchemaView>;

    /// The documents of each collection in the index, by id.
    spec fn documents(&self) -> Map<Seq<char>, Map<Seq<char>, DocumentView>>;

    spec fn wf(&self) -> bool;

    /// Whether every call on this index succeeds wherever its contract
    /// allows success.
    spec fn reliable() -> bool;

    /// Makes sure that the collection of `schema` exists, created empty with
    /// this schema where it does not.
    fn ensure_collection_exists(&mut self, schema: &CollectionSchema) -> (res: Result<(), ApplicationError>)
        requires
            old(self).wf(),
        ensures
            final(self).wf(),
            res is Ok && old(self).schemas().contains_key(schema@.name) ==> final(self).schemas() == old(self).schemas()
                && final(self).documents() == old(self).documents(),
            res is Ok && !old(self).schemas().contains_key(schema@.name) ==> final(self).schemas() == old(self).schemas().insert(schema@.name, schema@)
                && final(self).documents() == old(self).documents().insert(schema@.name, Map::empty()),
            res is Err ==> final(self).schemas() == old(self).schemas() && final(self).documents() == old(self).documents(),
            Self::reliable() ==> res is Ok,
    ;

    /// Adds or replaces a document in a collection.
    fn index_document(&mut self, collection_name: &str, document: &Document) -> (res: Result<(), ApplicationError>)
        requires
            old(self).wf(),
        ensures
            final(self).wf(),
            final(self).schemas() == old(self).schemas(),
            res is Ok ==> old(self).documents().contains_key(collection_name@) && final(self).documents() == old(self).documents().insert(
                collection_name@,
                old(self).documents()[collection_name@].insert(document@.id, document@),
            ),
            res is Err ==> final(self).documents() == old(self).documents(),
            Self::reliable() && old(self).documents().contains_key(collection_name@) ==> res is Ok,
            Self::reliable() && !old(self).documents().contains_key(collection_name@) ==> (res matches Err(e) && e@
                == AppErrorView::CollectionNotFound(collection_name@)),
    ;

    /// Removes a document from a collection (nothing where either is absent).
    fn delete_document(&mut self, collection_name: &str, id: &DocumentId) -> (res: Result<(), ApplicationError>)
        requires
            old(self).wf(),
        ensures
            final(self).wf(),
            final(self).schemas() == old(self).schemas(),
            res is Ok ==> final(self).documents() == if old(self).documents().contains_key(collection_name@) {
                old(self).documents().insert(collection_name@, old(self).documents()[collection_name@].remove(id@))
            } else {
                old(self).documents()
            },
            res is Err ==> final(self).documents() == old(self).documents(),
            Self::reliable() ==> res is Ok,
    ;

    /// Searches a collection: documents selected by the query and filters,
    /// sorted, counted, faceted and paged.
    fn search(
        &self,
        collection_name: &str,
        query: &str,
        filters: Option<&JsonMap>,
        sort: &[SortBy],
        facets: &[String],
        offset: usize,
        limit: usize,
    ) -> (res: Result<SearchResult, ApplicationError>)
        requires
            self.wf(),
        ensures
            res matches Ok(r) ==> self.schemas().contains_key(collection_name@) && search_outcome(
                r,
                self.documents()[collection_name@],
                self.schemas()[collection_name@],
                query@,
                filter_pairs(filters),
                sort@,
                facets@,
                offset,
                limit,
            ),
            Self::reliable() && query@.len() == 0 && filters is None ==> (res matches Err(e) && e@
                == AppErrorView::InvalidInput("Search requires a query or filters."@)),
            Self::reliable() && !(query@.len() == 0 && filters is None) && !self.schemas().contains_key(collection_name@)
                ==> (res matches Err(e) && e@ == AppErrorView::CollectionNotFound(collection_name@)),
            Self::reliable() && !(query@.len() == 0 && filters is None) && self.schemas().contains_key(collection_name@)
                ==> res is Ok,
    ;

    /// Removes a collection and its documents.
    fn delete_collection(&mut self, collection_name: &str) -> (res: Result<(), ApplicationError>)
        requires
            old(self).wf(),
        ensures
            final(self).wf(),
            res is Ok ==> final(self).schemas() == old(self).schemas().remove(collection_name@)
                && final(self).documents() == old(self).documents().remove(collection_name@),
            res is Err ==> final(self).schemas() == old(self).schemas() && final(self).documents() == old(self).documents(),
            Self::reliable() ==> res is Ok,
    ;

    /// Indexes several documents into a collection, in order; stops at the
    /// first failure.
    fn index_batch(&mut self, collection_name: &str, documents: &[Document]) -> (res: Result<(), ApplicationError>)
        requires
            old(self).wf(),
        ensures
            final(self).wf(),
            final(self).schemas() == old(self).schemas(),
            res is Ok && documents@.len() > 0 ==> old(self).documents().contains_key(collection_name@),
            res is Ok ==> final(self).documents() == with_indexed(
                old(self).documents(),
                collection_name@,
                views(documents@),
            ),
            Self::reliable() && old(self).documents().contains_key(collection_name@) ==> res is Ok,
            Self::reliable() && !old(self).documents().contains_key(collection_name@) && documents@.len() > 0 ==> (
            res matches Err(e) && e@ == AppErrorView::CollectionNotFound(collection_name@)) && final(self).documents()
                == old(self).documents(),
        default_ensures
            documents@.len() == 0 ==> res is Ok,
            res is Err ==> exists|k: int|
                0 <= k < documents@.len() && final(self).documents() == #[trigger] with_indexed(
                    old(self).documents(),
                    collection_name@,
                    views(documents@.take(k)),
                ),
    {
        let n = documents.len();
        for i in 0..n
            invariant
                n == documents@.len(),
                self.wf(),
                self.schemas() == old(self).schemas(),
                i > 0 ==> old(self).documents().contains_key(collection_name@),
                self.documents() == with_indexed(
                    old(self).documents(),
                    collection_name@,
                    views(documents@.take(i as int)),
                ),
        {
            proof {
                lemma_with_indexed_keeps(old(self).documents(), collection_name@, views(documents@.take(i as int)));
            }
            match self.index_document(collection_name, &documents[i]) {
                Ok(()) => {},
                Err(e) => {
                    assert(self.documents() == with_indexed(
                        old(self).documents(),
                        collection_name@,
                        views(documents@.take(i as int)),
                    ));
                    return Err(e);
                },
            }
            proof {
                assert(views(documents@.take(i + 1)).drop_last() =~= views(documents@.take(i as int)));
                assert(views(documents@.take(i + 1)).last() == documents@[i as int]@);
            }
        }
        assert(documents@.take(n as int) =~= documents@);
        Ok(())
    }

    /// The number of documents in all collections.
    fn get_total_document_count(&self) -> (res: Result<usize, ApplicationError>)
        requires
            self.wf(),
        ensures
            res matches Ok(n) ==> n == if total_documents(self.documents()) <= usize::MAX {
                total_documents(self.documents())
            } else {
                usize::MAX as nat
            },
            Self::reliable() ==> res is Ok,
    ;
}

/// Indexing documents into a collection keeps the set of collections.
pub proof fn lemma_with_indexed_keeps(
    docs: Map<Seq<char>, Map<Seq<char>, DocumentView>>,
    c: Seq<char>,
    ds: Seq<DocumentView>,
)
    ensures
        docs.contains_key(c) ==> with_indexed(docs, c, ds).dom() == docs.dom(),
        ds.len() == 0 ==> with_indexed(docs, c, ds) == docs,
    decreases ds.len(),
{
    if ds.len() > 0 {
        lemma_with_indexed_keeps(docs, c, ds.drop_last());
        if docs.contains_key(c) {
            assert(with_indexed(docs, c, ds).dom() =~= docs.dom());
        }
    }
}

/// The index held in memory: the documents and the schema of each
/// collection, in two maps with the same collection names.
pub struct InMemoryIndex {
    collections: DashMap<String, DocumentTable>,
    schemas: DashMap<String, CollectionSchema>,
}

impl InMemoryIndex {
    pub fn new() -> (res: Self)
        ensures
            res.wf(),
            res.schemas() == Map::<Seq<char>, SchemaView>::empty(),
            res.documents() == Map::<Seq<char>, Map<Seq<char>, DocumentView>>::empty(),
    {
        let res = InMemoryIndex { collections: table_map_new(), schemas: schema_map_new() };
        assert(res.schemas() =~= Map::<Seq<char>, SchemaView>::empty());
        assert(res.documents() =~= Map::<Seq<char>, Map<Seq<char>, DocumentView>>::empty());
        res
    }
}

impl InMemoryIndex {
    /// A well-formed index holds finitely many collections, each with
    /// finitely many documents.
    pub proof fn lemma_finite(&self)
        requires
            self.wf(),
        ensures
            self.documents().dom().finite(),
            forall|c: Seq<char>| #[trigger] self.documents().contains_key(c) ==> self.documents()[c].dom().finite(),
    {
        assert(self.documents().dom() =~= table_entries(self.collections).dom());
        assert forall|c: Seq<char>| #[trigger] self.documents().contains_key(c) implies self.documents()[c].dom().finite() by {
            assert(self.documents()[c].dom() =~= table_entries(self.collections)[c].view().dom());
        }
    }
}

impl Default for InMemoryIndex {
    fn default() -> (res: Self)
        ensures
            res.wf(),
            res.schemas() == Map::<Seq<char>, SchemaView>::empty(),
            res.documents() == Map::<Seq<char>, Map<Seq<char>, DocumentView>>::empty(),
    {
        Self::new()
    }
}

/// The documents of a table as views.
pub open spec fn table_view(t: DocumentTable) -> Map<Seq<char>, DocumentView> {
    t.view().map_values(|d: Document| d@)
}

impl Index for InMemoryIndex {
    closed spec fn schemas(&self) -> Map<Seq<char>, SchemaView> {
        schema_entries(self.schemas).map_values(|s: CollectionSchema| s@)
    }

    closed spec fn documents(&self) -> Map<Seq<char>, Map<Seq<char>, DocumentView>> {
        table_entries(self.collections).map_values(|t: DocumentTable| table_view(t))
    }

    open spec fn reliable() -> bool {
        true
    }

    closed spec fn wf(&self) -> bool {
        &&& table_entries(self.collections).dom().finite()
        &&& table_entries(self.collections).dom() == schema_entries(self.schemas).dom()
        &&& forall|c: Seq<char>| #[trigger] table_entries(self.collections).contains_key(c) ==> table_entries(self.collections)[c].wf()
    }

    fn ensure_collection_exists(&mut self, schema: &CollectionSchema) -> (res: Result<(), ApplicationError>)
        ensures
            res is Ok,
    {
        let name = schema.collection_name();
        if !table_map_contains(&self.collections, name.as_str()) {
            let copy = schema.clone();
            schema_map_insert(&mut self.schemas, name.clone(), copy);
            let table = DocumentTable::new();
            table_map_insert(&mut self.collections, name.clone(), table);
            proof {
                assert(table_view(table) =~= Map::<Seq<char>, DocumentView>::empty());
                assert(self.schemas() =~= old(self).schemas().insert(schema@.name, schema@));
                assert(self.documents() =~= old(self).documents().insert(schema@.name, Map::empty()));
            }
        }
        Ok(())
    }

    fn index_document(&mut self, collection_name: &str, document: &Document) -> (res: Result<(), ApplicationError>)
        ensures
            old(self).documents().contains_key(collection_name@) ==> res is Ok,
            !old(self).documents().contains_key(collection_name@) ==> (res matches Err(e) && e@ == AppErrorView::CollectionNotFound(
                collection_name@,
            )),
    {
        match table_map_remove(&mut self.collections, collection_name) {
            Some(mut table) => {
                let ghost before = table;
                table.insert(document);
                let ghost after = table;
                table_map_insert(&mut self.collections, text(collection_name), table);
                proof {
                    let t0 = table_entries(old(self).collections);
                    assert(table_entries(self.collections) == t0.insert(collection_name@, after));
                    assert(table_view(after) =~= table_view(before).insert(document@.id, document@));
                    assert(self.documents() =~= old(self).documents().insert(
                        collection_name@,
                        old(self).documents()[collection_name@].insert(document@.id, document@),
                    ));
                }
                Ok(())
            },
            None => {
                assert(table_entries(self.collections) =~= table_entries(old(self).collections));
                Err(ApplicationError::CollectionNotFound(text(collection_name)))
            },
        }
    }

    fn delete_document(&mut self, collection_name: &str, id: &DocumentId) -> (res: Result<(), ApplicationError>)
        ensures
            res is Ok,
    {
        match table_map_remove(&mut self.collections, collection_name) {
            Some(mut table) => {
                let ghost before = table;
                let _ = table.remove(id);
                let ghost after = table;
                table_map_insert(&mut self.collections, text(collection_name), table);
                proof {
                    let t0 = table_entries(old(self).collections);
                    assert(table_entries(self.collections) == t0.insert(collection_name@, after));
                    assert(table_view(after) =~= table_view(before).remove(id@));
                    assert(self.documents() =~= old(self).documents().insert(
                        collection_name@,
                        old(self).documents()[collection_name@].remove(id@),
                    ));
                }
                Ok(())
            },
            None => {
                assert(table_entries(self.collections) =~= table_entries(old(self).collections));
                Ok(())
            },
        }
    }

    fn search(
        &self,
        collection_name: &str,
        query: &str,
        filters: Option<&JsonMap>,
        sort: &[SortBy],
        facets: &[String],
        offset: usize,
        limit: usize,
    ) -> (res: Result<SearchResult, ApplicationError>)
        ensures
            query@.len() == 0 && filters is None ==> (res matches Err(e) && e@ == AppErrorView::InvalidInput(
                "Search requires a query or filters."@,
            )),
            !(query@.len() == 0 && filters is None) && !self.schemas().contains_key(collection_name@) ==> (res matches Err(
                e,
            ) && e@ == AppErrorView::CollectionNotFound(collection_name@)),
            !(query@.len() == 0 && filters is None) && self.schemas().contains_key(collection_name@) ==> res is Ok,
    {
        if query.is_empty() && filters.is_none() {
            return Err(ApplicationError::InvalidInput(text("Search requires a query or filters.")));
        }
        let query_lower = lowercase_text(query);
        let has_query = !query.is_empty();
        let schema = match schema_map_get(&self.schemas, collection_name) {
            Some(s) => s,
            None => {
                return Err(ApplicationError::CollectionNotFound(text(collection_name)));
            },
        };
        let docs = match table_map_documents(&self.collections, collection_name) {
            Some(v) => v,
            None => {
                proof {
                    assert(schema_entries(self.schemas).contains_key(collection_name@));
                    assert(false);
                }
                return Err(ApplicationError::CollectionNotFound(text(collection_name)));
            },
        };
        let ghost table = table_entries(self.collections)[collection_name@];
        let ghost dmap = table_view(table);
        let ghost sview = schema@;
        let ghost fpairs = filter_pairs(filters);
        assert(self.documents()[collection_name@] == dmap);
        assert(self.schemas()[collection_name@] == sview);
        proof {
            assert forall|a: int, b: int| 0 <= a < b < views(docs@).len() implies #[trigger] views(docs@)[a].id
                != #[trigger] views(docs@)[b].id by {
                assert(views(docs@)[a] == docs@[a]@ && views(docs@)[b] == docs@[b]@);
            }
        }
        let filtered = select_documents(&docs, &schema, query, query_lower.as_str(), filters);
        let ghost unsorted = views(filtered@);
        let ranked = if sort.len() > 0 {
            sort_documents(filtered, sort)
        } else {
            filtered
        };
        let ghost s = views(ranked@);
        proof {
            if sort@.len() > 0 {
                assert(same_documents(s, unsorted));
            }
            assert forall|i: int|
                #![trigger s[i]]
                0 <= i < s.len() implies dmap.contains_key(s[i].id) && s[i] == dmap[s[i].id] && selected(sview, s[i], query@, fpairs) by {
                let x = if sort@.len() > 0 {
                    assert(crate::search::occurs_at(unsorted, s[i]));
                    let j = choose|j: int| 0 <= j < unsorted.len() && unsorted[j] == s[i];
                    unsorted[j]
                } else {
                    s[i]
                };
                assert(x == s[i]);
                assert(crate::search::occurs_at(views(docs@), x));
                let j = choose|j: int| 0 <= j < views(docs@).len() && views(docs@)[j] == x;
                assert(views(docs@)[j] == docs@[j]@);
                assert(dmap.contains_key(docs@[j]@.id) && dmap[docs@[j]@.id] == docs@[j]@);
            }
            assert forall|k: Seq<char>|
                #[trigger] dmap.contains_key(k) && selected(sview, dmap[k], query@, fpairs) implies exists|i: int|
                    0 <= i < s.len() && #[trigger] s[i].id == k by {
                assert(table.view().contains_key(k));
                let j = choose|j: int| 0 <= j < docs@.len() && #[trigger] docs@[j]@.id == k;
                assert(docs@[j]@ == table.view()[k]@);
                assert(dmap[k] == docs@[j]@);
                assert(views(docs@)[j] == docs@[j]@);
                assert(crate::search::occurs_at(unsorted, views(docs@)[j]));
                let q = choose|q: int| 0 <= q < unsorted.len() && unsorted[q] == views(docs@)[j];
                if sort@.len() > 0 {
                    assert(crate::search::occurs_at(s, unsorted[q]));
                    let i = choose|i: int| 0 <= i < s.len() && s[i] == unsorted[q];
                    assert(s[i].id == k);
                } else {
                    assert(s[q].id == k);
                }
            }
            assert(ranks(s, dmap, sview, query@, fpairs, sort@));
        }
        let total_hits = ranked.len();
        let facet_counts = if facets.len() > 0 {
            calculate_facets(ranked.as_slice(), facets)
        } else {
            let empty: FacetCounts = NamedMap::new();
            proof {
                lemma_pairs_map(empty.pairs());
                assert(facets_of(facet_view(empty), s, facets@));
            }
            empty
        };
        let documents = paginate(&ranked, offset, limit);
        let r = SearchResult { documents, total_hits, facet_counts };
        assert(search_outcome(r, dmap, sview, query@, fpairs, sort@, facets@, offset, limit));
        Ok(r)
    }

    fn delete_collection(&mut self, collection_name: &str) -> (res: Result<(), ApplicationError>)
        ensures
            res is Ok,
    {
        let _ = table_map_remove(&mut self.collections, collection_name);
        let _ = schema_map_remove(&mut self.schemas, collection_name);
        assert(self.schemas() =~= old(self).schemas().remove(collection_name@));
        assert(self.documents() =~= old(self).documents().remove(collection_name@));
        Ok(())
    }

    fn index_batch(&mut self, collection_name: &str, documents: &[Document]) -> (res: Result<(), ApplicationError>)
        ensures
            old(self).documents().contains_key(collection_name@) ==> res is Ok,
            !old(self).documents().contains_key(collection_name@) ==> (res matches Err(e) && e@ == AppErrorView::CollectionNotFound(
                collection_name@,
            )) && final(self).documents() == old(self).documents(),
    {
        match table_map_remove(&mut self.collections, collection_name) {
            Some(mut table) => {
                let ghost t0 = table_entries(old(self).collections);
                let ghost start = table;
                let n = documents.len();
                for i in 0..n
                    invariant
                        n == documents@.len(),
                        table.wf(),
                        t0 == table_entries(old(self).collections),
                        t0.contains_key(collection_name@),
                        old(self).documents().contains_key(collection_name@),
                        old(self).documents() == t0.map_values(|t: DocumentTable| table_view(t)),
                        with_indexed(old(self).documents(), collection_name@, views(documents@.take(i as int))) == old(
                            self,
                        ).documents().insert(collection_name@, table_view(table)),
                {
                    let ghost before = table;
                    proof {
                        lemma_with_indexed_keeps(old(self).documents(), collection_name@, views(documents@.take(i as int)));
                    }
                    table.insert(&documents[i]);
                    proof {
                        let ds = views(documents@.take(i + 1));
                        assert(ds.drop_last() =~= views(documents@.take(i as int)));
                        assert(ds.last() == documents@[i as int]@);
                        assert(table_view(table) =~= table_view(before).insert(documents@[i as int]@.id, documents@[i as int]@));
                        let w0 = with_indexed(old(self).documents(), collection_name@, views(documents@.take(i as int)));
                        assert(w0[collection_name@] == table_view(before));
                        assert(with_indexed(old(self).documents(), collection_name@, ds) =~= old(self).documents().insert(
                            collection_name@,
                            table_view(table),
                        ));
                    }
                }
                let ghost after = table;
                table_map_insert(&mut self.collections, text(collection_name), table);
                proof {
                    assert(documents@.take(n as int) =~= documents@);
                    assert(table_entries(self.collections) == t0.remove(collection_name@).insert(collection_name@, after));
                    assert(self.documents() =~= old(self).documents().insert(collection_name@, table_view(after)));
                }
                Ok(())
            },
            None => {
                assert(table_entries(self.collections) =~= table_entries(old(self).collections));
                Err(ApplicationError::CollectionNotFound(text(collection_name)))
            },
        }
    }

    fn get_total_document_count(&self) -> (res: Result<usize, ApplicationError>)
        ensures
            res is Ok,
    {
        let sizes = table_map_sizes(&self.collections);
        let ghost docs = self.documents();
        let ghost names = sizes@.map_values(|p: (String, usize)| p.0@);
        let mut total: usize = 0;
        let n = sizes.len();
        for i in 0..n
            invariant
                n == sizes@.len(),
                names == sizes@.map_values(|p: (String, usize)| p.0@),
                docs == self.documents(),
                self.wf(),
                forall|q: int|
                    #![trigger sizes@[q]]
                    0 <= q < sizes@.len() ==> table_entries(self.collections).contains_key(sizes@[q].0@) && sizes@[q].1
                        == table_entries(self.collections)[sizes@[q].0@].view().dom().len(),
                total == if sum_sizes(names.take(i as int), docs) <= usize::MAX {
                    sum_sizes(names.take(i as int), docs)
                } else {
                    usize::MAX as nat
                },
        {
            let c = sizes[i].1;
            proof {
                let k = sizes@[i as int].0@;
                assert(names[i as int] == k);
                assert(names.take(i + 1).drop_last() =~= names.take(i as int));
                assert(names.take(i + 1).last() == k);
                assert(docs[k] == table_view(table_entries(self.collections)[k]));
                assert(docs[k].dom() =~= table_entries(self.collections)[k].view().dom());
            }
            total = total.saturating_add(c);
        }
        proof {
            assert(names.take(n as int) =~= names);
            assert(docs.dom() =~= table_entries(self.collections).dom());
            assert forall|a: int, b: int| 0 <= a < b < names.len() implies names[a] != names[b] by {
                assert(sizes@[a].0@ != sizes@[b].0@);
            }
            assert forall|k: Seq<char>| #[trigger] docs.dom().contains(k) implies exists|q: int| 0 <= q < names.len() && #[trigger] names[q] == k by {
                let q = choose|q: int| 0 <= q < sizes@.len() && #[trigger] sizes@[q].0@ == k;
                assert(names[q] == k);
            }
            assert forall|q: int| 0 <= q < names.len() implies docs.dom().contains(#[trigger] names[q]) by {
                assert(names[q] == sizes@[q].0@);
            }
            assert(enumerates(names, docs.dom()));
            lemma_sum_sizes_any_listing(names, docs);
        }
        Ok(total)
    }
}

} // verus!
