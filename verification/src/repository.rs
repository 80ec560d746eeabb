//! Storage of collection schemas and documents: the repository interfaces
//! and their in-memory implementations.
use vstd::prelude::*;
use dashmap::DashMap;
use crate::domain::{CollectionSchema, Document, DocumentId, DocumentView, SchemaView};
use crate::errors::ApplicationError;
use crate::tables::{
    schema_entries, schema_map_get, schema_map_insert, schema_map_names, schema_map_new,
    schema_map_remove, table_entries, table_map_find, table_map_insert, table_map_new,
    table_map_remove, DocumentTable,
};

verus! {

broadcast use vstd::string::group_string_axioms;

/// `names` lists the set `keys`: each key once, nothing else.
pub open spec fn lists_names(names: Seq<String>, keys: Set<Seq<char>>) -> bool {
    &&& names.len() == keys.len()
    &&& forall|i: int, j: int| 0 <= i < j < names.len() ==> #[trigger] names[i]@ != #[trigger] names[j]@
    &&& forall|i: int| 0 <= i < names.len() ==> keys.contains(#[trigger] names[i]@)
    &&& forall|k: Seq<char>| #[trigger] keys.contains(k) ==> exists|i: int| 0 <= i < names.len() && #[trigger] names[i]@ == k
}

/// Storage of collection schemas.
pub trait SchemaRepository: Sized {
    /// The stored schemas, by collection name.
    spec fn schemas(&self) -> Map<Seq<char>, SchemaView>;

    spec fn wf(&self) -> bool;

    /// Whether every call on this store succeeds.
    spec fn reliable() -> bool;

    /// Saves (creates or replaces) a schema under its name.
    fn save(&mut self, schema: &CollectionSchema) -> (res: Result<(), ApplicationError>)
        requires
            old(self).wf(),
        ensures
            final(self).wf(),
            res is Ok ==> final(self).schemas() == old(self).schemas().insert(schema@.name, schema@),
            res is Err ==> final(self).schemas() == old(self).schemas(),
            Self::reliable() ==> res is Ok,
    ;

    /// The schema named `name`, if there is one.
    fn get(&self, name: &str) -> (res: Result<Option<CollectionSchema>, ApplicationError>)
        requires
            self.wf(),
        ensures
            res matches Ok(found) ==> match found {
                Some(s) => self.schemas().contains_key(name@) && s@ == self.schemas()[name@],
                None => !self.schemas().contains_key(name@),
            },
            Self::reliable() ==> res is Ok,
    ;

    /// Deletes the schema named `name`; tells whether there was one.
    fn delete(&mut self, name: &str) -> (res: Result<bool, ApplicationError>)
        requires
            old(self).wf(),
        ensures
            final(self).wf(),
            res matches Ok(b) ==> b == old(self).schemas().contains_key(name@)
                && final(self).schemas() == old(self).schemas().remove(name@),
            res is Err ==> final(self).schemas() == old(self).schemas(),
            Self::reliable() ==> res is Ok,
    ;

    /// The names of all stored schemas.
    fn list(&self) -> (res: Result<Vec<String>, ApplicationError>)
        requires
            self.wf(),
        ensures
            res matches Ok(names) ==> lists_names(names@, self.schemas().dom()),
            Self::reliable() ==> res is Ok,
    ;
}

/// Schemas held in memory.
pub struct InMemorySchemaRepository {
    schemas: DashMap<String, CollectionSchema>,
}

impl InMemorySchemaRepository {
    pub fn new() -> (res: Self)
        ensures
            res.wf(),
            res.schemas() == Map::<Seq<char>, SchemaView>::empty(),
    {
        let res = InMemorySchemaRepository { schemas: schema_map_new() };
        assert(res.schemas() =~= Map::<Seq<char>, SchemaView>::empty());
        res
    }
}

impl Default for InMemorySchemaRepository {
    fn default() -> (res: Self)
        ensures
            res.wf(),
            res.schemas() == Map::<Seq<char>, SchemaView>::empty(),
    {
        Self::new()
    }
}

impl SchemaRepository for InMemorySchemaRepository {
    closed spec fn schemas(&self) -> Map<Seq<char>, SchemaView> {
        schema_entries(self.schemas).map_values(|s: CollectionSchema| s@)
    }

    closed spec fn wf(&self) -> bool {
        schema_entries(self.schemas).dom().finite()
    }

    open spec fn reliable() -> bool {
        true
    }

    fn save(&mut self, schema: &CollectionSchema) -> (res: Result<(), ApplicationError>)
        ensures
            res is Ok,
    {
        let copy = schema.clone();
        schema_map_insert(&mut self.schemas, schema.collection_name().clone(), copy);
        assert(self.schemas() =~= old(self).schemas().insert(schema@.name, schema@));
        Ok(())
    }

    fn get(&self, name: &str) -> (res: Result<Option<CollectionSchema>, ApplicationError>)
        ensures
            res is Ok,
    {
        Ok(schema_map_get(&self.schemas, name))
    }

    fn delete(&mut self, name: &str) -> (res: Result<bool, ApplicationError>)
        ensures
            res is Ok,
    {
        let found = schema_map_remove(&mut self.schemas, name);
        assert(self.schemas() =~= old(self).schemas().remove(name@));
        Ok(found)
    }

    fn list(&self) -> (res: Result<Vec<String>, ApplicationError>)
        ensures
            res is Ok,
    {
        let names = schema_map_names(&self.schemas);
        assert(self.schemas().dom() =~= schema_entries(self.schemas).dom());
        Ok(names)
    }
}

/// The documents after saving `d` into collection `c`.
pub open spec fn with_document(
    docs: Map<(Seq<char>, Seq<char>), DocumentView>,
    c: Seq<char>,
    d: DocumentView,
) -> Map<(Seq<char>, Seq<char>), DocumentView> {
    docs.insert((c, d.id), d)
}

/// The documents after saving `ds` in order into collection `c`.
pub open spec fn with_documents(
    docs: Map<(Seq<char>, Seq<char>), DocumentView>,
    c: Seq<char>,
    ds: Seq<DocumentView>,
) -> Map<(Seq<char>, Seq<char>), DocumentView>
    decreases ds.len(),
{
    if ds.len() == 0 {
        docs
    } else {
        with_document(with_documents(docs, c, ds.drop_last()), c, ds.last())
    }
}

/// The views of a list of documents.
pub open spec fn document_views(ds: Seq<Document>) -> Seq<DocumentView> {
    ds.map_values(|d: Document| d@)
}

/// Storage of documents, by collection.
pub trait DocumentRepository: Sized {
    /// The stored documents, by (collection name, document id).
    spec fn documents(&self) -> Map<(Seq<char>, Seq<char>), DocumentView>;

    spec fn wf(&self) -> bool;

    /// Whether every call on this store succeeds.
    spec fn reliable() -> bool;

    /// Saves (adds or replaces) a document in a collection.
    fn save(&mut self, collection_name: &str, document: &Document) -> (res: Result<(), ApplicationError>)
        requires
            old(self).wf(),
        ensures
            final(self).wf(),
            res is Ok ==> final(self).documents() == with_document(old(self).documents(), collection_name@, document@),
            res is Err ==> final(self).documents() == old(self).documents(),
            Self::reliable() ==> res is Ok,
    ;

    /// The document `id` of a collection, if there is one.
    fn get(&self, collection_name: &str, id: &DocumentId) -> (res: Result<Option<Document>, ApplicationError>)
        requires
            self.wf(),
        ensures
            res matches Ok(found) ==> match found {
                Some(d) => self.documents().contains_key((collection_name@, id@)) && d@
                    == self.documents()[(collection_name@, id@)],
                None => !self.documents().contains_key((collection_name@, id@)),
            },
            Self::reliable() ==> res is Ok,
    ;

    /// Deletes the document `id` of a collection; tells whether there was one.
    fn delete(&mut self, collection_name: &str, id: &DocumentId) -> (res: Result<bool, ApplicationError>)
        requires
            old(self).wf(),
        ensures
            final(self).wf(),
            res matches Ok(b) ==> b == old(self).documents().contains_key((collection_name@, id@))
                && final(self).documents() == old(self).documents().remove((collection_name@, id@)),
            res is Err ==> final(self).documents() == old(self).documents(),
            Self::reliable() ==> res is Ok,
    ;

    /// Saves several documents, in order; stops at the first failure.
    fn save_batch(&mut self, collection_name: &str, documents: &[Document]) -> (res: Result<(), ApplicationError>)
        requires
            old(self).wf(),
        ensures
            final(self).wf(),
            res is Ok ==> final(self).documents() == with_documents(
                old(self).documents(),
                collection_name@,
                document_views(documents@),
            ),
            Self::reliable() ==> res is Ok,
        default_ensures
            documents@.len() == 0 ==> res is Ok,
            res is Err ==> exists|k: int|
                0 <= k < documents@.len() && final(self).documents() == #[trigger] with_documents(
                    old(self).documents(),
                    collection_name@,
                    document_views(documents@.take(k)),
                ),
    {
        let n = documents.len();
        for i in 0..n
            invariant
                n == documents@.len(),
                self.wf(),
                self.documents() == with_documents(
                    old(self).documents(),
                    collection_name@,
                    document_views(documents@.take(i as int)),
                ),
        {
            match self.save(collection_name, &documents[i]) {
                Ok(()) => {},
                Err(e) => {
                    assert(self.documents() == with_documents(
                        old(self).documents(),
                        collection_name@,
                        document_views(documents@.take(i as int)),
                    ));
                    return Err(e);
                },
            }
            assert(document_views(documents@.take(i + 1)).drop_last() =~= document_views(
                documents@.take(i as int),
            ));
        }
        assert(documents@.take(n as int) =~= documents@);
        Ok(())
    }
}

/// Documents held in memory: a table of documents per collection.
pub struct InMemoryDocumentRepository {
    store: DashMap<String, DocumentTable>,
}

impl InMemoryDocumentRepository {
    pub fn new() -> (res: Self)
        ensures
            res.wf(),
            res.documents() == Map::<(Seq<char>, Seq<char>), DocumentView>::empty(),
    {
        let res = InMemoryDocumentRepository { store: table_map_new() };
        assert(res.documents() =~= Map::<(Seq<char>, Seq<char>), DocumentView>::empty());
        res
    }

    /// Takes the table of `collection_name` out of the store, or a new empty
    /// one.
    fn take_table(&mut self, collection_name: &str) -> (res: DocumentTable)
        requires
            old(self).wf(),
        ensures
            final(self).wf(),
            res.wf(),
            table_entries(final(self).store) == table_entries(old(self).store).remove(collection_name@),
            table_entries(old(self).store).contains_key(collection_name@) ==> res == table_entries(
                old(self).store,
            )[collection_name@],
            !table_entries(old(self).store).contains_key(collection_name@) ==> res.view().dom()
                == Set::<Seq<char>>::empty(),
    {
        match table_map_remove(&mut self.store, collection_name) {
            Some(t) => t,
            None => DocumentTable::new(),
        }
    }
}

impl Default for InMemoryDocumentRepository {
    fn default() -> (res: Self)
        ensures
            res.wf(),
            res.documents() == Map::<(Seq<char>, Seq<char>), DocumentView>::empty(),
    {
        Self::new()
    }
}

impl DocumentRepository for InMemoryDocumentRepository {
    closed spec fn documents(&self) -> Map<(Seq<char>, Seq<char>), DocumentView> {
        let t = table_entries(self.store);
        Map::new(
            |k: (Seq<char>, Seq<char>)| t.contains_key(k.0) && t[k.0].view().contains_key(k.1),
            |k: (Seq<char>, Seq<char>)| t[k.0].view()[k.1]@,
        )
    }

    open spec fn reliable() -> bool {
        true
    }

    closed spec fn wf(&self) -> bool {
        &&& table_entries(self.store).dom().finite()
        &&& forall|c: Seq<char>| #[trigger] table_entries(self.store).contains_key(c) ==> table_entries(self.store)[c].wf()
    }

    fn save(&mut self, collection_name: &str, document: &Document) -> (res: Result<(), ApplicationError>)
        ensures
            res is Ok,
    {
        let mut table = self.take_table(collection_name);
        let ghost before = table;
        table.insert(document);
        let ghost after = table;
        let key = crate::text::text(collection_name);
        table_map_insert(&mut self.store, key, table);
        proof {
            let t0 = table_entries(old(self).store);
            let t1 = table_entries(self.store);
            assert(t1 == t0.insert(collection_name@, after));
            assert forall|k: (Seq<char>, Seq<char>)| #[trigger] self.documents().contains_key(k) <==> with_document(
                old(self).documents(),
                collection_name@,
                document@,
            ).contains_key(k) by {
                if k.0 == collection_name@ && k.1 != document@.id && t0.contains_key(k.0) {
                    assert(before == t0[k.0]);
                }
            }
            assert forall|k: (Seq<char>, Seq<char>)| #[trigger] self.documents().contains_key(k) implies self.documents()[k]
                == with_document(old(self).documents(), collection_name@, document@)[k] by {
                if k.0 == collection_name@ && k.1 != document@.id {
                    assert(before == t0[k.0]);
                }
            }
            assert(self.documents() =~= with_document(old(self).documents(), collection_name@, document@));
        }
        Ok(())
    }

    fn get(&self, collection_name: &str, id: &DocumentId) -> (res: Result<Option<Document>, ApplicationError>)
        ensures
            res is Ok,
    {
        Ok(table_map_find(&self.store, collection_name, id))
    }

    fn delete(&mut self, collection_name: &str, id: &DocumentId) -> (res: Result<bool, ApplicationError>)
        ensures
            res is Ok,
    {
        match table_map_remove(&mut self.store, collection_name) {
            None => {
                assert(table_entries(self.store) =~= table_entries(old(self).store));
                assert(self.documents() =~= old(self).documents().remove((collection_name@, id@)));
                Ok(false)
            },
            Some(mut table) => {
                let ghost before = table;
                let found = table.remove(id);
                let ghost after = table;
                let key = crate::text::text(collection_name);
                table_map_insert(&mut self.store, key, table);
                proof {
                    let t0 = table_entries(old(self).store);
                    assert(table_entries(self.store) == t0.insert(collection_name@, after));
                    assert(before == t0[collection_name@]);
                    assert(self.documents() =~= old(self).documents().remove((collection_name@, id@)));
                }
                Ok(found)
            },
        }
    }

    fn save_batch(&mut self, collection_name: &str, documents: &[Document]) -> (res: Result<(), ApplicationError>)
        ensures
            res is Ok,
    {
        let n = documents.len();
        for i in 0..n
            invariant
                n == documents@.len(),
                self.wf(),
                self.documents() == with_documents(
                    old(self).documents(),
                    collection_name@,
                    document_views(documents@.take(i as int)),
                ),
        {
            let _ = self.save(collection_name, &documents[i]);
            assert(document_views(documents@.take(i + 1)).drop_last() =~= document_views(
                documents@.take(i as int),
            ));
        }
        assert(documents@.take(n as int) =~= documents@);
        Ok(())
    }
}

} // verus!
