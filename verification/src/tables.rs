//! The concurrent hash maps (`dashmap::DashMap`) that hold schemas,
//! documents and per-collection document tables, seen through what each map
//! holds.
//!
//! Every item here trusts `dashmap`: a map holds at most one value per key
//! (keys compared by their `Eq`, which for `String` and `DocumentId` is
//! equality of their characters), `insert` replaces the value of an equal
//! key, `remove` takes it out, `len` counts the entries, and iteration visits
//! each entry once, in an order that depends on hashing.
use vstd::prelude::*;
use dashmap::DashMap;
use crate::domain::{CollectionSchema, Document, DocumentId};

verus! {

broadcast use vstd::string::group_string_axioms;

#[verifier::external_type_specification]
#[verifier::external_body]
#[verifier::reject_recursive_types(K)]
#[verifier::reject_recursive_types(V)]
#[verifier::reject_recursive_types(S)]
pub struct ExDashMap<K, V, S>(DashMap<K, V, S>);

// ---------------------------------------------------------------------
// Documents of one collection, keyed by document id.
// ---------------------------------------------------------------------

/// What a map of documents holds: document id to document.
pub uninterp spec fn document_entries(m: DashMap<DocumentId, Document>) -> Map<Seq<char>, Document>;

/// `DashMap::new` for documents: an empty map.
#[verifier::external_body]
pub(crate) fn document_map_new() -> (res: DashMap<DocumentId, Document>)
    ensures
        document_entries(res).dom() == Set::<Seq<char>>::empty(),
{
    DashMap::new()
}

/// `DashMap::insert`: the document is stored under `id`, replacing any
/// document with an equal id.
#[verifier::external_body]
pub(crate) fn document_map_insert(m: &mut DashMap<DocumentId, Document>, id: DocumentId, doc: Document)
    ensures
        document_entries(*final(m)) == document_entries(*old(m)).insert(id@, doc),
{
    m.insert(id, doc);
}

/// `DashMap::remove`: takes out the document stored under `id`; tells
/// whether there was one.
#[verifier::external_body]
pub(crate) fn document_map_remove(m: &mut DashMap<DocumentId, Document>, id: &DocumentId) -> (res: bool)
    ensures
        document_entries(*final(m)) == document_entries(*old(m)).remove(id@),
        res == document_entries(*old(m)).contains_key(id@),
{
    m.remove(id).is_some()
}

/// `DashMap::get`, with the document copied out.
#[verifier::external_body]
pub(crate) fn document_map_get(m: &DashMap<DocumentId, Document>, id: &DocumentId) -> (res: Option<Document>)
    ensures
        match res {
            Some(d) => document_entries(*m).contains_key(id@) && d@ == document_entries(*m)[id@]@,
            None => !document_entries(*m).contains_key(id@),
        },
{
    m.get(id).map(|r| r.value().clone())
}

/// `DashMap::len`: the number of documents.
#[verifier::external_body]
pub(crate) fn document_map_len(m: &DashMap<DocumentId, Document>) -> (res: usize)
    ensures
        res == document_entries(*m).dom().len(),
{
    m.len()
}

/// `DashMap::iter`, with each entry copied out: every stored document once,
/// with its id, in the map's iteration order.
#[verifier::external_body]
pub(crate) fn document_map_entries(m: &DashMap<DocumentId, Document>) -> (res: Vec<(DocumentId, Document)>)
    ensures
        res@.len() == document_entries(*m).dom().len(),
        forall|i: int, j: int|
            0 <= i < j < res@.len() ==> #[trigger] res@[i].0@ != #[trigger] res@[j].0@,
        forall|i: int|
            #![trigger res@[i]]
            0 <= i < res@.len() ==> document_entries(*m).contains_key(res@[i].0@) && res@[i].1@
                == document_entries(*m)[res@[i].0@]@,
        forall|k: Seq<char>|
            #[trigger] document_entries(*m).contains_key(k) ==> exists|i: int|
                0 <= i < res@.len() && #[trigger] res@[i].0@ == k,
{
    m.iter().map(|r| (r.key().clone(), r.value().clone())).collect()
}

// ---------------------------------------------------------------------
// Schemas, keyed by collection name.
// ---------------------------------------------------------------------

/// What a map of schemas holds: collection name to schema.
pub uninterp spec fn schema_entries(m: DashMap<String, CollectionSchema>) -> Map<Seq<char>, CollectionSchema>;

/// `DashMap::new` for schemas: an empty map.
#[verifier::external_body]
pub(crate) fn schema_map_new() -> (res: DashMap<String, CollectionSchema>)
    ensures
        schema_entries(res).dom() == Set::<Seq<char>>::empty(),
{
    DashMap::new()
}

/// `DashMap::insert`: the schema is stored under `name`, replacing any
/// schema of that name.
#[verifier::external_body]
pub(crate) fn schema_map_insert(m: &mut DashMap<String, CollectionSchema>, name: String, schema: CollectionSchema)
    ensures
        schema_entries(*final(m)) == schema_entries(*old(m)).insert(name@, schema),
{
    m.insert(name, schema);
}

/// `DashMap::remove`: takes out the schema named `name`; tells whether
/// there was one.
#[verifier::external_body]
pub(crate) fn schema_map_remove(m: &mut DashMap<String, CollectionSchema>, name: &str) -> (res: bool)
    ensures
        schema_entries(*final(m)) == schema_entries(*old(m)).remove(name@),
        res == schema_entries(*old(m)).contains_key(name@),
{
    m.remove(name).is_some()
}

/// `DashMap::get`, with the schema copied out.
#[verifier::external_body]
pub(crate) fn schema_map_get(m: &DashMap<String, CollectionSchema>, name: &str) -> (res: Option<CollectionSchema>)
    ensures
        match res {
            Some(s) => schema_entries(*m).contains_key(name@) && s@ == schema_entries(*m)[name@]@,
            None => !schema_entries(*m).contains_key(name@),
        },
{
    m.get(name).map(|r| r.value().clone())
}

/// `DashMap::iter`, keeping the keys: every collection name once, in the
/// map's iteration order.
#[verifier::external_body]
pub(crate) fn schema_map_names(m: &DashMap<String, CollectionSchema>) -> (res: Vec<String>)
    ensures
        res@.len() == schema_entries(*m).dom().len(),
        forall|i: int, j: int| 0 <= i < j < res@.len() ==> #[trigger] res@[i]@ != #[trigger] res@[j]@,
        forall|i: int| 0 <= i < res@.len() ==> schema_entries(*m).contains_key(#[trigger] res@[i]@),
        forall|k: Seq<char>|
            #[trigger] schema_entries(*m).contains_key(k) ==> exists|i: int|
                0 <= i < res@.len() && #[trigger] res@[i]@ == k,
{
    m.iter().map(|r| r.key().clone()).collect()
}

// ---------------------------------------------------------------------
// Document tables, keyed by collection name.
// ---------------------------------------------------------------------

/// The documents of one collection.
pub struct DocumentTable {
    docs: DashMap<DocumentId, Document>,
}

impl DocumentTable {
    /// The documents by id.
    pub closed spec fn view(&self) -> Map<Seq<char>, Document> {
        document_entries(self.docs)
    }

    /// Each document is stored under its own id, and there are finitely many.
    pub open spec fn wf(&self) -> bool {
        &&& self.view().dom().finite()
        &&& forall|k: Seq<char>| #[trigger] self.view().contains_key(k) ==> self.view()[k]@.id == k
    }

    /// An empty table.
    pub fn new() -> (res: Self)
        ensures
            res.wf(),
            res.view().dom() == Set::<Seq<char>>::empty(),
    {
        DocumentTable { docs: document_map_new() }
    }

    /// Stores a copy of `doc` under its id, replacing any document with that id.
    pub fn insert(&mut self, doc: &Document)
        requires
            old(self).wf(),
        ensures
            final(self).wf(),
            final(self).view().dom() == old(self).view().dom().insert(doc@.id),
            forall|k: Seq<char>| #[trigger] final(self).view().contains_key(k) ==> final(self).view()[k]@
                == if k == doc@.id { doc@ } else { old(self).view()[k]@ },
    {
        let id = doc.id().clone();
        let copy = doc.clone();
        document_map_insert(&mut self.docs, id, copy);
    }

    /// Removes the document with id `id`; tells whether there was one.
    pub fn remove(&mut self, id: &DocumentId) -> (res: bool)
        requires
            old(self).wf(),
        ensures
            final(self).wf(),
            final(self).view() == old(self).view().remove(id@),
            res == old(self).view().contains_key(id@),
    {
        document_map_remove(&mut self.docs, id)
    }

    /// A copy of the document with id `id`, if there is one.
    pub fn get(&self, id: &DocumentId) -> (res: Option<Document>)
        ensures
            match res {
                Some(d) => self.view().contains_key(id@) && d@ == self.view()[id@]@,
                None => !self.view().contains_key(id@),
            },
    {
        document_map_get(&self.docs, id)
    }

    /// The number of documents.
    pub fn len(&self) -> (res: usize)
        ensures
            res == self.view().dom().len(),
    {
        document_map_len(&self.docs)
    }

    /// Copies of all documents, each once, in the table's iteration order.
    pub fn documents(&self) -> (res: Vec<Document>)
        requires
            self.wf(),
        ensures
            lists_documents(res@, self.view()),
    {
        let entries = document_map_entries(&self.docs);
        let mut res: Vec<Document> = Vec::new();
        let n = entries.len();
        for i in 0..n
            invariant
                n == entries@.len(),
                self.wf(),
                res@.len() == i,
                forall|j: int|
                    #![trigger res@[j]]
                    0 <= j < i ==> res@[j]@ == entries@[j].1@,
        {
            let d = entries[i].1.clone();
            res.push(d);
        }
        proof {
            assert forall|i: int| #![trigger res@[i]] 0 <= i < res@.len() implies res@[i]@.id
                == entries@[i].0@ by {
                assert(self.view()[entries@[i].0@]@.id == entries@[i].0@);
            }
            assert forall|i: int, j: int| 0 <= i < j < res@.len() implies #[trigger] res@[i]@.id
                != #[trigger] res@[j]@.id by {
                assert(res@[i]@.id == entries@[i].0@);
                assert(res@[j]@.id == entries@[j].0@);
            }
            assert forall|k: Seq<char>| #[trigger] self.view().contains_key(k) implies exists|i: int|
                0 <= i < res@.len() && #[trigger] res@[i]@.id == k by {
                let i = choose|i: int| 0 <= i < entries@.len() && #[trigger] entries@[i].0@ == k;
                assert(res@[i]@.id == k);
            }
        }
        res
    }
}

/// What a map of document tables holds: collection name to table.
pub uninterp spec fn table_entries(m: DashMap<String, DocumentTable>) -> Map<Seq<char>, DocumentTable>;

/// `DashMap::new` for document tables: an empty map.
#[verifier::external_body]
pub(crate) fn table_map_new() -> (res: DashMap<String, DocumentTable>)
    ensures
        table_entries(res).dom() == Set::<Seq<char>>::empty(),
{
    DashMap::new()
}

/// `DashMap::insert`: the table is stored under `name`, replacing any table
/// of that name.
#[verifier::external_body]
pub(crate) fn table_map_insert(m: &mut DashMap<String, DocumentTable>, name: String, table: DocumentTable)
    ensures
        table_entries(*final(m)) == table_entries(*old(m)).insert(name@, table),
{
    m.insert(name, table);
}

/// `DashMap::remove`: takes out the table named `name`, if there is one.
#[verifier::external_body]
pub(crate) fn table_map_remove(m: &mut DashMap<String, DocumentTable>, name: &str) -> (res: Option<DocumentTable>)
    ensures
        table_entries(*final(m)) == table_entries(*old(m)).remove(name@),
        match res {
            Some(t) => table_entries(*old(m)).contains_key(name@) && t == table_entries(*old(m))[name@],
            None => !table_entries(*old(m)).contains_key(name@),
        },
{
    m.remove(name).map(|(_, t)| t)
}

/// `DashMap::contains_key` on tables.
#[verifier::external_body]
pub(crate) fn table_map_contains(m: &DashMap<String, DocumentTable>, name: &str) -> (res: bool)
    ensures
        res == table_entries(*m).contains_key(name@),
{
    m.contains_key(name)
}

/// `DashMap::iter`, keeping each name with the size of its table: every
/// collection once, in the map's iteration order.
#[verifier::external_body]
pub(crate) fn table_map_sizes(m: &DashMap<String, DocumentTable>) -> (res: Vec<(String, usize)>)
    ensures
        res@.len() == table_entries(*m).dom().len(),
        forall|i: int, j: int|
            0 <= i < j < res@.len() ==> #[trigger] res@[i].0@ != #[trigger] res@[j].0@,
        forall|i: int|
            #![trigger res@[i]]
            0 <= i < res@.len() ==> table_entries(*m).contains_key(res@[i].0@) && res@[i].1
                == table_entries(*m)[res@[i].0@].view().dom().len(),
        forall|k: Seq<char>|
            #[trigger] table_entries(*m).contains_key(k) ==> exists|i: int|
                0 <= i < res@.len() && #[trigger] res@[i].0@ == k,
{
    m.iter().map(|r| (r.key().clone(), r.value().len())).collect()
}

/// `DashMap::get` on the table named `name`, with copies of its documents
/// taken (see `DocumentTable::documents`).
#[verifier::external_body]
pub(crate) fn table_map_documents(m: &DashMap<String, DocumentTable>, name: &str) -> (res: Option<Vec<Document>>)
    requires
        table_entries(*m).contains_key(name@) ==> table_entries(*m)[name@].wf(),
    ensures
        match res {
            None => !table_entries(*m).contains_key(name@),
            Some(v) => table_entries(*m).contains_key(name@) && lists_documents(
                v@,
                table_entries(*m)[name@].view(),
            ),
        },
{
    m.get(name).map(|t| t.value().documents())
}

/// `DashMap::get` on the table named `name`, with a copy of the document
/// `id` taken (see `DocumentTable::get`).
#[verifier::external_body]
pub(crate) fn table_map_find(m: &DashMap<String, DocumentTable>, name: &str, id: &DocumentId) -> (res: Option<Document>)
    ensures
        match res {
            None => !(table_entries(*m).contains_key(name@) && table_entries(*m)[name@].view().contains_key(id@)),
            Some(d) => table_entries(*m).contains_key(name@) && table_entries(*m)[name@].view().contains_key(id@)
                && d@ == table_entries(*m)[name@].view()[id@]@,
        },
{
    m.get(name).and_then(|t| t.value().get(id))
}

/// `v` holds each document of `docs` once, as a copy: as many items as
/// documents, distinct ids, each item a stored document, each stored
/// document among the items.
pub open spec fn lists_documents(v: Seq<Document>, docs: Map<Seq<char>, Document>) -> bool {
    &&& v.len() == docs.dom().len()
    &&& forall|i: int, j: int| 0 <= i < j < v.len() ==> #[trigger] v[i]@.id != #[trigger] v[j]@.id
    &&& forall|i: int|
        #![trigger v[i]]
        0 <= i < v.len() ==> docs.contains_key(v[i]@.id) && v[i]@ == docs[v[i]@.id]@
    &&& forall|k: Seq<char>|
        #[trigger] docs.contains_key(k) ==> exists|i: int| 0 <= i < v.len() && #[trigger] v[i]@.id == k
}

} // verus!
