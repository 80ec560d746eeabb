//! Properties that hold across the library's operations.
use vstd::prelude::*;
use crate::domain::{
    document_error, entry_error, field_problem, find_field, first_entry_error, first_field_problem,
    first_missing, fits, lemma_find_field_prefix, lemma_first_problem_none, schema_problem,
    stored_value, DocumentView, FieldDefinition, SchemaView,
};
use crate::index::{
    enumerates, lemma_sum_sizes_any_listing, lemma_with_indexed_keeps, ranks, selected, sum_sizes,
    total_documents, with_indexed,
};
use crate::repository::{with_document, with_documents};
use crate::stats::{lies_within_path, plain_path, without_trailing_slash};
use crate::search::{facet_count, facets_of, order_by, page, sorted_by, value_order, SortBy};
use crate::text::{
    char_lower, known_case, lex_order, lower_chars, occurs_in, simple_lower, text_lowercase, Order,
};
use crate::value::{keys_distinct, lemma_pairs_map, pairs_map, DocValue, JsonMap, JsonValue};

verus! {

/// A valid schema's fields have distinct names, so the lookup table of the
/// built schema gives back each field under its own name.
pub proof fn law_built_schema_finds_each_field(name: Seq<char>, fields: Seq<FieldDefinition>)
    requires
        schema_problem(name, fields) is None,
    ensures
        forall|i: int| 0 <= i < fields.len() ==> #[trigger] find_field(fields, fields[i].name@) == Some(fields[i]),
{
    lemma_first_problem_none(fields, fields.len());
    assert forall|i: int| 0 <= i < fields.len() implies #[trigger] find_field(fields, fields[i].name@) == Some(fields[i]) by {
        assert forall|j: int| 0 <= j < i implies #[trigger] fields[j].name@ != fields[i].name@ by {
            assert(field_problem(fields, i) is None);
        }
        lemma_find_field_prefix(fields, fields[i].name@, i);
        assert(fields.skip(i)[0] == fields[i]);
    }
}

proof fn lemma_no_entry_error(l: Seq<FieldDefinition>, s: Seq<(String, JsonValue)>, n: nat)
    requires
        n <= s.len(),
        first_entry_error(l, s, n) is None,
    ensures
        forall|i: int| 0 <= i < n ==> #[trigger] entry_error(l, s[i].0@, s[i].1) is None,
    decreases n,
{
    if n > 0 {
        lemma_no_entry_error(l, s, (n - 1) as nat);
    }
}

proof fn lemma_no_missing(l: Seq<FieldDefinition>, provided: Map<Seq<char>, JsonValue>, n: nat)
    requires
        n <= l.len(),
        first_missing(l, provided, n) is None,
    ensures
        forall|i: int| 0 <= i < n && !(#[trigger] l[i]).optional ==> provided.contains_key(l[i].name@),
    decreases n,
{
    if n > 0 {
        lemma_no_missing(l, provided, (n - 1) as nat);
    }
}

/// Fields that make a document conform to the schema: each provided field
/// is defined in the lookup table with a type that its value has, and each
/// required field is provided.
pub proof fn law_document_conforms(l: Seq<FieldDefinition>, fields: JsonMap)
    requires
        keys_distinct(fields.pairs()),
        document_error(l, fields) is None,
    ensures
        forall|k: Seq<char>| #[trigger] fields@.contains_key(k) ==> find_field(l, k) is Some && fits(
            find_field(l, k)->0.field_type,
            fields@[k],
        ),
        forall|i: int| 0 <= i < l.len() && !(#[trigger] l[i]).optional ==> fields@.contains_key(l[i].name@),
{
    let s = fields.pairs();
    lemma_no_entry_error(l, s, s.len());
    lemma_no_missing(l, fields@, l.len());
    lemma_pairs_map(s);
    assert forall|k: Seq<char>| #[trigger] fields@.contains_key(k) implies find_field(l, k) is Some && fits(
        find_field(l, k)->0.field_type,
        fields@[k],
    ) by {
        let i = choose|i: int| 0 <= i < s.len() && #[trigger] s[i].0@ == k;
        assert(entry_error(l, s[i].0@, s[i].1) is None);
        assert(pairs_map(s)[s[i].0@] == s[i].1);
    }
}

/// Reading a document back after saving it gives the saved document, and
/// saving leaves every other document as it was.
pub proof fn law_document_read_after_save(
    docs: Map<(Seq<char>, Seq<char>), DocumentView>,
    c: Seq<char>,
    d: DocumentView,
)
    ensures
        with_document(docs, c, d).contains_key((c, d.id)),
        with_document(docs, c, d)[(c, d.id)] == d,
        forall|k: (Seq<char>, Seq<char>)|
            k != (c, d.id) ==> #[trigger] with_document(docs, c, d).contains_key(k) == docs.contains_key(k)
                && (docs.contains_key(k) ==> with_document(docs, c, d)[k] == docs[k]),
{
}

/// After a document is deleted, reading it gives nothing.
pub proof fn law_document_gone_after_delete(
    docs: Map<(Seq<char>, Seq<char>), DocumentView>,
    c: Seq<char>,
    id: Seq<char>,
)
    ensures
        !docs.remove((c, id)).contains_key((c, id)),
{
}

/// After a batch is saved, every document of the batch can be read back
/// in its last saved version.
pub proof fn law_batch_read_after_save(
    docs: Map<(Seq<char>, Seq<char>), DocumentView>,
    c: Seq<char>,
    ds: Seq<DocumentView>,
)
    ensures
        forall|i: int| 0 <= i < ds.len() ==> #[trigger] with_documents(docs, c, ds).contains_key((c, ds[i].id)),
    decreases ds.len(),
{
    if ds.len() > 0 {
        law_batch_read_after_save(docs, c, ds.drop_last());
        assert forall|i: int| 0 <= i < ds.len() implies #[trigger] with_documents(docs, c, ds).contains_key((c, ds[i].id)) by {
            if i < ds.len() - 1 {
                assert(ds.drop_last()[i] == ds[i]);
                assert(with_documents(docs, c, ds.drop_last()).contains_key((c, ds.drop_last()[i].id)));
            }
        }
    }
}

/// After a schema is saved, reading it gives the saved schema.
pub proof fn law_schema_read_after_save(schemas: Map<Seq<char>, SchemaView>, s: SchemaView)
    ensures
        schemas.insert(s.name, s).contains_key(s.name),
        schemas.insert(s.name, s)[s.name] == s,
{
}

proof fn lemma_lex_order_same(a: Seq<char>)
    ensures
        lex_order(a, a) == Order::Equal,
    decreases a.len(),
{
    if a.len() > 0 {
        lemma_lex_order_same(a.drop_first());
    }
}

/// A document compares as equal to itself under any sort criteria.
pub proof fn law_order_reflexive(a: DocumentView, sort: Seq<SortBy>)
    ensures
        order_by(a, a, sort) == Order::Equal,
    decreases sort.len(),
{
    if sort.len() > 0 {
        if a.fields.contains_key(sort[0].field@) {
            match a.fields[sort[0].field@] {
                DocValue::Text(t) => lemma_lex_order_same(t@),
                _ => {},
            }
        }
        law_order_reflexive(a, sort.drop_first());
    }
}

/// Every hit of a search is a document of the collection, selected by the
/// query and the filters, and hits come in sort order.
pub proof fn law_hits_are_selected(
    s: Seq<DocumentView>,
    docs: Map<Seq<char>, DocumentView>,
    schema: SchemaView,
    query: Seq<char>,
    filters: Option<Seq<(String, JsonValue)>>,
    sort: Seq<SortBy>,
)
    requires
        ranks(s, docs, schema, query, filters, sort),
    ensures
        forall|i: int| 0 <= i < s.len() ==> #[trigger] selected(schema, s[i], query, filters) && docs.contains_key(s[i].id),
        sort.len() > 0 ==> forall|i: int| 0 <= i < s.len() - 1 ==> #[trigger] order_by(s[i], s[i + 1], sort) != Order::Greater,
{
    assert forall|i: int| 0 <= i < s.len() implies #[trigger] selected(schema, s[i], query, filters) && docs.contains_key(s[i].id) by {
        assert(docs.contains_key(s[i].id));
    }
}

/// A document just indexed is among the hits of every search that selects
/// it, as the version just indexed.
pub proof fn law_indexed_document_is_found(
    s: Seq<DocumentView>,
    docs: Map<Seq<char>, DocumentView>,
    d: DocumentView,
    schema: SchemaView,
    query: Seq<char>,
    filters: Option<Seq<(String, JsonValue)>>,
    sort: Seq<SortBy>,
)
    requires
        ranks(s, docs.insert(d.id, d), schema, query, filters, sort),
        selected(schema, d, query, filters),
    ensures
        exists|i: int| 0 <= i < s.len() && s[i] == d,
{
    let all = docs.insert(d.id, d);
    assert(all.contains_key(d.id) && selected(schema, all[d.id], query, filters));
    let i = choose|i: int| 0 <= i < s.len() && #[trigger] s[i].id == d.id;
    assert(s[i] == all[s[i].id]);
}

/// A document just deleted is among the hits of no search.
pub proof fn law_deleted_document_is_not_found(
    s: Seq<DocumentView>,
    docs: Map<Seq<char>, DocumentView>,
    id: Seq<char>,
    schema: SchemaView,
    query: Seq<char>,
    filters: Option<Seq<(String, JsonValue)>>,
    sort: Seq<SortBy>,
)
    requires
        ranks(s, docs.remove(id), schema, query, filters, sort),
    ensures
        forall|i: int| 0 <= i < s.len() ==> #[trigger] s[i].id != id,
{
    assert forall|i: int| 0 <= i < s.len() implies #[trigger] s[i].id != id by {
        assert(docs.remove(id).contains_key(s[i].id));
    }
}

/// Any two rankings of the same search have the same length: the number of
/// hits does not depend on the order in which the documents were visited.
pub proof fn law_hit_count_is_determined(
    s1: Seq<DocumentView>,
    s2: Seq<DocumentView>,
    docs: Map<Seq<char>, DocumentView>,
    schema: SchemaView,
    query: Seq<char>,
    filters: Option<Seq<(String, JsonValue)>>,
    sort: Seq<SortBy>,
)
    requires
        ranks(s1, docs, schema, query, filters, sort),
        ranks(s2, docs, schema, query, filters, sort),
    ensures
        s1.len() == s2.len(),
{
    let ids1 = s1.map_values(|d: DocumentView| d.id);
    let ids2 = s2.map_values(|d: DocumentView| d.id);
    assert(ids1.no_duplicates()) by {
        assert forall|a: int, b: int| 0 <= a < ids1.len() && 0 <= b < ids1.len() && a != b implies ids1[a] != ids1[b] by {
            if a < b {
                assert(s1[a].id != s1[b].id);
            } else {
                assert(s1[b].id != s1[a].id);
            }
        }
    }
    assert(ids2.no_duplicates()) by {
        assert forall|a: int, b: int| 0 <= a < ids2.len() && 0 <= b < ids2.len() && a != b implies ids2[a] != ids2[b] by {
            if a < b {
                assert(s2[a].id != s2[b].id);
            } else {
                assert(s2[b].id != s2[a].id);
            }
        }
    }
    assert(ids1.to_set() =~= ids2.to_set()) by {
        assert forall|k: Seq<char>| ids1.to_set().contains(k) implies ids2.to_set().contains(k) by {
            let i = choose|i: int| 0 <= i < ids1.len() && ids1[i] == k;
            assert(s1[i].id == k);
            assert(docs.contains_key(k) && selected(schema, docs[k], query, filters));
            let j = choose|j: int| 0 <= j < s2.len() && #[trigger] s2[j].id == k;
            assert(ids2[j] == k);
        }
        assert forall|k: Seq<char>| ids2.to_set().contains(k) implies ids1.to_set().contains(k) by {
            let i = choose|i: int| 0 <= i < ids2.len() && ids2[i] == k;
            assert(s2[i].id == k);
            assert(docs.contains_key(k) && selected(schema, docs[k], query, filters));
            let j = choose|j: int| 0 <= j < s1.len() && #[trigger] s1[j].id == k;
            assert(ids1[j] == k);
        }
    }
    ids1.unique_seq_to_set();
    ids2.unique_seq_to_set();
}

/// Any two rankings of the same search hold the same documents: repeating a
/// search on an unchanged index finds the same hits, as many of them, at
/// most in another order among documents that compare equal.
pub proof fn law_search_is_repeatable(
    s1: Seq<DocumentView>,
    s2: Seq<DocumentView>,
    docs: Map<Seq<char>, DocumentView>,
    schema: SchemaView,
    query: Seq<char>,
    filters: Option<Seq<(String, JsonValue)>>,
    sort: Seq<SortBy>,
)
    requires
        ranks(s1, docs, schema, query, filters, sort),
        ranks(s2, docs, schema, query, filters, sort),
    ensures
        s1.len() == s2.len(),
        forall|i: int| 0 <= i < s1.len() ==> #[trigger] s2.contains(s1[i]),
        forall|j: int| 0 <= j < s2.len() ==> #[trigger] s1.contains(s2[j]),
{
    law_hit_count_is_determined(s1, s2, docs, schema, query, filters, sort);
    assert forall|i: int| 0 <= i < s1.len() implies #[trigger] s2.contains(s1[i]) by {
        let k = s1[i].id;
        assert(docs.contains_key(k) && s1[i] == docs[k]);
        let j = choose|j: int| 0 <= j < s2.len() && #[trigger] s2[j].id == k;
        assert(s2[j] == docs[s2[j].id]);
        assert(s2[j] == s1[i]);
    }
    assert forall|j: int| 0 <= j < s2.len() implies #[trigger] s1.contains(s2[j]) by {
        let k = s2[j].id;
        assert(docs.contains_key(k) && s2[j] == docs[k]);
        let i = choose|i: int| 0 <= i < s1.len() && #[trigger] s1[i].id == k;
        assert(s1[i] == docs[s1[i].id]);
        assert(s1[i] == s2[j]);
    }
}

/// A page holds at most `limit` hits: as many as remain after `offset`,
/// taken in order from position `offset`.
pub proof fn law_page_size<T>(s: Seq<T>, offset: int, limit: int)
    requires
        0 <= offset,
        0 <= limit,
    ensures
        page(s, offset, limit).len() == if offset >= s.len() {
            0
        } else if offset + limit >= s.len() {
            s.len() - offset
        } else {
            limit
        },
        forall|i: int| 0 <= i < page(s, offset, limit).len() ==> #[trigger] page(s, offset, limit)[i] == s[offset + i],
{
}

proof fn lemma_facet_count_at_most(s: Seq<DocumentView>, f: Seq<char>, k: Seq<char>)
    ensures
        facet_count(s, f, k) <= s.len(),
    decreases s.len(),
{
    if s.len() > 0 {
        lemma_facet_count_at_most(s.drop_last(), f, k);
    }
}

/// No facet count exceeds the number of hits.
pub proof fn law_facet_counts_bounded(
    c: Map<Seq<char>, Map<Seq<char>, usize>>,
    s: Seq<DocumentView>,
    requested: Seq<String>,
)
    requires
        facets_of(c, s, requested),
    ensures
        forall|f: Seq<char>, k: Seq<char>| #[trigger] c.contains_key(f) && #[trigger] c[f].contains_key(k) ==> c[f][k] <= s.len(),
{
    assert forall|f: Seq<char>, k: Seq<char>| #[trigger] c.contains_key(f) && #[trigger] c[f].contains_key(k) implies c[f][k] <= s.len() by {
        lemma_facet_count_at_most(s, f, k);
    }
}

/// Replacing the documents of collection `c` changes the sum by the
/// difference in size, where the listing holds `c`.
proof fn lemma_sum_sizes_update(
    names: Seq<Seq<char>>,
    docs: Map<Seq<char>, Map<Seq<char>, DocumentView>>,
    c: Seq<char>,
    m: Map<Seq<char>, DocumentView>,
)
    requires
        forall|i: int, j: int| 0 <= i < j < names.len() ==> names[i] != names[j],
    ensures
        sum_sizes(names, docs.insert(c, m)) == sum_sizes(names, docs) + if names.contains(c) {
            m.dom().len() - docs[c].dom().len()
        } else {
            0int
        },
    decreases names.len(),
{
    if names.len() > 0 {
        let rest = names.drop_last();
        lemma_sum_sizes_update(rest, docs, c, m);
        if names.last() == c {
            assert(!rest.contains(c)) by {
                if rest.contains(c) {
                    let i = choose|i: int| 0 <= i < rest.len() && rest[i] == c;
                    assert(names[i] == names[names.len() - 1]);
                }
            }
        } else {
            assert(rest.contains(c) == names.contains(c)) by {
                if names.contains(c) {
                    let i = choose|i: int| 0 <= i < names.len() && names[i] == c;
                    assert(rest[i] == c);
                }
            }
        }
    }
}

/// A finite set of collection names can be listed.
proof fn lemma_listing_exists(keys: Set<Seq<char>>)
    requires
        keys.finite(),
    ensures
        exists|names: Seq<Seq<char>>| enumerates(names, keys),
    decreases keys.len(),
{
    if keys.len() == 0 {
        assert(keys =~= Set::<Seq<char>>::empty());
        assert(enumerates(Seq::<Seq<char>>::empty(), keys));
    } else {
        let x = keys.choose();
        let rest = keys.remove(x);
        lemma_listing_exists(rest);
        let names0 = choose|names: Seq<Seq<char>>| enumerates(names, rest);
        let names = names0.push(x);
        assert forall|k: Seq<char>| #[trigger] keys.contains(k) implies exists|i: int|
            0 <= i < names.len() && #[trigger] names[i] == k by {
            if k == x {
                assert(names[names.len() - 1] == k);
            } else {
                assert(rest.contains(k));
                let i = choose|i: int| 0 <= i < names0.len() && #[trigger] names0[i] == k;
                assert(names[i] == k);
            }
        }
        assert forall|i: int, j: int| 0 <= i < j < names.len() implies names[i] != names[j] by {
            if j == names.len() - 1 {
                assert(rest.contains(names0[i]));
            }
        }
        assert forall|i: int| 0 <= i < names.len() implies keys.contains(#[trigger] names[i]) by {
            if i < names0.len() {
                assert(rest.contains(names0[i]));
            }
        }
        assert(enumerates(names, keys));
    }
}

/// Storing the documents `m` in place of those of collection `c` changes
/// the total number of documents by the difference in size.
proof fn lemma_total_update(
    docs: Map<Seq<char>, Map<Seq<char>, DocumentView>>,
    c: Seq<char>,
    m: Map<Seq<char>, DocumentView>,
)
    requires
        docs.dom().finite(),
        docs.contains_key(c),
    ensures
        total_documents(docs.insert(c, m)) == total_documents(docs) + m.dom().len() - docs[c].dom().len(),
{
    lemma_listing_exists(docs.dom());
    let names = choose|names: Seq<Seq<char>>| enumerates(names, docs.dom());
    lemma_sum_sizes_any_listing(names, docs);
    assert(docs.insert(c, m).dom() =~= docs.dom());
    lemma_sum_sizes_any_listing(names, docs.insert(c, m));
    lemma_sum_sizes_update(names, docs, c, m);
    assert(names.contains(c)) by {
        let i = choose|i: int| 0 <= i < names.len() && #[trigger] names[i] == c;
    }
}

/// Indexing a document into a collection adds one to the total number of
/// documents when its id is new there, and keeps the total when it
/// replaces a document.
pub proof fn law_total_after_indexing(
    docs: Map<Seq<char>, Map<Seq<char>, DocumentView>>,
    c: Seq<char>,
    d: DocumentView,
)
    requires
        docs.dom().finite(),
        docs.contains_key(c),
        docs[c].dom().finite(),
    ensures
        total_documents(docs.insert(c, docs[c].insert(d.id, d))) == total_documents(docs) + if docs[c].contains_key(
            d.id,
        ) {
            0int
        } else {
            1int
        },
{
    lemma_total_update(docs, c, docs[c].insert(d.id, d));
    if docs[c].contains_key(d.id) {
        assert(docs[c].insert(d.id, d).dom() =~= docs[c].dom());
    }
}

/// Deleting a document from a collection takes one off the total number of
/// documents when it was there, and keeps the total otherwise.
pub proof fn law_total_after_deleting(
    docs: Map<Seq<char>, Map<Seq<char>, DocumentView>>,
    c: Seq<char>,
    id: Seq<char>,
)
    requires
        docs.dom().finite(),
        docs.contains_key(c),
        docs[c].dom().finite(),
    ensures
        total_documents(docs.insert(c, docs[c].remove(id))) == total_documents(docs) - if docs[c].contains_key(id) {
            1int
        } else {
            0int
        },
{
    lemma_total_update(docs, c, docs[c].remove(id));
    if !docs[c].contains_key(id) {
        assert(docs[c].remove(id).dom() =~= docs[c].dom());
    }
}

/// The ids of a batch of documents.
pub open spec fn batch_ids(ds: Seq<DocumentView>) -> Set<Seq<char>>
    decreases ds.len(),
{
    if ds.len() == 0 {
        Set::empty()
    } else {
        batch_ids(ds.drop_last()).insert(ds.last().id)
    }
}

proof fn lemma_batch_ids_finite(ds: Seq<DocumentView>)
    ensures
        batch_ids(ds).finite(),
    decreases ds.len(),
{
    if ds.len() > 0 {
        lemma_batch_ids_finite(ds.drop_last());
    }
}

/// Indexing a batch into collection `c` leaves the collection holding its
/// former ids and those of the batch, finitely many where it held finitely
/// many.
proof fn lemma_batch_ids_indexed(
    docs: Map<Seq<char>, Map<Seq<char>, DocumentView>>,
    c: Seq<char>,
    ds: Seq<DocumentView>,
)
    requires
        docs.contains_key(c),
    ensures
        with_indexed(docs, c, ds).contains_key(c),
        with_indexed(docs, c, ds)[c].dom() == docs[c].dom().union(batch_ids(ds)),
    decreases ds.len(),
{
    if ds.len() > 0 {
        lemma_batch_ids_indexed(docs, c, ds.drop_last());
        lemma_with_indexed_keeps(docs, c, ds.drop_last());
        assert(with_indexed(docs, c, ds)[c].dom() =~= docs[c].dom().union(batch_ids(ds)));
    } else {
        assert(docs[c].dom().union(batch_ids(ds)) =~= docs[c].dom());
    }
}

/// Indexing a batch of documents into a collection adds to the total number
/// of documents the number of ids of the batch that the collection did not
/// hold; a document whose id the collection already held replaces it.
pub proof fn law_total_after_batch(
    docs: Map<Seq<char>, Map<Seq<char>, DocumentView>>,
    c: Seq<char>,
    ds: Seq<DocumentView>,
)
    requires
        docs.dom().finite(),
        docs.contains_key(c),
        docs[c].dom().finite(),
    ensures
        total_documents(with_indexed(docs, c, ds)) == total_documents(docs) + batch_ids(ds).difference(
            docs[c].dom(),
        ).len(),
    decreases ds.len(),
{
    lemma_batch_ids_finite(ds);
    if ds.len() == 0 {
        assert(batch_ids(ds).difference(docs[c].dom()) =~= Set::<Seq<char>>::empty());
    } else {
        let rest = ds.drop_last();
        let d = ds.last();
        law_total_after_batch(docs, c, rest);
        lemma_batch_ids_finite(rest);
        lemma_with_indexed_keeps(docs, c, rest);
        lemma_batch_ids_indexed(docs, c, rest);
        let w = with_indexed(docs, c, rest);
        assert(w.dom() == docs.dom());
        assert(w[c].dom().finite());
        law_total_after_indexing(w, c, d);
        let before = batch_ids(rest).difference(docs[c].dom());
        let after = batch_ids(ds).difference(docs[c].dom());
        if w[c].contains_key(d.id) {
            assert(after =~= before);
        } else {
            assert(!before.contains(d.id));
            assert(after =~= before.insert(d.id));
        }
    }
}

proof fn lemma_lower_chars_known(s: Seq<char>)
    requires
        forall|i: int| 0 <= i < s.len() ==> known_case(#[trigger] s[i]),
    ensures
        lower_chars(s) == s.map_values(|c: char| simple_lower(c)),
    decreases s.len(),
{
    if s.len() > 0 {
        lemma_lower_chars_known(s.drop_last());
        assert(known_case(s[s.len() - 1]));
        assert(char_lower(s.last()) == seq![simple_lower(s.last())]);
        assert(lower_chars(s) =~= s.map_values(|c: char| simple_lower(c)));
    } else {
        assert(lower_chars(s) =~= s.map_values(|c: char| simple_lower(c)));
    }
}

/// A text made of letters whose case mapping is known lowers character by
/// character: each capital becomes its small letter (`A`-`Z`, `À`-`Þ`,
/// `Α`-`Ω` but capital sigma, `Ѐ`-`Я`), every other character stays.
pub proof fn law_lowercase_each_character(s: Seq<char>)
    requires
        forall|i: int| 0 <= i < s.len() ==> known_case(#[trigger] s[i]),
    ensures
        text_lowercase(s).len() == s.len(),
        forall|i: int| 0 <= i < s.len() ==> #[trigger] text_lowercase(s)[i] == simple_lower(s[i]),
{
    assert(!s.contains('\u{3a3}')) by {
        if s.contains('\u{3a3}') {
            let i = choose|i: int| 0 <= i < s.len() && s[i] == '\u{3a3}';
            assert(known_case(s[i]));
        }
    }
    lemma_lower_chars_known(s);
}

/// The capital and small forms of a letter lower to the same letter, so a
/// word matches whatever the case of its letters.
pub proof fn law_capital_and_small_agree(c: char)
    requires
        known_case(c),
    ensures
        text_lowercase(seq![c]) == text_lowercase(seq![simple_lower(c)]),
        text_lowercase(seq![c]) == seq![simple_lower(c)],
{
    law_lowercase_each_character(seq![c]);
    assert(known_case(simple_lower(c)) && simple_lower(simple_lower(c)) == simple_lower(c));
    law_lowercase_each_character(seq![simple_lower(c)]);
    assert(text_lowercase(seq![c]) =~= seq![simple_lower(c)]);
    assert(text_lowercase(seq![simple_lower(c)]) =~= seq![simple_lower(c)]);
}

/// At position `p` of `t`, each character of `q` and the character of `t`
/// there lower to the same letter.
pub open spec fn same_letters_at(q: Seq<char>, t: Seq<char>, p: int) -> bool {
    &&& 0 <= p
    &&& p + q.len() <= t.len()
    &&& forall|k: int| 0 <= k < q.len() ==> #[trigger] simple_lower(q[k]) == simple_lower(t[p + k])
}

/// For texts whose letters have a known case mapping, a query occurs in a
/// text after lower-casing exactly when, at some position, each of its
/// characters and the text's character there lower to the same letter.
pub proof fn law_match_ignores_case(q: Seq<char>, t: Seq<char>)
    requires
        forall|i: int| 0 <= i < q.len() ==> known_case(#[trigger] q[i]),
        forall|i: int| 0 <= i < t.len() ==> known_case(#[trigger] t[i]),
    ensures
        occurs_in(text_lowercase(q), text_lowercase(t)) <==> exists|p: int| #[trigger] same_letters_at(q, t, p),
{
    law_lowercase_each_character(q);
    law_lowercase_each_character(t);
    let lq = text_lowercase(q);
    let lt = text_lowercase(t);
    if occurs_in(lq, lt) {
        let p = choose|p: int| 0 <= p && p + lq.len() <= lt.len() && #[trigger] lt.subrange(p, p + lq.len()) == lq;
        assert forall|k: int| 0 <= k < q.len() implies #[trigger] simple_lower(q[k]) == simple_lower(t[p + k]) by {
            assert(lt.subrange(p, p + lq.len())[k] == lt[p + k]);
            assert(lq[k] == simple_lower(q[k]));
            assert(lt[p + k] == simple_lower(t[p + k]));
        }
        assert(same_letters_at(q, t, p));
    }
    if exists|p: int| #[trigger] same_letters_at(q, t, p) {
        let p = choose|p: int| #[trigger] same_letters_at(q, t, p);
        assert forall|k: int| 0 <= k < lq.len() implies #[trigger] lt.subrange(p, p + lq.len())[k] == lq[k] by {
            assert(simple_lower(q[k]) == simple_lower(t[p + k]));
        }
        assert(lt.subrange(p, p + lq.len()) =~= lq);
    }
}

/// The root `/` holds every plain absolute path.
pub proof fn law_root_holds_every_absolute_path(d: Seq<char>)
    requires
        plain_path(d),
        d.len() > 0,
        d[0] == '/',
    ensures
        lies_within_path(d, seq!['/']),
{
    let r = seq!['/'];
    assert(plain_path(r)) by {
        assert forall|i: int| 0 <= i < r.len() implies #[trigger] r[i] != '\\' by {}
    }
    assert(without_trailing_slash(r) == r);
}

/// A plain path lies within itself and within every plain path that it
/// continues after a separator: `b/r` lies within `b`.
pub proof fn law_within_parent(b: Seq<char>, r: Seq<char>)
    requires
        plain_path(b),
        plain_path(b + seq!['/'] + r),
        b.len() > 0,
        b.last() != '/',
    ensures
        lies_within_path(b, b),
        lies_within_path(b + seq!['/'] + r, b),
{
    let d = b + seq!['/'] + r;
    assert(without_trailing_slash(b) == b);
    assert(b.take(b.len() as int) =~= b);
    assert(d.take(b.len() as int) =~= b);
    assert(d[b.len() as int] == '/');
    if b == seq!['/'] {
        assert(b.last() == '/');
    }
}

/// A plain path does not lie within another that it continues without a
/// separator: `/srv/app` does not lie within `/srv/ap`.
pub proof fn law_no_partial_component(b: Seq<char>, c: char, r: Seq<char>)
    requires
        plain_path(b),
        plain_path(b + seq![c] + r),
        b.len() > 0,
        b.last() != '/',
        c != '/',
    ensures
        !lies_within_path(b + seq![c] + r, b),
{
    let d = b + seq![c] + r;
    assert(without_trailing_slash(b) == b);
    assert(d[b.len() as int] == c);
    if b == seq!['/'] {
        assert(b.last() == '/');
    }
}

} // verus!
