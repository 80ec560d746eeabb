//! The search rules: text matching, filters, ordering, facets and paging.
use vstd::prelude::*;
use crate::domain::{find_field, CollectionSchema, Document, DocumentView, FieldDefinition, FieldType, SchemaView};
use crate::text::{
    compare_text, contains_text, lemma_lex_order_flip, lex_order, lowercase_text, occurs_in, same_text,
    text_lowercase, Order,
};
use crate::value::{DocValue, JsonMap, JsonValue, NamedMap, lemma_pairs_map, keys_distinct};

verus! {

broadcast use vstd::string::group_string_axioms;

/// The direction of a sort criterion.
#[derive(Debug, Clone, Copy, PartialEq, Eq, Structural)]
pub enum SortOrder {
    Asc,
    Desc,
}

/// One sort criterion: a field and a direction.
#[derive(Debug)]
pub struct SortBy {
    pub field: String,
    pub order: SortOrder,
}

impl Clone for SortBy {
    fn clone(&self) -> (res: Self)
        ensures
            res == *self,
    {
        SortBy { field: self.field.clone(), order: self.order }
    }
}

// ---------------------------------------------------------------------
// Ordering
// ---------------------------------------------------------------------

/// How two stored values compare: numbers by value, texts
/// lexicographically, a number and a text as equal.
pub open spec fn value_order(a: DocValue, b: DocValue) -> Order {
    match (a, b) {
        (DocValue::Number(x), DocValue::Number(y)) => if x.order_key < y.order_key {
            Order::Less
        } else if x.order_key > y.order_key {
            Order::Greater
        } else {
            Order::Equal
        },
        (DocValue::Text(x), DocValue::Text(y)) => lex_order(x@, y@),
        _ => Order::Equal,
    }
}

/// How two possibly missing values compare: a missing value comes first.
pub open spec fn present_order(a: Option<DocValue>, b: Option<DocValue>) -> Order {
    match (a, b) {
        (Some(x), Some(y)) => value_order(x, y),
        (Some(_), None) => Order::Greater,
        (None, Some(_)) => Order::Less,
        (None, None) => Order::Equal,
    }
}

/// The value of field `f` of a document, if it has one.
pub open spec fn field_of(d: DocumentView, f: Seq<char>) -> Option<DocValue> {
    if d.fields.contains_key(f) {
        Some(d.fields[f])
    } else {
        None
    }
}

/// How two documents compare under the sort criteria: by the first
/// criterion on which they differ, each criterion ascending or descending.
pub open spec fn order_by(a: DocumentView, b: DocumentView, sort: Seq<SortBy>) -> Order
    decreases sort.len(),
{
    if sort.len() == 0 {
        Order::Equal
    } else {
        let c = present_order(field_of(a, sort[0].field@), field_of(b, sort[0].field@));
        let r = match sort[0].order {
            SortOrder::Asc => c,
            SortOrder::Desc => c.flipped(),
        };
        if r != Order::Equal {
            r
        } else {
            order_by(a, b, sort.drop_first())
        }
    }
}

/// Swapping two documents flips how they compare.
pub proof fn lemma_order_by_flip(a: DocumentView, b: DocumentView, sort: Seq<SortBy>)
    ensures
        order_by(b, a, sort) == order_by(a, b, sort).flipped(),
    decreases sort.len(),
{
    if sort.len() > 0 {
        let fa = field_of(a, sort[0].field@);
        let fb = field_of(b, sort[0].field@);
        match (fa, fb) {
            (Some(DocValue::Text(x)), Some(DocValue::Text(y))) => {
                lemma_lex_order_flip(x@, y@);
            },
            _ => {},
        }
        lemma_order_by_flip(a, b, sort.drop_first());
    }
}

/// Compares two stored values (numbers by value, texts lexicographically).
pub fn compare_json_values(a: &DocValue, b: &DocValue) -> (res: Order)
    ensures
        res == value_order(*a, *b),
{
    match (a, b) {
        (DocValue::Number(x), DocValue::Number(y)) => {
            if x.order_key < y.order_key {
                Order::Less
            } else if x.order_key > y.order_key {
                Order::Greater
            } else {
                Order::Equal
            }
        },
        (DocValue::Text(x), DocValue::Text(y)) => compare_text(x.as_str(), y.as_str()),
        _ => Order::Equal,
    }
}

/// Compares two possibly missing values; a missing value comes first.
pub fn compare_option_json_values(a: Option<&DocValue>, b: Option<&DocValue>) -> (res: Order)
    ensures
        res == present_order(
            match a {
                Some(x) => Some(*x),
                None => None,
            },
            match b {
                Some(y) => Some(*y),
                None => None,
            },
        ),
{
    match (a, b) {
        (Some(x), Some(y)) => compare_json_values(x, y),
        (Some(_), None) => Order::Greater,
        (None, Some(_)) => Order::Less,
        (None, None) => Order::Equal,
    }
}

/// Compares two documents under the sort criteria.
pub fn compare_documents(a: &Document, b: &Document, sort: &[SortBy]) -> (res: Order)
    ensures
        res == order_by(a@, b@, sort@),
{
    let n = sort.len();
    let mut i: usize = 0;
    assert(sort@.skip(0) =~= sort@);
    while i < n
        invariant
            n == sort@.len(),
            i <= n,
            order_by(a@, b@, sort@) == order_by(a@, b@, sort@.skip(i as int)),
        decreases n - i,
    {
        let field = sort[i].field.as_str();
        let c = compare_option_json_values(a.get_field_value(field), b.get_field_value(field));
        let r = match sort[i].order {
            SortOrder::Asc => c,
            SortOrder::Desc => c.reverse(),
        };
        assert(sort@.skip(i as int)[0] == sort@[i as int]);
        assert(sort@.skip(i as int).drop_first() =~= sort@.skip(i + 1));
        if r != Order::Equal {
            return r;
        }
        i = i + 1;
    }
    assert(sort@.skip(n as int).len() == 0);
    Order::Equal
}

/// Each document compares as not greater than the next one.
pub open spec fn sorted_by(s: Seq<DocumentView>, sort: Seq<SortBy>) -> bool {
    forall|i: int| 0 <= i < s.len() - 1 ==> #[trigger] order_by(s[i], s[i + 1], sort) != Order::Greater
}

/// The views of a list of documents.
pub open spec fn views(s: Seq<Document>) -> Seq<DocumentView> {
    s.map_values(|d: Document| d@)
}

/// `x` is an item of `s`.
pub open spec fn occurs_at(s: Seq<DocumentView>, x: DocumentView) -> bool {
    exists|j: int| 0 <= j < s.len() && s[j] == x
}

/// `t` holds the documents of `s`, each item of one as an item of the
/// other, as many of them, with distinct ids where `s` has them.
pub open spec fn same_documents(t: Seq<DocumentView>, s: Seq<DocumentView>) -> bool {
    &&& t.len() == s.len()
    &&& forall|i: int| 0 <= i < t.len() ==> #[trigger] occurs_at(s, t[i])
    &&& forall|j: int| 0 <= j < s.len() ==> #[trigger] occurs_at(t, s[j])
}

pub open spec fn ids_distinct(s: Seq<DocumentView>) -> bool {
    forall|i: int, j: int| 0 <= i < j < s.len() ==> #[trigger] s[i].id != #[trigger] s[j].id
}

proof fn lemma_new_id(before: Seq<DocumentView>, xv: DocumentView, s_old: Seq<DocumentView>)
    requires
        same_documents(before, s_old),
        ids_distinct(seq![xv] + s_old),
    ensures
        forall|q: int| 0 <= q < before.len() ==> #[trigger] before[q].id != xv.id,
{
    let s_new = seq![xv] + s_old;
    assert forall|q: int| 0 <= q < before.len() implies #[trigger] before[q].id != xv.id by {
        assert(occurs_at(s_old, before[q]));
        let j = choose|j: int| 0 <= j < s_old.len() && s_old[j] == before[q];
        assert(s_new[j + 1] == s_old[j]);
        assert(s_new[0] == xv);
        assert(s_new[0].id != s_new[j + 1].id);
    }
}

proof fn lemma_insert_ids(before: Seq<DocumentView>, p: int, xv: DocumentView)
    requires
        ids_distinct(before),
        forall|q: int| 0 <= q < before.len() ==> #[trigger] before[q].id != xv.id,
        0 <= p <= before.len(),
    ensures
        ids_distinct(before.insert(p, xv)),
{
    let after = before.insert(p, xv);
    assert forall|a: int, b: int| 0 <= a < b < after.len() implies #[trigger] after[a].id != #[trigger] after[b].id by {
        if a < p && b < p {
        } else if a < p && b == p {
        } else if a < p {
            assert(after[b] == before[b - 1]);
        } else if a == p {
            assert(after[b] == before[b - 1]);
        } else {
            assert(after[a] == before[a - 1]);
            assert(after[b] == before[b - 1]);
        }
    }
}

proof fn lemma_insert_sorted(before: Seq<DocumentView>, p: int, xv: DocumentView, sort: Seq<SortBy>)
    requires
        sorted_by(before, sort),
        0 <= p <= before.len(),
        p > 0 ==> order_by(before[p - 1], xv, sort) != Order::Greater,
        forall|q: int| p <= q < before.len() ==> order_by(#[trigger] before[q], xv, sort) == Order::Greater,
    ensures
        sorted_by(before.insert(p, xv), sort),
{
    let after = before.insert(p, xv);
    assert forall|a: int| 0 <= a < after.len() - 1 implies #[trigger] order_by(after[a], after[a + 1], sort) != Order::Greater by {
        if a + 1 < p {
            assert(after[a] == before[a] && after[a + 1] == before[a + 1]);
            assert(order_by(before[a], before[a + 1], sort) != Order::Greater);
        } else if a + 1 == p {
            assert(after[a] == before[a] && after[a + 1] == xv);
        } else if a == p {
            assert(after[a] == xv);
            assert(after[a + 1] == before[p]);
            assert(order_by(before[p], xv, sort) == Order::Greater);
            lemma_order_by_flip(before[p], xv, sort);
        } else {
            assert(after[a] == before[a - 1] && after[a + 1] == before[a]);
            let b = a - 1;
            assert(order_by(before[b], before[b + 1], sort) != Order::Greater);
            assert(before[b + 1] == before[a]);
        }
    }
}

proof fn lemma_insert_same(before: Seq<DocumentView>, p: int, xv: DocumentView, s_old: Seq<DocumentView>)
    requires
        same_documents(before, s_old),
        0 <= p <= before.len(),
    ensures
        same_documents(before.insert(p, xv), seq![xv] + s_old),
{
    let after = before.insert(p, xv);
    let s_new = seq![xv] + s_old;
    assert(after.len() == s_new.len());
    assert forall|a: int| 0 <= a < after.len() implies #[trigger] occurs_at(s_new, after[a]) by {
        if a == p {
            assert(s_new[0] == xv);
            assert(after[a] == xv);
        } else {
            let q = if a < p { a } else { a - 1 };
            assert(after[a] == before[q]);
            assert(occurs_at(s_old, before[q]));
            let j = choose|j: int| 0 <= j < s_old.len() && s_old[j] == before[q];
            assert(s_new[j + 1] == s_old[j]);
            assert(s_new[j + 1] == after[a]);
        }
    }
    assert forall|j: int| 0 <= j < s_new.len() implies #[trigger] occurs_at(after, s_new[j]) by {
        if j == 0 {
            assert(after[p] == xv);
            assert(after[p] == s_new[j]);
        } else {
            assert(s_new[j] == s_old[j - 1]);
            assert(occurs_at(before, s_old[j - 1]));
            let q = choose|q: int| 0 <= q < before.len() && before[q] == s_old[j - 1];
            if q < p {
                assert(after[q] == before[q]);
                assert(after[q] == s_new[j]);
            } else {
                assert(after[q + 1] == before[q]);
                assert(after[q + 1] == s_new[j]);
            }
        }
    }
}

proof fn lemma_suffix_distinct(src: Seq<DocumentView>, k: int)
    requires
        ids_distinct(src),
        0 <= k <= src.len(),
    ensures
        ids_distinct(src.skip(k)),
{
    let s2 = src.skip(k);
    assert forall|a: int, b: int| 0 <= a < b < s2.len() implies #[trigger] s2[a].id != #[trigger] s2[b].id by {
        assert(s2[a] == src[k + a]);
        assert(s2[b] == src[k + b]);
    }
}

/// Sorts documents by the criteria (insertion sort).
pub fn sort_documents(docs: Vec<Document>, sort: &[SortBy]) -> (res: Vec<Document>)
    requires
        ids_distinct(views(docs@)),
    ensures
        same_documents(views(res@), views(docs@)),
        ids_distinct(views(res@)),
        sorted_by(views(res@), sort@),
{
    let mut out: Vec<Document> = Vec::new();
    let mut input = docs;
    let ghost src = views(input@);
    let n = input.len();
    let mut i: usize = 0;
    assert(src.skip(n as int) =~= Seq::<DocumentView>::empty());
    assert(src.take(n as int) =~= src);
    while i < n
        invariant
            n == src.len(),
            i <= n,
            views(input@) == src.take(n - i),
            ids_distinct(src),
            same_documents(views(out@), src.skip(n - i)),
            ids_distinct(views(out@)),
            sorted_by(views(out@), sort@),
        decreases n - i,
    {
        let ghost old_input = input@;
        assert(input@.len() == views(input@).len());
        let x = input.pop().unwrap();
        let ghost xv = x@;
        assert(views(old_input)[n - i - 1] == old_input[n - i - 1]@);
        assert(xv == src[n - i - 1]);
        let mut p = out.len();
        loop
            invariant
                p <= out.len(),
                forall|q: int| p <= q < out@.len() ==> order_by(#[trigger] views(out@)[q], xv, sort@) == Order::Greater,
                x@ == xv,
            ensures
                p <= out.len(),
                forall|q: int| p <= q < out@.len() ==> order_by(#[trigger] views(out@)[q], xv, sort@) == Order::Greater,
                p > 0 ==> order_by(views(out@)[p - 1], xv, sort@) != Order::Greater,
            decreases p,
        {
            if p == 0 {
                break;
            }
            if compare_documents(&out[p - 1], &x, sort) != Order::Greater {
                break;
            }
            p = p - 1;
        }
        let ghost before = views(out@);
        let ghost s_old = src.skip(n - i);
        out.insert(p, x);
        proof {
            assert(views(out@) =~= before.insert(p as int, xv));
            assert(src.skip(n - i - 1) =~= seq![xv] + s_old);
            lemma_suffix_distinct(src, n - i - 1);
            lemma_new_id(before, xv, s_old);
            lemma_insert_ids(before, p as int, xv);
            lemma_insert_sorted(before, p as int, xv, sort@);
            lemma_insert_same(before, p as int, xv, s_old);
            assert(views(input@) =~= src.take(n - i - 1));
        }
        i = i + 1;
    }
    assert(src.skip(0) =~= src);
    out
}

// ---------------------------------------------------------------------
// Text queries
// ---------------------------------------------------------------------

/// The field `f` of a schema is searched and the document's value of it
/// holds `q` (both lower-cased by the caller for `q`, here for the value).
pub open spec fn field_hits(f: FieldDefinition, d: DocumentView, q: Seq<char>) -> bool {
    &&& f.index
    &&& f.field_type == FieldType::Text
    &&& d.fields.contains_key(f.name@)
    &&& match d.fields[f.name@] {
        DocValue::Text(t) => occurs_in(q, text_lowercase(t@)),
        _ => false,
    }
}

/// Some searched text field of the document holds `q`.
pub open spec fn query_hits(fields: Seq<FieldDefinition>, d: DocumentView, q: Seq<char>) -> bool {
    exists|i: int| 0 <= i < fields.len() && #[trigger] field_hits(fields[i], d, q)
}

/// Whether some indexed text field of `doc` contains `query_lower`
/// (lower-cased), case-insensitively.
pub fn query_matches(schema: &CollectionSchema, doc: &Document, query_lower: &str) -> (res: bool)
    ensures
        res == query_hits(schema@.fields, doc@, query_lower@),
{
    let fields = schema.field_list();
    let n = fields.len();
    for i in 0..n
        invariant
            n == fields@.len(),
            fields@ == schema@.fields,
            forall|j: int| 0 <= j < i ==> !#[trigger] field_hits(fields@[j], doc@, query_lower@),
    {
        let f = &fields[i];
        if f.index && f.field_type == FieldType::Text {
            match doc.get_field_value(f.name.as_str()) {
                Some(DocValue::Text(t)) => {
                    let lower = lowercase_text(t.as_str());
                    if contains_text(lower.as_str(), query_lower) {
                        assert(field_hits(fields@[i as int], doc@, query_lower@));
                        return true;
                    }
                },
                _ => {},
            }
        }
    }
    false
}

// ---------------------------------------------------------------------
// Filters
// ---------------------------------------------------------------------

/// A range operator (`gte`, `lte`, `gt`, `lt`) holds between a value and a
/// bound (both by their order keys); any other operator fails.
pub open spec fn range_holds(op: Seq<char>, x: u64, bound: u64) -> bool {
    if op == "gte"@ {
        x >= bound
    } else if op == "lte"@ {
        x <= bound
    } else if op == "gt"@ {
        x > bound
    } else if op == "lt"@ {
        x < bound
    } else {
        false
    }
}

/// A stored value meets a filter condition on a field of type `t`: a text
/// condition by equality, a number condition by a value close enough to
/// count as equal (or an equal integer), an object of range operators on
/// number fields by every operator; any other condition fails.
pub open spec fn value_matches(v: DocValue, cond: JsonValue, t: FieldType) -> bool {
    match cond {
        JsonValue::String(s) => match v {
            DocValue::Text(x) => x@ == s@,
            _ => false,
        },
        JsonValue::Number(n) => match v {
            DocValue::Number(m) => (n.near_low <= m.order_key && m.order_key <= n.near_high) || (
            m.integer is Some && n.integer is Some && m.integer == n.integer),
            _ => false,
        },
        JsonValue::Object(ops) => t == FieldType::Number && match v {
            DocValue::Number(m) => forall|i: int|
                0 <= i < ops.pairs().len() ==> match #[trigger] ops.pairs()[i].1 {
                    JsonValue::Number(b) => range_holds(ops.pairs()[i].0@, m.order_key, b.order_key),
                    _ => false,
                },
            _ => false,
        },
        _ => false,
    }
}

/// The filter `name: cond` holds of a document: the field is in the
/// schema's lookup table, the document has it, and its value meets the
/// condition.
pub open spec fn filter_holds(schema: SchemaView, d: DocumentView, name: Seq<char>, cond: JsonValue) -> bool {
    match schema.lookup {
        Some(l) => match find_field(l, name) {
            Some(def) => d.fields.contains_key(name) && value_matches(d.fields[name], cond, def.field_type),
            None => false,
        },
        None => false,
    }
}

/// Every filter holds of the document.
pub open spec fn filters_hold(schema: SchemaView, d: DocumentView, filters: Seq<(String, JsonValue)>) -> bool {
    forall|i: int| 0 <= i < filters.len() ==> #[trigger] filter_holds(schema, d, filters[i].0@, filters[i].1)
}

fn range_op_holds(op: &str, x: u64, bound: u64) -> (res: bool)
    ensures
        res == range_holds(op@, x, bound),
{
    if same_text(op, "gte") {
        x >= bound
    } else if same_text(op, "lte") {
        x <= bound
    } else if same_text(op, "gt") {
        x > bound
    } else if same_text(op, "lt") {
        x < bound
    } else {
        false
    }
}

/// Whether a stored value meets a filter condition (see `value_matches`).
pub fn match_value(doc_value: &DocValue, filter_condition: &JsonValue, field_type: FieldType) -> (res: bool)
    ensures
        res == value_matches(*doc_value, *filter_condition, field_type),
{
    match filter_condition {
        JsonValue::String(filter_str) => match doc_value {
            DocValue::Text(doc_str) => same_text(doc_str.as_str(), filter_str.as_str()),
            _ => false,
        },
        JsonValue::Number(filter_num) => match doc_value {
            DocValue::Number(doc_num) => {
                let same_float = filter_num.near_low <= doc_num.order_key && doc_num.order_key
                    <= filter_num.near_high;
                let same_int = match (doc_num.integer, filter_num.integer) {
                    (Some(d), Some(f)) => d == f,
                    _ => false,
                };
                same_float || same_int
            },
            _ => false,
        },
        JsonValue::Object(filter_ops) => {
            if field_type != FieldType::Number {
                return false;
            }
            let doc_num = match doc_value {
                DocValue::Number(n) => n.order_key,
                _ => {
                    return false;
                },
            };
            let ops = filter_ops.entries();
            let n = ops.len();
            for i in 0..n
                invariant
                    n == ops@.len(),
                    ops@ == filter_ops.pairs(),
                    field_type == FieldType::Number,
                    *filter_condition == JsonValue::Object(*filter_ops),
                    *doc_value matches DocValue::Number(m) && m.order_key == doc_num,
                    forall|j: int|
                        0 <= j < i ==> match #[trigger] ops@[j].1 {
                            JsonValue::Number(b) => range_holds(ops@[j].0@, doc_num, b.order_key),
                            _ => false,
                        },
            {
                let op_num = match &ops[i].1 {
                    JsonValue::Number(b) => b.order_key,
                    _ => {
                        assert(!(filter_ops.pairs()[i as int].1 is Number));
                        return false;
                    },
                };
                if !range_op_holds(ops[i].0.as_str(), doc_num, op_num) {
                    assert(filter_ops.pairs()[i as int].1 is Number);
                    return false;
                }
            }
            true
        },
        _ => false,
    }
}

/// Whether every filter holds of the document (see `filter_holds`).
pub fn check_doc_matches_filters(doc: &Document, schema: &CollectionSchema, filters: &JsonMap) -> (res: bool)
    ensures
        res == filters_hold(schema@, doc@, filters.pairs()),
{
    let entries = filters.entries();
    let n = entries.len();
    for i in 0..n
        invariant
            n == entries@.len(),
            entries@ == filters.pairs(),
            forall|j: int| 0 <= j < i ==> #[trigger] filter_holds(schema@, doc@, entries@[j].0@, entries@[j].1),
    {
        let field_name = entries[i].0.as_str();
        let filter_value = &entries[i].1;
        let field_def = match schema.get_field(field_name) {
            Some(def) => def,
            None => {
                assert(!filter_holds(schema@, doc@, entries@[i as int].0@, entries@[i as int].1));
                return false;
            },
        };
        let doc_value = match doc.get_field_value(field_name) {
            Some(v) => v,
            None => {
                assert(!filter_holds(schema@, doc@, entries@[i as int].0@, entries@[i as int].1));
                return false;
            },
        };
        if !match_value(doc_value, filter_value, field_def.field_type) {
            assert(!filter_holds(schema@, doc@, entries@[i as int].0@, entries@[i as int].1));
            return false;
        }
    }
    true
}

// ---------------------------------------------------------------------
// Facets
// ---------------------------------------------------------------------

/// The key under which a stored value is counted: the text, or the number
/// as written.
pub open spec fn facet_key(v: DocValue) -> Seq<char> {
    match v {
        DocValue::Text(s) => s@,
        DocValue::Number(n) => n.text@,
    }
}

/// How many of the documents have field `f` with key `k`.
pub open spec fn facet_count(s: Seq<DocumentView>, f: Seq<char>, k: Seq<char>) -> nat
    decreases s.len(),
{
    if s.len() == 0 {
        0
    } else {
        facet_count(s.drop_last(), f, k) + if s.last().fields.contains_key(f) && facet_key(
            s.last().fields[f],
        ) == k {
            1nat
        } else {
            0nat
        }
    }
}

/// Some document has field `f`.
pub open spec fn field_present(s: Seq<DocumentView>, f: Seq<char>) -> bool {
    exists|i: int| 0 <= i < s.len() && #[trigger] s[i].fields.contains_key(f)
}

/// Counts of values per field.
pub type FacetCounts = NamedMap<NamedMap<usize>>;

/// The counts as a map: field name to (value key to count).
pub open spec fn facet_view(c: FacetCounts) -> Map<Seq<char>, Map<Seq<char>, usize>> {
    c@.map_values(|m: NamedMap<usize>| m@)
}

/// `counts` counts, for one field `f`, every key of `s`.
pub open spec fn counts_field(counts: Map<Seq<char>, usize>, s: Seq<DocumentView>, f: Seq<char>) -> bool {
    &&& forall|k: Seq<char>| #[trigger] counts.contains_key(k) <==> facet_count(s, f, k) > 0
    &&& forall|k: Seq<char>| #[trigger] counts.contains_key(k) ==> counts[k] == facet_count(s, f, k)
}

/// `c` holds, for each requested field that some document has, the count
/// of each of its keys.
pub open spec fn facets_of(c: Map<Seq<char>, Map<Seq<char>, usize>>, s: Seq<DocumentView>, requested: Seq<String>) -> bool {
    &&& forall|f: Seq<char>|
        #[trigger] c.contains_key(f) <==> (exists|j: int| 0 <= j < requested.len() && #[trigger] requested[j]@ == f)
            && field_present(s, f)
    &&& forall|f: Seq<char>| #[trigger] c.contains_key(f) ==> counts_field(c[f], s, f)
}

proof fn lemma_facet_count_bound(s: Seq<DocumentView>, f: Seq<char>, k: Seq<char>)
    ensures
        facet_count(s, f, k) <= s.len(),
    decreases s.len(),
{
    if s.len() > 0 {
        lemma_facet_count_bound(s.drop_last(), f, k);
    }
}

proof fn lemma_facet_count_present(s: Seq<DocumentView>, f: Seq<char>, k: Seq<char>)
    ensures
        facet_count(s, f, k) > 0 ==> field_present(s, f),
    decreases s.len(),
{
    if s.len() > 0 {
        lemma_facet_count_present(s.drop_last(), f, k);
        if facet_count(s.drop_last(), f, k) > 0 {
            let i = choose|i: int| 0 <= i < s.drop_last().len() && #[trigger] s.drop_last()[i].fields.contains_key(f);
            assert(s[i] == s.drop_last()[i]);
        }
    }
}

proof fn lemma_facet_count_positive(s: Seq<DocumentView>, f: Seq<char>, i: int)
    requires
        0 <= i < s.len(),
        s[i].fields.contains_key(f),
    ensures
        facet_count(s, f, facet_key(s[i].fields[f])) > 0,
    decreases s.len(),
{
    if i < s.len() - 1 {
        assert(s.drop_last()[i] == s[i]);
        lemma_facet_count_positive(s.drop_last(), f, i);
    }
}

/// Counts, for field `f`, how many documents have each value.
fn count_field(docs: &[Document], f: &str) -> (res: NamedMap<usize>)
    ensures
        counts_field(res@, views(docs@), f@),
{
    let mut counts: NamedMap<usize> = NamedMap::new();
    let n = docs.len();
    proof {
        lemma_pairs_map(counts.pairs());
    }
    for i in 0..n
        invariant
            n == docs@.len(),
            counts_field(counts@, views(docs@.take(i as int)), f@),
    {
        let ghost s0 = views(docs@.take(i as int));
        let ghost s1 = views(docs@.take(i + 1));
        proof {
            assert(s1.drop_last() =~= s0);
            assert(s1.last() == docs@[i as int]@);
        }
        match docs[i].get_field_value(f) {
            Some(v) => {
                let key = match v {
                    DocValue::Text(s) => s.clone(),
                    DocValue::Number(x) => x.text.clone(),
                };
                let current: usize = match counts.get(key.as_str()) {
                    Some(c) => *c,
                    None => 0,
                };
                proof {
                    lemma_facet_count_bound(s0, f@, key@);
                }
                let ghost before = counts@;
                counts.insert(key, current + 1);
                proof {
                    assert forall|k: Seq<char>| #[trigger] counts@.contains_key(k) <==> facet_count(s1, f@, k) > 0 by {
                        if k != key@ {
                            assert(counts@.contains_key(k) == before.contains_key(k));
                        }
                    }
                    assert forall|k: Seq<char>| #[trigger] counts@.contains_key(k) implies counts@[k] == facet_count(s1, f@, k) by {
                        if k != key@ {
                            assert(counts@[k] == before[k]);
                        }
                    }
                }
            },
            None => {
                proof {
                    assert forall|k: Seq<char>| #[trigger] counts@.contains_key(k) <==> facet_count(s1, f@, k) > 0 by {
                        assert(facet_count(s1, f@, k) == facet_count(s0, f@, k));
                    }
                    assert forall|k: Seq<char>| #[trigger] counts@.contains_key(k) implies counts@[k] == facet_count(s1, f@, k) by {
                        assert(facet_count(s1, f@, k) == facet_count(s0, f@, k));
                    }
                }
            },
        }
    }
    assert(docs@.take(n as int) =~= docs@);
    counts
}

/// Counts, for each requested field, how many documents have each value of
/// it.
pub fn calculate_facets(docs: &[Document], facet_fields: &[String]) -> (res: FacetCounts)
    ensures
        facets_of(facet_view(res), views(docs@), facet_fields@),
{
    let mut facet_counts: FacetCounts = NamedMap::new();
    proof {
        lemma_pairs_map(facet_counts.pairs());
        assert(facet_view(facet_counts) =~= Map::<Seq<char>, Map<Seq<char>, usize>>::empty());
    }
    let m = facet_fields.len();
    for j in 0..m
        invariant
            m == facet_fields@.len(),
            forall|f: Seq<char>|
                #[trigger] facet_view(facet_counts).contains_key(f) <==> (exists|q: int| 0 <= q < j && #[trigger] facet_fields@[q]@ == f)
                    && field_present(views(docs@), f),
            forall|f: Seq<char>| #[trigger] facet_view(facet_counts).contains_key(f) ==> counts_field(facet_view(facet_counts)[f], views(docs@), f),
    {
        let field = &facet_fields[j];
        if facet_counts.get(field.as_str()).is_none() {
            let counts = count_field(docs, field.as_str());
            let ghost cv = counts@;
            let ghost before = facet_view(facet_counts);
            let entries = counts.entries();
            proof {
                lemma_pairs_map(counts.pairs());
            }
            if entries.len() > 0 {
                proof {
                    let k = entries@[0].0@;
                    assert(cv.contains_key(k));
                    lemma_facet_count_present(views(docs@), field@, k);
                }
                facet_counts.insert(field.clone(), counts);
                proof {
                    assert(facet_view(facet_counts) =~= before.insert(field@, cv));
                    assert forall|f: Seq<char>| #[trigger] facet_view(facet_counts).contains_key(f) <==> (exists|q: int| 0 <= q < j + 1 && #[trigger] facet_fields@[q]@ == f)
                        && field_present(views(docs@), f) by {
                        if f == field@ {
                            assert(facet_fields@[j as int]@ == f);
                        } else {
                            if exists|q: int| 0 <= q < j + 1 && #[trigger] facet_fields@[q]@ == f {
                                let q = choose|q: int| 0 <= q < j + 1 && #[trigger] facet_fields@[q]@ == f;
                                assert(q < j);
                            }
                        }
                    }
                    assert forall|f: Seq<char>| #[trigger] facet_view(facet_counts).contains_key(f) implies counts_field(facet_view(facet_counts)[f], views(docs@), f) by {
                        if f != field@ {
                            assert(facet_view(facet_counts)[f] == before[f]);
                        }
                    }
                }
            } else {
                proof {
                    assert(!field_present(views(docs@), field@)) by {
                        if field_present(views(docs@), field@) {
                            let i = choose|i: int| 0 <= i < views(docs@).len() && #[trigger] views(docs@)[i].fields.contains_key(field@);
                            lemma_facet_count_positive(views(docs@), field@, i);
                            let k = facet_key(views(docs@)[i].fields[field@]);
                            assert(cv.contains_key(k));
                            assert(cv == crate::value::pairs_map(counts.pairs()));
                            let idx = choose|idx: int| 0 <= idx < counts.pairs().len() && #[trigger] counts.pairs()[idx].0@ == k;
                            assert(entries@.len() == 0);
                        }
                    }
                    assert forall|f: Seq<char>| #[trigger] facet_view(facet_counts).contains_key(f) <==> (exists|q: int| 0 <= q < j + 1 && #[trigger] facet_fields@[q]@ == f)
                        && field_present(views(docs@), f) by {
                        if f != field@ {
                            if exists|q: int| 0 <= q < j + 1 && #[trigger] facet_fields@[q]@ == f {
                                let q = choose|q: int| 0 <= q < j + 1 && #[trigger] facet_fields@[q]@ == f;
                                assert(q < j);
                            }
                        }
                    }
                }
            }
        } else {
            proof {
                assert forall|f: Seq<char>| #[trigger] facet_view(facet_counts).contains_key(f) <==> (exists|q: int| 0 <= q < j + 1 && #[trigger] facet_fields@[q]@ == f)
                    && field_present(views(docs@), f) by {
                    if f != field@ {
                        if exists|q: int| 0 <= q < j + 1 && #[trigger] facet_fields@[q]@ == f {
                            let q = choose|q: int| 0 <= q < j + 1 && #[trigger] facet_fields@[q]@ == f;
                            assert(q < j);
                        }
                    } else {
                        assert(facet_fields@[j as int]@ == f);
                    }
                }
            }
        }
    }
    facet_counts
}

// ---------------------------------------------------------------------
// Paging
// ---------------------------------------------------------------------

/// The items of `s` from `offset` on, at most `limit` of them.
pub open spec fn page<T>(s: Seq<T>, offset: int, limit: int) -> Seq<T> {
    if offset >= s.len() {
        Seq::empty()
    } else if offset + limit >= s.len() {
        s.subrange(offset, s.len() as int)
    } else {
        s.subrange(offset, offset + limit)
    }
}

/// Copies the documents from `offset` on, at most `limit` of them.
pub fn paginate(docs: &Vec<Document>, offset: usize, limit: usize) -> (res: Vec<Document>)
    ensures
        views(res@) == page(views(docs@), offset as int, limit as int),
{
    let mut res: Vec<Document> = Vec::new();
    let len = docs.len();
    if offset >= len {
        assert(views(res@) =~= page(views(docs@), offset as int, limit as int));
        return res;
    }
    let end = if limit >= len - offset { len } else { offset + limit };
    let mut i = offset;
    while i < end
        invariant
            offset <= i <= end,
            end <= len,
            len == docs@.len(),
            views(res@) == views(docs@).subrange(offset as int, i as int),
        decreases end - i,
    {
        let d = docs[i].clone();
        let ghost before = res@;
        res.push(d);
        assert(res@ =~= before.push(d));
        assert(views(docs@)[i as int] == docs@[i as int]@);
        assert(views(res@) =~= views(before).push(d@));
        assert(views(res@) =~= views(docs@).subrange(offset as int, i + 1));
        i = i + 1;
    }
    assert(views(res@) =~= page(views(docs@), offset as int, limit as int));
    res
}

} // verus!
