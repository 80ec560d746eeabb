//! The values that documents, requests and filters carry: a JSON model as
//! plain data, and the field maps of documents.
use vstd::prelude::*;
use crate::text::same_text;

verus! {

broadcast use vstd::string::group_string_axioms;

/// The map that a list of (name, value) pairs stands for; a later pair
/// replaces an earlier one with the same name.
pub open spec fn pairs_map<V>(s: Seq<(String, V)>) -> Map<Seq<char>, V>
    decreases s.len(),
{
    if s.len() == 0 {
        Map::empty()
    } else {
        pairs_map(s.drop_last()).insert(s.last().0@, s.last().1)
    }
}

/// No two pairs share a name.
pub open spec fn keys_distinct<V>(s: Seq<(String, V)>) -> bool {
    forall|i: int, j: int| 0 <= i < j < s.len() ==> #[trigger] s[i].0@ != #[trigger] s[j].0@
}

/// With distinct names, the map holds exactly the pairs, each under its name.
pub proof fn lemma_pairs_map<V>(s: Seq<(String, V)>)
    requires
        keys_distinct(s),
    ensures
        forall|i: int|
            #![trigger s[i]]
            0 <= i < s.len() ==> pairs_map(s).contains_key(s[i].0@) && pairs_map(s)[s[i].0@]
                == s[i].1,
        forall|k: Seq<char>|
            #[trigger] pairs_map(s).contains_key(k) <==> exists|i: int|
                0 <= i < s.len() && #[trigger] s[i].0@ == k,
        pairs_map(s).dom().finite(),
        pairs_map(s).dom().len() == s.len(),
    decreases s.len(),
{
    if s.len() > 0 {
        let t = s.drop_last();
        assert(keys_distinct(t));
        lemma_pairs_map(t);
        let k = s.last().0@;
        assert(!pairs_map(t).contains_key(k)) by {
            if pairs_map(t).contains_key(k) {
                let i = choose|i: int| 0 <= i < t.len() && #[trigger] t[i].0@ == k;
                assert(s[i].0@ == s[s.len() - 1].0@);
            }
        }
        assert forall|i: int| #![trigger s[i]] 0 <= i < s.len() implies pairs_map(s).contains_key(
            s[i].0@,
        ) && pairs_map(s)[s[i].0@] == s[i].1 by {
            if i < s.len() - 1 {
                assert(t[i] == s[i]);
                assert(s[i].0@ != s[s.len() - 1].0@);
            }
        }
        assert forall|k2: Seq<char>| #[trigger] pairs_map(s).contains_key(k2) implies exists|i: int|
            0 <= i < s.len() && #[trigger] s[i].0@ == k2 by {
            if k2 != k {
                let i = choose|i: int| 0 <= i < t.len() && #[trigger] t[i].0@ == k2;
                assert(s[i] == t[i]);
            } else {
                assert(s[s.len() - 1].0@ == k2);
            }
        }
    }
}

/// A JSON number as the library reads it.
#[derive(Debug, PartialEq)]
pub struct JsonNumber {
    /// An integer that orders numbers as their `f64` values do: two numbers
    /// compare by `<` and `==` on this key exactly as their `f64` values
    /// compare, and numbers with equal `f64` values (0 and -0 among them)
    /// have equal keys.
    pub order_key: u64,
    /// The order keys of the least and the greatest 64-bit floating-point
    /// numbers whose difference from this number, computed in that
    /// arithmetic, is less than its machine epsilon (2^-52): the numbers
    /// close enough to count as equal to this one.
    pub near_low: u64,
    pub near_high: u64,
    /// The number as an `i64`, where it is an integer that fits one.
    pub integer: Option<i64>,
    /// The number written out, as JSON writes it.
    pub text: String,
}

impl Clone for JsonNumber {
    fn clone(&self) -> (res: Self)
        ensures
            res == *self,
    {
        JsonNumber {
            order_key: self.order_key,
            near_low: self.near_low,
            near_high: self.near_high,
            integer: self.integer,
            text: self.text.clone(),
        }
    }
}

/// A JSON value.
#[derive(Debug, PartialEq)]
pub enum JsonValue {
    Null,
    Bool(bool),
    Number(JsonNumber),
    String(String),
    Array(Vec<JsonValue>),
    Object(JsonMap),
}

/// A JSON object.
pub type JsonMap = NamedMap<JsonValue>;

/// Names mapped to values, each name at most once, kept in the order in
/// which they were first inserted.
#[derive(Debug, PartialEq)]
pub struct NamedMap<V> {
    entries: Vec<(String, V)>,
}

impl<V> NamedMap<V> {
    #[verifier::type_invariant]
    spec fn distinct(&self) -> bool {
        keys_distinct(self.entries@)
    }

    /// The (name, value) pairs, in the order they were first inserted.
    pub closed spec fn pairs(&self) -> Seq<(String, V)> {
        self.entries@
    }

    /// The object as a map from names to values.
    pub open spec fn view(&self) -> Map<Seq<char>, V> {
        pairs_map(self.pairs())
    }

    /// An empty map.
    pub fn new() -> (res: Self)
        ensures
            res.pairs() == Seq::<(String, V)>::empty(),
    {
        NamedMap { entries: Vec::new() }
    }

    /// Sets `name` to `value`, replacing an earlier value of that name in place.
    pub fn insert(&mut self, name: String, value: V)
        ensures
            final(self)@ == old(self)@.insert(name@, value),
            keys_distinct(final(self).pairs()),
            old(self)@.contains_key(name@) ==> exists|i: int|
                0 <= i < old(self).pairs().len() && #[trigger] old(self).pairs()[i].0@ == name@
                    && final(self).pairs() == old(self).pairs().update(i, (name, value)),
            !old(self)@.contains_key(name@) ==> final(self).pairs() == old(self).pairs().push((name, value)),
    {
        proof {
            use_type_invariant(&*self);
            lemma_pairs_map(self.entries@);
        }
        let n = self.entries.len();
        let mut i: usize = 0;
        while i < n
            invariant
                n == self.entries.len(),
                i <= n,
                self.entries@ == old(self).entries@,
                keys_distinct(self.entries@),
                forall|j: int| 0 <= j < i ==> #[trigger] self.entries@[j].0@ != name@,
            decreases n - i,
        {
            if same_text(self.entries[i].0.as_str(), name.as_str()) {
                let ghost before = self.entries@;
                let mut entries = Vec::new();
                std::mem::swap(&mut entries, &mut self.entries);
                entries.set(i, (name, value));
                self.entries = entries;
                proof {
                    let after = self.entries@;
                    assert(after[i as int].0@ == name@);
                    assert forall|a: int, b: int| 0 <= a < b < after.len() implies #[trigger] after[a].0@
                        != #[trigger] after[b].0@ by {
                        if a != i && b != i {
                            assert(after[a] == before[a] && after[b] == before[b]);
                        } else if a == i {
                            assert(after[b] == before[b]);
                            assert(before[a].0@ == name@);
                        } else {
                            assert(after[a] == before[a]);
                            assert(before[b].0@ == name@);
                        }
                    }
                    assert(keys_distinct(after));
                    lemma_pairs_map(after);
                    lemma_pairs_map(before);
                    assert forall|k: Seq<char>|
                        pairs_map(before).insert(name@, value).contains_key(k) implies #[trigger] pairs_map(
                        after,
                    ).contains_key(k) by {
                        if k != name@ {
                            let j = choose|j: int| 0 <= j < before.len() && #[trigger] before[j].0@ == k;
                            assert(after[j] == before[j]);
                        } else {
                            assert(after[i as int].0@ == k);
                        }
                    }
                    assert forall|k: Seq<char>| #[trigger] pairs_map(after).contains_key(k) implies pairs_map(
                        before,
                    ).insert(name@, value).contains_key(k) && pairs_map(after)[k] == pairs_map(
                        before,
                    ).insert(name@, value)[k] by {
                        let j = choose|j: int| 0 <= j < after.len() && #[trigger] after[j].0@ == k;
                        if j != i {
                            assert(after[j] == before[j]);
                        }
                    }
                    assert(pairs_map(after) =~= pairs_map(before).insert(name@, value));
                    assert(after =~= before.update(i as int, (name, value)));
                    assert(before[i as int].0@ == name@);
                }
                return;
            }
            i = i + 1;
        }
        let ghost before = self.entries@;
        let mut entries = Vec::new();
        std::mem::swap(&mut entries, &mut self.entries);
        entries.push((name, value));
        self.entries = entries;
        proof {
            assert(self.entries@.drop_last() =~= before);
            assert(keys_distinct(self.entries@));
            assert(!pairs_map(before).contains_key(name@)) by {
                if pairs_map(before).contains_key(name@) {
                    let j = choose|j: int| 0 <= j < before.len() && #[trigger] before[j].0@ == name@;
                }
            }
        }
    }

    /// The value stored under `name`, if any.
    pub fn get(&self, name: &str) -> (res: Option<&V>)
        ensures
            match res {
                Some(v) => self@.contains_key(name@) && *v == self@[name@],
                None => !self@.contains_key(name@),
            },
    {
        proof {
            use_type_invariant(self);
            lemma_pairs_map(self.entries@);
        }
        let n = self.entries.len();
        for i in 0..n
            invariant
                n == self.entries.len(),
                forall|j: int| 0 <= j < i ==> #[trigger] self.entries@[j].0@ != name@,
        {
            if same_text(self.entries[i].0.as_str(), name) {
                assert(self.entries@[i as int].0@ == name@);
                proof {
                    use_type_invariant(self);
                    lemma_pairs_map(self.entries@);
                }
                return Some(&self.entries[i].1);
            }
        }
        None
    }

    /// The number of names.
    pub fn len(&self) -> (res: usize)
        ensures
            res == self@.dom().len(),
    {
        proof {
            use_type_invariant(self);
            lemma_pairs_map(self.entries@);
        }
        self.entries.len()
    }

    /// The (name, value) pairs.
    pub fn entries(&self) -> (res: &Vec<(String, V)>)
        ensures
            res@ == self.pairs(),
            keys_distinct(res@),
    {
        proof {
            use_type_invariant(self);
        }
        &self.entries
    }
}

/// A value stored in a document: the schema admits text and numbers only.
#[derive(Debug, PartialEq)]
pub enum DocValue {
    Text(String),
    Number(JsonNumber),
}

impl Clone for DocValue {
    fn clone(&self) -> (res: Self)
        ensures
            res == *self,
    {
        match self {
            DocValue::Text(s) => DocValue::Text(s.clone()),
            DocValue::Number(n) => DocValue::Number(n.clone()),
        }
    }
}

/// The fields of a document: field name to value.
pub type FieldMap = NamedMap<DocValue>;

impl NamedMap<DocValue> {
    /// A copy holding the same pairs.
    pub fn duplicate(&self) -> (res: Self)
        ensures
            res.pairs() == self.pairs(),
    {
        proof {
            use_type_invariant(self);
        }
        let mut entries: Vec<(String, DocValue)> = Vec::new();
        let n = self.entries.len();
        for i in 0..n
            invariant
                n == self.entries.len(),
                entries@ == self.entries@.take(i as int),
        {
            let pair = (self.entries[i].0.clone(), self.entries[i].1.clone());
            entries.push(pair);
            assert(entries@ =~= self.entries@.take(i + 1));
        }
        assert(entries@ =~= self.entries@);
        NamedMap { entries }
    }

    /// A map of the given pairs, whose names are distinct.
    pub(crate) fn from_distinct(entries: Vec<(String, DocValue)>) -> (res: Self)
        requires
            keys_distinct(entries@),
        ensures
            res.pairs() == entries@,
    {
        NamedMap { entries }
    }
}

/// What std's `Debug` prints for a string: the text in double quotes with
/// escapes.
pub uninterp spec fn debug_quoted(s: Seq<char>) -> Seq<char>;

/// std's `Debug` formatting of a `str`; its result is named by `debug_quoted`.
#[verifier::external_body]
pub(crate) fn quote_debug(s: &str) -> (res: String)
    ensures
        res@ == debug_quoted(s@),
{
    format!("{:?}", s)
}

pub open spec fn bool_text(b: bool) -> Seq<char> {
    if b {
        "true"@
    } else {
        "false"@
    }
}

/// The `Debug` rendering of a JSON value, in the form JSON values print in:
/// `Null`, `Bool(true)`, `Number(1.5)`, `String("a")`, `Array [..]` and
/// `Object {..}`, items separated by `, `.
pub closed spec fn debug_render(v: JsonValue) -> Seq<char>
    decreases v,
{
    match v {
        JsonValue::Null => "Null"@,
        JsonValue::Bool(b) => "Bool("@ + bool_text(b) + ")"@,
        JsonValue::Number(n) => "Number("@ + n.text@ + ")"@,
        JsonValue::String(s) => "String("@ + debug_quoted(s@) + ")"@,
        JsonValue::Array(a) => "Array ["@ + debug_items(a@) + "]"@,
        JsonValue::Object(m) => "Object {"@ + debug_members(m.entries@) + "}"@,
    }
}

/// The renderings of `s`, separated by `, `.
pub closed spec fn debug_items(s: Seq<JsonValue>) -> Seq<char>
    decreases s,
{
    if s.len() == 0 {
        Seq::empty()
    } else if s.len() == 1 {
        debug_render(s[0])
    } else {
        debug_items(s.drop_last()) + ", "@ + debug_render(s.last())
    }
}

/// The members `"name": value` of an object, separated by `, `.
pub closed spec fn debug_members(s: Seq<(String, JsonValue)>) -> Seq<char>
    decreases s,
{
    if s.len() == 0 {
        Seq::empty()
    } else if s.len() == 1 {
        debug_quoted(s[0].0@) + ": "@ + debug_render(s[0].1)
    } else {
        debug_members(s.drop_last()) + ", "@ + debug_quoted(s.last().0@) + ": "@ + debug_render(
            s.last().1,
        )
    }
}

/// Renders a JSON value as its `Debug` form (see `debug_render`).
pub fn debug_text(v: &JsonValue) -> (res: String)
    ensures
        res@ == debug_render(*v),
    decreases v, 1nat,
{
    let mut res = String::new();
    match v {
        JsonValue::Null => {
            res.append("Null");
        },
        JsonValue::Bool(b) => {
            res.append("Bool(");
            if *b {
                res.append("true");
            } else {
                res.append("false");
            }
            res.append(")");
        },
        JsonValue::Number(n) => {
            res.append("Number(");
            res.append(n.text.as_str());
            res.append(")");
        },
        JsonValue::String(s) => {
            res.append("String(");
            let q = quote_debug(s.as_str());
            res.append(q.as_str());
            res.append(")");
        },
        JsonValue::Array(a) => {
            res.append("Array [");
            let items = debug_items_text(a);
            res.append(items.as_str());
            res.append("]");
        },
        JsonValue::Object(m) => {
            res.append("Object {");
            let members = debug_members_text(&m.entries);
            res.append(members.as_str());
            res.append("}");
        },
    }
    res
}

fn debug_items_text(a: &Vec<JsonValue>) -> (res: String)
    ensures
        res@ == debug_items(a@),
    decreases a, 0nat,
{
    let mut res = String::new();
    let n = a.len();
    for i in 0..n
        invariant
            n == a@.len(),
            res@ == debug_items(a@.take(i as int)),
    {
        proof {
            assert(decreases_to!(a => a@));
            assert(decreases_to!(a@ => a@[i as int]));
        }
        if i > 0 {
            res.append(", ");
        }
        let item = debug_text(&a[i]);
        res.append(item.as_str());
        proof {
            let t = a@.take(i + 1);
            assert(t.drop_last() =~= a@.take(i as int));
            assert(t.last() == a@[i as int]);
            reveal_with_fuel(debug_items, 2);
        }
    }
    assert(a@.take(n as int) =~= a@);
    res
}

fn debug_members_text(es: &Vec<(String, JsonValue)>) -> (res: String)
    ensures
        res@ == debug_members(es@),
    decreases es, 0nat,
{
    let mut res = String::new();
    let n = es.len();
    for i in 0..n
        invariant
            n == es@.len(),
            res@ == debug_members(es@.take(i as int)),
    {
        proof {
            assert(decreases_to!(es => es@));
            assert(decreases_to!(es@ => es@[i as int]));
            assert(decreases_to!(es@[i as int] => es@[i as int].1));
        }
        if i > 0 {
            res.append(", ");
        }
        let key = quote_debug(es[i].0.as_str());
        res.append(key.as_str());
        res.append(": ");
        let item = debug_text(&es[i].1);
        res.append(item.as_str());
        proof {
            let t = es@.take(i + 1);
            assert(t.drop_last() =~= es@.take(i as int));
            assert(t.last() == es@[i as int]);
            reveal_with_fuel(debug_members, 2);
        }
    }
    assert(es@.take(n as int) =~= es@);
    res
}

} // verus!
