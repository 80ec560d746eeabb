//! Schemas, document identifiers and documents, with the validation rules
//! that tie documents to the schema of their collection.
use vstd::prelude::*;
use crate::text::{chars_of, same_text, text, trim, trimmed};
use crate::value::{
    debug_render, debug_text, keys_distinct, lemma_pairs_map, pairs_map, DocValue, FieldMap,
    JsonMap, JsonValue,
};

verus! {

broadcast use vstd::string::group_string_axioms;

/// Errors of the domain rules.
#[derive(Debug, PartialEq)]
pub enum DomainError {
    InvalidSchema(String),
    InvalidFieldValue { field: String, reason: String },
    FieldNotFound(String),
    MissingField(String),
}

/// A domain error with its texts as character sequences.
pub enum DomainErrorView {
    InvalidSchema(Seq<char>),
    InvalidFieldValue { field: Seq<char>, reason: Seq<char> },
    FieldNotFound(Seq<char>),
    MissingField(Seq<char>),
}

impl View for DomainError {
    type V = DomainErrorView;

    open spec fn view(&self) -> DomainErrorView {
        match self {
            DomainError::InvalidSchema(m) => DomainErrorView::InvalidSchema(m@),
            DomainError::InvalidFieldValue { field, reason } => DomainErrorView::InvalidFieldValue {
                field: field@,
                reason: reason@,
            },
            DomainError::FieldNotFound(f) => DomainErrorView::FieldNotFound(f@),
            DomainError::MissingField(f) => DomainErrorView::MissingField(f@),
        }
    }
}

/// The message of a domain error.
pub open spec fn domain_error_text(e: DomainErrorView) -> Seq<char> {
    match e {
        DomainErrorView::InvalidSchema(m) => "Invalid schema: "@ + m,
        DomainErrorView::InvalidFieldValue { field, reason } => "Invalid field value for field '"@
            + field + "': "@ + reason,
        DomainErrorView::FieldNotFound(f) => "Field '"@ + f + "' not found in schema"@,
        DomainErrorView::MissingField(f) => "Missing required field '"@ + f + "'"@,
    }
}

impl DomainError {
    /// The error's message.
    pub fn message(&self) -> (res: String)
        ensures
            res@ == domain_error_text(self@),
    {
        let mut res = String::new();
        match self {
            DomainError::InvalidSchema(m) => {
                res.append("Invalid schema: ");
                res.append(m.as_str());
            },
            DomainError::InvalidFieldValue { field, reason } => {
                res.append("Invalid field value for field '");
                res.append(field.as_str());
                res.append("': ");
                res.append(reason.as_str());
            },
            DomainError::FieldNotFound(f) => {
                res.append("Field '");
                res.append(f.as_str());
                res.append("' not found in schema");
            },
            DomainError::MissingField(f) => {
                res.append("Missing required field '");
                res.append(f.as_str());
                res.append("'");
            },
        }
        res
    }
}

/// The identifier of a document.
#[derive(Debug, PartialEq, Eq, Hash)]
pub struct DocumentId(String);

impl View for DocumentId {
    type V = Seq<char>;

    closed spec fn view(&self) -> Seq<char> {
        self.0@
    }
}

impl Clone for DocumentId {
    fn clone(&self) -> (res: Self)
        ensures
            res == *self,
    {
        DocumentId(self.0.clone())
    }
}

impl DocumentId {
    pub fn new(id: String) -> (res: Self)
        ensures
            res@ == id@,
    {
        Self(id)
    }

    pub fn as_str(&self) -> (res: &str)
        ensures
            res@ == self@,
    {
        self.0.as_str()
    }

    /// The identifier as an owned string.
    pub fn into_string(self) -> (res: String)
        ensures
            res@ == self@,
    {
        self.0
    }
}

impl From<String> for DocumentId {
    fn from(id: String) -> (res: Self)
        ensures
            res@ == id@,
    {
        DocumentId(id)
    }
}

impl vstd::std_specs::convert::FromSpecImpl<String> for DocumentId {
    open spec fn obeys_from_spec() -> bool {
        true
    }

    closed spec fn from_spec(id: String) -> DocumentId {
        DocumentId(id)
    }
}

impl From<DocumentId> for String {
    fn from(id: DocumentId) -> (res: Self)
        ensures
            res@ == id@,
    {
        id.0
    }
}

impl vstd::std_specs::convert::FromSpecImpl<DocumentId> for String {
    open spec fn obeys_from_spec() -> bool {
        true
    }

    closed spec fn from_spec(id: DocumentId) -> String {
        id.0
    }
}

/// The type of a field in a collection schema.
#[derive(Debug, Clone, Copy, PartialEq, Eq, Structural)]
pub enum FieldType {
    Text,
    Number,
}

/// One field of a collection schema.
#[derive(Debug, PartialEq, Eq)]
pub struct FieldDefinition {
    pub name: String,
    pub field_type: FieldType,
    /// Whether the field is searched by text queries.
    pub index: bool,
    /// Whether documents may leave the field out.
    pub optional: bool,
}

impl Clone for FieldDefinition {
    fn clone(&self) -> (res: Self)
        ensures
            res == *self,
    {
        FieldDefinition {
            name: self.name.clone(),
            field_type: self.field_type,
            index: self.index,
            optional: self.optional,
        }
    }
}

/// Copies a list of field definitions.
pub fn copy_fields(fields: &Vec<FieldDefinition>) -> (res: Vec<FieldDefinition>)
    ensures
        res@ == fields@,
{
    let mut res: Vec<FieldDefinition> = Vec::new();
    let n = fields.len();
    for i in 0..n
        invariant
            n == fields@.len(),
            res@ == fields@.take(i as int),
    {
        res.push(fields[i].clone());
        assert(res@ =~= fields@.take(i + 1));
    }
    assert(res@ =~= fields@);
    res
}

/// The schema of a collection: its name and its fields, with the lookup
/// table that `build` fills once the schema is valid.
#[derive(Debug)]
pub struct CollectionSchema {
    /// The unique name of the collection.
    pub name: String,
    pub fields: Vec<FieldDefinition>,
    field_lookup: Option<Vec<FieldDefinition>>,
}

/// A schema as plain values.
pub struct SchemaView {
    pub name: Seq<char>,
    pub fields: Seq<FieldDefinition>,
    /// The lookup table; `None` until the schema is built.
    pub lookup: Option<Seq<FieldDefinition>>,
}

impl View for CollectionSchema {
    type V = SchemaView;

    closed spec fn view(&self) -> SchemaView {
        SchemaView {
            name: self.name@,
            fields: self.fields@,
            lookup: match self.field_lookup {
                Some(l) => Some(l@),
                None => None,
            },
        }
    }
}

impl Clone for CollectionSchema {
    fn clone(&self) -> (res: Self)
        ensures
            res@ == self@,
    {
        CollectionSchema {
            name: self.name.clone(),
            fields: copy_fields(&self.fields),
            field_lookup: match &self.field_lookup {
                Some(l) => Some(copy_fields(l)),
                None => None,
            },
        }
    }
}

impl Default for CollectionSchema {
    fn default() -> (res: Self)
        ensures
            res@.name == Seq::<char>::empty(),
            res@.fields == Seq::<FieldDefinition>::empty(),
            res@.lookup is None,
    {
        CollectionSchema { name: String::new(), fields: Vec::new(), field_lookup: None }
    }
}

/// A character of a valid collection name: ASCII letter or digit, or `_`.
pub open spec fn is_name_char(c: char) -> bool {
    ||| ('a' <= c && c <= 'z')
    ||| ('A' <= c && c <= 'Z')
    ||| ('0' <= c && c <= '9')
    ||| c == '_'
}

/// A valid collection name: not blank, made of name characters only.
pub open spec fn valid_collection_name(s: Seq<char>) -> bool {
    &&& trimmed(s).len() > 0
    &&& forall|i: int| 0 <= i < s.len() ==> is_name_char(#[trigger] s[i])
}

pub open spec fn name_error_text() -> Seq<char> {
    "Collection name must be non-empty and contain only ASCII alphanumeric characters or underscores."@
}

pub open spec fn no_fields_text() -> Seq<char> {
    "Schema must contain at least one field."@
}

pub open spec fn empty_field_name_text() -> Seq<char> {
    "Field names cannot be empty."@
}

pub open spec fn duplicate_field_text(name: Seq<char>) -> Seq<char> {
    "Duplicate field name found: '"@ + name + "'"@
}

pub open spec fn reserved_id_text() -> Seq<char> {
    "'id' is a reserved field name and cannot be defined in the schema."@
}

/// What is wrong with the field at position `i`, given that the fields
/// before it are fine.
pub open spec fn field_problem(fields: Seq<FieldDefinition>, i: int) -> Option<Seq<char>> {
    let name = fields[i].name@;
    if trimmed(name).len() == 0 {
        Some(empty_field_name_text())
    } else if exists|j: int| 0 <= j < i && #[trigger] fields[j].name@ == name {
        Some(duplicate_field_text(name))
    } else if name == "id"@ {
        Some(reserved_id_text())
    } else {
        None
    }
}

/// The problem of the first faulty field among the first `n` fields.
pub open spec fn first_field_problem(fields: Seq<FieldDefinition>, n: nat) -> Option<Seq<char>>
    decreases n,
{
    if n == 0 {
        None
    } else {
        match first_field_problem(fields, (n - 1) as nat) {
            Some(m) => Some(m),
            None => field_problem(fields, n - 1),
        }
    }
}

/// Why a schema with this name and these fields is invalid, if it is.
pub open spec fn schema_problem(name: Seq<char>, fields: Seq<FieldDefinition>) -> Option<
    Seq<char>,
> {
    if !valid_collection_name(name) {
        Some(name_error_text())
    } else if fields.len() == 0 {
        Some(no_fields_text())
    } else {
        first_field_problem(fields, fields.len())
    }
}

/// The first definition named `name`.
pub open spec fn find_field(l: Seq<FieldDefinition>, name: Seq<char>) -> Option<FieldDefinition>
    decreases l.len(),
{
    if l.len() == 0 {
        None
    } else if l[0].name@ == name {
        Some(l[0])
    } else {
        find_field(l.drop_first(), name)
    }
}

pub proof fn lemma_first_problem_none(fields: Seq<FieldDefinition>, n: nat)
    requires
        n <= fields.len(),
        first_field_problem(fields, n) is None,
    ensures
        forall|i: int| 0 <= i < n ==> #[trigger] field_problem(fields, i) is None,
    decreases n,
{
    if n > 0 {
        lemma_first_problem_none(fields, (n - 1) as nat);
    }
}

pub proof fn lemma_find_field_prefix(l: Seq<FieldDefinition>, name: Seq<char>, i: int)
    requires
        0 <= i < l.len(),
        forall|j: int| 0 <= j < i ==> #[trigger] l[j].name@ != name,
    ensures
        find_field(l, name) == find_field(l.skip(i), name),
    decreases i,
{
    if i > 0 {
        assert(l[0].name@ != name);
        assert(l.drop_first().skip(i - 1) =~= l.skip(i));
        assert forall|j: int| 0 <= j < i - 1 implies #[trigger] l.drop_first()[j].name@ != name by {
            assert(l.drop_first()[j] == l[j + 1]);
        }
        lemma_find_field_prefix(l.drop_first(), name, i - 1);
    } else {
        assert(l.skip(0) =~= l);
    }
}

proof fn lemma_find_field_absent(l: Seq<FieldDefinition>, name: Seq<char>)
    requires
        forall|j: int| 0 <= j < l.len() ==> #[trigger] l[j].name@ != name,
    ensures
        find_field(l, name) is None,
    decreases l.len(),
{
    if l.len() > 0 {
        assert forall|j: int| 0 <= j < l.len() - 1 implies #[trigger] l.drop_first()[j].name@
            != name by {
            assert(l.drop_first()[j] == l[j + 1]);
        }
        lemma_find_field_absent(l.drop_first(), name);
    }
}

fn is_name_character(c: char) -> (res: bool)
    ensures
        res == is_name_char(c),
{
    ('a' <= c && c <= 'z') || ('A' <= c && c <= 'Z') || ('0' <= c && c <= '9') || c == '_'
}

fn schema_error(message: &str) -> (res: DomainError)
    ensures
        res@ == DomainErrorView::InvalidSchema(message@),
{
    DomainError::InvalidSchema(text(message))
}

impl CollectionSchema {
    /// A schema with the given name and fields, not built yet.
    pub fn new(name: String, fields: Vec<FieldDefinition>) -> (res: Self)
        ensures
            res@.name == name@,
            res@.fields == fields@,
            res@.lookup is None,
    {
        CollectionSchema { name, fields, field_lookup: None }
    }

    /// The collection's name.
    pub fn collection_name(&self) -> (res: &String)
        ensures
            res@ == self@.name,
    {
        &self.name
    }

    /// The field definitions.
    pub fn field_list(&self) -> (res: &Vec<FieldDefinition>)
        ensures
            res@ == self@.fields,
    {
        &self.fields
    }

    /// Whether `build` has filled the lookup table.
    pub open spec fn is_built(&self) -> bool {
        self@.lookup is Some
    }

    /// Validates the schema and fills its lookup table.
    pub fn build(self) -> (res: Result<Self, DomainError>)
        ensures
            match schema_problem(self@.name, self@.fields) {
                Some(m) => res matches Err(e) && e@ == DomainErrorView::InvalidSchema(m),
                None => res matches Ok(s) && s@ == (SchemaView {
                    name: self@.name,
                    fields: self@.fields,
                    lookup: Some(self@.fields),
                }),
            },
    {
        let name_chars = chars_of(self.name.as_str());
        let trimmed_name = trim(self.name.as_str());
        let mut all_name_chars = true;
        let nn = name_chars.len();
        for i in 0..nn
            invariant
                nn == name_chars@.len(),
                all_name_chars == (forall|j: int| 0 <= j < i ==> is_name_char(#[trigger] name_chars@[j])),
        {
            if !is_name_character(name_chars[i]) {
                all_name_chars = false;
            }
        }
        if trimmed_name.as_str().is_empty() || !all_name_chars {
            return Err(schema_error(
                "Collection name must be non-empty and contain only ASCII alphanumeric characters or underscores.",
            ));
        }
        assert(valid_collection_name(self@.name));
        if self.fields.len() == 0 {
            return Err(schema_error("Schema must contain at least one field."));
        }
        let n = self.fields.len();
        for i in 0..n
            invariant
                n == self.fields@.len(),
                n > 0,
                valid_collection_name(self@.name),
                first_field_problem(self@.fields, i as nat) is None,
        {
            let field = &self.fields[i];
            let t = trim(field.name.as_str());
            if t.as_str().is_empty() {
                assert(first_field_problem(self@.fields, (i + 1) as nat) == Some(
                    empty_field_name_text(),
                ));
                proof {
                    lemma_problem_extends(self@.fields, (i + 1) as nat);
                }
                return Err(schema_error("Field names cannot be empty."));
            }
            for j in 0..i
                invariant
                    n == self.fields@.len(),
                    i < n,
                    valid_collection_name(self@.name),
                    first_field_problem(self@.fields, i as nat) is None,
                    trimmed(self@.fields[i as int].name@).len() > 0,
                    forall|k: int| 0 <= k < j ==> #[trigger] self@.fields[k].name@ != self@.fields[i as int].name@,
            {
                if same_text(self.fields[j].name.as_str(), self.fields[i].name.as_str()) {
                    assert(first_field_problem(self@.fields, (i + 1) as nat) == Some(
                        duplicate_field_text(self@.fields[i as int].name@),
                    ));
                    proof {
                        lemma_problem_extends(self@.fields, (i + 1) as nat);
                    }
                    let mut msg = String::new();
                    msg.append("Duplicate field name found: '");
                    msg.append(self.fields[i].name.as_str());
                    msg.append("'");
                    return Err(DomainError::InvalidSchema(msg));
                }
            }
            if same_text(self.fields[i].name.as_str(), "id") {
                assert(first_field_problem(self@.fields, (i + 1) as nat) == Some(
                    reserved_id_text(),
                ));
                proof {
                    lemma_problem_extends(self@.fields, (i + 1) as nat);
                }
                return Err(schema_error(
                    "'id' is a reserved field name and cannot be defined in the schema.",
                ));
            }
            assert(first_field_problem(self@.fields, (i + 1) as nat) is None);
        }
        let lookup = copy_fields(&self.fields);
        Ok(CollectionSchema { name: self.name, fields: self.fields, field_lookup: Some(lookup) })
    }

    /// The definition of the field `name`; `None` where there is none or the
    /// schema is not built.
    pub fn get_field(&self, name: &str) -> (res: Option<&FieldDefinition>)
        ensures
            match self@.lookup {
                Some(l) => match res {
                    Some(f) => find_field(l, name@) == Some(*f),
                    None => find_field(l, name@) is None,
                },
                None => res is None,
            },
    {
        match &self.field_lookup {
            None => None,
            Some(l) => {
                let n = l.len();
                for i in 0..n
                    invariant
                        n == l@.len(),
                        self@.lookup == Some(l@),
                        forall|j: int| 0 <= j < i ==> #[trigger] l@[j].name@ != name@,
                {
                    if same_text(l[i].name.as_str(), name) {
                        proof {
                            lemma_find_field_prefix(l@, name@, i as int);
                            assert(l@.skip(i as int)[0] == l@[i as int]);
                            assert(l@[i as int].name@ == name@);
                            assert(find_field(l@.skip(i as int), name@) == Some(l@[i as int]));
                            assert(self@.lookup == Some(l@));
                        }
                        return Some(&l[i]);
                    }
                }
                proof {
                    lemma_find_field_absent(l@, name@);
                }
                None
            },
        }
    }

    /// The lookup table of a built schema.
    pub fn lookup(&self) -> (res: &Vec<FieldDefinition>)
        requires
            self.is_built(),
        ensures
            Some(res@) == self@.lookup,
    {
        match &self.field_lookup {
            Some(l) => l,
            None => {
                proof {
                    assert(false);
                }
                &self.fields
            },
        }
    }
}

proof fn lemma_problem_extends(fields: Seq<FieldDefinition>, n: nat)
    requires
        n <= fields.len(),
        first_field_problem(fields, n) is Some,
    ensures
        first_field_problem(fields, fields.len()) == first_field_problem(fields, n),
    decreases fields.len() - n,
{
    if n < fields.len() {
        assert(first_field_problem(fields, n + 1) == first_field_problem(fields, n));
        lemma_problem_extends(fields, n + 1);
    }
}

/// A document: an identifier and the fields that its collection's schema
/// admits.
#[derive(Debug)]
pub struct Document {
    id: DocumentId,
    fields: FieldMap,
}

/// A document as plain values.
pub struct DocumentView {
    pub id: Seq<char>,
    pub fields: Map<Seq<char>, DocValue>,
}

impl View for Document {
    type V = DocumentView;

    closed spec fn view(&self) -> DocumentView {
        DocumentView { id: self.id@, fields: self.fields@ }
    }
}

impl Clone for Document {
    fn clone(&self) -> (res: Self)
        ensures
            res@ == self@,
    {
        Document { id: self.id.clone(), fields: self.fields.duplicate() }
    }
}

/// Whether a value has the type that a field of type `t` asks for.
pub open spec fn fits(t: FieldType, v: JsonValue) -> bool {
    match t {
        FieldType::Text => v is String,
        FieldType::Number => v is Number,
    }
}

/// Why a value does not fit a field of type `t`.
pub open spec fn mismatch_reason(t: FieldType, v: JsonValue) -> Seq<char> {
    match t {
        FieldType::Text => "Expected a text string, got "@ + debug_render(v),
        FieldType::Number => "Expected a number, got "@ + debug_render(v),
    }
}

/// What is wrong with the provided field `name` set to `v`, given the
/// lookup table `l`.
pub open spec fn entry_error(l: Seq<FieldDefinition>, name: Seq<char>, v: JsonValue) -> Option<
    DomainErrorView,
> {
    match find_field(l, name) {
        None => Some(DomainErrorView::FieldNotFound(name)),
        Some(d) => if fits(d.field_type, v) {
            None
        } else {
            Some(
                DomainErrorView::InvalidFieldValue {
                    field: name,
                    reason: mismatch_reason(d.field_type, v),
                },
            )
        },
    }
}

/// The error of the first faulty pair among the first `n` provided pairs.
pub open spec fn first_entry_error(
    l: Seq<FieldDefinition>,
    s: Seq<(String, JsonValue)>,
    n: nat,
) -> Option<DomainErrorView>
    decreases n,
{
    if n == 0 {
        None
    } else {
        match first_entry_error(l, s, (n - 1) as nat) {
            Some(e) => Some(e),
            None => entry_error(l, s[n - 1].0@, s[n - 1].1),
        }
    }
}

/// The first required field among the first `n` definitions of `l` that is
/// not provided.
pub open spec fn first_missing(
    l: Seq<FieldDefinition>,
    provided: Map<Seq<char>, JsonValue>,
    n: nat,
) -> Option<Seq<char>>
    decreases n,
{
    if n == 0 {
        None
    } else {
        match first_missing(l, provided, (n - 1) as nat) {
            Some(m) => Some(m),
            None => if !l[n - 1].optional && !provided.contains_key(l[n - 1].name@) {
                Some(l[n - 1].name@)
            } else {
                None
            },
        }
    }
}

/// Why `fields` do not make a document of the schema with lookup table `l`,
/// if they do not: the first faulty provided field (in the order of the
/// pairs), else the first required field (in the order of the table) that
/// is missing.
pub open spec fn document_error(l: Seq<FieldDefinition>, fields: JsonMap) -> Option<
    DomainErrorView,
> {
    match first_entry_error(l, fields.pairs(), fields.pairs().len()) {
        Some(e) => Some(e),
        None => match first_missing(l, fields@, l.len()) {
            Some(m) => Some(DomainErrorView::MissingField(m)),
            None => None,
        },
    }
}

/// The stored form of a value that fits its field.
pub open spec fn stored_value(v: JsonValue) -> DocValue {
    match v {
        JsonValue::String(s) => DocValue::Text(s),
        JsonValue::Number(n) => DocValue::Number(n),
        _ => arbitrary(),
    }
}

proof fn lemma_entry_error_extends(l: Seq<FieldDefinition>, s: Seq<(String, JsonValue)>, n: nat)
    requires
        n <= s.len(),
        first_entry_error(l, s, n) is Some,
    ensures
        first_entry_error(l, s, s.len()) == first_entry_error(l, s, n),
    decreases s.len() - n,
{
    if n < s.len() {
        assert(first_entry_error(l, s, n + 1) == first_entry_error(l, s, n));
        lemma_entry_error_extends(l, s, n + 1);
    }
}

proof fn lemma_missing_extends(
    l: Seq<FieldDefinition>,
    provided: Map<Seq<char>, JsonValue>,
    n: nat,
)
    requires
        n <= l.len(),
        first_missing(l, provided, n) is Some,
    ensures
        first_missing(l, provided, l.len()) == first_missing(l, provided, n),
    decreases l.len() - n,
{
    if n < l.len() {
        assert(first_missing(l, provided, n + 1) == first_missing(l, provided, n));
        lemma_missing_extends(l, provided, n + 1);
    }
}

proof fn lemma_stored_map(s: Seq<(String, JsonValue)>, t: Seq<(String, DocValue)>)
    requires
        s.len() == t.len(),
        forall|i: int|
            #![trigger t[i]]
            0 <= i < t.len() ==> t[i].0@ == s[i].0@ && t[i].1 == stored_value(s[i].1),
    ensures
        pairs_map(t) == pairs_map(s).map_values(|v: JsonValue| stored_value(v)),
    decreases s.len(),
{
    if s.len() > 0 {
        let s2 = s.drop_last();
        let t2 = t.drop_last();
        assert forall|i: int| #![trigger t2[i]] 0 <= i < t2.len() implies t2[i].0@ == s2[i].0@
            && t2[i].1 == stored_value(s2[i].1) by {
            assert(t2[i] == t[i]);
            assert(s2[i] == s[i]);
        }
        lemma_stored_map(s2, t2);
        assert(t[t.len() - 1].0@ == s[s.len() - 1].0@);
        assert(pairs_map(t) =~= pairs_map(s).map_values(|v: JsonValue| stored_value(v)));
    } else {
        assert(pairs_map(t) =~= pairs_map(s).map_values(|v: JsonValue| stored_value(v)));
    }
}

impl Document {
    /// Creates a document, checking its fields against a built schema: every
    /// provided field must be defined with a matching type, and every
    /// required field must be provided.
    pub fn new(id: DocumentId, fields: JsonMap, schema: &CollectionSchema) -> (res: Result<
        Self,
        DomainError,
    >)
        requires
            schema.is_built(),
        ensures
            match document_error(schema@.lookup->0, fields) {
                Some(e) => res matches Err(err) && err@ == e,
                None => res matches Ok(d) && d@ == (DocumentView {
                    id: id@,
                    fields: fields@.map_values(|v: JsonValue| stored_value(v)),
                }),
            },
    {
        let lookup = schema.lookup();
        let ghost l = lookup@;
        let es = fields.entries();
        let n = es.len();
        let mut validated: Vec<(String, DocValue)> = Vec::new();
        for i in 0..n
            invariant
                n == es@.len(),
                es@ == fields.pairs(),
                keys_distinct(es@),
                schema.is_built(),
                Some(l) == schema@.lookup,
                first_entry_error(l, es@, i as nat) is None,
                validated@.len() == i,
                forall|j: int|
                    #![trigger validated@[j]]
                    0 <= j < i ==> validated@[j].0@ == es@[j].0@ && validated@[j].1
                        == stored_value(es@[j].1),
        {
            let name = &es[i].0;
            let value = &es[i].1;
            match schema.get_field(name.as_str()) {
                Some(def) => {
                    let ok = match def.field_type {
                        FieldType::Text => match value {
                            JsonValue::String(_) => true,
                            _ => false,
                        },
                        FieldType::Number => match value {
                            JsonValue::Number(_) => true,
                            _ => false,
                        },
                    };
                    if !ok {
                        let mut reason = String::new();
                        match def.field_type {
                            FieldType::Text => reason.append("Expected a text string, got "),
                            FieldType::Number => reason.append("Expected a number, got "),
                        }
                        let shown = debug_text(value);
                        reason.append(shown.as_str());
                        proof {
                            assert(first_entry_error(l, es@, (i + 1) as nat) is Some);
                            lemma_entry_error_extends(l, es@, (i + 1) as nat);
                        }
                        return Err(DomainError::InvalidFieldValue { field: name.clone(), reason });
                    }
                    let stored = match value {
                        JsonValue::String(s) => DocValue::Text(s.clone()),
                        JsonValue::Number(x) => DocValue::Number(x.clone()),
                        _ => {
                            proof {
                                assert(false);
                            }
                            DocValue::Text(String::new())
                        },
                    };
                    validated.push((name.clone(), stored));
                },
                None => {
                    proof {
                        assert(first_entry_error(l, es@, (i + 1) as nat) is Some);
                        lemma_entry_error_extends(l, es@, (i + 1) as nat);
                    }
                    return Err(DomainError::FieldNotFound(name.clone()));
                },
            }
        }
        let m = lookup.len();
        for k in 0..m
            invariant
                m == l.len(),
                lookup@ == l,
                Some(l) == schema@.lookup,
                es@ == fields.pairs(),
                first_entry_error(l, es@, es@.len()) is None,
                first_missing(l, fields@, k as nat) is None,
        {
            let def = &lookup[k];
            if !def.optional {
                if fields.get(def.name.as_str()).is_none() {
                    proof {
                        assert(first_missing(l, fields@, (k + 1) as nat) is Some);
                        lemma_missing_extends(l, fields@, (k + 1) as nat);
                    }
                    return Err(DomainError::MissingField(def.name.clone()));
                }
            }
        }
        proof {
            assert forall|a: int, b: int| 0 <= a < b < validated@.len() implies #[trigger] validated@[a].0@
                != #[trigger] validated@[b].0@ by {
                assert(es@[a].0@ != es@[b].0@);
            }
            lemma_stored_map(es@, validated@);
        }
        let stored_fields = FieldMap::from_distinct(validated);
        Ok(Document { id, fields: stored_fields })
    }

    pub fn id(&self) -> (res: &DocumentId)
        ensures
            res@ == self@.id,
    {
        &self.id
    }

    pub fn fields(&self) -> (res: &FieldMap)
        ensures
            res@ == self@.fields,
    {
        &self.fields
    }

    /// The value of the field `field_name`, if the document has it.
    pub fn get_field_value(&self, field_name: &str) -> (res: Option<&DocValue>)
        ensures
            match res {
                Some(v) => self@.fields.contains_key(field_name@) && *v == self@.fields[field_name@],
                None => !self@.fields.contains_key(field_name@),
            },
    {
        self.fields.get(field_name)
    }
}

} // verus!
