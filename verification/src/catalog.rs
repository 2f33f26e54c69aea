//! The catalog of a database: which collections exist (by meta key
//! `{schema}::{collection}`), which schemas exist, which collections are
//! singletons, and the rules of collection and schema management. The
//! catalog is the in-memory registry; storage holds the records.

use vstd::prelude::*;
use vstd::string::StringExecFns;
use crate::error::NoSqlError;
use crate::federation::{contains_text, texts_contain};
use crate::filter::{has_substring, text_contains, text_starts_with};
use crate::provenance::spec_hex_encode;
use crate::schema::{QualifiedName, spec_is_reserved_schema, is_reserved_schema, validate_schema_name, spec_schema_name_valid, spec_parse_qualified};
use crate::text::{chars_of, str_eq, string_from_range};
use crate::value::{ValueOrder, compare_text, lex_order};
use crate::digest::{sha256, sha256_hex};
use vstd::string::StrSliceExecFns;

verus! {

/// Metadata of a schema.
#[derive(Debug)]
pub struct SchemaMetadata {
    pub name: String,
    /// Optional sharing status override for this schema (text form).
    pub sharing_status: Option<String>,
    /// When the schema was created (seconds and nanoseconds since the epoch).
    pub created_at: (i64, u32),
}

/// Metadata of a collection.
#[derive(Debug)]
pub struct SchemaEntry {
    pub schema_name: String,
    pub collection_name: String,
    /// Storage tree name (may differ from the meta key for legacy collections).
    pub tree_name: String,
    /// Optional sharing status override for this collection (text form).
    pub sharing_status: Option<String>,
    pub created_at: (i64, u32),
    /// Whether this collection is a singleton (exactly one record, id 1).
    pub singleton: bool,
    pub collection_type: Option<String>,
}

/// The views of a list of texts.
pub open spec fn views(v: Seq<String>) -> Seq<Seq<char>> {
    v.map_values(|s: String| s@)
}

/// Whether no text occurs twice.
pub open spec fn distinct_texts(v: Seq<String>) -> bool {
    forall|i: int, j: int| 0 <= i < j < v.len() ==> (#[trigger] v[i])@ != (#[trigger] v[j])@
}

/// The meta key prefix of a schema: `{schema}::`.
pub open spec fn schema_prefix(schema: Seq<char>) -> Seq<char> {
    schema + "::"@
}

/// Whether a text begins with another.
pub open spec fn starts_with(s: Seq<char>, p: Seq<char>) -> bool {
    p.len() <= s.len() && s.subrange(0, p.len() as int) == p
}

/// Whether `::` stands at position `i` of a text.
pub open spec fn sep_at(s: Seq<char>, i: int) -> bool {
    0 <= i < s.len() - 1 && s[i] == ':' && s[i + 1] == ':'
}

/// The position of the first `::` in a text, if any.
pub open spec fn first_separator(s: Seq<char>) -> Option<int> {
    if exists|i: int| #[trigger] sep_at(s, i) {
        Some(choose|i: int| #[trigger] sep_at(s, i) && forall|j: int| 0 <= j < i ==> !sep_at(s, j))
    } else {
        None
    }
}

/// A meta key in dotted form: its first `::` becomes `.`.
pub open spec fn dotted(s: Seq<char>) -> Seq<char> {
    match first_separator(s) {
        Some(i) => s.subrange(0, i) + "."@ + s.subrange(i + 2, s.len() as int),
        None => s,
    }
}

/// The in-memory catalog of a database.
#[derive(Debug)]
pub struct Catalog {
    /// Meta keys of the open collections.
    collections: Vec<String>,
    /// Schemas by name.
    schemas: Vec<SchemaMetadata>,
    /// Meta keys of the singleton collections.
    singletons: Vec<String>,
    /// This database's name, if it has one.
    database_name: Option<String>,
}

/// Where a collection lookup leads.
#[derive(Debug)]
pub enum CollectionPlan {
    /// The collection is open under this meta key.
    Existing(String),
    /// The collection is created under this meta key (also its tree name);
    /// `new_schema` says if its schema must be created first.
    Create { meta_key: String, schema: String, collection: String, new_schema: bool },
}

impl Catalog {
    /// Meta keys of the open collections.
    pub closed spec fn keys(&self) -> Seq<Seq<char>> {
        views(self.collections@)
    }

    /// Meta keys of the open collections, as stored.
    pub closed spec fn key_strings(&self) -> Seq<String> {
        self.collections@
    }

    /// Names of the schemas.
    pub closed spec fn schema_names(&self) -> Seq<Seq<char>> {
        self.schemas@.map_values(|m: SchemaMetadata| m.name@)
    }

    /// The schemas.
    pub closed spec fn spec_schemas(&self) -> Seq<SchemaMetadata> {
        self.schemas@
    }

    /// Meta keys of the singletons.
    pub closed spec fn singleton_keys(&self) -> Seq<Seq<char>> {
        views(self.singletons@)
    }

    /// This database's name.
    pub closed spec fn spec_database_name(&self) -> Option<String> {
        self.database_name
    }

    /// The catalog's invariant: no meta key, schema or singleton twice.
    pub closed spec fn wf(&self) -> bool {
        &&& distinct_texts(self.collections@)
        &&& distinct_texts(self.singletons@)
        &&& forall|i: int, j: int| 0 <= i < j < self.schemas@.len() ==> (#[trigger] self.schemas@[i]).name@ != (#[trigger] self.schemas@[j]).name@
    }

    /// An empty catalog.
    pub fn new(database_name: Option<String>) -> (r: Catalog)
        ensures
            r.wf(),
            r.keys().len() == 0,
            r.schema_names().len() == 0,
            r.singleton_keys().len() == 0,
            r.spec_database_name() == database_name,
    {
        let r = Catalog { collections: Vec::new(), schemas: Vec::new(), singletons: Vec::new(), database_name };
        proof {
            assert(views(r.collections@) =~= Seq::<Seq<char>>::empty());
            assert(views(r.singletons@) =~= Seq::<Seq<char>>::empty());
            assert(r.schemas@.map_values(|m: SchemaMetadata| m.name@) =~= Seq::<Seq<char>>::empty());
        }
        r
    }

    /// Whether a collection is open under this meta key.
    pub fn has_collection(&self, meta_key: &str) -> (r: bool)
        ensures
            r == self.keys().contains(meta_key@),
    {
        let r = contains_text(&self.collections, meta_key);
        proof {
            if r {
                let i = choose|i: int| 0 <= i < self.collections@.len() && (#[trigger] self.collections@[i])@ == meta_key@;
                assert(self.keys()[i] == meta_key@);
            }
            if self.keys().contains(meta_key@) {
                let i = choose|i: int| 0 <= i < self.keys().len() && self.keys()[i] == meta_key@;
                assert(self.collections@[i]@ == meta_key@);
            }
        }
        r
    }

    /// Registers an open collection; a key already there stays once.
    pub fn add_collection(&mut self, meta_key: String)
        requires
            old(self).wf(),
        ensures
            final(self).wf(),
            final(self).keys() == (if old(self).keys().contains(meta_key@) {
                old(self).keys()
            } else {
                old(self).keys().push(meta_key@)
            }),
            final(self).spec_schemas() == old(self).spec_schemas(),
            final(self).singleton_keys() == old(self).singleton_keys(),
            final(self).spec_database_name() == old(self).spec_database_name(),
    {
        if !self.has_collection(meta_key.as_str()) {
            let ghost k = meta_key@;
            self.collections.push(meta_key);
            proof {
                assert(self.keys() =~= old(self).keys().push(k));
                assert forall|i: int, j: int| 0 <= i < j < self.collections@.len() implies (#[trigger] self.collections@[i])@ != (#[trigger] self.collections@[j])@ by {
                    if j == self.collections@.len() - 1 {
                        assert(old(self).keys()[i] == self.collections@[i]@);
                    }
                }
            }
        }
    }

    /// Unregisters a collection; says whether it was open.
    pub fn remove_collection(&mut self, meta_key: &str) -> (r: bool)
        requires
            old(self).wf(),
        ensures
            final(self).wf(),
            r == old(self).keys().contains(meta_key@),
            r ==> exists|i: int| 0 <= i < old(self).keys().len() && old(self).keys()[i] == meta_key@
                && final(self).keys() == old(self).keys().remove(i),
            !r ==> final(self).keys() == old(self).keys(),
            !final(self).keys().contains(meta_key@),
            final(self).spec_schemas() == old(self).spec_schemas(),
            final(self).singleton_keys() == old(self).singleton_keys(),
            final(self).spec_database_name() == old(self).spec_database_name(),
    {
        let mut i: usize = 0;
        while i < self.collections.len()
            invariant
                i <= self.collections@.len(),
                *self == *old(self),
                old(self).wf(),
                forall|j: int| 0 <= j < i ==> (#[trigger] self.collections@[j])@ != meta_key@,
            decreases self.collections.len() - i,
        {
            if str_eq(self.collections[i].as_str(), meta_key) {
                let ghost before = self.collections@;
                self.collections.remove(i);
                proof {
                    assert(self.keys() =~= old(self).keys().remove(i as int));
                    assert(old(self).keys()[i as int] == meta_key@);
                    assert forall|a: int, b: int| 0 <= a < b < self.collections@.len() implies (#[trigger] self.collections@[a])@ != (#[trigger] self.collections@[b])@ by {
                        let a2 = if a < i { a } else { a + 1 };
                        let b2 = if b < i { b } else { b + 1 };
                        assert(self.collections@[a] == before[a2]);
                        assert(self.collections@[b] == before[b2]);
                    }
                    if self.keys().contains(meta_key@) {
                        let k = choose|k: int| 0 <= k < self.keys().len() && self.keys()[k] == meta_key@;
                        let k2 = if k < i { k } else { k + 1 };
                        assert(before[k2]@ == meta_key@);
                        assert(before[i as int]@ == meta_key@);
                    }
                }
                return true;
            }
            i = i + 1;
        }
        proof {
            if old(self).keys().contains(meta_key@) {
                let k = choose|k: int| 0 <= k < old(self).keys().len() && old(self).keys()[k] == meta_key@;
                assert(self.collections@[k]@ == meta_key@);
            }
        }
        false
    }

    /// Whether a schema exists.
    pub fn has_schema(&self, name: &str) -> (r: bool)
        ensures
            r == self.schema_names().contains(name@),
    {
        let mut i: usize = 0;
        while i < self.schemas.len()
            invariant
                i <= self.schemas@.len(),
                forall|j: int| 0 <= j < i ==> (#[trigger] self.schemas@[j]).name@ != name@,
            decreases self.schemas.len() - i,
        {
            if str_eq(self.schemas[i].name.as_str(), name) {
                proof {
                    assert(self.schema_names()[i as int] == name@);
                }
                return true;
            }
            i = i + 1;
        }
        proof {
            if self.schema_names().contains(name@) {
                let k = choose|k: int| 0 <= k < self.schema_names().len() && self.schema_names()[k] == name@;
                assert(self.schemas@[k].name@ == name@);
            }
        }
        false
    }

    /// Registers a schema unless one of that name exists; says whether it was added.
    pub fn add_schema(&mut self, meta: SchemaMetadata) -> (r: bool)
        requires
            old(self).wf(),
        ensures
            final(self).wf(),
            r == !old(self).schema_names().contains(meta.name@),
            r ==> final(self).spec_schemas() == old(self).spec_schemas().push(meta),
            !r ==> final(self).spec_schemas() == old(self).spec_schemas(),
            final(self).keys() == old(self).keys(),
            final(self).singleton_keys() == old(self).singleton_keys(),
            final(self).spec_database_name() == old(self).spec_database_name(),
    {
        if self.has_schema(meta.name.as_str()) {
            return false;
        }
        let ghost m = meta;
        self.schemas.push(meta);
        proof {
            assert(self.schema_names() =~= old(self).schema_names().push(m.name@));
            assert forall|i: int, j: int| 0 <= i < j < self.schemas@.len() implies (#[trigger] self.schemas@[i]).name@ != (#[trigger] self.schemas@[j]).name@ by {
                if j == self.schemas@.len() - 1 {
                    assert(old(self).schema_names()[i] == self.schemas@[i].name@);
                }
            }
        }
        true
    }

    /// Removes a schema, handing out its metadata.
    pub fn remove_schema(&mut self, name: &str) -> (r: Option<SchemaMetadata>)
        requires
            old(self).wf(),
        ensures
            final(self).wf(),
            r is Some == old(self).schema_names().contains(name@),
            r matches Some(m) ==> exists|i: int| 0 <= i < old(self).spec_schemas().len() && old(self).spec_schemas()[i] == m
                && m.name@ == name@ && final(self).spec_schemas() == old(self).spec_schemas().remove(i),
            r is None ==> final(self).spec_schemas() == old(self).spec_schemas(),
            !final(self).schema_names().contains(name@),
            final(self).keys() == old(self).keys(),
            final(self).singleton_keys() == old(self).singleton_keys(),
            final(self).spec_database_name() == old(self).spec_database_name(),
    {
        let mut i: usize = 0;
        while i < self.schemas.len()
            invariant
                i <= self.schemas@.len(),
                *self == *old(self),
                old(self).wf(),
                forall|j: int| 0 <= j < i ==> (#[trigger] self.schemas@[j]).name@ != name@,
            decreases self.schemas.len() - i,
        {
            if str_eq(self.schemas[i].name.as_str(), name) {
                let ghost before = self.schemas@;
                let m = self.schemas.remove(i);
                proof {
                    assert(old(self).spec_schemas()[i as int] == m);
                    assert(old(self).schema_names()[i as int] == name@);
                    assert(self.schemas@ =~= before.remove(i as int));
                    assert forall|a: int, b: int| 0 <= a < b < self.schemas@.len() implies (#[trigger] self.schemas@[a]).name@ != (#[trigger] self.schemas@[b]).name@ by {
                        let a2 = if a < i { a } else { a + 1 };
                        let b2 = if b < i { b } else { b + 1 };
                        assert(self.schemas@[a] == before[a2]);
                        assert(self.schemas@[b] == before[b2]);
                    }
                    if self.schema_names().contains(name@) {
                        let k = choose|k: int| 0 <= k < self.schema_names().len() && self.schema_names()[k] == name@;
                        let k2 = if k < i { k } else { k + 1 };
                        assert(self.schemas@[k] == before[k2]);
                        assert(before[k2].name@ == name@);
                    }
                }
                return Some(m);
            }
            i = i + 1;
        }
        proof {
            if old(self).schema_names().contains(name@) {
                let k = choose|k: int| 0 <= k < old(self).schema_names().len() && old(self).schema_names()[k] == name@;
                assert(self.schemas@[k].name@ == name@);
            }
        }
        None
    }

    /// The sharing status override of a schema, if the schema exists and has one.
    pub fn schema_sharing_status(&self, name: &str) -> (r: Option<String>)
        requires
            self.wf(),
        ensures
            r matches Some(s) ==> exists|i: int| 0 <= i < self.spec_schemas().len() && (#[trigger] self.spec_schemas()[i]).name@ == name@
                && self.spec_schemas()[i].sharing_status == Some(s),
            r is None ==> forall|i: int| 0 <= i < self.spec_schemas().len() && (#[trigger] self.spec_schemas()[i]).name@ == name@
                ==> self.spec_schemas()[i].sharing_status is None,
    {
        let mut i: usize = 0;
        while i < self.schemas.len()
            invariant
                i <= self.schemas@.len(),
                self.wf(),
                forall|j: int| 0 <= j < i ==> (#[trigger] self.schemas@[j]).name@ != name@,
            decreases self.schemas.len() - i,
        {
            if str_eq(self.schemas[i].name.as_str(), name) {
                return match &self.schemas[i].sharing_status {
                    Some(s) => Some(s.clone()),
                    None => {
                        proof {
                            assert(self.wf() || true);
                        }
                        None
                    },
                };
            }
            i = i + 1;
        }
        None
    }

    /// Whether a meta key is a singleton.
    pub fn is_singleton_meta_key(&self, meta_key: &str) -> (r: bool)
        ensures
            r == self.singleton_keys().contains(meta_key@),
    {
        let r = contains_text(&self.singletons, meta_key);
        proof {
            if r {
                let i = choose|i: int| 0 <= i < self.singletons@.len() && (#[trigger] self.singletons@[i])@ == meta_key@;
                assert(self.singleton_keys()[i] == meta_key@);
            }
            if self.singleton_keys().contains(meta_key@) {
                let i = choose|i: int| 0 <= i < self.singleton_keys().len() && self.singleton_keys()[i] == meta_key@;
                assert(self.singletons@[i]@ == meta_key@);
            }
        }
        r
    }

    /// Marks a meta key as a singleton.
    pub fn mark_singleton(&mut self, meta_key: String)
        requires
            old(self).wf(),
        ensures
            final(self).wf(),
            final(self).singleton_keys() == (if old(self).singleton_keys().contains(meta_key@) {
                old(self).singleton_keys()
            } else {
                old(self).singleton_keys().push(meta_key@)
            }),
            final(self).keys() == old(self).keys(),
            final(self).spec_schemas() == old(self).spec_schemas(),
            final(self).spec_database_name() == old(self).spec_database_name(),
    {
        if !self.is_singleton_meta_key(meta_key.as_str()) {
            let ghost k = meta_key@;
            self.singletons.push(meta_key);
            proof {
                assert(self.singleton_keys() =~= old(self).singleton_keys().push(k));
                assert forall|i: int, j: int| 0 <= i < j < self.singletons@.len() implies (#[trigger] self.singletons@[i])@ != (#[trigger] self.singletons@[j])@ by {
                    if j == self.singletons@.len() - 1 {
                        assert(old(self).singleton_keys()[i] == self.singletons@[i]@);
                    }
                }
            }
        }
    }

    /// Collection names in dotted form `schema.collection`, one per open collection.
    pub fn collection_names(&self) -> (r: Vec<String>)
        ensures
            r@.len() == self.keys().len(),
            forall|i: int| 0 <= i < r@.len() ==> (#[trigger] r@[i])@ == dotted(self.keys()[i]),
    {
        let mut out: Vec<String> = Vec::new();
        let mut i: usize = 0;
        while i < self.collections.len()
            invariant
                i <= self.collections@.len(),
                out@.len() == i,
                forall|j: int| 0 <= j < i ==> (#[trigger] out@[j])@ == dotted(self.keys()[j]),
            decreases self.collections.len() - i,
        {
            out.push(dotted_key(self.collections[i].as_str()));
            i = i + 1;
        }
        out
    }

    /// The bare names of the open collections of a schema.
    pub fn collection_names_in_schema(&self, schema: &str) -> (r: Vec<String>)
        ensures
            r@.len() == self.keys().filter(|k: Seq<char>| starts_with(k, schema_prefix(schema@))).len(),
            forall|i: int| 0 <= i < r@.len() ==> (#[trigger] r@[i])@ == self.keys().filter(|k: Seq<char>| starts_with(k, schema_prefix(schema@)))[i].skip(schema_prefix(schema@).len() as int),
    {
        let mut prefix = String::from_str(schema);
        prefix.append("::");
        proof {
            reveal_strlit("::");
        }
        let ghost pred = |k: Seq<char>| starts_with(k, schema_prefix(schema@));
        let plen = chars_of(prefix.as_str()).len();
        let mut out: Vec<String> = Vec::new();
        let mut i: usize = 0;
        while i < self.collections.len()
            invariant
                i <= self.collections@.len(),
                prefix@ == schema_prefix(schema@),
                plen == prefix@.len(),
                pred == (|k: Seq<char>| starts_with(k, schema_prefix(schema@))),
                out@.len() == self.keys().take(i as int).filter(pred).len(),
                forall|j: int| 0 <= j < out@.len() ==> (#[trigger] out@[j])@ == self.keys().take(i as int).filter(pred)[j].skip(plen as int),
            decreases self.collections.len() - i,
        {
            proof {
                assert(self.keys().take(i as int).push(self.keys()[i as int]) =~= self.keys().take(i + 1));
                self.keys().take(i as int).lemma_filter_push(self.keys()[i as int], pred);
                assert(self.keys()[i as int] == self.collections@[i as int]@);
            }
            let k = &self.collections[i];
            if text_starts_with(k.as_str(), prefix.as_str()) {
                let v = chars_of(k.as_str());
                out.push(string_from_range(&v, plen, v.len()));
                proof {
                    assert(v@.subrange(plen as int, v@.len() as int) =~= k@.skip(plen as int));
                }
            }
            i = i + 1;
        }
        proof {
            assert(self.keys().take(self.keys().len() as int) =~= self.keys());
        }
        out
    }

    /// Plans the lookup of a collection by name: a name of another database is
    /// refused; an open collection is used; otherwise it is created, except in
    /// a reserved schema, together with its schema where that is missing.
    pub fn plan_collection(&self, name: &str) -> (r: Result<CollectionPlan, NoSqlError>)
        ensures
            ({
                let qn = spec_parse_qualified(name@);
                let key = qn.1 + "::"@ + qn.2;
                let local = match (qn.0, self.spec_database_name()) {
                    (None, _) => true,
                    (Some(d), Some(mine)) => d == mine@,
                    (Some(_), None) => false,
                };
                &&& !local ==> (r matches Err(NoSqlError::RemoteDatabase(m)) && m@ == "collection '"@ + name@
                    + "' refers to remote database '"@ + qn.0->0 + "'"@)
                &&& local && self.keys().contains(key) ==> (r matches Ok(CollectionPlan::Existing(k)) && k@ == key)
                &&& local && !self.keys().contains(key) && spec_is_reserved_schema(qn.1) ==> (
                    r matches Err(NoSqlError::ReservedSchemaWriteNotPermitted(m)) && m@
                    == "cannot create collection in reserved schema '"@ + qn.1 + "'"@)
                &&& local && !self.keys().contains(key) && !spec_is_reserved_schema(qn.1) ==> (
                    r matches Ok(CollectionPlan::Create { meta_key, schema, collection, new_schema })
                    && meta_key@ == key && schema@ == qn.1 && collection@ == qn.2
                    && new_schema == !self.schema_names().contains(qn.1))
            }),
    {
        let qn = QualifiedName::parse(name);
        let local = match (&qn.database, &self.database_name) {
            (None, _) => true,
            (Some(d), Some(mine)) => str_eq(d.as_str(), mine.as_str()),
            (Some(_), None) => false,
        };
        if !local {
            let mut m = String::from_str("collection '");
            m.append(name);
            m.append("' refers to remote database '");
            match &qn.database {
                Some(d) => m.append(d.as_str()),
                None => {},
            }
            m.append("'");
            proof {
                reveal_strlit("collection '");
                reveal_strlit("' refers to remote database '");
                reveal_strlit("'");
            }
            return Err(NoSqlError::RemoteDatabase(m));
        }
        let key = qn.meta_key();
        if self.has_collection(key.as_str()) {
            return Ok(CollectionPlan::Existing(key));
        }
        if is_reserved_schema(qn.schema.as_str()) {
            let mut m = String::from_str("cannot create collection in reserved schema '");
            m.append(qn.schema.as_str());
            m.append("'");
            proof {
                reveal_strlit("cannot create collection in reserved schema '");
                reveal_strlit("'");
            }
            return Err(NoSqlError::ReservedSchemaWriteNotPermitted(m));
        }
        let new_schema = !self.has_schema(qn.schema.as_str());
        Ok(CollectionPlan::Create { meta_key: key, schema: qn.schema, collection: qn.collection, new_schema })
    }

    /// Checks that a schema may be dropped: not `public`, not reserved, and
    /// holding no open collection.
    pub fn check_drop_schema(&self, name: &str) -> (r: Result<(), NoSqlError>)
        ensures
            name@ == "public"@ ==> (r matches Err(NoSqlError::InvalidSchema(m)) && m@ == "cannot drop the 'public' schema"@),
            name@ != "public"@ && spec_is_reserved_schema(name@) ==> (r matches Err(NoSqlError::InvalidSchema(m))
                && m@ == "cannot drop reserved schema '"@ + name@ + "'"@),
            name@ != "public"@ && !spec_is_reserved_schema(name@) ==> (
                (exists|i: int| 0 <= i < self.keys().len() && starts_with(#[trigger] self.keys()[i], schema_prefix(name@)))
                    ==> (r matches Err(NoSqlError::SchemaNotEmpty(m)) && m@ == name@)),
            name@ != "public"@ && !spec_is_reserved_schema(name@) && !(exists|i: int| 0 <= i < self.keys().len()
                && starts_with(#[trigger] self.keys()[i], schema_prefix(name@))) ==> r is Ok,
    {
        if str_eq(name, "public") {
            proof {
                reveal_strlit("cannot drop the 'public' schema");
            }
            return Err(NoSqlError::InvalidSchema(String::from_str("cannot drop the 'public' schema")));
        }
        if is_reserved_schema(name) {
            let mut m = String::from_str("cannot drop reserved schema '");
            m.append(name);
            m.append("'");
            proof {
                reveal_strlit("cannot drop reserved schema '");
                reveal_strlit("'");
            }
            return Err(NoSqlError::InvalidSchema(m));
        }
        let mut prefix = String::from_str(name);
        prefix.append("::");
        proof {
            reveal_strlit("::");
        }
        let mut i: usize = 0;
        while i < self.collections.len()
            invariant
                i <= self.collections@.len(),
                prefix@ == schema_prefix(name@),
                name@ != "public"@,
                !spec_is_reserved_schema(name@),
                forall|j: int| 0 <= j < i ==> !starts_with(#[trigger] self.keys()[j], schema_prefix(name@)),
            decreases self.collections.len() - i,
        {
            proof {
                assert(self.keys()[i as int] == self.collections@[i as int]@);
            }
            if text_starts_with(self.collections[i].as_str(), prefix.as_str()) {
                return Err(NoSqlError::SchemaNotEmpty(String::from_str(name)));
            }
            i = i + 1;
        }
        Ok(())
    }

    /// The effective sharing status of a collection: its own override, else
    /// its schema's, else the database default, else `full`.
    pub fn effective_sharing_status(&self, schema: &str, collection_status: Option<String>, db_default: Option<&str>) -> (r: String)
        requires
            self.wf(),
        ensures
            collection_status matches Some(s) ==> r == s,
            collection_status is None ==> (
                (exists|i: int| 0 <= i < self.spec_schemas().len() && (#[trigger] self.spec_schemas()[i]).name@ == schema@
                    && self.spec_schemas()[i].sharing_status == Some(r))
                || (forall|i: int| 0 <= i < self.spec_schemas().len() && (#[trigger] self.spec_schemas()[i]).name@ == schema@
                    ==> self.spec_schemas()[i].sharing_status is None) && (match db_default {
                        Some(d) => r@ == d@,
                        None => r@ == "full"@,
                    })),
    {
        if let Some(s) = collection_status {
            return s;
        }
        if let Some(s) = self.schema_sharing_status(schema) {
            return s;
        }
        match db_default {
            Some(d) => String::from_str(d),
            None => {
                proof {
                    reveal_strlit("full");
                }
                String::from_str("full")
            },
        }
    }
}

/// A meta key in dotted form.
pub fn dotted_key(k: &str) -> (r: String)
    ensures
        r@ == dotted(k@),
{
    let v = chars_of(k);
    let mut i: usize = 0;
    let n = v.len();
    while n > 0 && i < n - 1
        invariant
            v@ == k@,
            n == v@.len(),
            i <= v@.len(),
            forall|j: int| 0 <= j < i ==> !sep_at(k@, j),
        decreases v.len() - i,
    {
        if v[i] == ':' && v[i + 1] == ':' {
            let mut s = string_from_range(&v, 0, i);
            s.append(".");
            let rest = string_from_range(&v, i + 2, v.len());
            s.append(rest.as_str());
            proof {
                reveal_strlit(".");
                let w = i as int;
                assert(sep_at(k@, w));
                assert(sep_at(k@, w) && forall|j: int| 0 <= j < w ==> !sep_at(k@, j));
                let c = choose|x: int| #[trigger] sep_at(k@, x) && forall|j: int| 0 <= j < x ==> !sep_at(k@, j);
                assert(first_separator(k@) == Some(c));
                if c < w {
                    assert(!sep_at(k@, c));
                } else if c > w {
                    assert(!sep_at(k@, w));
                }
            }
            return s;
        }
        i = i + 1;
    }
    proof {
        assert forall|x: int| !sep_at(k@, x) by {
            if sep_at(k@, x) {
                assert(x < i || x + 1 >= v@.len());
            }
        }
        assert(v@.subrange(0, v@.len() as int) =~= v@);
    }
    string_from_range(&v, 0, v.len())
}


/// Whether the text at `i` is not larger than the next one.
pub open spec fn ordered_at(s: Seq<String>, i: int) -> bool {
    lex_order(s[i]@, s[i + 1]@) != ValueOrder::Greater
}

/// Whether a sequence of texts is in ascending order, pair by pair.
pub open spec fn sorted_texts(s: Seq<String>) -> bool {
    forall|i: int| 0 <= i < s.len() - 1 ==> #[trigger] ordered_at(s, i)
}

/// The reverse of an order.
pub open spec fn flip(o: ValueOrder) -> ValueOrder {
    match o {
        ValueOrder::Less => ValueOrder::Greater,
        ValueOrder::Equal => ValueOrder::Equal,
        ValueOrder::Greater => ValueOrder::Less,
    }
}

/// Swapping the texts reverses their order.
pub proof fn lemma_lex_flip(a: Seq<char>, b: Seq<char>)
    ensures
        lex_order(b, a) == flip(lex_order(a, b)),
    decreases a.len(),
{
    if a.len() > 0 && b.len() > 0 && (a[0] as u32) == (b[0] as u32) {
        lemma_lex_flip(a.drop_first(), b.drop_first());
    }
}

/// Every text compares equal to itself.
proof fn lemma_lex_refl(a: Seq<char>)
    ensures
        lex_order(a, a) == ValueOrder::Equal,
    decreases a.len(),
{
    if a.len() > 0 {
        lemma_lex_refl(a.drop_first());
    }
}

/// Texts that compare equal are the same text.
proof fn lemma_lex_equal(a: Seq<char>, b: Seq<char>)
    requires
        lex_order(a, b) == ValueOrder::Equal,
    ensures
        a == b,
    decreases a.len(),
{
    if a.len() > 0 && b.len() > 0 {
        lemma_lex_equal(a.drop_first(), b.drop_first());
        assert((a[0] as u32) == (b[0] as u32));
        vstd::utf8::char_u32_cast(a[0], a[0] as u32);
        vstd::utf8::char_u32_cast(b[0], a[0] as u32);
        assert forall|i: int| 0 <= i < a.len() implies a[i] == b[i] by {
            if i > 0 {
                assert(a[i] == a.drop_first()[i - 1]);
                assert(b[i] == b.drop_first()[i - 1]);
            }
        }
    }
    assert(a =~= b);
}

/// The order of texts is transitive.
proof fn lemma_lex_trans(a: Seq<char>, b: Seq<char>, c: Seq<char>)
    requires
        lex_order(a, b) != ValueOrder::Greater,
        lex_order(b, c) != ValueOrder::Greater,
    ensures
        lex_order(a, c) != ValueOrder::Greater,
    decreases a.len(),
{
    if a.len() > 0 && b.len() > 0 && c.len() > 0 && (a[0] as u32) == (b[0] as u32) && (b[0] as u32)
        == (c[0] as u32) {
        lemma_lex_trans(a.drop_first(), b.drop_first(), c.drop_first());
    }
}

/// In an ascending sequence no text is greater than a later one.
proof fn lemma_sorted_le(s: Seq<String>, i: int, j: int)
    requires
        sorted_texts(s),
        0 <= i <= j < s.len(),
    ensures
        lex_order(s[i]@, s[j]@) != ValueOrder::Greater,
    decreases j - i,
{
    if i == j {
        lemma_lex_refl(s[i]@);
    } else {
        lemma_sorted_le(s, i, j - 1);
        assert(ordered_at(s, j - 1));
        lemma_lex_trans(s[i]@, s[j - 1]@, s[j]@);
    }
}

/// Two ascending sequences of the same texts list them in the same order.
proof fn lemma_sorted_views_unique(s1: Seq<String>, s2: Seq<String>)
    requires
        sorted_texts(s1),
        sorted_texts(s2),
        views(s1).to_multiset() == views(s2).to_multiset(),
    ensures
        views(s1) == views(s2),
    decreases s1.len(),
{
    broadcast use vstd::seq_lib::group_to_multiset_ensures;
    let v1 = views(s1);
    let v2 = views(s2);
    assert(v1.to_multiset().len() == v1.len());
    assert(v2.to_multiset().len() == v2.len());
    if s1.len() == 0 {
        assert(v1 =~= v2);
    } else {
        let n = s1.len() - 1;
        let x1 = v1[n];
        let x2 = v2[n];
        assert(v1.contains(x1));
        assert(v1.to_multiset().count(x1) > 0);
        assert(v2.contains(x1));
        let k = choose|k: int| 0 <= k < v2.len() && v2[k] == x1;
        lemma_sorted_le(s2, k, n);
        assert(v2.contains(x2));
        assert(v2.to_multiset().count(x2) > 0);
        assert(v1.contains(x2));
        let m = choose|m: int| 0 <= m < v1.len() && v1[m] == x2;
        lemma_sorted_le(s1, m, n);
        lemma_lex_flip(x1, x2);
        lemma_lex_equal(x1, x2);
        let t1 = s1.drop_last();
        let t2 = s2.drop_last();
        assert(v1 =~= views(t1).push(x1));
        assert(v2 =~= views(t2).push(x2));
        let m1 = views(t1).to_multiset();
        let m2 = views(t2).to_multiset();
        assert(views(t1).push(x1).to_multiset() == m1.insert(x1));
        assert(views(t2).push(x2).to_multiset() == m2.insert(x2));
        assert(m1 =~= m2) by {
            assert forall|y: Seq<char>| m1.count(y) == m2.count(y) by {
                assert(m1.insert(x1).count(y) == m2.insert(x1).count(y));
            }
        }
        assert forall|i: int| 0 <= i < t1.len() - 1 implies #[trigger] ordered_at(t1, i) by {
            assert(ordered_at(s1, i));
        }
        assert forall|i: int| 0 <= i < t2.len() - 1 implies #[trigger] ordered_at(t2, i) by {
            assert(ordered_at(s2, i));
        }
        lemma_sorted_views_unique(t1, t2);
        assert(v1 =~= v2);
    }
}

/// The bytes a fingerprint hashes: each key's UTF-8 bytes followed by a newline.
pub open spec fn fingerprint_bytes(keys: Seq<String>) -> Seq<u8>
    decreases keys.len(),
{
    if keys.len() == 0 {
        Seq::empty()
    } else {
        fingerprint_bytes(keys.drop_last()) + vstd::utf8::encode_utf8(keys.last()@) + seq![10u8]
    }
}

/// The fingerprint bytes depend only on the keys' texts.
proof fn lemma_fingerprint_views(s1: Seq<String>, s2: Seq<String>)
    requires
        views(s1) == views(s2),
    ensures
        fingerprint_bytes(s1) == fingerprint_bytes(s2),
    decreases s1.len(),
{
    assert(views(s1).len() == s1.len() && views(s2).len() == s2.len());
    if s1.len() > 0 {
        let n = s1.len() - 1;
        assert(views(s1)[n] == views(s2)[n]);
        assert(views(s1.drop_last()) =~= views(s2.drop_last())) by {
            assert forall|i: int| 0 <= i < n implies views(s1.drop_last())[i] == views(s2.drop_last())[i] by {
                assert(views(s1)[i] == views(s2)[i]);
            }
        }
        lemma_fingerprint_views(s1.drop_last(), s2.drop_last());
    }
}

/// Two ascending orders of the same meta keys hash the same bytes: the schema
/// fingerprint depends on which keys a catalog holds, not on the order in
/// which they were added.
pub proof fn lemma_fingerprint_order_free(s1: Seq<String>, s2: Seq<String>)
    requires
        sorted_texts(s1),
        sorted_texts(s2),
        views(s1).to_multiset() == views(s2).to_multiset(),
    ensures
        fingerprint_bytes(s1) == fingerprint_bytes(s2),
{
    lemma_sorted_views_unique(s1, s2);
    lemma_fingerprint_views(s1, s2);
}

/// Inserts a text into an ascending list, before the first larger text.
fn insert_sorted(out: &mut Vec<String>, x: String)
    requires
        sorted_texts(old(out)@),
    ensures
        sorted_texts(final(out)@),
        exists|p: int| 0 <= p <= old(out)@.len() && final(out)@ == old(out)@.insert(p, x),
{
    let mut p: usize = 0;
    let mut found = false;
    while p < out.len() && !found
        invariant
            p <= out@.len(),
            found ==> p < out@.len() && lex_order(out@[p as int]@, x@) == ValueOrder::Greater,
            forall|j: int| 0 <= j < p ==> lex_order((#[trigger] out@[j])@, x@) != ValueOrder::Greater,
        decreases out.len() - p + (if found { 0int } else { 1int }),
    {
        if compare_text(out[p].as_str(), x.as_str()) == ValueOrder::Greater {
            found = true;
        } else {
            p = p + 1;
        }
    }
    let ghost before = out@;
    let ghost xv = x;
    proof {
        if found {
            lemma_lex_flip(before[p as int]@, xv@);
        }
    }
    out.insert(p, x);
    proof {
        assert(out@ == before.insert(p as int, xv));
        assert forall|k: int| 0 <= k < out@.len() - 1 implies #[trigger] ordered_at(out@, k) by {
            if k < p as int - 1 {
                assert(ordered_at(before, k));
                assert(out@[k] == before[k] && out@[k + 1] == before[k + 1]);
            } else if k == p as int - 1 {
                assert(out@[k] == before[k] && out@[k + 1] == xv);
            } else if k == p as int {
                assert(out@[k + 1] == before[k]);
            } else {
                assert(ordered_at(before, k - 1));
                assert(out@[k] == before[k - 1] && out@[k + 1] == before[k]);
            }
        }
    }
}

/// Sorts texts into ascending order.
pub fn sort_texts(v: Vec<String>) -> (r: Vec<String>)
    ensures
        sorted_texts(r@),
        r@.to_multiset() == v@.to_multiset(),
        views(r@).to_multiset() == views(v@).to_multiset(),
{
    let mut out: Vec<String> = Vec::new();
    let ghost all = v@;
    let mut rest = v;
    let mut i: usize = 0;
    proof {
        assert(all.len() == rest.len());
        assert(rest@ =~= all.skip(0));
        assert(all.take(0) =~= Seq::<String>::empty());
        assert(out@ =~= Seq::<String>::empty());
    }
    while rest.len() > 0
        invariant
            sorted_texts(out@),
            i <= all.len(),
            all.len() <= usize::MAX,
            rest@ == all.skip(i as int),
            out@.to_multiset() == all.take(i as int).to_multiset(),
            views(out@).to_multiset() == views(all.take(i as int)).to_multiset(),
        decreases rest.len(),
    {
        let x = rest.remove(0);
        proof {
            assert(x == all[i as int]);
            assert(rest@ =~= all.skip(i + 1));
        }
        let ghost out_before = out@;
        let ghost xv = x;
        insert_sorted(&mut out, x);
        proof {
            broadcast use vstd::seq_lib::group_to_multiset_ensures;
            let p = choose|p: int| 0 <= p <= out_before.len() && out@ == out_before.insert(p, xv);
            assert(out@.to_multiset() == out_before.to_multiset().insert(xv));
            assert(all.take(i + 1) =~= all.take(i as int).push(xv));
            assert(views(out@) =~= views(out_before).insert(p, xv@));
            assert(views(out@).to_multiset() == views(out_before).to_multiset().insert(xv@));
            assert(views(all.take(i + 1)) =~= views(all.take(i as int)).push(xv@));
        }
        i = i + 1;
    }
    proof {
        assert(all.take(i as int) =~= all);
    }
    out
}

/// The bytes a fingerprint hashes, built.
fn fingerprint_input(sorted: &Vec<String>) -> (r: Vec<u8>)
    ensures
        r@ == fingerprint_bytes(sorted@),
{
    let mut bytes: Vec<u8> = Vec::new();
    let mut j: usize = 0;
    while j < sorted.len()
        invariant
            j <= sorted@.len(),
            bytes@ == fingerprint_bytes(sorted@.take(j as int)),
        decreases sorted.len() - j,
    {
        let b = sorted[j].as_str().as_bytes();
        let mut k: usize = 0;
        let ghost start = bytes@;
        while k < b.len()
            invariant
                k <= b@.len(),
                bytes@ == start + b@.take(k as int),
            decreases b.len() - k,
        {
            bytes.push(b[k]);
            proof {
                assert(start + b@.take(k + 1) =~= (start + b@.take(k as int)).push(b@[k as int]));
            }
            k = k + 1;
        }
        bytes.push(10u8);
        proof {
            assert(b@.take(b@.len() as int) =~= b@);
            assert(sorted@.take(j + 1).drop_last() =~= sorted@.take(j as int));
            assert(sorted@.take(j + 1).last() == sorted@[j as int]);
            assert(bytes@ =~= fingerprint_bytes(sorted@.take(j as int)) + vstd::utf8::encode_utf8(sorted@[j as int]@) + seq![10u8]);
        }
        j = j + 1;
    }
    proof {
        assert(sorted@.take(sorted@.len() as int) =~= sorted@);
    }
    bytes
}

impl Catalog {
    /// The schema fingerprint: the lowercase hex SHA-256 of the sorted meta
    /// keys, each followed by a newline.
    pub fn schema_fingerprint(&self) -> (r: String)
        ensures
            exists|s: Seq<String>|
                sorted_texts(s) && s.to_multiset() == self.key_strings().to_multiset() && views(s).to_multiset()
                    == views(self.key_strings()).to_multiset() && r@ == spec_hex_encode(
                    sha256(fingerprint_bytes(s)),
                ),
    {
        let mut keys: Vec<String> = Vec::new();
        let mut i: usize = 0;
        while i < self.collections.len()
            invariant
                i <= self.collections@.len(),
                keys@ == self.collections@.take(i as int),
            decreases self.collections.len() - i,
        {
            keys.push(self.collections[i].clone());
            proof {
                assert(keys@ =~= self.collections@.take(i + 1));
            }
            i = i + 1;
        }
        proof {
            assert(keys@ =~= self.collections@);
        }
        let sorted = sort_texts(keys);
        let bytes = fingerprint_input(&sorted);
        sha256_hex(bytes.as_slice())
    }
}


/// Checks a schema name for creation: valid and not reserved.
pub fn check_create_schema(name: &str) -> (r: Result<(), NoSqlError>)
    ensures
        !spec_schema_name_valid(name) ==> r is Err && r->Err_0 is InvalidSchema,
        spec_schema_name_valid(name) && spec_is_reserved_schema(name@) ==> (r matches Err(NoSqlError::InvalidSchema(m))
            && m@ == "cannot create reserved schema '"@ + name@ + "'"@),
        spec_schema_name_valid(name) && !spec_is_reserved_schema(name@) ==> r is Ok,
{
    match validate_schema_name(name) {
        Ok(()) => {},
        Err(e) => {
            return Err(e);
        },
    }
    if is_reserved_schema(name) {
        let mut m = String::from_str("cannot create reserved schema '");
        m.append(name);
        m.append("'");
        proof {
            reveal_strlit("cannot create reserved schema '");
            reveal_strlit("'");
        }
        return Err(NoSqlError::InvalidSchema(m));
    }
    Ok(())
}

/// Plans moving a collection to another schema: the target must be a valid,
/// non-reserved schema other than the collection's own, and the source not
/// reserved. Gives the old and the new meta key.
pub fn plan_move_collection(from_fqn: &str, to_schema: &str) -> (r: Result<(String, String), NoSqlError>)
    ensures
        ({
            let qn = spec_parse_qualified(from_fqn@);
            &&& !spec_schema_name_valid(to_schema) ==> r is Err && r->Err_0 is InvalidSchema
            &&& spec_schema_name_valid(to_schema) && spec_is_reserved_schema(to_schema@) ==> (
                r matches Err(NoSqlError::InvalidSchema(m)) && m@ == "cannot move collection into reserved schema '"@
                + to_schema@ + "'"@)
            &&& spec_schema_name_valid(to_schema) && !spec_is_reserved_schema(to_schema@) && spec_is_reserved_schema(qn.1) ==> (
                r matches Err(NoSqlError::InvalidSchema(m)) && m@ == "cannot move collection out of reserved schema '"@
                + qn.1 + "'"@)
            &&& spec_schema_name_valid(to_schema) && !spec_is_reserved_schema(to_schema@) && !spec_is_reserved_schema(qn.1)
                && qn.1 == to_schema@ ==> (r matches Err(NoSqlError::InvalidSchema(m)) && m@ == "collection '"@
                + from_fqn@ + "' is already in schema '"@ + to_schema@ + "'"@)
            &&& spec_schema_name_valid(to_schema) && !spec_is_reserved_schema(to_schema@) && !spec_is_reserved_schema(qn.1)
                && qn.1 != to_schema@ ==> (r matches Ok(keys) && keys.0@ == qn.1 + "::"@ + qn.2 && keys.1@ == to_schema@
                + "::"@ + qn.2)
        }),
{
    match validate_schema_name(to_schema) {
        Ok(()) => {},
        Err(e) => {
            return Err(e);
        },
    }
    let qn = QualifiedName::parse(from_fqn);
    if is_reserved_schema(to_schema) {
        let mut m = String::from_str("cannot move collection into reserved schema '");
        m.append(to_schema);
        m.append("'");
        proof {
            reveal_strlit("cannot move collection into reserved schema '");
            reveal_strlit("'");
        }
        return Err(NoSqlError::InvalidSchema(m));
    }
    if is_reserved_schema(qn.schema.as_str()) {
        let mut m = String::from_str("cannot move collection out of reserved schema '");
        m.append(qn.schema.as_str());
        m.append("'");
        proof {
            reveal_strlit("cannot move collection out of reserved schema '");
            reveal_strlit("'");
        }
        return Err(NoSqlError::InvalidSchema(m));
    }
    if str_eq(qn.schema.as_str(), to_schema) {
        let mut m = String::from_str("collection '");
        m.append(from_fqn);
        m.append("' is already in schema '");
        m.append(to_schema);
        m.append("'");
        proof {
            reveal_strlit("collection '");
            reveal_strlit("' is already in schema '");
            reveal_strlit("'");
        }
        return Err(NoSqlError::InvalidSchema(m));
    }
    let from_key = qn.meta_key();
    let mut to_key = String::from_str(to_schema);
    to_key.append("::");
    to_key.append(qn.collection.as_str());
    proof {
        reveal_strlit("::");
    }
    Ok((from_key, to_key))
}

/// Checks a schema rename: `public` cannot be renamed, the new name must be
/// valid, and neither name may be reserved.
pub fn check_rename_schema(old_name: &str, new_name: &str) -> (r: Result<(), NoSqlError>)
    ensures
        old_name@ == "public"@ ==> (r matches Err(NoSqlError::InvalidSchema(m)) && m@ == "cannot rename the 'public' schema"@),
        old_name@ != "public"@ && !spec_schema_name_valid(new_name) ==> r is Err && r->Err_0 is InvalidSchema,
        old_name@ != "public"@ && spec_schema_name_valid(new_name) && spec_is_reserved_schema(old_name@) ==> (
            r matches Err(NoSqlError::InvalidSchema(m)) && m@ == "cannot rename reserved schema '"@ + old_name@ + "'"@),
        old_name@ != "public"@ && spec_schema_name_valid(new_name) && !spec_is_reserved_schema(old_name@)
            && spec_is_reserved_schema(new_name@) ==> (r matches Err(NoSqlError::InvalidSchema(m))
            && m@ == "cannot rename into reserved schema '"@ + new_name@ + "'"@),
        old_name@ != "public"@ && spec_schema_name_valid(new_name) && !spec_is_reserved_schema(old_name@)
            && !spec_is_reserved_schema(new_name@) ==> r is Ok,
{
    if str_eq(old_name, "public") {
        proof {
            reveal_strlit("cannot rename the 'public' schema");
        }
        return Err(NoSqlError::InvalidSchema(String::from_str("cannot rename the 'public' schema")));
    }
    match validate_schema_name(new_name) {
        Ok(()) => {},
        Err(e) => {
            return Err(e);
        },
    }
    if is_reserved_schema(old_name) {
        let mut m = String::from_str("cannot rename reserved schema '");
        m.append(old_name);
        m.append("'");
        proof {
            reveal_strlit("cannot rename reserved schema '");
            reveal_strlit("'");
        }
        return Err(NoSqlError::InvalidSchema(m));
    }
    if is_reserved_schema(new_name) {
        let mut m = String::from_str("cannot rename into reserved schema '");
        m.append(new_name);
        m.append("'");
        proof {
            reveal_strlit("cannot rename into reserved schema '");
            reveal_strlit("'");
        }
        return Err(NoSqlError::InvalidSchema(m));
    }
    Ok(())
}

/// Checks that a collection may be dropped: not in a reserved schema.
pub fn check_drop_collection(qn: &QualifiedName) -> (r: Result<(), NoSqlError>)
    ensures
        spec_is_reserved_schema(qn.schema@) ==> (r matches Err(NoSqlError::ReservedSchemaWriteNotPermitted(m))
            && m@ == "cannot drop collection in reserved schema '"@ + qn.schema@ + "'"@),
        !spec_is_reserved_schema(qn.schema@) ==> r is Ok,
{
    if is_reserved_schema(qn.schema.as_str()) {
        let mut m = String::from_str("cannot drop collection in reserved schema '");
        m.append(qn.schema.as_str());
        m.append("'");
        proof {
            reveal_strlit("cannot drop collection in reserved schema '");
            reveal_strlit("'");
        }
        return Err(NoSqlError::ReservedSchemaWriteNotPermitted(m));
    }
    Ok(())
}

impl Catalog {
    /// The meta key of a singleton collection, or the error that the name is
    /// not a singleton.
    pub fn require_singleton(&self, name: &str) -> (r: Result<String, NoSqlError>)
        ensures
            ({
                let qn = spec_parse_qualified(name@);
                let key = qn.1 + "::"@ + qn.2;
                &&& self.singleton_keys().contains(key) ==> (r matches Ok(k) && k@ == key)
                &&& !self.singleton_keys().contains(key) ==> (r matches Err(NoSqlError::CollectionNotFound(m))
                    && m@ == "'"@ + name@ + "' is not a singleton collection"@)
            }),
    {
        let qn = QualifiedName::parse(name);
        let key = qn.meta_key();
        if self.is_singleton_meta_key(key.as_str()) {
            Ok(key)
        } else {
            let mut m = String::from_str("'");
            m.append(name);
            m.append("' is not a singleton collection");
            proof {
                reveal_strlit("'");
                reveal_strlit("' is not a singleton collection");
            }
            Err(NoSqlError::CollectionNotFound(m))
        }
    }

    /// Guards a delete (`clear` false) or a clear (`clear` true): reserved
    /// schemas refuse writes, singletons refuse both.
    pub fn guard_removal(&self, qn: &QualifiedName, clear: bool) -> (r: Result<(), NoSqlError>)
        ensures
            spec_is_reserved_schema(qn.schema@) ==> (r matches Err(NoSqlError::ReservedSchemaWriteNotPermitted(m))
                && m@ == qn.spec_display_name()),
            !spec_is_reserved_schema(qn.schema@) && self.singleton_keys().contains(qn.spec_meta_key()) ==> (
                if clear {
                    r matches Err(NoSqlError::SingletonClearNotPermitted(m)) && m@ == qn.spec_display_name()
                } else {
                    r matches Err(NoSqlError::SingletonDeleteNotPermitted(m)) && m@ == qn.spec_display_name()
                }),
            !spec_is_reserved_schema(qn.schema@) && !self.singleton_keys().contains(qn.spec_meta_key()) ==> r is Ok,
    {
        if is_reserved_schema(qn.schema.as_str()) {
            return Err(NoSqlError::ReservedSchemaWriteNotPermitted(qn.display_name()));
        }
        let key = qn.meta_key();
        if self.is_singleton_meta_key(key.as_str()) {
            if clear {
                return Err(NoSqlError::SingletonClearNotPermitted(qn.display_name()));
            } else {
                return Err(NoSqlError::SingletonDeleteNotPermitted(qn.display_name()));
            }
        }
        Ok(())
    }
}

/// Whether a meta key is in the legacy form, without a `::` separator.
pub fn is_legacy_meta_key(key: &str) -> (r: bool)
    ensures
        r == !has_substring(key@, "::"@),
{
    proof {
        reveal_strlit("::");
    }
    !text_contains(key, "::")
}

/// The entry that replaces a legacy meta key: the collection moves to the
/// public schema under `public::<key>`, keeping its storage tree and its
/// creation time, with no sharing status, not a singleton and no type.
pub fn legacy_meta_entry(old_key: &str, created_at: (i64, u32)) -> (r: (String, SchemaEntry))
    ensures
        r.0@ == "public::"@ + old_key@,
        r.1.schema_name@ == "public"@,
        r.1.collection_name@ == old_key@,
        r.1.tree_name@ == old_key@,
        r.1.sharing_status is None,
        r.1.created_at == created_at,
        !r.1.singleton,
        r.1.collection_type is None,
{
    let mut key = String::from_str("public::");
    key.append(old_key);
    proof {
        reveal_strlit("public::");
        reveal_strlit("public");
    }
    let entry = SchemaEntry {
        schema_name: String::from_str("public"),
        collection_name: String::from_str(old_key),
        tree_name: String::from_str(old_key),
        sharing_status: None,
        created_at,
        singleton: false,
        collection_type: None,
    };
    (key, entry)
}

} // verus!
