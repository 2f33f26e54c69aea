//! Qualified collection names (`{database}.{schema}.{collection}`) and schema names.

use vstd::prelude::*;
use vstd::string::StringExecFns;
use vstd::string::StringSliceAdditionalSpecFns;
use crate::error::NoSqlError;
use crate::text::{decimal_digits, decimal_text, push_digits, chars_of, find_char_from, first_index_of, lemma_first_index_bounds, lemma_first_index_of, lemma_first_index_of_absent, str_eq, string_from_range};

verus! {

/// Default schema name for collections without explicit schema.
pub const DEFAULT_SCHEMA: &'static str = "public";

/// Separator used in meta tree keys: `{schema}::{collection}`.
pub const META_KEY_SEPARATOR: &'static str = "::";

/// Reserved schema for security-related data (provenance, federation, access control).
pub const SECURITY_SCHEMA: &'static str = "security";

/// Whether `s` names a reserved system schema.
pub open spec fn spec_is_reserved_schema(s: Seq<char>) -> bool {
    s == "security"@
}

/// Returns true if the given schema name is a reserved system schema.
pub fn is_reserved_schema(name: &str) -> (r: bool)
    ensures
        r == spec_is_reserved_schema(name@),
{
    str_eq(name, "security")
}

/// A character allowed in schema and database names: `a-z`, `0-9`, `-`, `_`.
pub open spec fn is_name_char(c: char) -> bool {
    ('a' <= c && c <= 'z') || ('0' <= c && c <= '9') || c == '-' || c == '_'
}

/// Every character of `s` is allowed in a name.
pub open spec fn all_name_chars(s: Seq<char>) -> bool {
    forall|i: int| 0 <= i < s.len() ==> is_name_char(#[trigger] s[i])
}

/// Checks that every character of `s` is allowed in a name.
pub fn check_name_chars(s: &str) -> (r: bool)
    ensures
        r == all_name_chars(s@),
{
    let v = chars_of(s);
    let mut i: usize = 0;
    while i < v.len()
        invariant
            i <= v.len(),
            v@ == s@,
            forall|j: int| 0 <= j < i ==> is_name_char(#[trigger] s@[j]),
        decreases v.len() - i,
    {
        let c = v[i];
        if !(('a' <= c && c <= 'z') || ('0' <= c && c <= '9') || c == '-' || c == '_') {
            assert(!is_name_char(s@[i as int]));
            return false;
        }
        i = i + 1;
    }
    true
}

/// A schema name is valid when it has 1 to 64 characters and only `a-z`, `0-9`, `-`, `_`.
pub open spec fn spec_schema_name_valid(s: &str) -> bool {
    &&& 1 <= s@.len() <= 64
    &&& all_name_chars(s@)
}

/// Names made of allowed characters are ASCII, so their byte length is their length.
pub proof fn lemma_name_chars_bytes(s: &str)
    requires
        all_name_chars(s@),
    ensures
        s.spec_bytes().len() == s@.len(),
{
    broadcast use vstd::string::is_ascii_spec_bytes;
    assert(vstd::string::is_ascii(s));
}

/// Validate a schema name: lowercase alphanumeric, hyphens and underscores, 1 to 64 bytes.
pub fn validate_schema_name(name: &str) -> (r: Result<(), NoSqlError>)
    ensures
        r is Ok <==> spec_schema_name_valid(name),
        r is Err ==> r->Err_0 is InvalidSchema,
        (name@.len() == 0 || name.len() > 64) ==> (r matches Err(NoSqlError::InvalidSchema(m))
            && m@ == "schema name must be 1-64 chars, got "@ + decimal_text(name.len() as int)),
        !(name@.len() == 0 || name.len() > 64) && !all_name_chars(name@) ==> (
            r matches Err(NoSqlError::InvalidSchema(m)) && m@ == "schema name '"@ + name@
            + "' contains invalid characters (allowed: a-z, 0-9, -, _)"@),
{
    let chars = chars_of(name);
    proof {
        if all_name_chars(name@) {
            lemma_name_chars_bytes(name);
        }
    }
    let byte_len = name.len();
    if chars.len() == 0 || byte_len > 64 {
        let mut msg = String::from_str("schema name must be 1-64 chars, got ");
        push_digits(&mut msg, byte_len as u64);
        proof {
            reveal_strlit("schema name must be 1-64 chars, got ");
            assert(decimal_text(byte_len as int) == decimal_digits(byte_len as nat));
        }
        return Err(NoSqlError::InvalidSchema(msg));
    }
    if !check_name_chars(name) {
        let mut msg = String::from_str("schema name '");
        msg.append(name);
        msg.append("' contains invalid characters (allowed: a-z, 0-9, -, _)");
        proof {
            reveal_strlit("schema name '");
            reveal_strlit("' contains invalid characters (allowed: a-z, 0-9, -, _)");
        }
        return Err(NoSqlError::InvalidSchema(msg));
    }
    Ok(())
}

/// A fully qualified collection name: `{database}.{schema}.{collection}`.
#[derive(Debug, Clone)]
pub struct QualifiedName {
    /// The database name. `None` means the local database.
    pub database: Option<String>,
    /// The schema name (default: "public").
    pub schema: String,
    /// The collection name.
    pub collection: String,
}

/// The parts of a parsed collection reference: database, schema, collection.
pub open spec fn spec_parse_qualified(s: Seq<char>) -> (Option<Seq<char>>, Seq<char>, Seq<char>) {
    let i = first_index_of(s, '.');
    if i < 0 {
        (None, "public"@, s)
    } else {
        let rest = s.subrange(i + 1, s.len() as int);
        let j = first_index_of(rest, '.');
        if j < 0 {
            (None, s.subrange(0, i), rest)
        } else {
            (Some(s.subrange(0, i)), rest.subrange(0, j), rest.subrange(j + 1, rest.len() as int))
        }
    }
}

impl QualifiedName {
    /// The parts of this name as character sequences.
    pub open spec fn parts(&self) -> (Option<Seq<char>>, Seq<char>, Seq<char>) {
        (
            match self.database {
                Some(d) => Some(d@),
                None => None,
            },
            self.schema@,
            self.collection@,
        )
    }

    /// Parse a collection reference into its qualified parts.
    ///
    /// - `"users"` → `(None, "public", "users")`
    /// - `"analytics.page_views"` → `(None, "analytics", "page_views")`
    /// - `"warehouse.public.products"` → `(Some("warehouse"), "public", "products")`
    pub fn parse(input: &str) -> (r: Self)
        ensures
            r.parts() == spec_parse_qualified(input@),
    {
        let v = chars_of(input);
        let n = v.len();
        match find_char_from(&v, 0, '.') {
            None => {
                proof {
                    assert(!v@.contains('.'));
                    lemma_first_index_of_absent(v@, '.');
                }
                QualifiedName {
                    database: None,
                    schema: String::from_str(DEFAULT_SCHEMA),
                    collection: string_from_range(&v, 0, n),
                }
            },
            Some(i) => {
                proof {
                    lemma_first_index_of(v@, '.', i as int);
                }
                let ghost rest = v@.subrange(i + 1, n as int);
                match find_char_from(&v, i + 1, '.') {
                    None => {
                        proof {
                            assert(!rest.contains('.')) by {
                                if rest.contains('.') {
                                    let k = choose|k: int| 0 <= k < rest.len() && rest[k] == '.';
                                    assert(v@[k + i + 1] == '.');
                                }
                            }
                            lemma_first_index_of_absent(rest, '.');
                        }
                        QualifiedName {
                            database: None,
                            schema: string_from_range(&v, 0, i),
                            collection: string_from_range(&v, i + 1, n),
                        }
                    },
                    Some(j) => {
                        proof {
                            assert(rest[j - i - 1] == '.');
                            assert forall|k: int| 0 <= k < j - i - 1 implies rest[k] != '.' by {
                                assert(rest[k] == v@[k + i + 1]);
                            }
                            lemma_first_index_of(rest, '.', j - i - 1);
                            assert(rest.subrange(0, j - i - 1) =~= v@.subrange(i + 1, j as int));
                            assert(rest.subrange(j - i, rest.len() as int) =~= v@.subrange(
                                j + 1,
                                n as int,
                            ));
                        }
                        QualifiedName {
                            database: Some(string_from_range(&v, 0, i)),
                            schema: string_from_range(&v, i + 1, j),
                            collection: string_from_range(&v, j + 1, n),
                        }
                    },
                }
            },
        }
    }

    /// The meta tree key of this name: `"{schema}::{collection}"`.
    pub open spec fn spec_meta_key(&self) -> Seq<char> {
        self.schema@ + "::"@ + self.collection@
    }

    /// Returns the meta tree key: `"{schema}::{collection}"`.
    pub fn meta_key(&self) -> (r: String)
        ensures
            r@ == self.spec_meta_key(),
    {
        let mut s = self.schema.clone();
        s.append(META_KEY_SEPARATOR);
        s.append(self.collection.as_str());
        s
    }

    /// Whether this name refers to the local database, given the current database name.
    pub open spec fn spec_is_local(&self, current: Option<Seq<char>>) -> bool {
        match self.database {
            None => true,
            Some(db) => db@ == "local"@ || current == Some(db@),
        }
    }

    /// Returns true if this refers to the local database.
    pub fn is_local(&self, current_db_name: Option<&str>) -> (r: bool)
        ensures
            r == self.spec_is_local(
                match current_db_name {
                    Some(n) => Some(n@),
                    None => None,
                },
            ),
    {
        match &self.database {
            None => true,
            Some(db) => {
                if str_eq(db.as_str(), "local") {
                    true
                } else {
                    match current_db_name {
                        Some(name) => str_eq(name, db.as_str()),
                        None => false,
                    }
                }
            },
        }
    }

    /// The display form: `"{schema}.{collection}"` or `"{database}.{schema}.{collection}"`.
    pub open spec fn spec_display_name(&self) -> Seq<char> {
        match self.database {
            Some(db) => db@ + "."@ + self.schema@ + "."@ + self.collection@,
            None => self.schema@ + "."@ + self.collection@,
        }
    }

    /// Returns the display FQN: `"{schema}.{collection}"` or `"{database}.{schema}.{collection}"`.
    pub fn display_name(&self) -> (r: String)
        ensures
            r@ == self.spec_display_name(),
    {
        match &self.database {
            Some(db) => {
                let mut s = db.clone();
                s.append(".");
                s.append(self.schema.as_str());
                s.append(".");
                s.append(self.collection.as_str());
                s
            },
            None => {
                let mut s = self.schema.clone();
                s.append(".");
                s.append(self.collection.as_str());
                s
            },
        }
    }
}

/// A text that holds a dot has a first dot, at or before any of its dots.
proof fn lemma_first_dot_exists(s: Seq<char>, k: int)
    requires
        0 <= k < s.len(),
        s[k] == '.',
    ensures
        0 <= first_index_of(s, '.') <= k,
    decreases k,
{
    if forall|j: int| 0 <= j < k ==> s[j] != '.' {
        lemma_first_index_of(s, '.', k);
    } else {
        let j = choose|j: int| 0 <= j < k && s[j] == '.';
        lemma_first_dot_exists(s, j);
    }
}

/// Whether a text holds no dot.
spec fn dotless(s: Seq<char>) -> bool {
    !s.contains('.')
}

/// After a dotless text, a dot is the first dot; what precedes and follows it
/// are the two texts.
proof fn lemma_split_at_first_dot(a: Seq<char>, b: Seq<char>)
    requires
        dotless(a),
    ensures
        first_index_of(a + "."@ + b, '.') == a.len(),
        (a + "."@ + b).subrange(0, a.len() as int) == a,
        (a + "."@ + b).subrange(a.len() as int + 1, (a + "."@ + b).len() as int) == b,
{
    reveal_strlit(".");
    let t = a + "."@ + b;
    assert(t[a.len() as int] == '.');
    assert forall|j: int| 0 <= j < a.len() implies t[j] != '.' by {
        assert(t[j] == a[j]);
    }
    lemma_first_index_of(t, '.', a.len() as int);
    assert(t.subrange(0, a.len() as int) =~= a);
    assert(t.subrange(a.len() as int + 1, t.len() as int) =~= b);
}

/// A text whose first dot is not found holds no dot.
proof fn lemma_no_first_dot(s: Seq<char>)
    requires
        first_index_of(s, '.') < 0,
    ensures
        dotless(s),
{
    if s.contains('.') {
        let k = choose|k: int| 0 <= k < s.len() && s[k] == '.';
        lemma_first_dot_exists(s, k);
    }
}

/// A parsed name's display form parses back to the same name: the display
/// form is the canonical text of a collection reference.
pub proof fn lemma_display_parses_back(q: QualifiedName, input: Seq<char>)
    requires
        q.parts() == spec_parse_qualified(input),
    ensures
        spec_parse_qualified(q.spec_display_name()) == q.parts(),
{
    reveal_strlit("public");
    reveal_strlit(".");
    lemma_first_index_bounds(input, '.');
    let i = first_index_of(input, '.');
    if i < 0 {
        lemma_no_first_dot(input);
        assert(dotless("public"@));
        lemma_split_at_first_dot("public"@, input);
        lemma_first_index_of_absent(input, '.');
    } else {
        let a = input.subrange(0, i);
        let rest = input.subrange(i + 1, input.len() as int);
        assert(dotless(a)) by {
            if a.contains('.') {
                let k = choose|k: int| 0 <= k < a.len() && a[k] == '.';
                assert(input[k] == '.');
            }
        }
        lemma_first_index_bounds(rest, '.');
        let j = first_index_of(rest, '.');
        if j < 0 {
            lemma_no_first_dot(rest);
            lemma_split_at_first_dot(a, rest);
            lemma_first_index_of_absent(rest, '.');
        } else {
            let sc = rest.subrange(0, j);
            let c = rest.subrange(j + 1, rest.len() as int);
            assert(dotless(sc)) by {
                if sc.contains('.') {
                    let k = choose|k: int| 0 <= k < sc.len() && sc[k] == '.';
                    assert(rest[k] == '.');
                }
            }
            let tail = sc + "."@ + c;
            assert(a + "."@ + sc + "."@ + c =~= a + "."@ + tail);
            lemma_split_at_first_dot(a, tail);
            lemma_split_at_first_dot(sc, c);
        }
    }
}

} // verus!
