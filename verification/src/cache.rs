//! Per-record cache expiry: the expiry mode and time to live of a record,
//! their map form, when a record has expired, and the keys under which
//! configurations are stored (`{meta_key}\0{record_id}`).

use vstd::prelude::*;
use vstd::string::StringExecFns;
use crate::document::{Document, all_digits, digits_value};
use crate::error::NoSqlError;
use crate::history::{spec_int_field, spec_text_field, int_field, text_field};
use crate::text::{chars_of, decimal_digits, decimal_text, first_index_of, is_first_index, lemma_first_index_of, lemma_first_index_of_absent, string_from_range};
use crate::trim::{age_secs, age_seconds, instant_in_range, record_override_key};
use crate::value::Value;

verus! {

/// Cache expiry mode for a record.
#[derive(Debug, Clone, Copy, PartialEq, Eq, Structural)]
pub enum CacheMode {
    /// The time to live runs from the document's `updated_at`.
    ExpireAfterWrite,
    /// The time to live runs from the document's `created_at`.
    ExpireAfterCreate,
}

/// The text form of each mode.
pub open spec fn cache_mode_name(m: CacheMode) -> Seq<char> {
    match m {
        CacheMode::ExpireAfterWrite => "expire_after_write"@,
        CacheMode::ExpireAfterCreate => "expire_after_create"@,
    }
}

impl CacheMode {
    /// The text form of this mode.
    pub fn as_str(&self) -> (r: &'static str)
        ensures
            r@ == cache_mode_name(*self),
    {
        match self {
            CacheMode::ExpireAfterWrite => "expire_after_write",
            CacheMode::ExpireAfterCreate => "expire_after_create",
        }
    }

    /// Reads a mode from its text form.
    pub fn from_str(s: &str) -> (r: Result<CacheMode, NoSqlError>)
        ensures
            s@ == "expire_after_write"@ ==> r matches Ok(CacheMode::ExpireAfterWrite),
            s@ == "expire_after_create"@ ==> r matches Ok(CacheMode::ExpireAfterCreate),
            s@ != "expire_after_write"@ && s@ != "expire_after_create"@ ==> (r matches Err(NoSqlError::CacheConfigInvalid(m))
                && m@ == "unknown cache mode: "@ + s@),
    {
        proof {
            lemma_cache_mode_roundtrip(CacheMode::ExpireAfterWrite);
        }
        if crate::text::str_eq(s, "expire_after_write") {
            Ok(CacheMode::ExpireAfterWrite)
        } else if crate::text::str_eq(s, "expire_after_create") {
            Ok(CacheMode::ExpireAfterCreate)
        } else {
            let mut m = String::from_str("unknown cache mode: ");
            m.append(s);
            proof {
                reveal_strlit("unknown cache mode: ");
            }
            Err(NoSqlError::CacheConfigInvalid(m))
        }
    }
}

/// A mode named by its text, if any.
pub proof fn lemma_cache_mode_roundtrip(m: CacheMode)
    ensures
        cache_mode_name(m) == "expire_after_write"@ <==> m == CacheMode::ExpireAfterWrite,
        cache_mode_name(m) == "expire_after_create"@ <==> m == CacheMode::ExpireAfterCreate,
{
    reveal_strlit("expire_after_write");
    reveal_strlit("expire_after_create");
    assert("expire_after_write"@ != "expire_after_create"@) by {
        assert("expire_after_write"@[13] != "expire_after_create"@[13]);
    }
}

/// Per-record cache configuration.
#[derive(Debug, Clone, Copy, PartialEq, Eq, Structural)]
pub struct CacheConfig {
    pub mode: CacheMode,
    pub ttl_secs: i64,
}

/// The map form of a configuration: `mode` then `ttl_secs`.
pub open spec fn is_cache_config_value(v: Value, c: CacheConfig) -> bool {
    v matches Value::Object(m) && m@.len() == 2 && (m@[0].0 matches Value::Str(k) && k@ == "mode"@)
        && (m@[0].1 matches Value::Str(s) && s@ == cache_mode_name(c.mode))
        && (m@[1].0 matches Value::Str(k) && k@ == "ttl_secs"@) && m@[1].1 == Value::Integer(c.ttl_secs)
}

/// How a map value reads as a cache configuration.
pub open spec fn spec_cache_config(v: Value, r: Result<CacheConfig, NoSqlError>) -> bool {
    match v {
        Value::Object(m) => match spec_text_field(m@, "mode"@) {
            None => r matches Err(NoSqlError::CacheConfigInvalid(e)) && e@ == "missing 'mode' field"@,
            Some(s) => if s != "expire_after_write"@ && s != "expire_after_create"@ {
                r matches Err(NoSqlError::CacheConfigInvalid(e)) && e@ == "unknown cache mode: "@ + s
            } else {
                match spec_int_field(m@, "ttl_secs"@) {
                    None => r matches Err(NoSqlError::CacheConfigInvalid(e)) && e@ == "missing 'ttl_secs' field"@,
                    Some(t) => if t <= 0 {
                        r matches Err(NoSqlError::CacheConfigInvalid(e)) && e@ == "ttl_secs must be positive"@
                    } else {
                        r matches Ok(c) && c.ttl_secs == t && cache_mode_name(c.mode) == s
                    },
                }
            },
        },
        _ => r matches Err(NoSqlError::CacheConfigInvalid(e)) && e@ == "expected map"@,
    }
}

impl CacheConfig {
    /// Reads a configuration from a map `{mode: "...", ttl_secs: n}`.
    pub fn from_value(val: &Value) -> (r: Result<CacheConfig, NoSqlError>)
        ensures
            spec_cache_config(*val, r),
    {
        let m = match val {
            Value::Object(m) => m,
            _ => {
                proof {
                    reveal_strlit("expected map");
                }
                return Err(NoSqlError::CacheConfigInvalid(String::from_str("expected map")));
            },
        };
        proof {
            reveal_strlit("mode");
            reveal_strlit("ttl_secs");
        }
        let mode_text = match text_field(m, "mode") {
            Some(s) => s,
            None => {
                proof {
                    reveal_strlit("missing 'mode' field");
                }
                return Err(NoSqlError::CacheConfigInvalid(String::from_str("missing 'mode' field")));
            },
        };
        let mode = match CacheMode::from_str(mode_text.as_str()) {
            Ok(md) => md,
            Err(e) => {
                return Err(e);
            },
        };
        let ttl_secs = match int_field(m, "ttl_secs") {
            Some(t) => t,
            None => {
                proof {
                    reveal_strlit("missing 'ttl_secs' field");
                }
                return Err(NoSqlError::CacheConfigInvalid(String::from_str("missing 'ttl_secs' field")));
            },
        };
        if ttl_secs <= 0 {
            proof {
                reveal_strlit("ttl_secs must be positive");
            }
            return Err(NoSqlError::CacheConfigInvalid(String::from_str("ttl_secs must be positive")));
        }
        proof {
            lemma_cache_mode_roundtrip(mode);
        }
        Ok(CacheConfig { mode, ttl_secs })
    }

    /// The map form: `{mode: "...", ttl_secs: n}`.
    pub fn to_value(&self) -> (r: Value)
        ensures
            is_cache_config_value(r, *self),
    {
        let mut m: Vec<(Value, Value)> = Vec::new();
        m.push((Value::Str(String::from_str("mode")), Value::Str(String::from_str(self.mode.as_str()))));
        m.push((Value::Str(String::from_str("ttl_secs")), Value::Integer(self.ttl_secs)));
        proof {
            reveal_strlit("mode");
            reveal_strlit("ttl_secs");
        }
        Value::Object(m)
    }

    /// The time the time to live runs from.
    pub open spec fn reference(&self, doc: Document) -> (i64, u32) {
        match self.mode {
            CacheMode::ExpireAfterWrite => doc.updated_at,
            CacheMode::ExpireAfterCreate => doc.created_at,
        }
    }

    /// Whether a document has expired at time `now`: the whole seconds since
    /// its reference time reach the time to live.
    pub fn is_expired(&self, doc: &Document, now: (i64, u32)) -> (r: bool)
        requires
            instant_in_range(now),
            instant_in_range(doc.created_at),
            instant_in_range(doc.updated_at),
        ensures
            r == (age_secs(now, self.reference(*doc)) >= self.ttl_secs),
    {
        let reference = match self.mode {
            CacheMode::ExpireAfterWrite => doc.updated_at,
            CacheMode::ExpireAfterCreate => doc.created_at,
        };
        age_seconds(now, reference) >= self.ttl_secs
    }
}

/// The key under which a record's cache configuration is stored.
pub fn cache_key(meta_key: &str, record_id: i64) -> (r: String)
    ensures
        r@ == meta_key@ + seq!['\0'] + decimal_text(record_id as int),
{
    record_override_key(meta_key, record_id)
}

/// The integer a text reads as (`i64::from_str`): an optional sign followed
/// by at least one ASCII digit, with a value in range.
pub open spec fn parse_i64(s: Seq<char>) -> Option<int> {
    let neg = s.len() > 0 && s[0] == '-';
    let d = if s.len() > 0 && (s[0] == '+' || s[0] == '-') {
        s.drop_first()
    } else {
        s
    };
    if d.len() > 0 && all_digits(d) {
        let v: int = if neg { -(digits_value(d) as int) } else { digits_value(d) as int };
        if i64::MIN <= v <= i64::MAX {
            Some(v)
        } else {
            None
        }
    } else {
        None
    }
}

/// Reads a text as an `i64`.
pub fn parse_i64_text(s: &str) -> (r: Option<i64>)
    ensures
        match r {
            Some(n) => parse_i64(s@) == Some(n as int),
            None => parse_i64(s@) is None,
        },
{
    let v = chars_of(s);
    let neg = v.len() > 0 && v[0] == '-';
    let start: usize = if v.len() > 0 && (v[0] == '+' || v[0] == '-') {
        1
    } else {
        0
    };
    let ghost d = v@.skip(start as int);
    proof {
        if start == 1 {
            assert(d =~= v@.drop_first());
        } else {
            assert(d =~= v@);
        }
    }
    if start >= v.len() {
        return None;
    }
    let mut acc: i128 = 0;
    let mut i: usize = start;
    while i < v.len()
        invariant
            v@ == s@,
            d == v@.skip(start as int),
            d == (if s@.len() > 0 && (s@[0] == '+' || s@[0] == '-') {
                s@.drop_first()
            } else {
                s@
            }),
            neg == (s@.len() > 0 && s@[0] == '-'),
            start <= i <= v@.len(),
            start < v@.len(),
            all_digits(v@.subrange(start as int, i as int)),
            acc == digits_value(v@.subrange(start as int, i as int)),
            acc <= 9223372036854775808,
        decreases v.len() - i,
    {
        let c = v[i];
        proof {
            assert(v@.subrange(start as int, i + 1).drop_last() =~= v@.subrange(start as int, i as int));
        }
        if !('0' <= c && c <= '9') {
            proof {
                assert(d[i - start] == c);
                assert(!all_digits(d));
            }
            return None;
        }
        let next: i128 = acc * 10 + (c as u32 - 48) as i128;
        if next > 9223372036854775808 {
            proof {
                assert(d.subrange(0, i - start + 1) =~= v@.subrange(start as int, i + 1));
                assert(digits_value(v@.subrange(start as int, i + 1)) == next);
                if all_digits(d) {
                    crate::document::lemma_digits_value_monotone(d, i - start + 1);
                }
            }
            return None;
        }
        acc = next;
        i = i + 1;
    }
    proof {
        assert(v@.subrange(start as int, v@.len() as int) =~= d);
    }
    let value: i128 = if neg { 0 - acc } else { acc };
    if value < -9223372036854775808 || value > 9223372036854775807 {
        return None;
    }
    Some(value as i64)
}

/// The record id in a configuration key: the part after the first NUL, up
/// to the next one, read as an `i64`.
pub open spec fn key_record_id(key: Seq<char>) -> Option<int> {
    let parts = crate::value::split_on(key, '\0');
    if parts.len() >= 2 {
        parse_i64(parts[1])
    } else {
        None
    }
}

/// Reads the record id from a configuration key.
pub fn record_id_of_key(key: &str) -> (r: Option<i64>)
    ensures
        match r {
            Some(n) => key_record_id(key@) == Some(n as int),
            None => key_record_id(key@) is None,
        },
{
    let parts = crate::value::split_text(key, '\0');
    if parts.len() >= 2 {
        parse_i64_text(parts[1].as_str())
    } else {
        None
    }
}

/// What a sweep does with a cached record.
#[derive(Debug, Clone, Copy, PartialEq, Eq, Structural)]
pub enum SweepAction {
    /// Delete the record and its configuration.
    DeleteRecord,
    /// The record is gone: drop its stale configuration.
    DropConfig,
    /// Leave both.
    Keep,
}

/// Decides a sweep step for a configured record (`doc` is the record, if it
/// still exists).
pub fn sweep_action(config: &CacheConfig, doc: Option<&Document>, now: (i64, u32)) -> (r: SweepAction)
    requires
        instant_in_range(now),
        doc matches Some(d) ==> instant_in_range(d.created_at) && instant_in_range(d.updated_at),
    ensures
        doc is None ==> r == SweepAction::DropConfig,
        doc matches Some(d) ==> r == (if age_secs(now, config.reference(*d)) >= config.ttl_secs {
            SweepAction::DeleteRecord
        } else {
            SweepAction::Keep
        }),
{
    match doc {
        None => SweepAction::DropConfig,
        Some(d) => if config.is_expired(d, now) {
            SweepAction::DeleteRecord
        } else {
            SweepAction::Keep
        },
    }
}

/// Reading back the map form of a configuration with a positive time to live
/// gives the same configuration.
pub proof fn lemma_cache_config_roundtrip(c: CacheConfig, v: Value, r: Result<CacheConfig, NoSqlError>)
    requires
        c.ttl_secs > 0,
        is_cache_config_value(v, c),
        spec_cache_config(v, r),
    ensures
        r matches Ok(c2) && c2 == c,
{
    reveal_strlit("mode");
    reveal_strlit("ttl_secs");
    let m = v->Object_0@;
    assert(m.drop_first()[0] == m[1]);
    assert("mode"@ != "ttl_secs"@) by {
        assert("mode"@.len() != "ttl_secs"@.len());
    }
    assert(spec_int_field(m.drop_first(), "ttl_secs"@) == Some(c.ttl_secs));
    assert(spec_int_field(m, "ttl_secs"@) == Some(c.ttl_secs));
    lemma_cache_mode_roundtrip(c.mode);
    assert(spec_text_field(m, "mode"@) == Some(cache_mode_name(c.mode)));
    match r {
        Ok(c2) => {
            lemma_cache_mode_roundtrip(c2.mode);
        },
        Err(_) => {},
    }
}

/// The decimal digits of a number are digits, at least one, and spell it.
proof fn lemma_decimal_digits(n: nat)
    ensures
        decimal_digits(n).len() > 0,
        all_digits(decimal_digits(n)),
        digits_value(decimal_digits(n)) == n,
    decreases n,
{
    if n < 10 {
        let d = decimal_digits(n);
        assert(d.drop_last() =~= Seq::<char>::empty());
        assert(d.last() == (n + 48) as char);
        assert((((n + 48) as char) as u32) == n + 48);
        assert(digits_value(d.drop_last()) == 0);
        assert(digits_value(d) == digits_value(d.drop_last()) * 10 + ((d.last() as u32) - 48) as nat);
    } else {
        lemma_decimal_digits(n / 10);
        let d = decimal_digits(n);
        assert(d.drop_last() =~= decimal_digits(n / 10));
        assert(d.last() == (n % 10 + 48) as char);
        assert((((n % 10 + 48) as char) as u32) == n % 10 + 48);
        assert(n == (n / 10) * 10 + n % 10);
        assert(digits_value(d) == digits_value(d.drop_last()) * 10 + ((d.last() as u32) - 48) as nat);
        assert forall|i: int| 0 <= i < d.len() implies '0' <= #[trigger] d[i] <= '9' by {
            if i < d.len() - 1 {
                assert(d[i] == decimal_digits(n / 10)[i]);
            }
        }
    }
}

/// The decimal text of an `i64` reads back as the same number.
pub proof fn lemma_parse_decimal_text(n: int)
    requires
        i64::MIN <= n <= i64::MAX,
    ensures
        parse_i64(decimal_text(n)) == Some(n),
{
    if n < 0 {
        let m = (-n) as nat;
        lemma_decimal_digits(m);
        let s = decimal_text(n);
        assert(s.drop_first() =~= decimal_digits(m));
        assert(s[0] == '-');
    } else {
        lemma_decimal_digits(n as nat);
        let s = decimal_text(n);
        assert('0' <= s[0] <= '9');
    }
}

/// The record id stored in a configuration key is read back from it, for a
/// collection key without a NUL character.
pub proof fn lemma_cache_key_roundtrip(meta_key: Seq<char>, record_id: i64)
    requires
        !meta_key.contains('\0'),
    ensures
        key_record_id(meta_key + seq!['\0'] + decimal_text(record_id as int)) == Some(record_id as int),
{
    let dec = decimal_text(record_id as int);
    let key = meta_key + seq!['\0'] + dec;
    let n = meta_key.len() as int;
    assert(is_first_index(key, '\0', n)) by {
        assert forall|j: int| 0 <= j < n implies key[j] != '\0' by {
            assert(key[j] == meta_key[j]);
        }
    }
    lemma_first_index_of(key, '\0', n);
    assert(key.take(n) =~= meta_key);
    assert(key.skip(n + 1) =~= dec);
    assert(!dec.contains('\0')) by {
        if record_id < 0 {
            lemma_decimal_digits((-record_id) as nat);
        } else {
            lemma_decimal_digits(record_id as nat);
        }
        if dec.contains('\0') {
            let k = choose|k: int| 0 <= k < dec.len() && dec[k] == '\0';
            if record_id < 0 {
                if k > 0 {
                    assert(dec[k] == decimal_digits((-record_id) as nat)[k - 1]);
                }
            }
        }
    }
    lemma_first_index_of_absent(dec, '\0');
    assert(crate::value::split_on(dec, '\0') == seq![dec]);
    assert(crate::value::split_on(key, '\0') == seq![key.take(n)] + crate::value::split_on(key.skip(n + 1), '\0'));
    let parts = crate::value::split_on(key, '\0');
    assert(parts =~= seq![meta_key] + seq![dec]);
    lemma_parse_decimal_text(record_id as int);
}

} // verus!
