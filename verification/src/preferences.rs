//! Preference stores: each preference is a document holding its key, its
//! (possibly sealed) value bytes, the value's type name, whether it is shared
//! with peers, its conflict strategy and when it was updated. These functions
//! build and read those documents and decide how a remote update applies.

use vstd::prelude::*;
use vstd::string::StringExecFns;
use crate::conflict::{ConflictContext, ConflictOutcome, ConflictResolution, conflict_resolution_name, conflict_resolution_parse, resolve_conflict, spec_resolve_conflict};
use crate::document::Document;
use crate::error::NoSqlError;
use crate::storage::{decode_id, spec_decode_id};
use crate::value::Value;

verus! {

/// The type name a preference records for its value.
pub open spec fn value_type_name(v: Value) -> Seq<char> {
    match v {
        Value::Str(_) => "string"@,
        Value::Integer(_) => "integer"@,
        Value::UInteger(_) => "integer"@,
        Value::Ext(_, _) => "ext"@,
        Value::Boolean(_) => "boolean"@,
        Value::Object(_) => "map"@,
        Value::Array(_) => "array"@,
        Value::Binary(_) => "binary"@,
        Value::Nil => "nil"@,
    }
}

/// The type name of a value.
pub fn value_type(v: &Value) -> (r: &'static str)
    ensures
        r@ == value_type_name(*v),
{
    match v {
        Value::Str(_) => "string",
        Value::Integer(_) => "integer",
        Value::UInteger(_) => "integer",
        Value::Ext(_, _) => "ext",
        Value::Boolean(_) => "boolean",
        Value::Object(_) => "map",
        Value::Array(_) => "array",
        Value::Binary(_) => "binary",
        Value::Nil => "nil",
    }
}

/// Whether a pair is the text key `k` with this value.
pub open spec fn pair_is(p: (Value, Value), k: Seq<char>, v: Value) -> bool {
    (p.0 matches Value::Str(s) && s@ == k) && p.1 == v
}

/// Whether a pair is the text key `k` with a text value `t`.
pub open spec fn text_pair_is(p: (Value, Value), k: Seq<char>, t: Seq<char>) -> bool {
    (p.0 matches Value::Str(s) && s@ == k) && (p.1 matches Value::Str(x) && x@ == t)
}

/// The data of a preference document: key, sealed value, value type,
/// shareable flag, conflict strategy and update time (milliseconds).
pub fn preference_data(
    key: &str,
    enc_value: Vec<u8>,
    value_type_name_text: &str,
    shareable: bool,
    strategy: ConflictResolution,
    updated_at_ms: i64,
) -> (r: Value)
    ensures
        r matches Value::Object(m) && m@.len() == 6 && text_pair_is(m@[0], "key"@, key@)
            && pair_is(m@[1], "enc_value"@, Value::Binary(enc_value))
            && text_pair_is(m@[2], "value_type"@, value_type_name_text@)
            && pair_is(m@[3], "shareable"@, Value::Boolean(shareable))
            && text_pair_is(m@[4], "conflict_resolution"@, conflict_resolution_name(strategy))
            && pair_is(m@[5], "updated_at"@, Value::Integer(updated_at_ms)),
{
    let mut m: Vec<(Value, Value)> = Vec::new();
    m.push((Value::Str(String::from_str("key")), Value::Str(String::from_str(key))));
    m.push((Value::Str(String::from_str("enc_value")), Value::Binary(enc_value)));
    m.push((Value::Str(String::from_str("value_type")), Value::Str(String::from_str(value_type_name_text))));
    m.push((Value::Str(String::from_str("shareable")), Value::Boolean(shareable)));
    m.push((Value::Str(String::from_str("conflict_resolution")), Value::Str(String::from_str(strategy.as_str()))));
    m.push((Value::Str(String::from_str("updated_at")), Value::Integer(updated_at_ms)));
    proof {
        reveal_strlit("key");
        reveal_strlit("enc_value");
        reveal_strlit("value_type");
        reveal_strlit("shareable");
        reveal_strlit("conflict_resolution");
        reveal_strlit("updated_at");
    }
    Value::Object(m)
}

/// The document id an index entry holds: eight big-endian bytes; another
/// length is a corrupt entry.
pub fn index_entry_id(entry: Option<&Vec<u8>>) -> (r: Result<Option<i64>, NoSqlError>)
    ensures
        entry is None ==> r matches Ok(None),
        entry matches Some(b) ==> (b@.len() == 8 ==> (r matches Ok(Some(id)) && id == spec_decode_id(b@))),
        entry matches Some(b) ==> (b@.len() != 8 ==> (r matches Err(NoSqlError::PreferenceError(m)) && m@ == "corrupt index entry"@)),
{
    match entry {
        None => Ok(None),
        Some(b) => {
            if b.len() != 8 {
                proof {
                    reveal_strlit("corrupt index entry");
                }
                return Err(NoSqlError::PreferenceError(String::from_str("corrupt index entry")));
            }
            match decode_id(b.as_slice()) {
                Ok(id) => Ok(Some(id)),
                Err(_) => Ok(None),
            }
        },
    }
}

/// The sealed bytes a preference document holds under `enc_value`.
pub fn enc_bytes_of(doc: &Document) -> (r: Result<Vec<u8>, NoSqlError>)
    ensures
        doc.spec_get_field("enc_value"@) matches Some(Value::Binary(b)) ==> (r matches Ok(x) && x@ == b@),
        !(doc.spec_get_field("enc_value"@) matches Some(Value::Binary(_))) ==> (r matches Err(NoSqlError::PreferenceError(m))
            && m@ == "missing or invalid enc_value field"@),
{
    proof {
        reveal_strlit("enc_value");
    }
    match doc.get_field("enc_value") {
        Some(Value::Binary(b)) => Ok(b.clone()),
        _ => {
            proof {
                reveal_strlit("missing or invalid enc_value field");
            }
            Err(NoSqlError::PreferenceError(String::from_str("missing or invalid enc_value field")))
        },
    }
}

/// Packs a sealed preference: the nonce's length as one byte, the nonce, the
/// ciphertext.
pub fn pack_sealed(nonce: &Vec<u8>, ct: &Vec<u8>) -> (r: Vec<u8>)
    requires
        nonce@.len() < 256,
    ensures
        r@ == seq![nonce@.len() as u8] + nonce@ + ct@,
{
    let mut out: Vec<u8> = Vec::new();
    out.push(nonce.len() as u8);
    let mut i: usize = 0;
    while i < nonce.len()
        invariant
            i <= nonce@.len(),
            nonce@.len() < 256,
            out@ == seq![nonce@.len() as u8] + nonce@.take(i as int),
        decreases nonce.len() - i,
    {
        out.push(nonce[i]);
        proof {
            assert(seq![nonce@.len() as u8] + nonce@.take(i + 1) =~= (seq![nonce@.len() as u8] + nonce@.take(i as int)).push(nonce@[i as int]));
        }
        i = i + 1;
    }
    let mut j: usize = 0;
    while j < ct.len()
        invariant
            j <= ct@.len(),
            out@ == seq![nonce@.len() as u8] + nonce@ + ct@.take(j as int),
        decreases ct.len() - j,
    {
        out.push(ct[j]);
        proof {
            assert(seq![nonce@.len() as u8] + nonce@ + ct@.take(j + 1) =~= (seq![nonce@.len() as u8] + nonce@ + ct@.take(j as int)).push(ct@[j as int]));
        }
        j = j + 1;
    }
    proof {
        assert(nonce@.take(nonce@.len() as int) =~= nonce@);
        assert(ct@.take(ct@.len() as int) =~= ct@);
    }
    out
}

/// Splits a packed sealed preference into its nonce and ciphertext.
pub fn unpack_sealed(packed: &Vec<u8>) -> (r: Result<(Vec<u8>, Vec<u8>), NoSqlError>)
    ensures
        packed@.len() == 0 ==> (r matches Err(NoSqlError::PreferenceError(m)) && m@ == "empty encrypted value"@),
        packed@.len() > 0 && packed@.len() < 1 + packed@[0] ==> (r matches Err(NoSqlError::PreferenceError(m))
            && m@ == "encrypted value too short"@),
        packed@.len() > 0 && packed@.len() >= 1 + packed@[0] ==> (r matches Ok(parts)
            && parts.0@ == packed@.subrange(1, 1 + packed@[0]) && parts.1@ == packed@.skip(1 + packed@[0])),
{
    if packed.len() == 0 {
        proof {
            reveal_strlit("empty encrypted value");
        }
        return Err(NoSqlError::PreferenceError(String::from_str("empty encrypted value")));
    }
    let n = packed[0] as usize;
    if packed.len() < 1 + n {
        proof {
            reveal_strlit("encrypted value too short");
        }
        return Err(NoSqlError::PreferenceError(String::from_str("encrypted value too short")));
    }
    let mut nonce: Vec<u8> = Vec::new();
    let mut i: usize = 1;
    while i < 1 + n
        invariant
            1 <= i <= 1 + n,
            1 + n <= packed@.len(),
            n == packed@[0],
            nonce@ == packed@.subrange(1, i as int),
        decreases 1 + n - i,
    {
        nonce.push(packed[i]);
        proof {
            assert(packed@.subrange(1, i + 1) =~= packed@.subrange(1, i as int).push(packed@[i as int]));
        }
        i = i + 1;
    }
    let mut ct: Vec<u8> = Vec::new();
    let mut j: usize = 1 + n;
    while j < packed.len()
        invariant
            1 + n <= j <= packed@.len(),
            ct@ == packed@.subrange(1 + n, j as int),
        decreases packed.len() - j,
    {
        ct.push(packed[j]);
        proof {
            assert(packed@.subrange(1 + n, j + 1) =~= packed@.subrange(1 + n, j as int).push(packed@[j as int]));
        }
        j = j + 1;
    }
    proof {
        assert(ct@ =~= packed@.skip(1 + n));
    }
    Ok((nonce, ct))
}

/// Unpacking a packed sealed preference gives its nonce and ciphertext back.
pub proof fn lemma_pack_unpack(nonce: Seq<u8>, ct: Seq<u8>)
    requires
        nonce.len() < 256,
    ensures
        ({
            let p = seq![nonce.len() as u8] + nonce + ct;
            &&& p.len() >= 1 + p[0]
            &&& p.subrange(1, 1 + p[0]) == nonce
            &&& p.skip(1 + p[0]) == ct
        }),
{
    let p = seq![nonce.len() as u8] + nonce + ct;
    assert(p[0] == nonce.len() as u8);
    assert(p.subrange(1, 1 + p[0]) =~= nonce);
    assert(p.skip(1 + p[0]) =~= ct);
}

/// The key of a shareable preference document, where it is shared: its
/// `shareable` field is `true`; its key is its `key` text (empty without one).
pub open spec fn spec_shared_key(doc: Document) -> Option<Seq<char>> {
    if doc.spec_get_field("shareable"@) == Some(Value::Boolean(true)) {
        Some(match doc.spec_get_field("key"@) {
            Some(Value::Str(s)) => s@,
            _ => Seq::empty(),
        })
    } else {
        None
    }
}

/// The key under which a preference document is shared, if it is shared.
pub fn shared_key(doc: &Document) -> (r: Option<String>)
    ensures
        match r {
            Some(k) => spec_shared_key(*doc) == Some(k@),
            None => spec_shared_key(*doc) is None,
        },
{
    proof {
        reveal_strlit("shareable");
        reveal_strlit("key");
    }
    match doc.get_field("shareable") {
        Some(Value::Boolean(true)) => {
            match doc.get_field("key") {
                Some(Value::Str(s)) => Some(s.clone()),
                _ => Some(String::new()),
            }
        },
        _ => None,
    }
}

/// The update time a local preference records (0 without one).
pub open spec fn local_updated_at(doc: Document) -> i64 {
    match doc.spec_get_field("updated_at"@) {
        Some(Value::Integer(t)) => t,
        _ => 0,
    }
}

/// The conflict strategy a local preference records (last write wins without
/// a known one).
pub open spec fn local_strategy(doc: Document) -> ConflictResolution {
    match doc.spec_get_field("conflict_resolution"@) {
        Some(Value::Str(s)) => match conflict_resolution_parse(s@) {
            Some(c) => c,
            None => ConflictResolution::LastWriteWins,
        },
        _ => ConflictResolution::LastWriteWins,
    }
}

/// How a remote update of a preference applies, and with which strategy the
/// accepted value is stored: with no local preference the remote value is
/// accepted (default strategy); otherwise the local strategy resolves the
/// conflict between the local and the remote update times and the remote
/// confidence (the local one is not recorded).
pub fn apply_remote_decision(existing: Option<&Document>, remote_updated_at: i64, remote_confidence: Option<u64>) -> (r: (ConflictOutcome, ConflictResolution))
    ensures
        existing is None ==> r == (ConflictOutcome::AcceptRemote, ConflictResolution::LastWriteWins),
        existing matches Some(doc) ==> r == (spec_resolve_conflict(local_strategy(*doc), ConflictContext {
            local_updated_at: local_updated_at(*doc),
            remote_updated_at,
            local_confidence: None,
            remote_confidence,
        }), local_strategy(*doc)),
{
    match existing {
        None => (ConflictOutcome::AcceptRemote, ConflictResolution::default()),
        Some(doc) => {
            proof {
                reveal_strlit("updated_at");
                reveal_strlit("conflict_resolution");
            }
            let local = match doc.get_field("updated_at") {
                Some(Value::Integer(t)) => *t,
                _ => 0,
            };
            let strategy = match doc.get_field("conflict_resolution") {
                Some(Value::Str(s)) => match ConflictResolution::from_str(s.as_str()) {
                    Some(c) => c,
                    None => ConflictResolution::LastWriteWins,
                },
                _ => ConflictResolution::LastWriteWins,
            };
            let ctx = ConflictContext {
                local_updated_at: local,
                remote_updated_at,
                local_confidence: None,
                remote_confidence,
            };
            (resolve_conflict(strategy, &ctx), strategy)
        },
    }
}

} // verus!
