//! Documents: a record id, the collection it belongs to, its data and its
//! creation and update times (milliseconds since the Unix epoch, UTC).

use vstd::prelude::*;
use vstd::string::StringExecFns;
use crate::text::chars_of;
use crate::value::{Value, lookup, map_lookup, opt_value, split_on, split_text, texts};

verus! {

/// A stored document.
#[derive(Debug)]
pub struct Document {
    pub id: i64,
    pub collection: String,
    pub data: Value,
    /// Creation time: seconds since the Unix epoch and nanoseconds (UTC).
    pub created_at: (i64, u32),
    /// Last update time: seconds since the Unix epoch and nanoseconds (UTC).
    pub updated_at: (i64, u32),
}

/// `chrono::Utc::now()`: the current time as seconds since the Unix epoch and
/// nanoseconds. Nothing is promised of the value: it depends on the clock.
#[verifier::external_body]
pub(crate) fn now_instant() -> (r: (i64, u32)) {
    let t = chrono::Utc::now();
    (t.timestamp(), t.timestamp_subsec_nanos())
}

/// The value found by following map keys along `parts` from `v`.
pub open spec fn navigate_fields(v: Value, parts: Seq<Seq<char>>) -> Option<Value>
    decreases parts.len(),
{
    if parts.len() == 0 {
        Some(v)
    } else {
        match v {
            Value::Object(m) => match map_lookup(m@, parts[0]) {
                Some(x) => navigate_fields(x, parts.drop_first()),
                None => None,
            },
            _ => None,
        }
    }
}

/// Follows map keys along `parts` from `v`.
pub fn navigate_parts<'a>(v: &'a Value, parts: &Vec<String>) -> (r: Option<&'a Value>)
    ensures
        opt_value(r) == navigate_fields(*v, texts(parts@)),
{
    let mut current: &Value = v;
    let mut i: usize = 0;
    proof {
        assert(texts(parts@).skip(0) =~= texts(parts@));
    }
    while i < parts.len()
        invariant
            i <= parts@.len(),
            navigate_fields(*v, texts(parts@)) == navigate_fields(*current, texts(parts@).skip(i as int)),
        decreases parts.len() - i,
    {
        proof {
            assert(texts(parts@).skip(i as int)[0] == parts@[i as int]@);
            assert(texts(parts@).skip(i as int).drop_first() =~= texts(parts@).skip(i + 1));
        }
        match current {
            Value::Object(m) => {
                match lookup(m, parts[i].as_str()) {
                    Some(x) => {
                        current = x;
                    },
                    None => {
                        return None;
                    },
                }
            },
            _ => {
                return None;
            },
        }
        i = i + 1;
    }
    Some(current)
}

impl Document {
    /// A document whose creation and update times are both `now`.
    pub fn new_with_timestamp(id: i64, collection: &str, data: Value, now: (i64, u32)) -> (r: Document)
        ensures
            r.id == id,
            r.collection@ == collection@,
            r.data == data,
            r.created_at == now,
            r.updated_at == now,
    {
        Document { id, collection: String::from_str(collection), data, created_at: now, updated_at: now }
    }

    /// A document created now.
    /// A copy of this document.
    pub fn duplicate(&self) -> (r: Document)
        ensures
            r.id == self.id,
            r.collection@ == self.collection@,
            crate::value::deep_eq(r.data, self.data),
            r.created_at == self.created_at,
            r.updated_at == self.updated_at,
    {
        Document {
            id: self.id,
            collection: self.collection.clone(),
            data: self.data.duplicate(),
            created_at: self.created_at,
            updated_at: self.updated_at,
        }
    }

    pub fn new(id: i64, collection: &str, data: Value) -> (r: Document)
        ensures
            r.id == id,
            r.collection@ == collection@,
            r.data == data,
            r.created_at == r.updated_at,
    {
        let now = now_instant();
        Document::new_with_timestamp(id, collection, data, now)
    }

    /// The value at a dot-separated path of map keys in this document's data.
    pub open spec fn spec_get_field(&self, path: Seq<char>) -> Option<Value> {
        navigate_fields(self.data, split_on(path, '.'))
    }

    /// The value at a dot-separated path of map keys (`"address.city"`), if present.
    pub fn get_field(&self, path: &str) -> (r: Option<&Value>)
        ensures
            opt_value(r) == self.spec_get_field(path@),
    {
        let parts = split_text(path, '.');
        navigate_parts(&self.data, &parts)
    }
}

/// Whether every character of `s` is an ASCII digit.
pub open spec fn all_digits(s: Seq<char>) -> bool {
    forall|i: int| 0 <= i < s.len() ==> '0' <= #[trigger] s[i] <= '9'
}

/// The number that a sequence of ASCII digits spells in base 10.
pub open spec fn digits_value(s: Seq<char>) -> nat
    decreases s.len(),
{
    if s.len() == 0 {
        0
    } else {
        digits_value(s.drop_last()) * 10 + ((s.last() as u32) - 48) as nat
    }
}

/// The index that a text reads as (`usize::from_str`): an optional `+` followed by
/// at least one ASCII digit, with a value that fits in `usize`.
pub open spec fn parse_index(s: Seq<char>) -> Option<nat> {
    let d = if s.len() > 0 && s[0] == '+' {
        s.drop_first()
    } else {
        s
    };
    if d.len() > 0 && all_digits(d) && digits_value(d) <= usize::MAX {
        Some(digits_value(d))
    } else {
        None
    }
}

/// Reads a text as an index (`usize::from_str`).
pub fn parse_index_text(s: &str) -> (r: Option<usize>)
    ensures
        match r {
            Some(n) => parse_index(s@) == Some(n as nat),
            None => parse_index(s@) is None,
        },
{
    let v = chars_of(s);
    let start: usize = if v.len() > 0 && v[0] == '+' {
        1
    } else {
        0
    };
    let ghost d = v@.skip(start as int);
    proof {
        if start == 1 {
            assert(d =~= v@.drop_first());
        } else {
            assert(d =~= v@);
        }
    }
    if start >= v.len() {
        return None;
    }
    let mut acc: usize = 0;
    let mut i: usize = start;
    while i < v.len()
        invariant
            v@ == s@,
            d == v@.skip(start as int),
            d == (if s@.len() > 0 && s@[0] == '+' {
                s@.drop_first()
            } else {
                s@
            }),
            d.len() > 0,
            start <= i <= v@.len(),
            all_digits(v@.subrange(start as int, i as int)),
            acc as nat == digits_value(v@.subrange(start as int, i as int)),
        decreases v.len() - i,
    {
        let c = v[i];
        proof {
            assert(v@.subrange(start as int, i + 1).drop_last() =~= v@.subrange(start as int, i as int));
        }
        if !('0' <= c && c <= '9') {
            proof {
                assert(d[i - start] == c);
                assert(!all_digits(d));
                assert(parse_index(s@) is None);
            }
            return None;
        }
        let digit = (c as u32 - 48) as usize;
        let next = match acc.checked_mul(10) {
            Some(m) => m.checked_add(digit),
            None => None,
        };
        match next {
            Some(n) => {
                acc = n;
            },
            None => {
                proof {
                    assert(d.subrange(0, i - start + 1) =~= v@.subrange(start as int, i + 1));
                    assert(digits_value(v@.subrange(start as int, i + 1)) == acc * 10 + digit);
                    if all_digits(d) {
                        lemma_digits_value_monotone(d, i - start + 1);
                        assert(digits_value(d) > usize::MAX);
                    }
                    assert(parse_index(s@) is None);
                }
                return None;
            },
        }
        i = i + 1;
    }
    proof {
        assert(v@.subrange(start as int, v@.len() as int) =~= d);
    }
    Some(acc)
}

/// A longer digit prefix spells a number at least as large.
pub proof fn lemma_digits_value_monotone(d: Seq<char>, k: int)
    requires
        0 <= k <= d.len(),
        all_digits(d),
    ensures
        digits_value(d) >= digits_value(d.subrange(0, k)),
    decreases d.len() - k,
{
    if k < d.len() {
        lemma_digits_value_monotone(d, k + 1);
        assert(d.subrange(0, k + 1).drop_last() =~= d.subrange(0, k));
        assert('0' <= d[k] <= '9');
        assert(d.subrange(0, k + 1).last() == d[k]);
        let x = digits_value(d.subrange(0, k));
        assert(digits_value(d.subrange(0, k + 1)) == x * 10 + ((d[k] as u32) - 48) as nat);
        assert(x * 10 >= x) by (nonlinear_arith);
    } else {
        assert(d.subrange(0, k) =~= d);
    }
}

/// The value found by following a JSON path along `parts` from `v`: a map step
/// takes the entry with that key, an array step takes the element at that index.
pub open spec fn navigate_json(v: Value, parts: Seq<Seq<char>>) -> Option<Value>
    decreases parts.len(),
{
    if parts.len() == 0 {
        Some(v)
    } else {
        match v {
            Value::Object(m) => match map_lookup(m@, parts[0]) {
                Some(x) => navigate_json(x, parts.drop_first()),
                None => None,
            },
            Value::Array(a) => match parse_index(parts[0]) {
                Some(idx) => if idx < a@.len() {
                    navigate_json(a@[idx as int], parts.drop_first())
                } else {
                    None
                },
                None => None,
            },
            _ => None,
        }
    }
}

/// Navigate a JSON path within a value (dot-notation with integer array indexing).
pub fn navigate_json_path<'a>(val: &'a Value, path: &str) -> (r: Option<&'a Value>)
    ensures
        opt_value(r) == navigate_json(*val, split_on(path@, '.')),
{
    let parts = split_text(path, '.');
    let mut current: &Value = val;
    let mut i: usize = 0;
    proof {
        assert(texts(parts@).skip(0) =~= texts(parts@));
    }
    while i < parts.len()
        invariant
            i <= parts@.len(),
            texts(parts@) == split_on(path@, '.'),
            navigate_json(*val, texts(parts@)) == navigate_json(*current, texts(parts@).skip(i as int)),
        decreases parts.len() - i,
    {
        proof {
            assert(texts(parts@).skip(i as int)[0] == parts@[i as int]@);
            assert(texts(parts@).skip(i as int).drop_first() =~= texts(parts@).skip(i + 1));
        }
        match current {
            Value::Object(m) => {
                match lookup(m, parts[i].as_str()) {
                    Some(x) => {
                        current = x;
                    },
                    None => {
                        return None;
                    },
                }
            },
            Value::Array(a) => {
                match parse_index_text(parts[i].as_str()) {
                    Some(idx) => {
                        if idx < a.len() {
                            current = &a[idx];
                        } else {
                            return None;
                        }
                    },
                    None => {
                        return None;
                    },
                }
            },
            _ => {
                return None;
            },
        }
        i = i + 1;
    }
    Some(current)
}

} // verus!
