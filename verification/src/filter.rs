//! Filters over documents: conditions on fields, combined with `And` and `Or`.

use vstd::prelude::*;
use crate::document::{Document, navigate_json, navigate_json_path};
use crate::text::{chars_of, lowercase, to_lowercase};
use crate::value::{Value, ValueOrder, compare_values, spec_compare_values, spec_values_equal, values_equal};
use crate::value::split_on;

verus! {

/// A condition on one field of a document.
#[derive(Debug)]
pub enum FilterCondition {
    EqualTo { field: String, value: Value },
    NotEqualTo { field: String, value: Value },
    GreaterThan { field: String, value: Value },
    GreaterThanOrEqual { field: String, value: Value },
    LessThan { field: String, value: Value },
    LessThanOrEqual { field: String, value: Value },
    /// Case-insensitive substring match on a text field.
    Contains { field: String, value: String },
    StartsWith { field: String, value: String },
    EndsWith { field: String, value: String },
    IsNull { field: String },
    IsNotNull { field: String },
    Between { field: String, low: Value, high: Value },
    /// Match a value at a JSON path within a field.
    JsonPathEquals { field: String, path: String, value: Value },
    /// Check if a key exists (and is not nil) at a JSON path within a field.
    JsonHasKey { field: String, path: String },
    /// Check if a map field holds every entry of the given map.
    JsonContains { field: String, value: Value },
    /// Check if an array field contains a specific element.
    ArrayContains { field: String, value: Value },
    /// Check if an array field shares at least one element with a given list.
    ArrayOverlap { field: String, values: Vec<Value> },
}

/// A filter: a condition, or all / any of a list of filters.
#[derive(Debug)]
pub enum Filter {
    Condition(FilterCondition),
    And(Vec<Filter>),
    Or(Vec<Filter>),
}


/// Whether `t` occurs in `s` as a contiguous piece.
pub open spec fn has_substring(s: Seq<char>, t: Seq<char>) -> bool {
    exists|i: int| 0 <= i <= s.len() - t.len() && #[trigger] s.subrange(i, i + t.len()) == t
}

/// Whether the characters `t` stand in `s` at position `i`.
fn occurs_at(s: &Vec<char>, t: &Vec<char>, i: usize) -> (r: bool)
    requires
        i + t.len() <= s.len(),
    ensures
        r == (s@.subrange(i as int, i + t.len()) == t@),
{
    let mut j: usize = 0;
    while j < t.len()
        invariant
            i + t.len() <= s.len(),
            j <= t.len(),
            forall|k: int| 0 <= k < j ==> s@[i + k] == t@[k],
        decreases t.len() - j,
    {
        if s[i + j] != t[j] {
            proof {
                assert(s@.subrange(i as int, i + t.len())[j as int] != t@[j as int]);
            }
            return false;
        }
        j = j + 1;
    }
    proof {
        assert(s@.subrange(i as int, i + t.len()) =~= t@);
    }
    true
}

/// Whether the text `t` occurs in the text `s`.
pub fn text_contains(s: &str, t: &str) -> (r: bool)
    ensures
        r == has_substring(s@, t@),
{
    let x = chars_of(s);
    let y = chars_of(t);
    if y.len() > x.len() {
        return false;
    }
    if y.len() == 0 {
        proof {
            assert(s@.subrange(0, 0 + t@.len() as int) =~= t@);
        }
        return true;
    }
    let mut i: usize = 0;
    while i <= x.len() - y.len()
        invariant
            x@ == s@,
            y@ == t@,
            0 < y.len() <= x.len(),
            i <= x.len() - y.len() + 1,
            forall|k: int| 0 <= k < i ==> #[trigger] x@.subrange(k, k + y@.len()) != y@,
        decreases x.len() - y.len() + 1 - i,
    {
        if occurs_at(&x, &y, i) {
            return true;
        }
        i = i + 1;
    }
    false
}

/// Whether the text `s` begins with `t`.
pub fn text_starts_with(s: &str, t: &str) -> (r: bool)
    ensures
        r == (t@.len() <= s@.len() && s@.subrange(0, t@.len() as int) == t@),
{
    let x = chars_of(s);
    let y = chars_of(t);
    if y.len() > x.len() {
        return false;
    }
    occurs_at(&x, &y, 0)
}

/// Whether the text `s` ends with `t`.
pub fn text_ends_with(s: &str, t: &str) -> (r: bool)
    ensures
        r == (t@.len() <= s@.len() && s@.subrange(s@.len() - t@.len(), s@.len() as int) == t@),
{
    let x = chars_of(s);
    let y = chars_of(t);
    if y.len() > x.len() {
        return false;
    }
    occurs_at(&x, &y, x.len() - y.len())
}

/// Whether a map value holds, for every entry of `needle`, an entry with equal key
/// and equal value.
pub open spec fn spec_json_map_contains(haystack: Value, needle: Value) -> bool {
    match (haystack, needle) {
        (Value::Object(h), Value::Object(n)) => pairs_cover(h@, n@),
        _ => false,
    }
}

/// Whether some element of `arr` equals `v`.
pub open spec fn seq_has_equal(arr: Seq<Value>, v: Value) -> bool {
    exists|i: int| 0 <= i < arr.len() && spec_values_equal(#[trigger] arr[i], v)
}

/// Finds whether some element of `arr` equals `v`.
fn vec_has_equal(arr: &Vec<Value>, v: &Value) -> (r: bool)
    ensures
        r == seq_has_equal(arr@, *v),
{
    let mut i: usize = 0;
    while i < arr.len()
        invariant
            i <= arr@.len(),
            forall|k: int| 0 <= k < i ==> !spec_values_equal(#[trigger] arr@[k], *v),
        decreases arr.len() - i,
    {
        if values_equal(&arr[i], v) {
            return true;
        }
        i = i + 1;
    }
    false
}

/// Finds whether some element of `values` equals some element of `arr`.
fn vec_overlaps(arr: &Vec<Value>, values: &Vec<Value>) -> (r: bool)
    ensures
        r == exists|t: int| 0 <= t < values@.len() && seq_has_equal(arr@, #[trigger] values@[t]),
{
    let mut t: usize = 0;
    while t < values.len()
        invariant
            t <= values@.len(),
            forall|k: int| 0 <= k < t ==> !seq_has_equal(arr@, #[trigger] values@[k]),
        decreases values.len() - t,
    {
        if vec_has_equal(arr, &values[t]) {
            proof {
                assert(seq_has_equal(arr@, values@[t as int]));
            }
            return true;
        }
        t = t + 1;
    }
    false
}

/// Whether `h` has a pair whose key and value equal those of `p`.
pub open spec fn has_equal_pair(h: Seq<(Value, Value)>, p: (Value, Value)) -> bool {
    exists|w: int| 0 <= w < h.len() && spec_values_equal(#[trigger] h[w].0, p.0) && spec_values_equal(h[w].1, p.1)
}

/// Whether every pair of `n` has a pair of `h` with equal key and equal value.
pub open spec fn pairs_cover(h: Seq<(Value, Value)>, n: Seq<(Value, Value)>) -> bool {
    forall|j: int| 0 <= j < n.len() ==> has_equal_pair(h, #[trigger] n[j])
}

/// Finds whether every pair of `n` has a pair of `h` with equal key and equal value.
fn vec_pairs_cover(h: &Vec<(Value, Value)>, n: &Vec<(Value, Value)>) -> (r: bool)
    ensures
        r == pairs_cover(h@, n@),
{
    let mut j: usize = 0;
    while j < n.len()
        invariant
            j <= n@.len(),
            forall|jj: int| 0 <= jj < j ==> has_equal_pair(h@, #[trigger] n@[jj]),
        decreases n.len() - j,
    {
        let mut i: usize = 0;
        let mut found = false;
        while i < h.len() && !found
            invariant
                i <= h@.len(),
                j < n@.len(),
                found ==> i < h@.len() && spec_values_equal(h@[i as int].0, n@[j as int].0) && spec_values_equal(
                    h@[i as int].1,
                    n@[j as int].1,
                ),
                !found ==> forall|ii: int|
                    0 <= ii < i ==> !(spec_values_equal(#[trigger] h@[ii].0, n@[j as int].0) && spec_values_equal(
                        h@[ii].1,
                        n@[j as int].1,
                    )),
            decreases h.len() - i + (if found { 0int } else { 1int }),
        {
            if values_equal(&h[i].0, &n[j].0) && values_equal(&h[i].1, &n[j].1) {
                found = true;
            } else {
                i = i + 1;
            }
        }
        if !found {
            proof {
                assert(!has_equal_pair(h@, n@[j as int]));
            }
            return false;
        }
        proof {
            assert(has_equal_pair(h@, n@[j as int]));
        }
        j = j + 1;
    }
    true
}

/// Check whether the `haystack` map holds every entry of the `needle` map.
pub fn json_map_contains(haystack: &Value, needle: &Value) -> (r: bool)
    ensures
        r == spec_json_map_contains(*haystack, *needle),
{
    match (haystack, needle) {
        (Value::Object(h), Value::Object(n)) => vec_pairs_cover(h, n),
        _ => false,
    }
}

/// Whether the text value at a field satisfies `p`.
pub open spec fn text_field_is(doc: Document, field: Seq<char>, p: spec_fn(Seq<char>) -> bool) -> bool {
    match doc.spec_get_field(field) {
        Some(Value::Str(s)) => p(s@),
        _ => false,
    }
}

/// Whether the field value compares to `value` with one of the accepted orders.
pub open spec fn field_compares(doc: Document, field: Seq<char>, value: Value, a: ValueOrder, b: ValueOrder) -> bool {
    match doc.spec_get_field(field) {
        Some(v) => spec_compare_values(v, value) == Some(a) || spec_compare_values(v, value) == Some(b),
        None => false,
    }
}

/// Whether a condition holds of a document.
pub open spec fn spec_condition_matches(c: FilterCondition, doc: Document) -> bool {
    match c {
        FilterCondition::EqualTo { field, value } => match doc.spec_get_field(field@) {
            Some(v) => spec_values_equal(v, value),
            None => false,
        },
        FilterCondition::NotEqualTo { field, value } => match doc.spec_get_field(field@) {
            Some(v) => !spec_values_equal(v, value),
            None => true,
        },
        FilterCondition::GreaterThan { field, value } => field_compares(
            doc,
            field@,
            value,
            ValueOrder::Greater,
            ValueOrder::Greater,
        ),
        FilterCondition::GreaterThanOrEqual { field, value } => field_compares(
            doc,
            field@,
            value,
            ValueOrder::Greater,
            ValueOrder::Equal,
        ),
        FilterCondition::LessThan { field, value } => field_compares(
            doc,
            field@,
            value,
            ValueOrder::Less,
            ValueOrder::Less,
        ),
        FilterCondition::LessThanOrEqual { field, value } => field_compares(
            doc,
            field@,
            value,
            ValueOrder::Less,
            ValueOrder::Equal,
        ),
        FilterCondition::Contains { field, value } => text_field_is(
            doc,
            field@,
            |s: Seq<char>| has_substring(lowercase(s), lowercase(value@)),
        ),
        FilterCondition::StartsWith { field, value } => text_field_is(
            doc,
            field@,
            |s: Seq<char>| value@.len() <= s.len() && s.subrange(0, value@.len() as int) == value@,
        ),
        FilterCondition::EndsWith { field, value } => text_field_is(
            doc,
            field@,
            |s: Seq<char>|
                value@.len() <= s.len() && s.subrange(s.len() - value@.len(), s.len() as int)
                    == value@,
        ),
        FilterCondition::IsNull { field } => match doc.spec_get_field(field@) {
            Some(v) => v is Nil,
            None => true,
        },
        FilterCondition::IsNotNull { field } => match doc.spec_get_field(field@) {
            Some(v) => !(v is Nil),
            None => false,
        },
        FilterCondition::Between { field, low, high } => field_compares(
            doc,
            field@,
            low,
            ValueOrder::Greater,
            ValueOrder::Equal,
        ) && field_compares(doc, field@, high, ValueOrder::Less, ValueOrder::Equal),
        FilterCondition::JsonPathEquals { field, path, value } => match doc.spec_get_field(field@) {
            Some(fv) => match navigate_json(fv, split_on(path@, '.')) {
                Some(x) => spec_values_equal(x, value),
                None => false,
            },
            None => false,
        },
        FilterCondition::JsonHasKey { field, path } => match doc.spec_get_field(field@) {
            Some(fv) => match navigate_json(fv, split_on(path@, '.')) {
                Some(x) => !(x is Nil),
                None => false,
            },
            None => false,
        },
        FilterCondition::JsonContains { field, value } => match doc.spec_get_field(field@) {
            Some(fv) => spec_json_map_contains(fv, value),
            None => false,
        },
        FilterCondition::ArrayContains { field, value } => match doc.spec_get_field(field@) {
            Some(Value::Array(arr)) => seq_has_equal(arr@, value),
            _ => false,
        },
        FilterCondition::ArrayOverlap { field, values } => match doc.spec_get_field(field@) {
            Some(Value::Array(arr)) => exists|t: int|
                0 <= t < values@.len() && seq_has_equal(arr@, #[trigger] values@[t]),
            _ => false,
        },
    }
}

impl FilterCondition {
    /// Whether this condition holds of a document.
    pub fn matches(&self, doc: &Document) -> (r: bool)
        ensures
            r == spec_condition_matches(*self, *doc),
    {
        match self {
            FilterCondition::EqualTo { field, value } => match doc.get_field(field.as_str()) {
                Some(v) => values_equal(v, value),
                None => false,
            },
            FilterCondition::NotEqualTo { field, value } => match doc.get_field(field.as_str()) {
                Some(v) => !values_equal(v, value),
                None => true,
            },
            FilterCondition::GreaterThan { field, value } => match doc.get_field(field.as_str()) {
                Some(v) => compare_values(v, value) == Some(ValueOrder::Greater),
                None => false,
            },
            FilterCondition::GreaterThanOrEqual { field, value } => match doc.get_field(
                field.as_str(),
            ) {
                Some(v) => {
                    let o = compare_values(v, value);
                    o == Some(ValueOrder::Greater) || o == Some(ValueOrder::Equal)
                },
                None => false,
            },
            FilterCondition::LessThan { field, value } => match doc.get_field(field.as_str()) {
                Some(v) => compare_values(v, value) == Some(ValueOrder::Less),
                None => false,
            },
            FilterCondition::LessThanOrEqual { field, value } => match doc.get_field(
                field.as_str(),
            ) {
                Some(v) => {
                    let o = compare_values(v, value);
                    o == Some(ValueOrder::Less) || o == Some(ValueOrder::Equal)
                },
                None => false,
            },
            FilterCondition::Contains { field, value } => match doc.get_field(field.as_str()) {
                Some(Value::Str(s)) => {
                    let a = to_lowercase(s.as_str());
                    let b = to_lowercase(value.as_str());
                    text_contains(a.as_str(), b.as_str())
                },
                _ => false,
            },
            FilterCondition::StartsWith { field, value } => match doc.get_field(field.as_str()) {
                Some(Value::Str(s)) => text_starts_with(s.as_str(), value.as_str()),
                _ => false,
            },
            FilterCondition::EndsWith { field, value } => match doc.get_field(field.as_str()) {
                Some(Value::Str(s)) => text_ends_with(s.as_str(), value.as_str()),
                _ => false,
            },
            FilterCondition::IsNull { field } => match doc.get_field(field.as_str()) {
                Some(v) => v.is_nil(),
                None => true,
            },
            FilterCondition::IsNotNull { field } => match doc.get_field(field.as_str()) {
                Some(v) => !v.is_nil(),
                None => false,
            },
            FilterCondition::Between { field, low, high } => match doc.get_field(field.as_str()) {
                Some(v) => {
                    let a = compare_values(v, low);
                    let b = compare_values(v, high);
                    (a == Some(ValueOrder::Greater) || a == Some(ValueOrder::Equal)) && (b == Some(
                        ValueOrder::Less,
                    ) || b == Some(ValueOrder::Equal))
                },
                None => false,
            },
            FilterCondition::JsonPathEquals { field, path, value } => match doc.get_field(
                field.as_str(),
            ) {
                Some(fv) => match navigate_json_path(fv, path.as_str()) {
                    Some(x) => values_equal(x, value),
                    None => false,
                },
                None => false,
            },
            FilterCondition::JsonHasKey { field, path } => match doc.get_field(field.as_str()) {
                Some(fv) => match navigate_json_path(fv, path.as_str()) {
                    Some(x) => !x.is_nil(),
                    None => false,
                },
                None => false,
            },
            FilterCondition::JsonContains { field, value } => match doc.get_field(field.as_str()) {
                Some(fv) => json_map_contains(fv, value),
                None => false,
            },
            FilterCondition::ArrayContains { field, value } => match doc.get_field(field.as_str()) {
                Some(Value::Array(arr)) => vec_has_equal(arr, value),
                _ => false,
            },
            FilterCondition::ArrayOverlap { field, values } => match doc.get_field(field.as_str()) {
                Some(Value::Array(arr)) => vec_overlaps(arr, values),
                _ => false,
            },
        }
    }
}

/// Whether a filter holds of a document.
pub open spec fn spec_filter_matches(f: Filter, doc: Document) -> bool
    decreases f,
{
    match f {
        Filter::Condition(c) => spec_condition_matches(c, doc),
        Filter::And(fs) => all_filters_match(fs@, doc),
        Filter::Or(fs) => any_filter_matches(fs@, doc),
    }
}

/// Whether every filter of a list holds of a document.
pub open spec fn all_filters_match(fs: Seq<Filter>, doc: Document) -> bool
    decreases fs,
{
    if fs.len() == 0 {
        true
    } else {
        spec_filter_matches(fs[0], doc) && all_filters_match(fs.drop_first(), doc)
    }
}

/// Whether some filter of a list holds of a document.
pub open spec fn any_filter_matches(fs: Seq<Filter>, doc: Document) -> bool
    decreases fs,
{
    if fs.len() == 0 {
        false
    } else {
        spec_filter_matches(fs[0], doc) || any_filter_matches(fs.drop_first(), doc)
    }
}

impl Filter {
    /// Whether this filter holds of a document.
    pub fn matches(&self, doc: &Document) -> (r: bool)
        ensures
            r == spec_filter_matches(*self, *doc),
        decreases *self,
    {
        match self {
            Filter::Condition(c) => c.matches(doc),
            Filter::And(fs) => {
                proof {
                    assert(fs@.skip(0) =~= fs@);
                    assert(decreases_to!(*self => fs@.skip(0)));
                }
                all_match_from(fs, doc, 0)
            },
            Filter::Or(fs) => {
                proof {
                    assert(fs@.skip(0) =~= fs@);
                    assert(decreases_to!(*self => fs@.skip(0)));
                }
                any_match_from(fs, doc, 0)
            },
        }
    }
}

fn all_match_from(fs: &Vec<Filter>, doc: &Document, i: usize) -> (r: bool)
    requires
        i <= fs@.len(),
    ensures
        r == all_filters_match(fs@.skip(i as int), *doc),
    decreases fs@.skip(i as int),
{
    if i == fs.len() {
        return true;
    }
    proof {
        assert(fs@.skip(i as int)[0] == fs@[i as int]);
        assert(decreases_to!(fs@.skip(i as int) => fs@[i as int]));
        assert(fs@.skip(i as int).subrange(1, fs@.len() - i) =~= fs@.skip(i + 1));
        assert(decreases_to!(fs@.skip(i as int) => fs@.skip(i + 1)));
        assert(fs@.skip(i as int).drop_first() =~= fs@.skip(i + 1));
    }
    if !fs[i].matches(doc) {
        return false;
    }
    all_match_from(fs, doc, i + 1)
}

fn any_match_from(fs: &Vec<Filter>, doc: &Document, i: usize) -> (r: bool)
    requires
        i <= fs@.len(),
    ensures
        r == any_filter_matches(fs@.skip(i as int), *doc),
    decreases fs@.skip(i as int),
{
    if i == fs.len() {
        return false;
    }
    proof {
        assert(fs@.skip(i as int)[0] == fs@[i as int]);
        assert(decreases_to!(fs@.skip(i as int) => fs@[i as int]));
        assert(fs@.skip(i as int).subrange(1, fs@.len() - i) =~= fs@.skip(i + 1));
        assert(decreases_to!(fs@.skip(i as int) => fs@.skip(i + 1)));
        assert(fs@.skip(i as int).drop_first() =~= fs@.skip(i + 1));
    }
    if fs[i].matches(doc) {
        return true;
    }
    any_match_from(fs, doc, i + 1)
}

/// The text conditions. `Contains` ignores case on both sides: on a text field
/// `s` it holds exactly when the lowercase form of the needle occurs in the
/// lowercase form of `s`. `StartsWith` and `EndsWith` compare verbatim: the
/// needle is a prefix, or a suffix, of `s`. None of them holds of a field that
/// is missing or not text.
pub proof fn lemma_text_conditions(doc: Document, field: String, value: String)
    ensures
        doc.spec_get_field(field@) matches Some(Value::Str(s)) ==> {
            &&& spec_condition_matches(FilterCondition::Contains { field, value }, doc)
                <==> (exists|i: int|
                0 <= i <= lowercase(s@).len() - lowercase(value@).len() && #[trigger] lowercase(
                    s@,
                ).subrange(i, i + lowercase(value@).len()) == lowercase(value@))
            &&& spec_condition_matches(FilterCondition::StartsWith { field, value }, doc)
                <==> (value@.len() <= s@.len() && s@.take(value@.len() as int) == value@)
            &&& spec_condition_matches(FilterCondition::EndsWith { field, value }, doc)
                <==> (value@.len() <= s@.len() && s@.skip(s@.len() - value@.len()) == value@)
        },
        !(doc.spec_get_field(field@) matches Some(Value::Str(_))) ==> {
            &&& !spec_condition_matches(FilterCondition::Contains { field, value }, doc)
            &&& !spec_condition_matches(FilterCondition::StartsWith { field, value }, doc)
            &&& !spec_condition_matches(FilterCondition::EndsWith { field, value }, doc)
        },
{
    if let Some(Value::Str(s)) = doc.spec_get_field(field@) {
        if value@.len() <= s@.len() {
            assert(s@.take(value@.len() as int) == s@.subrange(0, value@.len() as int));
            assert(s@.skip(s@.len() - value@.len()) == s@.subrange(
                s@.len() - value@.len(),
                s@.len() as int,
            ));
        }
    }
}

/// `And` holds exactly when every one of its filters holds (so an empty `And`
/// holds), and `Or` exactly when at least one of them holds (so an empty `Or`
/// does not).
pub proof fn lemma_and_or(fs: Seq<Filter>, doc: Document)
    ensures
        all_filters_match(fs, doc) <==> (forall|i: int|
            0 <= i < fs.len() ==> spec_filter_matches(#[trigger] fs[i], doc)),
        any_filter_matches(fs, doc) <==> (exists|i: int|
            0 <= i < fs.len() && spec_filter_matches(#[trigger] fs[i], doc)),
    decreases fs.len(),
{
    if fs.len() > 0 {
        let rest = fs.drop_first();
        lemma_and_or(rest, doc);
        assert forall|i: int| 0 <= i < rest.len() implies #[trigger] rest[i] == fs[i + 1] by {}
        if all_filters_match(fs, doc) {
            assert forall|i: int| 0 <= i < fs.len() implies spec_filter_matches(#[trigger] fs[i], doc) by {
                if i > 0 {
                    assert(rest[i - 1] == fs[i]);
                }
            }
        }
        if forall|i: int| 0 <= i < fs.len() ==> spec_filter_matches(#[trigger] fs[i], doc) {
            assert forall|i: int| 0 <= i < rest.len() implies spec_filter_matches(#[trigger] rest[i], doc) by {
                assert(spec_filter_matches(fs[i + 1], doc));
            }
        }
        if any_filter_matches(fs, doc) {
            if !spec_filter_matches(fs[0], doc) {
                let j = choose|j: int| 0 <= j < rest.len() && spec_filter_matches(#[trigger] rest[j], doc);
                assert(spec_filter_matches(fs[j + 1], doc));
            }
        }
        if exists|i: int| 0 <= i < fs.len() && spec_filter_matches(#[trigger] fs[i], doc) {
            let j = choose|j: int| 0 <= j < fs.len() && spec_filter_matches(#[trigger] fs[j], doc);
            if j > 0 {
                assert(spec_filter_matches(rest[j - 1], doc));
            }
        }
    }
}

} // verus!
