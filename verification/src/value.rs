//! Document values: the MessagePack data model that documents, filters and
//! configuration maps are made of.
//!
//! Floating-point numbers have no variant here: a value in this library is nil, a
//! boolean, an integer (signed 64-bit, or unsigned above the signed range), a
//! text, a byte string, an array, a map or an extension value.

use vstd::prelude::*;
use crate::text::{chars_of, find_char_from, first_index_of, is_first_index, lemma_first_index_of, lemma_first_index_of_absent, lemma_first_index_bounds, str_eq, string_from_range};

verus! {

/// A MessagePack value.
#[derive(Debug)]
pub enum Value {
    Nil,
    Boolean(bool),
    /// An integer in the signed 64-bit range.
    Integer(i64),
    /// An unsigned integer above the signed 64-bit range.
    UInteger(u64),
    Str(String),
    Binary(Vec<u8>),
    Array(Vec<Value>),
    /// A map, as its key-value pairs in order.
    Object(Vec<(Value, Value)>),
    /// An extension value: its type tag and its bytes.
    Ext(i8, Vec<u8>),
}

impl Value {
    /// Whether this value is nil.
    pub fn is_nil(&self) -> (r: bool)
        ensures
            r == (*self is Nil),
    {
        match self {
            Value::Nil => true,
            _ => false,
        }
    }
}

impl Value {
    /// A copy of this value.
    pub fn duplicate(&self) -> (r: Value)
        ensures
            deep_eq(r, *self),
        decreases *self,
    {
        match self {
            Value::Nil => Value::Nil,
            Value::Boolean(b) => Value::Boolean(*b),
            Value::Integer(i) => Value::Integer(*i),
            Value::UInteger(u) => Value::UInteger(*u),
            Value::Ext(t, b) => {
                let c = b.clone();
                proof {
                    assert(c@ =~= b@);
                }
                Value::Ext(*t, c)
            },
            Value::Str(s) => Value::Str(s.clone()),
            Value::Binary(b) => {
                let c = b.clone();
                proof {
                    assert(c@ =~= b@);
                }
                Value::Binary(c)
            },
            Value::Array(items) => {
                let mut out: Vec<Value> = Vec::new();
                let mut i: usize = 0;
                while i < items.len()
                    invariant
                        i <= items@.len(),
                        out@.len() == i,
                        forall|j: int| 0 <= j < i ==> deep_eq(#[trigger] out@[j], items@[j]),
                        *self == Value::Array(*items),
                    decreases items.len() - i,
                {
                    proof {
                        assert(decreases_to!(*self => self->Array_0));
                        assert(decreases_to!(self->Array_0 => self->Array_0@));
                        assert(decreases_to!(self->Array_0@ => self->Array_0@[i as int]));
                    }
                    let v = items[i].duplicate();
                    out.push(v);
                    i = i + 1;
                }
                proof {
                    lemma_pointwise_deep_eq_seq(out@, items@);
                }
                Value::Array(out)
            },
            Value::Object(pairs) => {
                let mut out: Vec<(Value, Value)> = Vec::new();
                let mut i: usize = 0;
                while i < pairs.len()
                    invariant
                        i <= pairs@.len(),
                        out@.len() == i,
                        forall|j: int| 0 <= j < i ==> deep_eq((#[trigger] out@[j]).0, pairs@[j].0) && deep_eq(out@[j].1, pairs@[j].1),
                        *self == Value::Object(*pairs),
                    decreases pairs.len() - i,
                {
                    proof {
                        assert(decreases_to!(*self => self->Object_0));
                        assert(decreases_to!(self->Object_0 => self->Object_0@));
                        assert(decreases_to!(self->Object_0@ => self->Object_0@[i as int]));
                        assert(decreases_to!(self->Object_0@[i as int] => self->Object_0@[i as int].0));
                        assert(decreases_to!(self->Object_0@[i as int] => self->Object_0@[i as int].1));
                    }
                    let k = pairs[i].0.duplicate();
                    let v = pairs[i].1.duplicate();
                    out.push((k, v));
                    i = i + 1;
                }
                proof {
                    lemma_pointwise_deep_eq_pairs(out@, pairs@);
                }
                Value::Object(out)
            },
        }
    }
}

/// Sequences that are structurally equal element by element are structurally equal.
proof fn lemma_pointwise_deep_eq_seq(a: Seq<Value>, b: Seq<Value>)
    requires
        a.len() == b.len(),
        forall|j: int| 0 <= j < a.len() ==> deep_eq(#[trigger] a[j], b[j]),
    ensures
        deep_eq_seq(a, b),
    decreases a.len(),
{
    if a.len() > 0 {
        assert forall|j: int| 0 <= j < a.drop_first().len() implies deep_eq(#[trigger] a.drop_first()[j], b.drop_first()[j]) by {
            assert(deep_eq(a[j + 1], b[j + 1]));
        }
        assert(deep_eq(a[0], b[0]));
        lemma_pointwise_deep_eq_seq(a.drop_first(), b.drop_first());
    }
}

/// Pair sequences that are structurally equal pair by pair are structurally equal.
proof fn lemma_pointwise_deep_eq_pairs(a: Seq<(Value, Value)>, b: Seq<(Value, Value)>)
    requires
        a.len() == b.len(),
        forall|j: int| 0 <= j < a.len() ==> deep_eq((#[trigger] a[j]).0, b[j].0) && deep_eq(a[j].1, b[j].1),
    ensures
        deep_eq_pairs(a, b),
    decreases a.len(),
{
    if a.len() > 0 {
        assert forall|j: int| 0 <= j < a.drop_first().len() implies deep_eq((#[trigger] a.drop_first()[j]).0, b.drop_first()[j].0)
            && deep_eq(a.drop_first()[j].1, b.drop_first()[j].1) by {
            assert(deep_eq(a[j + 1].0, b[j + 1].0));
        }
        assert(deep_eq(a[0].0, b[0].0));
        lemma_pointwise_deep_eq_pairs(a.drop_first(), b.drop_first());
    }
}

/// Structural equality of values: the same variant with equal contents.
pub open spec fn deep_eq(a: Value, b: Value) -> bool
    decreases a,
{
    match (a, b) {
        (Value::Nil, Value::Nil) => true,
        (Value::Boolean(x), Value::Boolean(y)) => x == y,
        (Value::Integer(x), Value::Integer(y)) => x == y,
        (Value::UInteger(x), Value::UInteger(y)) => x == y,
        (Value::Ext(t, x), Value::Ext(u, y)) => t == u && x@ == y@,
        (Value::Str(x), Value::Str(y)) => x@ == y@,
        (Value::Binary(x), Value::Binary(y)) => x@ == y@,
        (Value::Array(x), Value::Array(y)) => deep_eq_seq(x@, y@),
        (Value::Object(x), Value::Object(y)) => deep_eq_pairs(x@, y@),
        _ => false,
    }
}

/// Element-wise structural equality of two sequences of values.
pub open spec fn deep_eq_seq(a: Seq<Value>, b: Seq<Value>) -> bool
    decreases a,
{
    if a.len() == 0 {
        b.len() == 0
    } else {
        b.len() > 0 && deep_eq(a[0], b[0]) && deep_eq_seq(a.drop_first(), b.drop_first())
    }
}

/// Pair-wise structural equality of two sequences of key-value pairs.
pub open spec fn deep_eq_pairs(a: Seq<(Value, Value)>, b: Seq<(Value, Value)>) -> bool
    decreases a,
{
    if a.len() == 0 {
        b.len() == 0
    } else {
        b.len() > 0 && deep_eq(a[0].0, b[0].0) && deep_eq(a[0].1, b[0].1) && deep_eq_pairs(
            a.drop_first(),
            b.drop_first(),
        )
    }
}

/// Structural equality of two values.
pub fn value_deep_eq(a: &Value, b: &Value) -> (r: bool)
    ensures
        r == deep_eq(*a, *b),
    decreases *a,
{
    match (a, b) {
        (Value::Nil, Value::Nil) => true,
        (Value::Boolean(x), Value::Boolean(y)) => *x == *y,
        (Value::Integer(x), Value::Integer(y)) => *x == *y,
        (Value::UInteger(x), Value::UInteger(y)) => *x == *y,
        (Value::Ext(t, x), Value::Ext(u, y)) => *t == *u && bytes_eq(x, y),
        (Value::Str(x), Value::Str(y)) => str_eq(x.as_str(), y.as_str()),
        (Value::Binary(x), Value::Binary(y)) => bytes_eq(x, y),
        (Value::Array(x), Value::Array(y)) => {
            proof {
                assert(x@.skip(0) =~= x@);
                assert(y@.skip(0) =~= y@);
                assert(decreases_to!(*a => x@.skip(0)));
            }
            seq_deep_eq(x, y, 0)
        },
        (Value::Object(x), Value::Object(y)) => {
            proof {
                assert(x@.skip(0) =~= x@);
                assert(y@.skip(0) =~= y@);
                assert(decreases_to!(*a => x@.skip(0)));
            }
            pairs_deep_eq(x, y, 0)
        },
        _ => false,
    }
}

/// Byte-wise equality of two byte vectors.
pub fn bytes_eq(x: &Vec<u8>, y: &Vec<u8>) -> (r: bool)
    ensures
        r == (x@ == y@),
{
    if x.len() != y.len() {
        return false;
    }
    let mut i: usize = 0;
    while i < x.len()
        invariant
            x@.len() == y@.len(),
            i <= x@.len(),
            forall|j: int| 0 <= j < i ==> x@[j] == y@[j],
        decreases x.len() - i,
    {
        if x[i] != y[i] {
            return false;
        }
        i = i + 1;
    }
    proof {
        assert(x@ =~= y@);
    }
    true
}

fn seq_deep_eq(x: &Vec<Value>, y: &Vec<Value>, i: usize) -> (r: bool)
    requires
        i <= x@.len(),
    ensures
        r == deep_eq_seq(x@.skip(i as int), y@.skip(i as int)) || (i > y@.len() && !r),
    decreases x@.skip(i as int),
{
    proof {
        assert(x@.skip(i as int).len() == x@.len() - i);
    }
    if i >= y.len() {
        return i == x.len() && i == y.len();
    }
    if i == x.len() {
        return false;
    }
    proof {
        assert(x@.skip(i as int)[0] == x@[i as int]);
        assert(decreases_to!(x@.skip(i as int) => x@[i as int]));
        assert(x@.skip(i as int).subrange(1, x@.len() - i) =~= x@.skip(i + 1));
        assert(decreases_to!(x@.skip(i as int) => x@.skip(i + 1)));
        assert(x@.skip(i as int).drop_first() =~= x@.skip(i + 1));
        assert(y@.skip(i as int).drop_first() =~= y@.skip(i + 1));
    }
    if !value_deep_eq(&x[i], &y[i]) {
        return false;
    }
    seq_deep_eq(x, y, i + 1)
}

fn pairs_deep_eq(x: &Vec<(Value, Value)>, y: &Vec<(Value, Value)>, i: usize) -> (r: bool)
    requires
        i <= x@.len(),
    ensures
        r == deep_eq_pairs(x@.skip(i as int), y@.skip(i as int)) || (i > y@.len() && !r),
    decreases x@.skip(i as int),
{
    proof {
        assert(x@.skip(i as int).len() == x@.len() - i);
    }
    if i >= y.len() {
        return i == x.len() && i == y.len();
    }
    if i == x.len() {
        return false;
    }
    proof {
        assert(x@.skip(i as int)[0] == x@[i as int]);
        assert(decreases_to!(x@.skip(i as int) => x@[i as int].0));
        assert(decreases_to!(x@.skip(i as int) => x@[i as int].1));
        assert(x@.skip(i as int).subrange(1, x@.len() - i) =~= x@.skip(i + 1));
        assert(decreases_to!(x@.skip(i as int) => x@.skip(i + 1)));
        assert(x@.skip(i as int).drop_first() =~= x@.skip(i + 1));
        assert(y@.skip(i as int).drop_first() =~= y@.skip(i + 1));
    }
    if !value_deep_eq(&x[i].0, &y[i].0) {
        return false;
    }
    if !value_deep_eq(&x[i].1, &y[i].1) {
        return false;
    }
    pairs_deep_eq(x, y, i + 1)
}

/// Below 2^53 every integer is exactly an `f64`.
pub open spec fn f64_exact_limit() -> nat {
    0x20_0000_0000_0000
}

/// A magnitude scaled down to the 53 bits an `f64` keeps: halved until it is
/// below 2^53, giving the kept part and the unit of its last place.
pub open spec fn f64_scale(n: nat) -> (nat, nat)
    decreases n,
{
    if n < f64_exact_limit() {
        (n, 1)
    } else {
        let h = f64_scale(n / 2);
        (h.0, 2 * h.1)
    }
}

/// The `f64` nearest to a magnitude (ties to an even last place), as an exact
/// number: what `as f64` gives for an integer.
pub open spec fn f64_round_magnitude(n: nat) -> int {
    let q = f64_scale(n).0 as int;
    let u = f64_scale(n).1 as int;
    let r = n - q * u;
    if 2 * r > u || (2 * r == u && q % 2 == 1) {
        (q + 1) * u
    } else {
        q * u
    }
}

/// The `f64` nearest to an integer, as an exact number.
pub open spec fn f64_of_int(n: int) -> int {
    if n >= 0 {
        f64_round_magnitude(n as nat)
    } else {
        -f64_round_magnitude((-n) as nat)
    }
}

/// The integer a value holds, if it is an integer.
pub open spec fn int_value(v: Value) -> Option<int> {
    match v {
        Value::Integer(x) => Some(x as int),
        Value::UInteger(x) => Some(x as int),
        _ => None,
    }
}

/// Rounds a magnitude below 2^64 to the nearest `f64`, as an exact number.
fn f64_round_u64(n: u64) -> (r: u128)
    ensures
        r as int == f64_round_magnitude(n as nat),
        r <= 0x1_0000_0000_0000_1000,
{
    let mut m: u64 = n;
    let mut unit: u128 = 1;
    while m >= 0x20_0000_0000_0000u64
        invariant
            1 <= unit <= 0x1000,
            m as int * unit as int <= n as int,
            f64_scale(n as nat).0 == f64_scale(m as nat).0,
            f64_scale(n as nat).1 == unit * f64_scale(m as nat).1,
        decreases m,
    {
        proof {
            assert(unit as int * 0x20_0000_0000_0000 <= m as int * unit as int) by (nonlinear_arith)
                requires
                    m >= 0x20_0000_0000_0000,
                    unit >= 1,
            ;
            let h = (m / 2) as int;
            assert(h * (2 * unit as int) <= m as int * unit as int) by (nonlinear_arith)
                requires
                    h == m as int / 2,
                    m >= 0,
                    unit >= 1,
            ;
            let sc = f64_scale((m / 2) as nat).1 as int;
            assert(f64_scale(m as nat).1 == 2 * sc);
            assert(unit as int * (2 * sc) == (2 * unit as int) * sc) by (nonlinear_arith);
        }
        m = m / 2;
        unit = unit * 2;
    }
    let q = m as u128;
    proof {
        assert((q as int + 1) * unit as int == q as int * unit as int + unit as int) by (nonlinear_arith);
        assert(f64_scale(m as nat) == (m as nat, 1nat));
        assert(f64_scale(n as nat).0 == m);
        assert(f64_scale(n as nat).1 == unit);
    }
    let rem = n as u128 - q * unit;
    if 2 * rem > unit || (2 * rem == unit && q % 2 == 1) {
        (q + 1) * unit
    } else {
        q * unit
    }
}

/// Rounds an integer in the `i64` or `u64` range to the nearest `f64`, as an
/// exact number.
fn f64_of(x: i128) -> (r: i128)
    requires
        i64::MIN <= x <= u64::MAX,
    ensures
        r as int == f64_of_int(x as int),
{
    if x >= 0 {
        let m = f64_round_u64(x as u64);
        m as i128
    } else {
        let m = f64_round_u64((0 - x) as u64);
        0 - (m as i128)
    }
}

/// The integer a value holds, if it is an integer.
fn int_of(v: &Value) -> (r: Option<i128>)
    ensures
        match r {
            Some(x) => int_value(*v) == Some(x as int) && i64::MIN <= x <= u64::MAX,
            None => int_value(*v) is None,
        },
{
    match v {
        Value::Integer(x) => Some(*x as i128),
        Value::UInteger(x) => Some(*x as i128),
        _ => None,
    }
}

/// Equality of values as filters use it: two signed 64-bit integers by value;
/// other pairs of integers by the `f64` values they convert to; all other pairs
/// structurally (texts by their characters, arrays and maps element by element).
pub open spec fn spec_values_equal(a: Value, b: Value) -> bool {
    match (a, b) {
        (Value::Integer(x), Value::Integer(y)) => x == y,
        _ => match (int_value(a), int_value(b)) {
            (Some(x), Some(y)) => f64_of_int(x) == f64_of_int(y),
            _ => deep_eq(a, b),
        },
    }
}

/// Equality of values as filters use it (see `spec_values_equal`).
pub fn values_equal(a: &Value, b: &Value) -> (r: bool)
    ensures
        r == spec_values_equal(*a, *b),
{
    match (a, b) {
        (Value::Integer(x), Value::Integer(y)) => *x == *y,
        _ => match (int_of(a), int_of(b)) {
            (Some(x), Some(y)) => f64_of(x) == f64_of(y),
            _ => value_deep_eq(a, b),
        },
    }
}

/// The order of two comparable values.
#[derive(Debug, Clone, Copy, PartialEq, Eq, Structural)]
pub enum ValueOrder {
    Less,
    Equal,
    Greater,
}

/// Lexicographic order of two character sequences by code point. For texts this is
/// the order of their UTF-8 bytes.
pub open spec fn lex_order(a: Seq<char>, b: Seq<char>) -> ValueOrder
    decreases a.len(),
{
    if a.len() == 0 {
        if b.len() == 0 {
            ValueOrder::Equal
        } else {
            ValueOrder::Less
        }
    } else if b.len() == 0 {
        ValueOrder::Greater
    } else if (a[0] as u32) < (b[0] as u32) {
        ValueOrder::Less
    } else if (a[0] as u32) > (b[0] as u32) {
        ValueOrder::Greater
    } else {
        lex_order(a.drop_first(), b.drop_first())
    }
}

/// Compares two texts lexicographically.
pub fn compare_text(a: &str, b: &str) -> (r: ValueOrder)
    ensures
        r == lex_order(a@, b@),
{
    let x = chars_of(a);
    let y = chars_of(b);
    let mut i: usize = 0;
    proof {
        assert(x@.skip(0) =~= x@);
        assert(y@.skip(0) =~= y@);
    }
    while i < x.len() && i < y.len()
        invariant
            i <= x@.len(),
            i <= y@.len(),
            x@ == a@,
            y@ == b@,
            lex_order(a@, b@) == lex_order(x@.skip(i as int), y@.skip(i as int)),
        decreases x.len() - i,
    {
        let c = x[i];
        let d = y[i];
        if (c as u32) < (d as u32) {
            return ValueOrder::Less;
        }
        if (c as u32) > (d as u32) {
            return ValueOrder::Greater;
        }
        proof {
            assert(x@.skip(i as int).drop_first() =~= x@.skip(i + 1));
            assert(y@.skip(i as int).drop_first() =~= y@.skip(i + 1));
        }
        i = i + 1;
    }
    if x.len() == i {
        if y.len() == i {
            ValueOrder::Equal
        } else {
            ValueOrder::Less
        }
    } else {
        ValueOrder::Greater
    }
}

/// The order of two integers.
pub open spec fn int_order(x: int, y: int) -> ValueOrder {
    if x < y {
        ValueOrder::Less
    } else if x > y {
        ValueOrder::Greater
    } else {
        ValueOrder::Equal
    }
}

/// The order of two values: two signed 64-bit integers by value, other pairs of
/// integers by the `f64` values they convert to, texts lexicographically; other
/// pairs are not comparable.
pub open spec fn spec_compare_values(a: Value, b: Value) -> Option<ValueOrder> {
    match (a, b) {
        (Value::Integer(x), Value::Integer(y)) => Some(int_order(x as int, y as int)),
        (Value::Str(x), Value::Str(y)) => Some(lex_order(x@, y@)),
        _ => match (int_value(a), int_value(b)) {
            (Some(x), Some(y)) => Some(int_order(f64_of_int(x), f64_of_int(y))),
            _ => None,
        },
    }
}

/// Compares two values: integers by value, texts lexicographically; `None` when
/// the values are not comparable.
pub fn compare_values(a: &Value, b: &Value) -> (r: Option<ValueOrder>)
    ensures
        r == spec_compare_values(*a, *b),
{
    match (a, b) {
        (Value::Integer(x), Value::Integer(y)) => {
            if *x < *y {
                Some(ValueOrder::Less)
            } else if *x > *y {
                Some(ValueOrder::Greater)
            } else {
                Some(ValueOrder::Equal)
            }
        },
        (Value::Str(x), Value::Str(y)) => Some(compare_text(x.as_str(), y.as_str())),
        _ => match (int_of(a), int_of(b)) {
            (Some(x), Some(y)) => {
                let fx = f64_of(x);
                let fy = f64_of(y);
                if fx < fy {
                    Some(ValueOrder::Less)
                } else if fx > fy {
                    Some(ValueOrder::Greater)
                } else {
                    Some(ValueOrder::Equal)
                }
            },
            _ => None,
        },
    }
}

/// Texts compare lexicographically by code point: they compare equal exactly
/// when they are the same text, and the first comes first exactly when, at
/// the first position where they differ, it has the smaller character or has
/// already ended.
pub proof fn lemma_lex_order_meaning(a: Seq<char>, b: Seq<char>)
    ensures
        (lex_order(a, b) == ValueOrder::Equal) <==> a == b,
        (lex_order(a, b) == ValueOrder::Less) <==> (exists|k: int|
            0 <= k <= a.len() && k < b.len() && #[trigger] a.take(k) == b.take(k) && (k == a.len()
                || (a[k] as u32) < (b[k] as u32))),
    decreases a.len(),
{
    if a.len() == 0 {
        if b.len() > 0 {
            assert(a.take(0) =~= b.take(0));
        } else {
            assert(a =~= b);
        }
    } else if b.len() == 0 {
        assert(a != b);
    } else {
        let a1 = a.drop_first();
        let b1 = b.drop_first();
        assert(a.take(0) =~= b.take(0));
        if (a[0] as u32) == (b[0] as u32) {
            vstd::utf8::char_u32_cast(a[0], a[0] as u32);
            vstd::utf8::char_u32_cast(b[0], b[0] as u32);
            assert(a[0] == b[0]);
            lemma_lex_order_meaning(a1, b1);
            if a1 == b1 {
                assert forall|i: int| 0 <= i < a.len() implies a[i] == b[i] by {
                    if i > 0 {
                        assert(a[i] == a1[i - 1] && b[i] == b1[i - 1]);
                    }
                }
                assert(a =~= b);
            }
            if a == b {
                assert(a1 =~= b1);
            }
            if lex_order(a1, b1) == ValueOrder::Less {
                let k = choose|k: int|
                    0 <= k <= a1.len() && k < b1.len() && #[trigger] a1.take(k) == b1.take(k) && (k
                        == a1.len() || (a1[k] as u32) < (b1[k] as u32));
                assert(a.take(k + 1) =~= seq![a[0]] + a1.take(k));
                assert(b.take(k + 1) =~= seq![b[0]] + b1.take(k));
                assert(a.take(k + 1) == b.take(k + 1));
            }
            if exists|k: int|
                0 <= k <= a.len() && k < b.len() && #[trigger] a.take(k) == b.take(k) && (k == a.len()
                    || (a[k] as u32) < (b[k] as u32)) {
                let k = choose|k: int|
                    0 <= k <= a.len() && k < b.len() && #[trigger] a.take(k) == b.take(k) && (k
                        == a.len() || (a[k] as u32) < (b[k] as u32));
                assert(k > 0);
                assert(a1.take(k - 1) =~= a.take(k).drop_first());
                assert(b1.take(k - 1) =~= b.take(k).drop_first());
                assert(a1.take(k - 1) == b1.take(k - 1));
                assert(b1[k - 1] == b[k]);
                if k < a.len() {
                    assert(a1[k - 1] == a[k]);
                }
            }
        } else {
            assert(a != b);
            if (a[0] as u32) > (b[0] as u32) {
                assert forall|k: int|
                    0 <= k <= a.len() && k < b.len() && #[trigger] a.take(k) == b.take(k) implies !(k
                        == a.len() || (a[k] as u32) < (b[k] as u32)) by {
                    if k > 0 {
                        assert(a.take(k)[0] == b.take(k)[0]);
                    }
                }
            }
        }
    }
}

/// Two signed integers compare by their values.
pub proof fn lemma_compare_integers(x: i64, y: i64)
    ensures
        (spec_compare_values(Value::Integer(x), Value::Integer(y)) == Some(ValueOrder::Less)) <==> x < y,
        (spec_compare_values(Value::Integer(x), Value::Integer(y)) == Some(ValueOrder::Equal)) <==> x == y,
        (spec_compare_values(Value::Integer(x), Value::Integer(y)) == Some(ValueOrder::Greater)) <==> x > y,
{
}

/// Two texts compare lexicographically (see `lemma_lex_order_meaning`); a
/// value that is neither an integer nor a text is comparable with nothing.
pub proof fn lemma_compare_texts_and_others(x: String, y: String, a: Value, b: Value)
    ensures
        spec_compare_values(Value::Str(x), Value::Str(y)) == Some(lex_order(x@, y@)),
        (int_value(a) is None && !(a is Str)) ==> spec_compare_values(a, b) is None,
        (int_value(b) is None && !(b is Str)) ==> spec_compare_values(a, b) is None,
{
}

/// For sorting, a missing field comes before any value, two missing fields
/// compare equal, two comparable values compare as they are, and two values
/// that are not comparable compare equal.
pub proof fn lemma_field_order_missing_first(x: Value, y: Value)
    ensures
        spec_compare_field_values(None, Some(y)) == ValueOrder::Less,
        spec_compare_field_values(Some(x), None) == ValueOrder::Greater,
        spec_compare_field_values(None, None) == ValueOrder::Equal,
        spec_compare_values(x, y) is None ==> spec_compare_field_values(Some(x), Some(y))
            == ValueOrder::Equal,
        spec_compare_values(x, y) is Some ==> Some(spec_compare_field_values(Some(x), Some(y)))
            == spec_compare_values(x, y),
{
}

/// The order of two optional field values as sorting uses it: a missing value sorts
/// first, and values that are not comparable count as equal.
pub open spec fn spec_compare_field_values(a: Option<Value>, b: Option<Value>) -> ValueOrder {
    match (a, b) {
        (None, None) => ValueOrder::Equal,
        (None, Some(_)) => ValueOrder::Less,
        (Some(_), None) => ValueOrder::Greater,
        (Some(x), Some(y)) => match spec_compare_values(x, y) {
            Some(o) => o,
            None => ValueOrder::Equal,
        },
    }
}

/// The value an optional reference points to.
pub open spec fn opt_value(r: Option<&Value>) -> Option<Value> {
    match r {
        Some(v) => Some(*v),
        None => None,
    }
}

/// Compares two optional field values for sorting.
pub fn compare_field_values(a: Option<&Value>, b: Option<&Value>) -> (r: ValueOrder)
    ensures
        r == spec_compare_field_values(opt_value(a), opt_value(b)),
{
    match (a, b) {
        (None, None) => ValueOrder::Equal,
        (None, Some(_)) => ValueOrder::Less,
        (Some(_), None) => ValueOrder::Greater,
        (Some(x), Some(y)) => match compare_values(x, y) {
            Some(o) => o,
            None => ValueOrder::Equal,
        },
    }
}

/// Whether a map key is the text `name`.
pub open spec fn key_is(k: Value, name: Seq<char>) -> bool {
    match k {
        Value::Str(s) => s@ == name,
        _ => false,
    }
}

/// The value of the first entry of a map whose key is the text `name`.
pub open spec fn map_lookup(m: Seq<(Value, Value)>, name: Seq<char>) -> Option<Value>
    decreases m.len(),
{
    if m.len() == 0 {
        None
    } else if key_is(m[0].0, name) {
        Some(m[0].1)
    } else {
        map_lookup(m.drop_first(), name)
    }
}

/// Finds the value of the first entry of a map whose key is the text `name`.
pub fn lookup<'a>(m: &'a Vec<(Value, Value)>, name: &str) -> (r: Option<&'a Value>)
    ensures
        opt_value(r) == map_lookup(m@, name@),
{
    let mut i: usize = 0;
    proof {
        assert(m@.skip(0) =~= m@);
    }
    while i < m.len()
        invariant
            i <= m@.len(),
            map_lookup(m@, name@) == map_lookup(m@.skip(i as int), name@),
        decreases m.len() - i,
    {
        proof {
            assert(m@.skip(i as int)[0] == m@[i as int]);
            assert(m@.skip(i as int).drop_first() =~= m@.skip(i + 1));
        }
        let hit = match &m[i].0 {
            Value::Str(s) => str_eq(s.as_str(), name),
            _ => false,
        };
        if hit {
            return Some(&m[i].1);
        }
        i = i + 1;
    }
    None
}

/// The pieces of `s` between occurrences of `c` (`str::split`).
pub open spec fn split_on(s: Seq<char>, c: char) -> Seq<Seq<char>>
    decreases s.len(),
{
    let i = first_index_of(s, c);
    if i < 0 {
        seq![s]
    } else {
        proof {
            lemma_first_index_bounds(s, c);
        }
        seq![s.take(i)] + split_on(s.skip(i + 1), c)
    }
}

/// The characters of each text in a sequence of texts.
pub open spec fn texts(v: Seq<String>) -> Seq<Seq<char>> {
    v.map_values(|s: String| s@)
}

/// Splits a text at every occurrence of `c`.
pub fn split_text(s: &str, c: char) -> (r: Vec<String>)
    ensures
        texts(r@) == split_on(s@, c),
{
    let v = chars_of(s);
    let mut out: Vec<String> = Vec::new();
    let mut start: usize = 0;
    proof {
        assert(v@.skip(0) =~= v@);
        assert(texts(out@) + split_on(v@.skip(0), c) =~= split_on(v@, c));
    }
    loop
        invariant
            v@ == s@,
            start <= v@.len(),
            texts(out@) + split_on(v@.skip(start as int), c) == split_on(v@, c),
        decreases v@.len() - start,
    {
        let ghost rest = v@.skip(start as int);
        match find_char_from(&v, start, c) {
            None => {
                proof {
                    assert(!rest.contains(c)) by {
                        if rest.contains(c) {
                            let k = choose|k: int| 0 <= k < rest.len() && rest[k] == c;
                            assert(v@[start + k] == c);
                        }
                    }
                    lemma_first_index_of_absent(rest, c);
                    assert(rest =~= v@.subrange(start as int, v@.len() as int));
                }
                let ghost before = out@;
                out.push(string_from_range(&v, start, v.len()));
                proof {
                    assert(texts(out@) =~= texts(before).push(rest));
                    assert(texts(out@) =~= texts(before) + split_on(rest, c));
                }
                return out;
            },
            Some(i) => {
                proof {
                    assert(is_first_index(rest, c, i - start)) by {
                        assert(rest[i - start] == v@[i as int]);
                        assert forall|j: int| 0 <= j < i - start implies rest[j] != c by {
                            assert(rest[j] == v@[start + j]);
                        }
                    }
                    lemma_first_index_of(rest, c, i - start);
                    assert(rest.take(i - start) =~= v@.subrange(start as int, i as int));
                    assert(rest.skip(i - start + 1) =~= v@.skip(i + 1));
                    assert(split_on(rest, c) == seq![rest.take(i - start)] + split_on(rest.skip(i - start + 1), c));
                }
                let ghost before = out@;
                out.push(string_from_range(&v, start, i));
                proof {
                    assert(texts(out@) =~= texts(before).push(rest.take(i - start)));
                    assert(texts(out@) + split_on(v@.skip(i + 1), c) =~= texts(before) + split_on(rest, c));
                }
                start = i + 1;
            },
        }
    }
}

} // verus!
