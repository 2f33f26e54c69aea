use nodedb::document::Document;
use nodedb::filter::{Filter, FilterCondition};
use nodedb::value::{compare_values, values_equal, Value, ValueOrder};

fn s(x: &str) -> Value {
    Value::Str(x.to_string())
}

fn make_doc(name: &str, age: i64) -> Document {
    let data = Value::Object(vec![(s("name"), s(name)), (s("age"), Value::Integer(age))]);
    Document::new(1, "users", data)
}

fn cond(c: FilterCondition) -> Filter {
    Filter::Condition(c)
}

#[test]
fn test_equal_to() {
    let doc = make_doc("Alice", 30);
    let f = cond(FilterCondition::EqualTo { field: "name".to_string(), value: s("Alice") });
    assert!(f.matches(&doc));
    let f2 = cond(FilterCondition::EqualTo { field: "name".to_string(), value: s("Bob") });
    assert!(!f2.matches(&doc));
}

#[test]
fn test_greater_than() {
    let doc = make_doc("Alice", 30);
    let f = cond(FilterCondition::GreaterThan { field: "age".to_string(), value: Value::Integer(25) });
    assert!(f.matches(&doc));
    let f2 = cond(FilterCondition::GreaterThan { field: "age".to_string(), value: Value::Integer(30) });
    assert!(!f2.matches(&doc));
}

#[test]
fn test_contains() {
    let doc = make_doc("Alice Wonderland", 25);
    let f = cond(FilterCondition::Contains { field: "name".to_string(), value: "alice".to_string() });
    assert!(f.matches(&doc));
}

#[test]
fn test_is_null() {
    let doc = make_doc("Alice", 30);
    let f = cond(FilterCondition::IsNull { field: "email".to_string() });
    assert!(f.matches(&doc));
    let f2 = cond(FilterCondition::IsNull { field: "name".to_string() });
    assert!(!f2.matches(&doc));
}

#[test]
fn test_and() {
    let doc = make_doc("Alice", 30);
    let f = Filter::And(vec![
        cond(FilterCondition::EqualTo { field: "name".to_string(), value: s("Alice") }),
        cond(FilterCondition::GreaterThan { field: "age".to_string(), value: Value::Integer(25) }),
    ]);
    assert!(f.matches(&doc));
}

#[test]
fn test_or() {
    let doc = make_doc("Alice", 20);
    let f = Filter::Or(vec![
        cond(FilterCondition::EqualTo { field: "name".to_string(), value: s("Bob") }),
        cond(FilterCondition::LessThan { field: "age".to_string(), value: Value::Integer(25) }),
    ]);
    assert!(f.matches(&doc));
}

#[test]
fn test_between() {
    let doc = make_doc("Alice", 30);
    let f = cond(FilterCondition::Between {
        field: "age".to_string(),
        low: Value::Integer(25),
        high: Value::Integer(35),
    });
    assert!(f.matches(&doc));
    let f2 = cond(FilterCondition::Between {
        field: "age".to_string(),
        low: Value::Integer(31),
        high: Value::Integer(35),
    });
    assert!(!f2.matches(&doc));
}

#[test]
fn test_starts_with() {
    let doc = make_doc("Alice", 30);
    let f = cond(FilterCondition::StartsWith { field: "name".to_string(), value: "Ali".to_string() });
    assert!(f.matches(&doc));
}

#[test]
fn test_ends_with() {
    let doc = make_doc("Alice", 30);
    let f = cond(FilterCondition::EndsWith { field: "name".to_string(), value: "ice".to_string() });
    assert!(f.matches(&doc));
}

fn make_jsonb_doc() -> Document {
    let metadata = Value::Object(vec![
        (s("type"), s("article")),
        (s("published"), Value::Boolean(true)),
        (s("nested"), Value::Object(vec![(s("key"), s("val"))])),
    ]);
    let tags = Value::Array(vec![s("dart"), s("rust"), s("flutter")]);
    let data = Value::Object(vec![(s("name"), s("Alice")), (s("metadata"), metadata), (s("tags"), tags)]);
    Document::new(1, "items", data)
}

#[test]
fn test_json_path_equals() {
    let doc = make_jsonb_doc();
    let f = cond(FilterCondition::JsonPathEquals {
        field: "metadata".to_string(),
        path: "type".to_string(),
        value: s("article"),
    });
    assert!(f.matches(&doc));
    let f2 = cond(FilterCondition::JsonPathEquals {
        field: "metadata".to_string(),
        path: "type".to_string(),
        value: s("blog"),
    });
    assert!(!f2.matches(&doc));
}

#[test]
fn test_json_path_nested() {
    let doc = make_jsonb_doc();
    let f = cond(FilterCondition::JsonPathEquals {
        field: "metadata".to_string(),
        path: "nested.key".to_string(),
        value: s("val"),
    });
    assert!(f.matches(&doc));
}

#[test]
fn test_json_path_array_index() {
    let doc = make_jsonb_doc();
    let f = cond(FilterCondition::JsonPathEquals {
        field: "tags".to_string(),
        path: "0".to_string(),
        value: s("dart"),
    });
    assert!(f.matches(&doc));
    let f2 = cond(FilterCondition::JsonPathEquals {
        field: "tags".to_string(),
        path: "1".to_string(),
        value: s("rust"),
    });
    assert!(f2.matches(&doc));
}

#[test]
fn test_json_has_key() {
    let doc = make_jsonb_doc();
    let f = cond(FilterCondition::JsonHasKey { field: "metadata".to_string(), path: "type".to_string() });
    assert!(f.matches(&doc));
    let f2 = cond(FilterCondition::JsonHasKey { field: "metadata".to_string(), path: "missing".to_string() });
    assert!(!f2.matches(&doc));
}

#[test]
fn test_json_has_key_nested() {
    let doc = make_jsonb_doc();
    let f = cond(FilterCondition::JsonHasKey { field: "metadata".to_string(), path: "nested.key".to_string() });
    assert!(f.matches(&doc));
    let f2 = cond(FilterCondition::JsonHasKey { field: "metadata".to_string(), path: "nested.nope".to_string() });
    assert!(!f2.matches(&doc));
}

#[test]
fn test_json_contains() {
    let doc = make_jsonb_doc();
    let needle = Value::Object(vec![(s("type"), s("article"))]);
    let f = cond(FilterCondition::JsonContains { field: "metadata".to_string(), value: needle });
    assert!(f.matches(&doc));
    let needle2 = Value::Object(vec![(s("type"), s("article")), (s("published"), Value::Boolean(true))]);
    let f2 = cond(FilterCondition::JsonContains { field: "metadata".to_string(), value: needle2 });
    assert!(f2.matches(&doc));
    let needle3 = Value::Object(vec![(s("type"), s("blog"))]);
    let f3 = cond(FilterCondition::JsonContains { field: "metadata".to_string(), value: needle3 });
    assert!(!f3.matches(&doc));
}

#[test]
fn test_array_contains() {
    let doc = make_jsonb_doc();
    let f = cond(FilterCondition::ArrayContains { field: "tags".to_string(), value: s("dart") });
    assert!(f.matches(&doc));
    let f2 = cond(FilterCondition::ArrayContains { field: "tags".to_string(), value: s("python") });
    assert!(!f2.matches(&doc));
}

#[test]
fn test_array_contains_empty() {
    let data = Value::Object(vec![(s("tags"), Value::Array(vec![]))]);
    let doc = Document::new(1, "items", data);
    let f = cond(FilterCondition::ArrayContains { field: "tags".to_string(), value: s("dart") });
    assert!(!f.matches(&doc));
}

#[test]
fn test_array_overlap() {
    let doc = make_jsonb_doc();
    let f = cond(FilterCondition::ArrayOverlap {
        field: "tags".to_string(),
        values: vec![s("dart"), s("python")],
    });
    assert!(f.matches(&doc));
    let f2 = cond(FilterCondition::ArrayOverlap {
        field: "tags".to_string(),
        values: vec![s("python"), s("java")],
    });
    assert!(!f2.matches(&doc));
}

#[test]
fn test_json_path_missing_field() {
    let doc = make_jsonb_doc();
    let f = cond(FilterCondition::JsonPathEquals {
        field: "nonexistent".to_string(),
        path: "key".to_string(),
        value: s("val"),
    });
    assert!(!f.matches(&doc));
}

#[test]
fn not_equal_and_ordering_conditions() {
    let doc = make_doc("Alice", 30);
    assert!(cond(FilterCondition::NotEqualTo { field: "name".to_string(), value: s("Bob") }).matches(&doc));
    assert!(cond(FilterCondition::GreaterThanOrEqual { field: "age".to_string(), value: Value::Integer(30) }).matches(&doc));
    assert!(cond(FilterCondition::LessThanOrEqual { field: "age".to_string(), value: Value::Integer(30) }).matches(&doc));
    assert!(!cond(FilterCondition::LessThan { field: "age".to_string(), value: Value::Integer(30) }).matches(&doc));
    assert!(cond(FilterCondition::IsNotNull { field: "name".to_string() }).matches(&doc));
    assert!(Filter::And(vec![]).matches(&doc));
    assert!(!Filter::Or(vec![]).matches(&doc));
}

fn as_num(v: &Value) -> f64 {
    match v {
        Value::Integer(x) => *x as f64,
        Value::UInteger(x) => *x as f64,
        _ => f64::NAN,
    }
}

#[test]
fn large_unsigned_integers_compare_as_floats() {
    let two63: u64 = 1 << 63;
    let samples = vec![
        Value::Integer(i64::MAX),
        Value::Integer(i64::MIN),
        Value::Integer(-1),
        Value::Integer(0),
        Value::Integer((1i64 << 53) + 1),
        Value::UInteger(two63),
        Value::UInteger(two63 + 1024),
        Value::UInteger(two63 + 2048),
        Value::UInteger(two63 + 3072),
        Value::UInteger(u64::MAX),
        Value::UInteger(u64::MAX - 1),
    ];
    for a in &samples {
        for b in &samples {
            let both_signed = matches!((a, b), (Value::Integer(_), Value::Integer(_)));
            let (x, y) = (as_num(a), as_num(b));
            let expected_eq = if both_signed {
                matches!((a, b), (Value::Integer(p), Value::Integer(q)) if p == q)
            } else {
                x == y
            };
            assert_eq!(values_equal(a, b), expected_eq, "{:?} {:?}", a, b);
            let expected_order = if both_signed {
                match (a, b) {
                    (Value::Integer(p), Value::Integer(q)) => p.cmp(q),
                    _ => unreachable!(),
                }
            } else {
                x.partial_cmp(&y).unwrap()
            };
            let expected_order = match expected_order {
                std::cmp::Ordering::Less => ValueOrder::Less,
                std::cmp::Ordering::Equal => ValueOrder::Equal,
                std::cmp::Ordering::Greater => ValueOrder::Greater,
            };
            assert_eq!(compare_values(a, b), Some(expected_order), "{:?} {:?}", a, b);
        }
    }
    assert!(values_equal(&Value::Integer(i64::MAX), &Value::UInteger(two63)));
    assert!(values_equal(&Value::UInteger(u64::MAX), &Value::UInteger(u64::MAX - 1)));
    assert!(!values_equal(&Value::UInteger(two63), &Value::UInteger(two63 + 2048)));
}

#[test]
fn extension_values_compare_structurally() {
    let a = Value::Ext(1, vec![1, 2]);
    assert!(values_equal(&a, &Value::Ext(1, vec![1, 2])));
    assert!(!values_equal(&a, &Value::Ext(2, vec![1, 2])));
    assert!(!values_equal(&a, &Value::Binary(vec![1, 2])));
    assert_eq!(compare_values(&a, &Value::Ext(1, vec![1, 2])), None);
    let doc = Document::new(1, "c", Value::Object(vec![(s("tag"), Value::Ext(3, vec![9]))]));
    let f = FilterCondition::EqualTo { field: "tag".to_string(), value: Value::Ext(3, vec![9]) };
    assert!(f.matches(&doc));
}
