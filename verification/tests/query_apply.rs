use nodedb::document::Document;
use nodedb::filter::{Filter, FilterCondition};
use nodedb::query::{Query, SortDirection};
use nodedb::value::Value;

fn doc(name: &str, age: i64) -> Document {
    let data = Value::Object(vec![
        (Value::Str("name".to_string()), Value::Str(name.to_string())),
        (Value::Str("age".to_string()), Value::Integer(age)),
    ]);
    Document::new(0, "users", data)
}

fn make_docs() -> Vec<Document> {
    vec![doc("Charlie", 35), doc("Alice", 25), doc("Bob", 30), doc("Diana", 28)]
}

fn name_of(d: &Document) -> String {
    match d.get_field("name") {
        Some(Value::Str(s)) => s.clone(),
        other => panic!("unexpected name field: {:?}", other),
    }
}

#[test]
fn test_filter_and_sort() {
    let docs = make_docs();
    let q = Query::new()
        .with_filter(Filter::Condition(FilterCondition::GreaterThan {
            field: "age".to_string(),
            value: Value::Integer(26),
        }))
        .with_sort("age", SortDirection::Asc);
    let result = q.apply(docs);
    assert_eq!(result.len(), 3);
    assert_eq!(name_of(&result[0]), "Diana");
}

#[test]
fn test_offset_limit() {
    let docs = make_docs();
    let q = Query::new().with_sort("name", SortDirection::Asc).with_offset(1).with_limit(2);
    let result = q.apply(docs);
    assert_eq!(result.len(), 2);
    assert_eq!(name_of(&result[0]), "Bob");
    assert_eq!(name_of(&result[1]), "Charlie");
}

#[test]
fn test_sort_desc() {
    let docs = make_docs();
    let q = Query::new().with_sort("age", SortDirection::Desc);
    let result = q.apply(docs);
    assert_eq!(name_of(&result[0]), "Charlie");
}

#[test]
fn sort_is_stable_and_keeps_every_document() {
    let docs = vec![doc("B", 1), doc("A", 1), doc("C", 0)];
    let result = Query::new().with_sort("age", SortDirection::Asc).apply(docs);
    let names: Vec<String> = result.iter().map(name_of).collect();
    assert_eq!(names, vec!["C", "B", "A"]);
}

#[test]
fn offset_past_the_end_gives_nothing() {
    let result = Query::new().with_offset(10).apply(make_docs());
    assert!(result.is_empty());
}
