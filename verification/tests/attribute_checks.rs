use derive_core::attribute::{entry_value, parse_attr_meta_val, parse_attr_val};
use derive_core::diagnostic::{Diagnostic, Location};
use derive_core::model::{Attribute, AttributeBody, Entry, Literal};

fn place(slot: usize) -> Location {
    Location { slot }
}

fn pair(key: &str, value: &str) -> Entry {
    Entry::Pair { key: key.to_string(), value: Literal::Text(value.to_string()) }
}

fn list(namespace: &str, entries: Vec<Entry>, slot: usize) -> Attribute {
    Attribute {
        namespace: namespace.to_string(),
        body: AttributeBody::List(entries),
        location: place(slot),
    }
}

fn shape_error(text: &str, slot: usize) -> Diagnostic {
    Diagnostic { message: text.to_string(), location: place(slot) }
}

#[test]
fn absent_namespace_resolves_to_nothing() {
    assert_eq!(parse_attr_meta_val(&vec![], "builder", "each"), Ok(None));
    let other = vec![list("serde", vec![pair("each", "x")], 1)];
    assert_eq!(parse_attr_meta_val(&other, "builder", "each"), Ok(None));
}

#[test]
fn key_with_string_value_is_returned() {
    let attributes = vec![list("doc", vec![], 1), list("builder", vec![pair("each", "arg")], 2)];
    assert_eq!(parse_attr_meta_val(&attributes, "builder", "each"), Ok(Some("arg".to_string())));
}

#[test]
fn value_comes_back_as_it_stands() {
    let attributes = vec![list("debug", vec![pair("bound", "T::Value: Debug, ??")], 2)];
    assert_eq!(
        parse_attr_meta_val(&attributes, "debug", "bound"),
        Ok(Some("T::Value: Debug, ??".to_string()))
    );
}

#[test]
fn other_entries_are_passed_over() {
    let entries = vec![
        Entry::Other,
        pair("other", "x"),
        Entry::Pair { key: "each".to_string(), value: Literal::Other },
        pair("each", "first"),
        pair("each", "second"),
    ];
    assert_eq!(entry_value(&entries, "each"), Some("first".to_string()));
    let attributes = vec![list("builder", entries, 2)];
    assert_eq!(parse_attr_meta_val(&attributes, "builder", "each"), Ok(Some("first".to_string())));
}

#[test]
fn unknown_key_fails_at_the_attribute() {
    let attributes = vec![list("builder", vec![pair("eac", "arg")], 5)];
    assert_eq!(
        parse_attr_meta_val(&attributes, "builder", "each"),
        Err(shape_error("expected `builder(each = \"...\")`", 5))
    );
}

#[test]
fn value_that_is_no_string_fails_at_the_attribute() {
    let entries = vec![Entry::Pair { key: "bound".to_string(), value: Literal::Other }];
    let attributes = vec![list("debug", entries, 6)];
    assert_eq!(
        parse_attr_meta_val(&attributes, "debug", "bound"),
        Err(shape_error("expected `debug(bound = \"...\")`", 6))
    );
}

#[test]
fn attribute_that_is_no_list_fails() {
    for (slot, body) in [
        AttributeBody::Word,
        AttributeBody::Value(Literal::Text("arg".to_string())),
        AttributeBody::Malformed,
        AttributeBody::List(vec![]),
    ]
    .into_iter()
    .enumerate()
    {
        let attributes =
            vec![Attribute { namespace: "builder".to_string(), body, location: place(slot) }];
        assert_eq!(
            parse_attr_meta_val(&attributes, "builder", "each"),
            Err(shape_error("expected `builder(each = \"...\")`", slot))
        );
    }
}

#[test]
fn only_the_first_attribute_of_the_name_decides() {
    let attributes =
        vec![list("builder", vec![pair("other", "x")], 1), list("builder", vec![pair("each", "y")], 2)];
    assert_eq!(
        parse_attr_meta_val(&attributes, "builder", "each"),
        Err(shape_error("expected `builder(each = \"...\")`", 1))
    );
}

#[test]
fn single_value_is_returned_as_it_stands() {
    let attributes = vec![
        Attribute {
            namespace: "other".to_string(),
            body: AttributeBody::Value(Literal::Text("no".to_string())),
            location: place(3),
        },
        Attribute {
            namespace: "debug".to_string(),
            body: AttributeBody::Value(Literal::Text("0b{:08b}".to_string())),
            location: place(4),
        },
        Attribute { namespace: "debug".to_string(), body: AttributeBody::Word, location: place(5) },
    ];
    assert_eq!(parse_attr_val(&attributes, "debug"), Ok(Some("0b{:08b}".to_string())));
    assert_eq!(parse_attr_val(&attributes, "format"), Ok(None));
    assert_eq!(parse_attr_val(&vec![], "debug"), Ok(None));
}

#[test]
fn single_value_of_another_shape_fails_at_the_attribute() {
    for (slot, body) in [
        AttributeBody::Word,
        AttributeBody::Value(Literal::Other),
        AttributeBody::List(vec![pair("bound", "x")]),
        AttributeBody::Malformed,
    ]
    .into_iter()
    .enumerate()
    {
        let attributes = vec![
            Attribute { namespace: "debug".to_string(), body, location: place(slot) },
            Attribute {
                namespace: "debug".to_string(),
                body: AttributeBody::Value(Literal::Text("{:?}".to_string())),
                location: place(9),
            },
        ];
        assert_eq!(
            parse_attr_val(&attributes, "debug"),
            Err(shape_error("expected `debug = \"...\"`", slot))
        );
    }
}
