//! The attribute resolver: finds the value of a key in an attribute list and
//! rejects attributes of the wrong shape.

use vstd::prelude::*;
use vstd::string::*;
use crate::diagnostic::{Diagnostic, Finding};
use crate::model::{Attribute, AttributeBody, Entry, Literal};

verus! {

/// The position of the first attribute named `namespace` at or after `from`.
pub open spec fn find_attribute(attributes: Seq<Attribute>, namespace: Seq<char>, from: int)
    -> Option<int>
    decreases attributes.len() - from,
{
    if from < 0 || from >= attributes.len() {
        None
    } else if attributes[from].namespace@ == namespace {
        Some(from)
    } else {
        find_attribute(attributes, namespace, from + 1)
    }
}

/// The string that the first entry `key = "..."` at or after `from` gives to
/// `key`. Entries of any other form are passed over.
pub open spec fn find_value(entries: Seq<Entry>, key: Seq<char>, from: int) -> Option<Seq<char>>
    decreases entries.len() - from,
{
    if from < 0 || from >= entries.len() {
        None
    } else {
        match entries[from] {
            Entry::Pair { key: name, value: Literal::Text(text) } if name@ == key => Some(text@),
            _ => find_value(entries, key, from + 1),
        }
    }
}

/// The message that describes the shape an attribute must have.
pub open spec fn expected_shape(namespace: Seq<char>, key: Seq<char>) -> Seq<char> {
    "expected `"@ + namespace + "("@ + key + " = \"...\")`"@
}

/// The value that an attribute's body gives to `key`, where it has the shape
/// `namespace(key = "...")`.
pub open spec fn body_value(body: AttributeBody, key: Seq<char>) -> Option<Seq<char>> {
    match body {
        AttributeBody::List(entries) => find_value(entries@, key, 0),
        _ => None,
    }
}

/// What resolving `key` under `namespace` gives: nothing where no attribute
/// has that name; otherwise the first such attribute decides, with the
/// string it gives to `key`, or with a finding at the whole attribute where
/// it gives none.
pub open spec fn resolved(attributes: Seq<Attribute>, namespace: Seq<char>, key: Seq<char>)
    -> Result<Option<Seq<char>>, Finding> {
    match find_attribute(attributes, namespace, 0) {
        None => Ok(None),
        Some(at) => match body_value(attributes[at].body, key) {
            Some(text) => Ok(Some(text)),
            None => Err((expected_shape(namespace, key), attributes[at].location)),
        },
    }
}

/// What a resolution stands for, as mathematics.
pub open spec fn resolution(r: Result<Option<String>, Diagnostic>) -> Result<
    Option<Seq<char>>,
    Finding,
> {
    match r {
        Ok(None) => Ok(None),
        Ok(Some(text)) => Ok(Some(text@)),
        Err(d) => Err(d.finding()),
    }
}

/// The string that the first entry `key = "..."` of `entries` gives to `key`.
pub fn entry_value(entries: &Vec<Entry>, key: &str) -> (value: Option<String>)
    ensures
        match value {
            Some(text) => find_value(entries@, key@, 0) == Some(text@),
            None => find_value(entries@, key@, 0).is_none(),
        },
{
    let wanted = String::from_str(key);
    let mut i: usize = 0;
    while i < entries.len()
        invariant
            i <= entries@.len(),
            wanted@ == key@,
            find_value(entries@, key@, 0) == find_value(entries@, key@, i as int),
        decreases entries@.len() - i,
    {
        match &entries[i] {
            Entry::Pair { key: name, value: Literal::Text(text) } => {
                if *name == wanted {
                    return Some(text.clone());
                }
            },
            _ => {},
        }
        i = i + 1;
    }
    None
}

/// Resolves `meta_name` under the attribute `attr_name`.
///
/// Only the first attribute of that name is looked at. It must be a list
/// that holds `meta_name = "..."`; the string comes back as it stands and is
/// not looked into.
pub fn parse_attr_meta_val(attributes: &Vec<Attribute>, attr_name: &str, meta_name: &str) -> (r:
    Result<Option<String>, Diagnostic>)
    ensures
        resolution(r) == resolved(attributes@, attr_name@, meta_name@),
{
    let wanted = String::from_str(attr_name);
    let mut i: usize = 0;
    while i < attributes.len()
        invariant
            i <= attributes@.len(),
            wanted@ == attr_name@,
            find_attribute(attributes@, attr_name@, 0) == find_attribute(
                attributes@,
                attr_name@,
                i as int,
            ),
        decreases attributes@.len() - i,
    {
        if attributes[i].namespace == wanted {
            let found = match &attributes[i].body {
                AttributeBody::List(entries) => entry_value(entries, meta_name),
                _ => None,
            };
            match found {
                Some(text) => {
                    return Ok(Some(text));
                },
                None => {
                    let mut message = String::from_str("expected `");
                    message.append(attr_name);
                    message.append("(");
                    message.append(meta_name);
                    message.append(" = \"...\")`");
                    return Err(Diagnostic::new(message, attributes[i].location));
                },
            }
        }
        i = i + 1;
    }
    Ok(None)
}

/// The message that describes the shape an attribute with a single value
/// must have.
pub open spec fn expected_value_shape(namespace: Seq<char>) -> Seq<char> {
    "expected `"@ + namespace + " = \"...\"`"@
}

/// The string that an attribute's body is, where it has the shape
/// `namespace = "..."`.
pub open spec fn body_text(body: AttributeBody) -> Option<Seq<char>> {
    match body {
        AttributeBody::Value(Literal::Text(text)) => Some(text@),
        _ => None,
    }
}

/// What resolving the single value of `namespace` gives: nothing where no
/// attribute has that name; otherwise the first such attribute decides, with
/// the string it is set to, or with a finding at the whole attribute where
/// it is set to none.
pub open spec fn resolved_value(attributes: Seq<Attribute>, namespace: Seq<char>) -> Result<
    Option<Seq<char>>,
    Finding,
> {
    match find_attribute(attributes, namespace, 0) {
        None => Ok(None),
        Some(at) => match body_text(attributes[at].body) {
            Some(text) => Ok(Some(text)),
            None => Err((expected_value_shape(namespace), attributes[at].location)),
        },
    }
}

/// Resolves the single value of the attribute `attr_name`.
///
/// Only the first attribute of that name is looked at. It must be written as
/// `attr_name = "..."`; the string comes back as it stands and is not looked
/// into.
pub fn parse_attr_val(attributes: &Vec<Attribute>, attr_name: &str) -> (r: Result<
    Option<String>,
    Diagnostic,
>)
    ensures
        resolution(r) == resolved_value(attributes@, attr_name@),
{
    let wanted = String::from_str(attr_name);
    let mut i: usize = 0;
    while i < attributes.len()
        invariant
            i <= attributes@.len(),
            wanted@ == attr_name@,
            find_attribute(attributes@, attr_name@, 0) == find_attribute(
                attributes@,
                attr_name@,
                i as int,
            ),
        decreases attributes@.len() - i,
    {
        if attributes[i].namespace == wanted {
            match &attributes[i].body {
                AttributeBody::Value(Literal::Text(text)) => {
                    return Ok(Some(text.clone()));
                },
                _ => {
                    let mut message = String::from_str("expected `");
                    message.append(attr_name);
                    message.append(" = \"...\"`");
                    return Err(Diagnostic::new(message, attributes[i].location));
                },
            }
        }
        i = i + 1;
    }
    Ok(None)
}

/// Whoever resolves a key under a namespace that an attribute carries in
/// another shape than `namespace(key = "...")` gets a finding at that
/// attribute: a list without the key, a key whose value is no string, a bare
/// word, a single value. Nothing is left to fail later.
pub proof fn lemma_malformed_attribute_rejected(
    attributes: Seq<Attribute>,
    namespace: Seq<char>,
    key: Seq<char>,
    at: int,
)
    requires
        find_attribute(attributes, namespace, 0) == Some(at),
        body_value(attributes[at].body, key).is_none(),
    ensures
        resolved(attributes, namespace, key) == Err::<Option<Seq<char>>, Finding>(
            (expected_shape(namespace, key), attributes[at].location),
        ),
{
}

/// A list gives a key no value when none of its entries is that key with a
/// string: an unknown key, a value that is no string, an entry of another
/// form.
pub proof fn lemma_no_value_without_entry(entries: Seq<Entry>, key: Seq<char>, from: int)
    requires
        0 <= from,
        forall|i: int|
            from <= i < entries.len() ==> match #[trigger] entries[i] {
                Entry::Pair { key: name, value: Literal::Text(_) } => name@ != key,
                _ => true,
            },
    ensures
        find_value(entries, key, from).is_none(),
    decreases entries.len() - from,
{
    if from < entries.len() {
        assert(match entries[from] {
            Entry::Pair { key: name, value: Literal::Text(_) } => name@ != key,
            _ => true,
        });
        lemma_no_value_without_entry(entries, key, from + 1);
    }
}

/// Whoever resolves the single value of a namespace that an attribute
/// carries in another shape than `namespace = "..."` gets a finding at that
/// attribute: a bare word, a list, a value that is no string.
pub proof fn lemma_malformed_value_rejected(
    attributes: Seq<Attribute>,
    namespace: Seq<char>,
    at: int,
)
    requires
        find_attribute(attributes, namespace, 0) == Some(at),
        body_text(attributes[at].body).is_none(),
    ensures
        resolved_value(attributes, namespace) == Err::<Option<Seq<char>>, Finding>(
            (expected_value_shape(namespace), attributes[at].location),
        ),
{
}

} // verus!
