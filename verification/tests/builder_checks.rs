use derive_core::accumulator::{Accumulator, BuildError, Built, Held};
use derive_core::builder::{
    classify, generate_build_method, generate_builder, generate_builder_method,
    generate_impl, generate_setters, parse_field_attr_val, parse_fields, parse_generic_type,
    parse_optional_fields, resolve_fields, Action, Assignment, BuilderCode, FieldPlan, Role, Rule,
    Setter, Slot, SlotContent,
};
use derive_core::diagnostic::{Diagnostic, Fragment, Location};
use derive_core::model::{
    Attribute, AttributeBody, Declaration, Entry, Field, GenericArgument, Literal, Members,
    PathSegment, TypeReference, Variant, VariantShape, Visibility,
};

#[derive(Debug, PartialEq, Eq)]
enum Value {
    Text(String),
    Integer(i64),
}

fn text(value: &str) -> Value {
    Value::Text(value.to_string())
}

fn spot(slot: usize) -> Location {
    Location { slot }
}

fn plain(name: &str) -> TypeReference {
    TypeReference {
        text: name.to_string(),
        segments: vec![PathSegment { name: name.to_string(), arguments: vec![] }],
    }
}

fn wrap(wrapper: &str, inner: TypeReference) -> TypeReference {
    TypeReference {
        text: format!("{}<{}>", wrapper, inner.text),
        segments: vec![PathSegment {
            name: wrapper.to_string(),
            arguments: vec![GenericArgument::Type(inner)],
        }],
    }
}

fn field(name: &str, ty: TypeReference, slot: usize) -> Field {
    Field {
        name: name.to_string(),
        ty,
        attributes: vec![],
        visibility: Visibility::Private,
        location: spot(slot),
    }
}

fn each(name: &str, slot: usize) -> Attribute {
    Attribute {
        namespace: "builder".to_string(),
        body: AttributeBody::List(vec![Entry::Pair {
            key: "each".to_string(),
            value: Literal::Text(name.to_string()),
        }]),
        location: spot(slot),
    }
}

fn record(name: &str, fields: Vec<Field>) -> Declaration {
    Declaration {
        name: name.to_string(),
        visibility: Visibility::Public,
        generics: vec![],
        attributes: vec![],
        members: Members::Record(fields),
        location: spot(100),
    }
}

/// `a: String`, `b: Option<i64>`, `#[builder(each = "add")] c: Vec<String>`.
fn sample() -> Declaration {
    let mut c = field("c", wrap("Vec", plain("String")), 3);
    c.attributes.push(each("add", 30));
    record(
        "Sample",
        vec![field("a", plain("String"), 1), field("b", wrap("Option", plain("i64")), 2), c],
    )
}

fn generated(input: &Declaration) -> BuilderCode {
    match derive_core::builder::derive(input) {
        Fragment::Generated(code) => code,
        other => panic!("nothing generated: {:?}", other),
    }
}

fn flagged(input: &Declaration) -> Diagnostic {
    match derive_core::builder::derive(input) {
        Fragment::Flagged(d) => d,
        other => panic!("not flagged: {:?}", other),
    }
}

#[test]
fn wrapped_type_is_the_last_argument_of_the_last_segment() {
    let f = field("current_dir", wrap("Option", plain("String")), 1);
    assert_eq!(parse_generic_type(&f, "Option"), Some(&plain("String")));
    assert_eq!(parse_generic_type(&f, "Vec"), None);
    let qualified = TypeReference {
        text: "std::option::Option<u8, String>".to_string(),
        segments: vec![
            PathSegment { name: "std".to_string(), arguments: vec![] },
            PathSegment { name: "option".to_string(), arguments: vec![] },
            PathSegment {
                name: "Option".to_string(),
                arguments: vec![
                    GenericArgument::Type(plain("u8")),
                    GenericArgument::Type(plain("String")),
                ],
            },
        ],
    };
    assert_eq!(parse_generic_type(&field("x", qualified, 1), "Option"), Some(&plain("String")));
}

#[test]
fn wrapped_type_needs_a_path_with_a_type_argument() {
    let reference = TypeReference { text: "&str".to_string(), segments: vec![] };
    assert_eq!(parse_generic_type(&field("x", reference, 1), "Option"), None);
    assert_eq!(parse_generic_type(&field("x", plain("Option"), 1), "Option"), None);
    let lifetime = TypeReference {
        text: "Option<'a>".to_string(),
        segments: vec![PathSegment {
            name: "Option".to_string(),
            arguments: vec![GenericArgument::Type(plain("u8")), GenericArgument::Other],
        }],
    };
    assert_eq!(parse_generic_type(&field("x", lifetime, 1), "Option"), None);
}

#[test]
fn fields_are_classified_by_type_and_attribute() {
    let input = sample();
    let plans = resolve_fields(&input).unwrap();
    assert_eq!(
        plans,
        vec![
            FieldPlan {
                name: "a".to_string(),
                visibility: Visibility::Private,
                role: Role::Required,
                ty: "String".to_string(),
                setter: "a".to_string(),
                parameter: "String".to_string(),
            },
            FieldPlan {
                name: "b".to_string(),
                visibility: Visibility::Private,
                role: Role::Optional,
                ty: "Option<i64>".to_string(),
                setter: "b".to_string(),
                parameter: "i64".to_string(),
            },
            FieldPlan {
                name: "c".to_string(),
                visibility: Visibility::Private,
                role: Role::Each,
                ty: "Vec<String>".to_string(),
                setter: "add".to_string(),
                parameter: "String".to_string(),
            },
        ]
    );
}

#[test]
fn sequence_without_each_is_an_ordinary_required_field() {
    let plan = classify(&field("args", wrap("Vec", plain("String")), 1)).unwrap();
    assert_eq!(plan.role, Role::Required);
    assert_eq!(plan.setter, "args");
    assert_eq!(plan.parameter, "Vec<String>");
}

#[test]
fn accumulator_type_wraps_only_required_fields() {
    let plans = resolve_fields(&sample()).unwrap();
    let slots = parse_optional_fields(&plans, false);
    assert_eq!(
        slots,
        vec![
            Slot {
                visibility: Visibility::Private,
                name: "a".to_string(),
                content: SlotContent::Wrapped("String".to_string()),
            },
            Slot {
                visibility: Visibility::Private,
                name: "b".to_string(),
                content: SlotContent::Own("Option<i64>".to_string()),
            },
            Slot {
                visibility: Visibility::Private,
                name: "c".to_string(),
                content: SlotContent::Own("Vec<String>".to_string()),
            },
        ]
    );
    let initial = parse_optional_fields(&plans, true);
    let contents: Vec<SlotContent> = initial.into_iter().map(|s| s.content).collect();
    assert_eq!(contents, vec![SlotContent::Nothing, SlotContent::Nothing, SlotContent::Empty]);
}

#[test]
fn one_setter_per_field() {
    let mut input = sample();
    if let Members::Record(fields) = &mut input.members {
        fields[0].visibility = Visibility::Restricted("pub(crate)".to_string());
    }
    let plans = resolve_fields(&input).unwrap();
    assert_eq!(
        generate_setters(&plans),
        vec![
            Setter {
                visibility: Visibility::Restricted("pub(crate)".to_string()),
                method: "a".to_string(),
                field: "a".to_string(),
                parameter: "String".to_string(),
                action: Action::Assign,
            },
            Setter {
                visibility: Visibility::Private,
                method: "b".to_string(),
                field: "b".to_string(),
                parameter: "i64".to_string(),
                action: Action::Assign,
            },
            Setter {
                visibility: Visibility::Private,
                method: "add".to_string(),
                field: "c".to_string(),
                parameter: "String".to_string(),
                action: Action::Append,
            },
        ]
    );
}

#[test]
fn each_setter_may_carry_the_name_of_its_field() {
    let mut env = field("env", wrap("Vec", plain("String")), 1);
    env.attributes.push(each("env", 10));
    let setters = generate_setters(&resolve_fields(&record("Command", vec![env])).unwrap());
    assert_eq!(setters.len(), 1);
    assert_eq!(setters[0].method, "env");
    assert_eq!(setters[0].action, Action::Append);
    assert_eq!(setters[0].parameter, "String");
}

#[test]
fn finalizer_checks_required_fields_only() {
    let plans = resolve_fields(&sample()).unwrap();
    let method = generate_build_method(&"Sample".to_string(), &plans);
    assert_eq!(method.target, "Sample");
    assert_eq!(method.required, vec!["a".to_string()]);
    assert_eq!(
        method.assignments,
        vec![
            Assignment { field: "a".to_string(), rule: Rule::Unwrap },
            Assignment { field: "b".to_string(), rule: Rule::PassThrough },
            Assignment { field: "c".to_string(), rule: Rule::Collected },
        ]
    );
}

#[test]
fn builder_is_named_after_the_record() {
    let input = sample();
    let code = generated(&input);
    assert_eq!(code.builder.name, "SampleBuilder");
    assert_eq!(code.builder.visibility, Visibility::Public);
    assert_eq!(code.builder.slots.len(), 3);
    assert_eq!(code.builder.setters.len(), 3);
    assert_eq!(code.builder.build.target, "Sample");
    assert_eq!(code.implementation.target, "Sample");
    assert_eq!(code.implementation.method.builder, "SampleBuilder");
    assert_eq!(code.implementation.method.initial.len(), 3);
    let plans = resolve_fields(&input).unwrap();
    assert_eq!(generate_builder(&input, &plans), code.builder);
    assert_eq!(generate_impl(&input, &plans), code.implementation);
    assert_eq!(derive_core::builder::token_stream(&input), Fragment::Generated(code));
    let code = generated(&input);
    let method = generate_builder_method(&plans, &"Other".to_string());
    assert_eq!(method.builder, "Other");
    assert_eq!(method.initial, code.implementation.method.initial);
}

#[test]
fn record_without_fields_gets_an_empty_builder() {
    let code = generated(&record("Unit", vec![]));
    assert_eq!(code.builder.name, "UnitBuilder");
    assert!(code.builder.slots.is_empty());
    assert!(code.builder.setters.is_empty());
    assert!(code.builder.build.required.is_empty());
}

#[test]
fn each_on_a_field_that_is_no_sequence_is_flagged() {
    let mut f = field("name", plain("String"), 4);
    f.attributes.push(each("push", 40));
    assert_eq!(
        flagged(&record("Bad", vec![field("ok", plain("u8"), 1), f])),
        Diagnostic { message: "field type must be Vec<?>".to_string(), location: spot(4) }
    );
    let mut optional = field("maybe", wrap("Option", wrap("Vec", plain("u8"))), 5);
    optional.attributes.push(each("push", 50));
    assert_eq!(
        classify(&optional),
        Err(Diagnostic { message: "field type must be Vec<?>".to_string(), location: spot(5) })
    );
}

#[test]
fn malformed_attribute_is_flagged_before_anything_is_generated() {
    let mut bad = field("args", wrap("Vec", plain("String")), 2);
    bad.attributes.push(Attribute {
        namespace: "builder".to_string(),
        body: AttributeBody::List(vec![Entry::Pair {
            key: "eac".to_string(),
            value: Literal::Text("arg".to_string()),
        }]),
        location: spot(20),
    });
    let expected = Diagnostic {
        message: "expected `builder(each = \"...\")`".to_string(),
        location: spot(20),
    };
    assert_eq!(parse_field_attr_val(&bad, "builder", "each"), Err(expected));
    let input = record("Command", vec![field("executable", plain("String"), 1), bad]);
    assert_eq!(
        flagged(&input),
        Diagnostic { message: "expected `builder(each = \"...\")`".to_string(), location: spot(20) }
    );
    assert!(resolve_fields(&input).is_err());
}

#[test]
fn first_field_with_a_finding_wins() {
    let mut first = field("x", plain("String"), 1);
    first.attributes.push(each("push", 10));
    let mut second = field("y", wrap("Vec", plain("u8")), 2);
    second.attributes.push(Attribute {
        namespace: "builder".to_string(),
        body: AttributeBody::Word,
        location: spot(20),
    });
    assert_eq!(flagged(&record("Two", vec![first, second])).location, spot(1));
}

#[test]
fn declarations_without_named_fields_are_flagged() {
    let mut input = record("Pair", vec![]);
    input.members = Members::Unnamed(spot(9));
    assert_eq!(
        flagged(&input),
        Diagnostic { message: "unexpected fields".to_string(), location: spot(9) }
    );
    input.members = Members::Enumeration(vec![Variant {
        name: "A".to_string(),
        shape: VariantShape::Unit,
        location: spot(1),
    }]);
    assert_eq!(
        flagged(&input),
        Diagnostic { message: "unexpected derive input".to_string(), location: spot(100) }
    );
    input.members = Members::Other;
    assert_eq!(parse_fields(&input).unwrap_err().message, "unexpected derive input");
    assert_eq!(parse_fields(&sample()).unwrap().len(), 3);
}

#[test]
fn build_without_required_field_fails_then_succeeds() {
    let code = generated(&sample());
    let mut builder: Accumulator<Value> = Accumulator::start(&code.implementation.method.initial);
    assert!(builder.call(&code.builder.setters, "add", text("x")));
    assert!(builder.call(&code.builder.setters, "add", text("y")));
    let failure = builder.build(&code.builder.build);
    assert_eq!(failure, Err(BuildError { message: "a is none".to_string() }));
    assert!(builder.call(&code.builder.setters, "a", text("z")));
    let built = builder.build(&code.builder.build);
    assert_eq!(
        built,
        Ok(vec![
            Built::Required(text("z")),
            Built::Optional(None),
            Built::Each(vec![text("x"), text("y")]),
        ])
    );
}

#[test]
fn failed_build_leaves_the_slots_untouched() {
    let code = generated(&sample());
    let mut builder: Accumulator<Value> = Accumulator::start(&code.implementation.method.initial);
    builder.call(&code.builder.setters, "b", Value::Integer(7));
    builder.call(&code.builder.setters, "add", text("x"));
    assert!(builder.build(&code.builder.build).is_err());
    assert_eq!(
        builder.slots,
        vec![
            Held::Single(None),
            Held::Single(Some(Value::Integer(7))),
            Held::Many(vec![text("x")]),
        ]
    );
}

#[test]
fn successful_build_empties_the_slots() {
    let code = generated(&sample());
    let mut builder: Accumulator<Value> = Accumulator::start(&code.implementation.method.initial);
    builder.call(&code.builder.setters, "a", text("z"));
    builder.call(&code.builder.setters, "b", Value::Integer(7));
    builder.call(&code.builder.setters, "add", text("x"));
    assert_eq!(
        builder.build(&code.builder.build),
        Ok(vec![
            Built::Required(text("z")),
            Built::Optional(Some(Value::Integer(7))),
            Built::Each(vec![text("x")]),
        ])
    );
    assert_eq!(builder.slots, vec![Held::Single(None), Held::Single(None), Held::Many(vec![])]);
    assert_eq!(
        builder.build(&code.builder.build),
        Err(BuildError { message: "a is none".to_string() })
    );
}

#[test]
fn plain_setter_overwrites_and_each_setter_accumulates() {
    let code = generated(&sample());
    let mut builder: Accumulator<Value> = Accumulator::start(&code.implementation.method.initial);
    builder.call(&code.builder.setters, "a", text("first"));
    builder.call(&code.builder.setters, "a", text("second"));
    builder.call(&code.builder.setters, "b", Value::Integer(1));
    builder.call(&code.builder.setters, "b", Value::Integer(2));
    builder.call(&code.builder.setters, "add", text("1"));
    builder.call(&code.builder.setters, "add", text("2"));
    builder.call(&code.builder.setters, "add", text("3"));
    assert_eq!(
        builder.slots,
        vec![
            Held::Single(Some(text("second"))),
            Held::Single(Some(Value::Integer(2))),
            Held::Many(vec![text("1"), text("2"), text("3")]),
        ]
    );
}

#[test]
fn unknown_setter_changes_nothing() {
    let code = generated(&sample());
    let mut builder: Accumulator<Value> = Accumulator::start(&code.implementation.method.initial);
    assert!(!builder.call(&code.builder.setters, "c", text("x")));
    assert!(!builder.call(&code.builder.setters, "missing", text("x")));
    assert_eq!(builder.slots, vec![Held::Single(None), Held::Single(None), Held::Many(vec![])]);
}

#[test]
fn first_missing_required_field_is_named() {
    let input = record(
        "Command",
        vec![
            field("executable", plain("String"), 1),
            field("args", wrap("Vec", plain("String")), 2),
            field("current_dir", wrap("Option", plain("String")), 3),
        ],
    );
    let code = generated(&input);
    let mut builder: Accumulator<Value> = Accumulator::start(&code.implementation.method.initial);
    builder.call(&code.builder.setters, "executable", text("cargo"));
    let error = builder.build(&code.builder.build).unwrap_err();
    assert_eq!(error.message, "args is none");
    assert_eq!(error.describe(), "build args is none error");
}

#[test]
fn records_with_a_repeated_field_name_are_not_well_formed() {
    assert!(sample().is_well_formed());
    let twice = record("Twice", vec![field("a", plain("u8"), 1), field("a", plain("u8"), 2)]);
    assert!(!twice.is_well_formed());
}
