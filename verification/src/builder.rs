//! The builder generator: from a record, the companion type that gathers its
//! fields one by one, the setters, and the finalizer.

use vstd::prelude::*;
use vstd::string::*;
use crate::attribute::{body_value, find_attribute, parse_attr_meta_val, resolution, resolved};
use crate::diagnostic::{Diagnostic, Finding, Fragment};
use crate::model::{Declaration, Field, GenericArgument, Members, Scope, TypeReference, Visibility};

verus! {

/// How a field is gathered and handed over.
#[derive(Clone, Copy, Debug, PartialEq, Eq, Structural)]
pub enum Role {
    /// Must be set before the record is built.
    Required,
    /// Of an optional type: may stay unset.
    Optional,
    /// A collection that is filled one element per call.
    Each,
}

/// The type wrapped by `ty`, where `ty` is a path whose last segment is named
/// `wrapper` and has generic arguments, the last of which is a type.
pub open spec fn wrapped_type(ty: TypeReference, wrapper: Seq<char>) -> Option<TypeReference> {
    if ty.segments@.len() == 0 {
        None
    } else {
        let last = ty.segments@.last();
        if last.name@ == wrapper && last.arguments@.len() > 0 {
            match last.arguments@.last() {
                GenericArgument::Type(inner) => Some(inner),
                GenericArgument::Other => None,
            }
        } else {
            None
        }
    }
}

/// The type that the field's type wraps in `ty`, such as `String` for a
/// field of type `Option<String>` and `ty` being `Option`.
pub fn parse_generic_type<'a>(field: &'a Field, ty: &str) -> (inner: Option<&'a TypeReference>)
    ensures
        match inner {
            Some(found) => wrapped_type(field.ty, ty@) == Some(*found),
            None => wrapped_type(field.ty, ty@).is_none(),
        },
{
    let count: usize = field.ty.segments.len();
    if count == 0 {
        return None;
    }
    let last = &field.ty.segments[count - 1];
    let arguments: usize = last.arguments.len();
    if last.name == String::from_str(ty) && arguments > 0 {
        match &last.arguments[arguments - 1] {
            GenericArgument::Type(inner) => Some(inner),
            GenericArgument::Other => None,
        }
    } else {
        None
    }
}

/// Resolves `meta_name` under the attribute `attr_name` of a field.
pub fn parse_field_attr_val(field: &Field, attr_name: &str, meta_name: &str) -> (r: Result<
    Option<String>,
    Diagnostic,
>)
    ensures
        resolution(r) == resolved(field.attributes@, attr_name@, meta_name@),
{
    parse_attr_meta_val(&field.attributes, attr_name, meta_name)
}

/// The name under which a field asks to be filled one element per call.
pub open spec fn each_of(field: Field) -> Result<Option<Seq<char>>, Finding> {
    resolved(field.attributes@, "builder"@, "each"@)
}

/// The message for a field that is filled one element per call and is no
/// sequence.
pub open spec fn not_a_sequence_message() -> Seq<char> {
    "field type must be Vec<?>"@
}

/// What is wrong with a field: its `builder` attribute has the wrong shape,
/// or it is filled one element per call and its type is no `Vec<..>`.
pub open spec fn field_finding(field: Field) -> Option<Finding> {
    match each_of(field) {
        Err(finding) => Some(finding),
        Ok(Some(_)) => if wrapped_type(field.ty, "Vec"@).is_none() {
            Some((not_a_sequence_message(), field.location))
        } else {
            None
        },
        Ok(None) => None,
    }
}

/// What the generator needs to know of a field, as mathematics.
pub struct FieldFacts {
    pub name: Seq<char>,
    pub visibility: Scope,
    pub role: Role,
    /// The field's type as written.
    pub ty: Seq<char>,
    /// The name of the field's setter.
    pub setter: Seq<char>,
    /// The type of the setter's parameter.
    pub parameter: Seq<char>,
}

/// The text of the type that `ty` wraps in `wrapper`, and of `ty` itself
/// where it wraps none.
pub open spec fn inner_text(ty: TypeReference, wrapper: Seq<char>) -> Seq<char> {
    match wrapped_type(ty, wrapper) {
        Some(inner) => inner.text@,
        None => ty.text@,
    }
}

/// The facts of a field with nothing wrong: a field with an `each` name is
/// filled under that name with elements of its sequence; a field of an
/// optional type is set under its own name to the wrapped type; every other
/// field is required and set under its own name to its own type.
pub open spec fn facts_of(field: Field) -> FieldFacts {
    match each_of(field) {
        Ok(Some(method)) => FieldFacts {
            name: field.name@,
            visibility: field.visibility@,
            role: Role::Each,
            ty: field.ty.text@,
            setter: method,
            parameter: inner_text(field.ty, "Vec"@),
        },
        _ => FieldFacts {
            name: field.name@,
            visibility: field.visibility@,
            role: if wrapped_type(field.ty, "Option"@).is_some() {
                Role::Optional
            } else {
                Role::Required
            },
            ty: field.ty.text@,
            setter: field.name@,
            parameter: inner_text(field.ty, "Option"@),
        },
    }
}

/// What the generator needs to know of a field, settled once from its type
/// and its attributes.
#[derive(Debug, PartialEq, Eq)]
pub struct FieldPlan {
    pub name: String,
    pub visibility: Visibility,
    pub role: Role,
    pub ty: String,
    pub setter: String,
    pub parameter: String,
}

impl View for FieldPlan {
    type V = FieldFacts;

    open spec fn view(&self) -> FieldFacts {
        FieldFacts {
            name: self.name@,
            visibility: self.visibility@,
            role: self.role,
            ty: self.ty@,
            setter: self.setter@,
            parameter: self.parameter@,
        }
    }
}

/// The facts that a list of plans stands for.
pub open spec fn facts(plans: Seq<FieldPlan>) -> Seq<FieldFacts> {
    Seq::new(plans.len(), |i: int| plans[i]@)
}

/// The facts of a list of fields.
pub open spec fn facts_of_all(fields: Seq<Field>) -> Seq<FieldFacts> {
    Seq::new(fields.len(), |i: int| facts_of(fields[i]))
}

/// Settles the plan of one field, or says what is wrong with it.
pub fn classify(field: &Field) -> (r: Result<FieldPlan, Diagnostic>)
    ensures
        match r {
            Ok(plan) => field_finding(*field).is_none() && plan@ == facts_of(*field),
            Err(d) => field_finding(*field) == Some(d.finding()),
        },
{
    match parse_field_attr_val(field, "builder", "each") {
        Err(d) => Err(d),
        Ok(Some(method)) => match parse_generic_type(field, "Vec") {
            None => Err(
                Diagnostic::new(String::from_str("field type must be Vec<?>"), field.location),
            ),
            Some(element) => Ok(
                FieldPlan {
                    name: field.name.clone(),
                    visibility: field.visibility.duplicate(),
                    role: Role::Each,
                    ty: field.ty.text.clone(),
                    setter: method,
                    parameter: element.text.clone(),
                },
            ),
        },
        Ok(None) => {
            let (role, parameter) = match parse_generic_type(field, "Option") {
                Some(inner) => (Role::Optional, inner.text.clone()),
                None => (Role::Required, field.ty.text.clone()),
            };
            Ok(
                FieldPlan {
                    name: field.name.clone(),
                    visibility: field.visibility.duplicate(),
                    role,
                    ty: field.ty.text.clone(),
                    setter: field.name.clone(),
                    parameter,
                },
            )
        },
    }
}

/// The message for a record without named fields.
pub open spec fn unexpected_fields_message() -> Seq<char> {
    "unexpected fields"@
}

/// The message for a declaration that is no record.
pub open spec fn unexpected_input_message() -> Seq<char> {
    "unexpected derive input"@
}

/// What keeps a declaration from having named fields to work on.
pub open spec fn shape_finding(input: Declaration) -> Option<Finding> {
    match input.members {
        Members::Record(_) => None,
        Members::Unnamed(location) => Some((unexpected_fields_message(), location)),
        _ => Some((unexpected_input_message(), input.location)),
    }
}

/// The named fields of a record, and a finding for any other declaration.
pub fn parse_fields(input: &Declaration) -> (r: Result<&Vec<Field>, Diagnostic>)
    ensures
        match r {
            Ok(fields) => input.members == Members::Record(*fields),
            Err(d) => shape_finding(*input) == Some(d.finding()),
        },
{
    match &input.members {
        Members::Record(fields) => Ok(fields),
        Members::Unnamed(location) => Err(
            Diagnostic::new(String::from_str("unexpected fields"), *location),
        ),
        _ => Err(Diagnostic::new(String::from_str("unexpected derive input"), input.location)),
    }
}

/// What is wrong with the first field, at or after `from`, that has anything
/// wrong.
pub open spec fn first_field_finding(fields: Seq<Field>, from: int) -> Option<Finding>
    decreases fields.len() - from,
{
    if from < 0 || from >= fields.len() {
        None
    } else if field_finding(fields[from]).is_some() {
        field_finding(fields[from])
    } else {
        first_field_finding(fields, from + 1)
    }
}

/// What keeps a builder from being generated for a declaration: it is no
/// record with named fields, or one of its fields has something wrong.
pub open spec fn record_finding(input: Declaration) -> Option<Finding> {
    match input.members {
        Members::Record(fields) => first_field_finding(fields@, 0),
        _ => shape_finding(input),
    }
}

/// The fields of a declaration that a builder can be generated for.
pub open spec fn record_fields(input: Declaration) -> Seq<Field> {
    match input.members {
        Members::Record(fields) => fields@,
        _ => Seq::empty(),
    }
}

/// Reads every attribute the generator depends on, once, before anything is
/// generated: the plans of all fields in declared order, or the first
/// finding.
pub fn resolve_fields(input: &Declaration) -> (r: Result<Vec<FieldPlan>, Diagnostic>)
    ensures
        match r {
            Ok(plans) => record_finding(*input).is_none() && facts(plans@) == facts_of_all(
                record_fields(*input),
            ),
            Err(d) => record_finding(*input) == Some(d.finding()),
        },
{
    let fields = match parse_fields(input) {
        Ok(fields) => fields,
        Err(d) => {
            return Err(d);
        },
    };
    let mut plans: Vec<FieldPlan> = Vec::new();
    let mut i: usize = 0;
    while i < fields.len()
        invariant
            i <= fields@.len(),
            plans@.len() == i,
            input.members == Members::Record(*fields),
            first_field_finding(fields@, 0) == first_field_finding(fields@, i as int),
            forall|j: int| 0 <= j < i ==> (#[trigger] plans@[j])@ == facts_of(fields@[j]),
        decreases fields@.len() - i,
    {
        match classify(&fields[i]) {
            Ok(plan) => {
                plans.push(plan);
            },
            Err(d) => {
                return Err(d);
            },
        }
        i = i + 1;
    }
    proof {
        assert(facts(plans@) =~= facts_of_all(fields@));
    }
    Ok(plans)
}

/// What stands to the right of a field's name in the companion type or in
/// its initial value.
#[derive(Debug, PartialEq, Eq)]
pub enum SlotContent {
    /// The initial value of a slot that holds nothing yet.
    Nothing,
    /// The initial value of a slot that holds an empty collection.
    Empty,
    /// The slot's type is the field's own type, given by its text.
    Own(String),
    /// The slot's type is the field's type, given by its text, wrapped in an
    /// optional container.
    Wrapped(String),
}

/// One field of the companion type, or of its initial value.
#[derive(Debug, PartialEq, Eq)]
pub struct Slot {
    pub visibility: Visibility,
    pub name: String,
    pub content: SlotContent,
}

/// Whether `slot` is the slot of the field with these facts. In the type, a
/// field of an optional type and a field filled one element per call keep
/// their type, and every other field is wrapped in an optional container. In
/// the initial value, a field filled one element per call starts as an empty
/// collection and every other field as nothing.
pub open spec fn slot_for(slot: Slot, field: FieldFacts, init: bool) -> bool {
    &&& slot.name@ == field.name
    &&& slot.visibility@ == field.visibility
    &&& match slot.content {
        SlotContent::Nothing => init && field.role != Role::Each,
        SlotContent::Empty => init && field.role == Role::Each,
        SlotContent::Own(text) => !init && field.role != Role::Required && text@ == field.ty,
        SlotContent::Wrapped(text) => !init && field.role == Role::Required && text@ == field.ty,
    }
}

/// Whether `slots` holds the slot of each field, in order.
pub open spec fn slots_for(slots: Seq<Slot>, fields: Seq<FieldFacts>, init: bool) -> bool {
    &&& slots.len() == fields.len()
    &&& forall|i: int| 0 <= i < fields.len() ==> slot_for(#[trigger] slots[i], fields[i], init)
}

/// The fields of the companion type (`init` false) or of its initial value
/// (`init` true), one per field, in declared order.
pub fn parse_optional_fields(plans: &Vec<FieldPlan>, init: bool) -> (slots: Vec<Slot>)
    ensures
        slots_for(slots@, facts(plans@), init),
{
    let mut slots: Vec<Slot> = Vec::new();
    let mut i: usize = 0;
    while i < plans.len()
        invariant
            i <= plans@.len(),
            slots@.len() == i,
            forall|j: int| 0 <= j < i ==> slot_for(#[trigger] slots@[j], plans@[j]@, init),
        decreases plans@.len() - i,
    {
        let plan = &plans[i];
        let content = if init {
            match plan.role {
                Role::Each => SlotContent::Empty,
                _ => SlotContent::Nothing,
            }
        } else {
            match plan.role {
                Role::Required => SlotContent::Wrapped(plan.ty.clone()),
                _ => SlotContent::Own(plan.ty.clone()),
            }
        };
        slots.push(Slot { visibility: plan.visibility.duplicate(), name: plan.name.clone(), content });
        i = i + 1;
    }
    slots
}

/// What a setter does with its argument.
#[derive(Clone, Copy, Debug, PartialEq, Eq, Structural)]
pub enum Action {
    /// Stores the argument as the field's value, over any earlier one.
    Assign,
    /// Appends the argument to the field's collection.
    Append,
}

/// A setter of the companion type: a method named `method` that takes one
/// argument of type `parameter`, applies it to the slot `field`, and hands
/// the companion back for chaining.
#[derive(Debug, PartialEq, Eq)]
pub struct Setter {
    pub visibility: Visibility,
    pub method: String,
    pub field: String,
    pub parameter: String,
    pub action: Action,
}

/// Whether `setter` is the one setter of the field with these facts.
pub open spec fn setter_for(setter: Setter, field: FieldFacts) -> bool {
    &&& setter.visibility@ == field.visibility
    &&& setter.method@ == field.setter
    &&& setter.field@ == field.name
    &&& setter.parameter@ == field.parameter
    &&& setter.action == if field.role == Role::Each {
        Action::Append
    } else {
        Action::Assign
    }
}

/// Whether `setters` holds the setter of each field, in order.
pub open spec fn setters_for(setters: Seq<Setter>, fields: Seq<FieldFacts>) -> bool {
    &&& setters.len() == fields.len()
    &&& forall|i: int| 0 <= i < fields.len() ==> setter_for(#[trigger] setters[i], fields[i])
}

/// The setters of the companion type: exactly one per field, in declared
/// order.
pub fn generate_setters(plans: &Vec<FieldPlan>) -> (setters: Vec<Setter>)
    ensures
        setters_for(setters@, facts(plans@)),
{
    let mut setters: Vec<Setter> = Vec::new();
    let mut i: usize = 0;
    while i < plans.len()
        invariant
            i <= plans@.len(),
            setters@.len() == i,
            forall|j: int| 0 <= j < i ==> setter_for(#[trigger] setters@[j], plans@[j]@),
        decreases plans@.len() - i,
    {
        let plan = &plans[i];
        let action = match plan.role {
            Role::Each => Action::Append,
            _ => Action::Assign,
        };
        setters.push(
            Setter {
                visibility: plan.visibility.duplicate(),
                method: plan.setter.clone(),
                field: plan.name.clone(),
                parameter: plan.parameter.clone(),
                action,
            },
        );
        i = i + 1;
    }
    setters
}

/// How the finalizer turns a slot into the record's field.
#[derive(Clone, Copy, Debug, PartialEq, Eq, Structural)]
pub enum Rule {
    /// The slot's value as it is, set or not.
    PassThrough,
    /// The slot's collection.
    Collected,
    /// The slot's value, which the finalizer has checked to be there.
    Unwrap,
}

/// One field of the record that the finalizer assembles.
#[derive(Debug, PartialEq, Eq)]
pub struct Assignment {
    pub field: String,
    pub rule: Rule,
}

/// The finalizer: it checks the slots named in `required`, in order, fails
/// at the first that holds nothing, and otherwise assembles the record
/// `target` by `assignments`.
#[derive(Debug, PartialEq, Eq)]
pub struct BuildMethod {
    pub target: String,
    pub required: Vec<String>,
    pub assignments: Vec<Assignment>,
}

/// The names of the required fields, in declared order.
pub open spec fn required_names(fields: Seq<FieldFacts>) -> Seq<Seq<char>>
    decreases fields.len(),
{
    if fields.len() == 0 {
        Seq::empty()
    } else if fields.last().role == Role::Required {
        required_names(fields.drop_last()).push(fields.last().name)
    } else {
        required_names(fields.drop_last())
    }
}

/// The rule by which a field of the given role is handed over.
pub open spec fn rule_of(role: Role) -> Rule {
    match role {
        Role::Required => Rule::Unwrap,
        Role::Optional => Rule::PassThrough,
        Role::Each => Rule::Collected,
    }
}

/// Whether `method` is the finalizer for the record `target` with these
/// fields.
pub open spec fn build_for(method: BuildMethod, target: Seq<char>, fields: Seq<FieldFacts>)
    -> bool {
    &&& method.target@ == target
    &&& crate::text::views(method.required@) == required_names(fields)
    &&& method.assignments@.len() == fields.len()
    &&& forall|i: int|
        0 <= i < fields.len() ==> {
            &&& (#[trigger] method.assignments@[i]).field@ == fields[i].name
            &&& method.assignments@[i].rule == rule_of(fields[i].role)
        }
}

/// The finalizer of the companion type.
pub fn generate_build_method(target: &String, plans: &Vec<FieldPlan>) -> (method: BuildMethod)
    ensures
        build_for(method, target@, facts(plans@)),
{
    let mut required: Vec<String> = Vec::new();
    let mut assignments: Vec<Assignment> = Vec::new();
    let mut i: usize = 0;
    while i < plans.len()
        invariant
            i <= plans@.len(),
            assignments@.len() == i,
            crate::text::views(required@) =~= required_names(facts(plans@).take(i as int)),
            forall|j: int|
                0 <= j < i ==> {
                    &&& (#[trigger] assignments@[j]).field@ == plans@[j]@.name
                    &&& assignments@[j].rule == rule_of(plans@[j]@.role)
                },
        decreases plans@.len() - i,
    {
        let plan = &plans[i];
        proof {
            assert(facts(plans@).take(i + 1).drop_last() =~= facts(plans@).take(i as int));
            assert(facts(plans@).take(i + 1).last() == plans@[i as int]@);
        }
        let rule = match plan.role {
            Role::Required => Rule::Unwrap,
            Role::Optional => Rule::PassThrough,
            Role::Each => Rule::Collected,
        };
        if rule == Rule::Unwrap {
            let ghost earlier = crate::text::views(required@);
            required.push(plan.name.clone());
            proof {
                assert(crate::text::views(required@) =~= earlier.push(plan.name@));
            }
        }
        assignments.push(Assignment { field: plan.name.clone(), rule });
        i = i + 1;
    }
    proof {
        assert(facts(plans@).take(plans@.len() as int) =~= facts(plans@));
    }
    BuildMethod { target: target.clone(), required, assignments }
}

/// The name of the companion type of a record.
pub open spec fn builder_name(record: Seq<char>) -> Seq<char> {
    record + "Builder"@
}

/// The function that starts a builder: it hands out a companion `builder`
/// whose slots hold their initial values.
#[derive(Debug, PartialEq, Eq)]
pub struct BuilderMethod {
    pub builder: String,
    pub initial: Vec<Slot>,
}

/// The function that starts a builder named `builder_ident`.
pub fn generate_builder_method(plans: &Vec<FieldPlan>, builder_ident: &String) -> (method:
    BuilderMethod)
    ensures
        method.builder@ == builder_ident@,
        slots_for(method.initial@, facts(plans@), true),
{
    BuilderMethod { builder: builder_ident.clone(), initial: parse_optional_fields(plans, true) }
}

/// The block of functions added to the record itself.
#[derive(Debug, PartialEq, Eq)]
pub struct Implementation {
    pub target: String,
    pub method: BuilderMethod,
}

/// The companion type with all that belongs to it.
#[derive(Debug, PartialEq, Eq)]
pub struct BuilderType {
    pub visibility: Visibility,
    pub name: String,
    pub slots: Vec<Slot>,
    pub setters: Vec<Setter>,
    pub build: BuildMethod,
}

/// All that is generated for one record.
#[derive(Debug, PartialEq, Eq)]
pub struct BuilderCode {
    pub builder: BuilderType,
    pub implementation: Implementation,
}

/// The name of the companion type of `input`.
fn companion_name(input: &Declaration) -> (name: String)
    ensures
        name@ == builder_name(input.name@),
{
    let mut name = input.name.clone();
    name.append("Builder");
    name
}

/// Whether `implementation` is the block added to the record `record` with
/// these fields.
pub open spec fn impl_for(implementation: Implementation, record: Seq<char>, fields: Seq<FieldFacts>)
    -> bool {
    &&& implementation.target@ == record
    &&& implementation.method.builder@ == builder_name(record)
    &&& slots_for(implementation.method.initial@, fields, true)
}

/// The block added to the record: the function that starts a builder.
pub fn generate_impl(input: &Declaration, plans: &Vec<FieldPlan>) -> (implementation:
    Implementation)
    ensures
        impl_for(implementation, input.name@, facts(plans@)),
{
    let name = companion_name(input);
    Implementation { target: input.name.clone(), method: generate_builder_method(plans, &name) }
}

/// Whether `builder` is the companion type of the record `record`, of the
/// given visibility, with these fields.
pub open spec fn builder_for(
    builder: BuilderType,
    record: Seq<char>,
    visibility: Scope,
    fields: Seq<FieldFacts>,
) -> bool {
    &&& builder.visibility@ == visibility
    &&& builder.name@ == builder_name(record)
    &&& slots_for(builder.slots@, fields, false)
    &&& setters_for(builder.setters@, fields)
    &&& build_for(builder.build, record, fields)
}

/// The companion type: as visible as the record, named after it, with one
/// slot and one setter per field and the finalizer.
pub fn generate_builder(input: &Declaration, plans: &Vec<FieldPlan>) -> (builder: BuilderType)
    ensures
        builder_for(builder, input.name@, input.visibility@, facts(plans@)),
{
    BuilderType {
        visibility: input.visibility.duplicate(),
        name: companion_name(input),
        slots: parse_optional_fields(plans, false),
        setters: generate_setters(plans),
        build: generate_build_method(&input.name, plans),
    }
}

/// Whether `code` is what is generated for `input`.
pub open spec fn code_for(code: BuilderCode, input: Declaration) -> bool {
    let fields = facts_of_all(record_fields(input));
    &&& builder_for(code.builder, input.name@, input.visibility@, fields)
    &&& impl_for(code.implementation, input.name@, fields)
}

/// Whether `out` is the fragment for `input`: what is generated for it, or
/// the finding that keeps anything from being generated.
pub open spec fn derives(out: Fragment<BuilderCode>, input: Declaration) -> bool {
    match out {
        Fragment::Generated(code) => record_finding(input).is_none() && code_for(code, input),
        Fragment::Flagged(d) => record_finding(input) == Some(d.finding()),
        Fragment::Verbatim => false,
    }
}

/// Generates the builder of a record. Every attribute is read before
/// anything is generated, so a declaration with anything wrong comes back
/// flagged and with nothing generated.
pub fn token_stream(input: &Declaration) -> (out: Fragment<BuilderCode>)
    ensures
        derives(out, *input),
{
    match resolve_fields(input) {
        Err(d) => Fragment::Flagged(d),
        Ok(plans) => Fragment::Generated(
            BuilderCode {
                builder: generate_builder(input, &plans),
                implementation: generate_impl(input, &plans),
            },
        ),
    }
}

/// Derives the builder of the record that carries the annotation.
pub fn derive(input: &Declaration) -> (out: Fragment<BuilderCode>)
    ensures
        derives(out, *input),
{
    token_stream(input)
}

/// A field with something wrong, at or after `from`, makes the fields have
/// a finding from `from` on.
proof fn lemma_field_finding_surfaces(fields: Seq<Field>, from: int, at: int)
    requires
        0 <= from <= at < fields.len(),
        field_finding(fields[at]).is_some(),
    ensures
        first_field_finding(fields, from).is_some(),
    decreases at - from,
{
    if from < at {
        lemma_field_finding_surfaces(fields, from + 1, at);
    }
}

/// A `builder` attribute of the wrong shape on any field of a record keeps
/// the builder from being generated: the declaration has a finding, so the
/// derive hands back a flagged fragment and no code that could fail later.
pub proof fn lemma_malformed_attribute_stops_generation(input: Declaration, field: int, at: int)
    requires
        input.members is Record,
        0 <= field < record_fields(input).len(),
        find_attribute(record_fields(input)[field].attributes@, "builder"@, 0) == Some(at),
        body_value(record_fields(input)[field].attributes@[at].body, "each"@).is_none(),
    ensures
        record_finding(input).is_some(),
        forall|out: Fragment<BuilderCode>| derives(out, input) ==> out is Flagged,
{
    lemma_field_finding_surfaces(record_fields(input), 0, field);
}

} // verus!
