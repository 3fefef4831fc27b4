//! The diagnostic-format generator: which constraints the generated
//! formatter needs, and what it prints.

use vstd::prelude::*;
use vstd::string::*;
use crate::attribute::{
    body_value,
    find_attribute,
    parse_attr_meta_val,
    parse_attr_val,
    resolution,
    resolved,
    resolved_value,
};
use crate::builder::{parse_fields, record_fields, shape_finding};
use crate::diagnostic::{Diagnostic, Finding, Fragment};
use crate::model::{
    Declaration,
    Field,
    GenericArgument,
    GenericParameter,
    Members,
    ParameterKind,
    TypeReference,
};
use crate::text::{join, joined, views};

verus! {

/// The name of the marker wrapper: a type without size that carries a type
/// argument and never holds a value of it.
pub open spec fn marker() -> Seq<char> {
    "PhantomData"@
}

/// The formatting capability, as it is written in a constraint.
pub open spec fn capability() -> Seq<char> {
    "std::fmt::Debug"@
}

/// Whether `ty` is a path whose last segment is named `name`.
pub open spec fn ends_in(ty: TypeReference, name: Seq<char>) -> bool {
    ty.segments@.len() > 0 && ty.segments@.last().name@ == name
}

/// Whether `ty` is a path of several segments that starts with `head`, such
/// as `T::Value` for `T`.
pub open spec fn projects_from(ty: TypeReference, head: Seq<char>) -> bool {
    ty.segments@.len() > 1 && ty.segments@[0].name@ == head
}

/// The first generic argument of the last segment of `ty`, where it is a
/// type.
pub open spec fn first_argument(ty: TypeReference) -> Option<TypeReference> {
    if ty.segments@.len() > 0 && ty.segments@.last().arguments@.len() > 0 {
        match ty.segments@.last().arguments@[0] {
            GenericArgument::Type(inner) => Some(inner),
            GenericArgument::Other => None,
        }
    } else {
        None
    }
}

/// Whether the field has `parameter` itself as its type.
pub open spec fn uses_directly(field: Field, parameter: Seq<char>) -> bool {
    ends_in(field.ty, parameter)
}

/// Whether the field's type is the marker wrapper with `parameter` among its
/// arguments.
pub open spec fn marks(field: Field, parameter: Seq<char>) -> bool {
    &&& ends_in(field.ty, marker())
    &&& exists|a: int|
        0 <= a < field.ty.segments@.last().arguments@.len() && argument_names(
            #[trigger] field.ty.segments@.last().arguments@[a],
            parameter,
        )
}

/// Whether a generic argument is a path type whose last segment is named
/// `parameter`.
pub open spec fn argument_names(argument: GenericArgument, parameter: Seq<char>) -> bool {
    match argument {
        GenericArgument::Type(inner) => ends_in(inner, parameter),
        GenericArgument::Other => false,
    }
}

/// The path that the field projects out of `parameter`: the field's own
/// type, or else the first argument of its type, where that is a path of
/// several segments starting with `parameter`. A marker wrapper projects
/// nothing.
pub open spec fn projection(field: Field, parameter: Seq<char>) -> Option<Seq<char>> {
    if ends_in(field.ty, marker()) {
        None
    } else if projects_from(field.ty, parameter) {
        Some(field.ty.text@)
    } else {
        match first_argument(field.ty) {
            Some(inner) => if projects_from(inner, parameter) {
                Some(inner.text@)
            } else {
                None
            },
            None => None,
        }
    }
}

/// Whether some field satisfies `uses_directly` for `parameter`.
pub open spec fn used_directly(fields: Seq<Field>, parameter: Seq<char>) -> bool {
    exists|i: int| 0 <= i < fields.len() && uses_directly(#[trigger] fields[i], parameter)
}

/// Whether `parameter` occurs in a place that asks for a constraint on
/// something else than the parameter: as an argument of a marker wrapper, or
/// at the head of a projected path.
pub open spec fn used_indirectly(fields: Seq<Field>, parameter: Seq<char>) -> bool {
    exists|i: int|
        0 <= i < fields.len() && (marks(#[trigger] fields[i], parameter) || projection(
            fields[i],
            parameter,
        ).is_some())
}

/// Whether the generator constrains a parameter: only a type parameter that
/// carries no constraint yet, and only when nothing overrides the inference.
/// Such a parameter is constrained when it is the type of a field; it is left
/// alone when it only occurs inside marker wrappers or at the head of
/// projected paths; in every other case it is constrained.
pub open spec fn needs_bound(parameter: GenericParameter, fields: Seq<Field>, overridden: bool)
    -> bool {
    &&& !overridden
    &&& parameter.kind == ParameterKind::Type
    &&& parameter.constraints@.len() == 0
    &&& (used_directly(fields, parameter.name@) || !used_indirectly(fields, parameter.name@))
}

/// Whether `name` is the name of one of the type parameters.
pub open spec fn names_parameter(parameters: Seq<GenericParameter>, name: Seq<char>) -> bool {
    exists|i: int|
        0 <= i < parameters.len() && (#[trigger] parameters[i]).kind == ParameterKind::Type
            && parameters[i].name@ == name
}

/// The type that needs the formatting capability on account of one field:
/// the whole instantiated marker wrapper, or the path that the field projects
/// out of a type parameter.
pub open spec fn field_constraint(field: Field, parameters: Seq<GenericParameter>) -> Option<
    Seq<char>,
> {
    if ends_in(field.ty, marker()) {
        Some(field.ty.text@)
    } else if field.ty.segments@.len() > 1 && names_parameter(
        parameters,
        field.ty.segments@[0].name@,
    ) {
        Some(field.ty.text@)
    } else {
        match first_argument(field.ty) {
            Some(inner) => if inner.segments@.len() > 1 && names_parameter(
                parameters,
                inner.segments@[0].name@,
            ) {
                Some(inner.text@)
            } else {
                None
            },
            None => None,
        }
    }
}

/// A constraint of the generated formatter, beside those on its parameters.
#[derive(Debug, PartialEq, Eq)]
pub enum Constraint {
    /// A fragment that the declaration supplies, spliced in as it stands.
    Verbatim(String),
    /// The type, given by its text, must have the formatting capability.
    Formatting(String),
}

/// A constraint as mathematics.
pub enum ConstraintText {
    Verbatim(Seq<char>),
    Formatting(Seq<char>),
}

impl View for Constraint {
    type V = ConstraintText;

    open spec fn view(&self) -> ConstraintText {
        match self {
            Constraint::Verbatim(text) => ConstraintText::Verbatim(text@),
            Constraint::Formatting(text) => ConstraintText::Formatting(text@),
        }
    }
}

/// The constraints that a list of values stands for.
pub open spec fn constraint_texts(constraints: Seq<Constraint>) -> Seq<ConstraintText> {
    Seq::new(constraints.len(), |i: int| constraints[i]@)
}

/// The constraints inferred from the fields, in declared order.
pub open spec fn inferred(fields: Seq<Field>, parameters: Seq<GenericParameter>) -> Seq<
    ConstraintText,
>
    decreases fields.len(),
{
    if fields.len() == 0 {
        Seq::empty()
    } else {
        match field_constraint(fields.last(), parameters) {
            Some(text) => inferred(fields.drop_last(), parameters).push(
                ConstraintText::Formatting(text),
            ),
            None => inferred(fields.drop_last(), parameters),
        }
    }
}

/// The constraints of the generated formatter: the override alone where the
/// declaration supplies one, and otherwise what the fields call for.
pub open spec fn constraints_of(
    fields: Seq<Field>,
    parameters: Seq<GenericParameter>,
    supplied: Option<Seq<char>>,
) -> Seq<ConstraintText> {
    match supplied {
        Some(text) => seq![ConstraintText::Verbatim(text)],
        None => inferred(fields, parameters),
    }
}

/// Whether `name` is the name of one of the type parameters.
pub fn is_parameter(parameters: &Vec<GenericParameter>, name: &String) -> (r: bool)
    ensures
        r == names_parameter(parameters@, name@),
{
    let mut i: usize = 0;
    while i < parameters.len()
        invariant
            i <= parameters@.len(),
            forall|j: int|
                0 <= j < i ==> !((#[trigger] parameters@[j]).kind == ParameterKind::Type
                    && parameters@[j].name@ == name@),
        decreases parameters@.len() - i,
    {
        if parameters[i].kind == ParameterKind::Type && parameters[i].name == *name {
            return true;
        }
        i = i + 1;
    }
    false
}

/// Whether `ty` is a path whose last segment is named `name`.
pub fn type_ends_in(ty: &TypeReference, name: &String) -> (r: bool)
    ensures
        r == ends_in(*ty, name@),
{
    let count: usize = ty.segments.len();
    count > 0 && ty.segments[count - 1].name == *name
}

/// The first generic argument of the last segment of `ty`, where it is a
/// type.
pub fn first_type_argument(ty: &TypeReference) -> (inner: Option<&TypeReference>)
    ensures
        match inner {
            Some(found) => first_argument(*ty) == Some(*found),
            None => first_argument(*ty).is_none(),
        },
{
    let count: usize = ty.segments.len();
    if count > 0 && ty.segments[count - 1].arguments.len() > 0 {
        match &ty.segments[count - 1].arguments[0] {
            GenericArgument::Type(inner) => Some(inner),
            GenericArgument::Other => None,
        }
    } else {
        None
    }
}

/// The type that needs the formatting capability on account of `field`.
pub fn constraint_of_field(field: &Field, parameters: &Vec<GenericParameter>) -> (r: Option<String>)
    ensures
        match r {
            Some(text) => field_constraint(*field, parameters@) == Some(text@),
            None => field_constraint(*field, parameters@).is_none(),
        },
{
    if type_ends_in(&field.ty, &String::from_str("PhantomData")) {
        return Some(field.ty.text.clone());
    }
    if field.ty.segments.len() > 1 && is_parameter(parameters, &field.ty.segments[0].name) {
        return Some(field.ty.text.clone());
    }
    match first_type_argument(&field.ty) {
        Some(inner) => {
            if inner.segments.len() > 1 && is_parameter(parameters, &inner.segments[0].name) {
                Some(inner.text.clone())
            } else {
                None
            }
        },
        None => None,
    }
}

/// Whether the field's type is the marker wrapper with `parameter` among its
/// arguments.
pub fn field_marks(field: &Field, parameter: &String) -> (r: bool)
    ensures
        r == marks(*field, parameter@),
{
    if !type_ends_in(&field.ty, &String::from_str("PhantomData")) {
        return false;
    }
    let last = &field.ty.segments[field.ty.segments.len() - 1];
    let mut a: usize = 0;
    while a < last.arguments.len()
        invariant
            a <= last.arguments@.len(),
            *last == field.ty.segments@.last(),
            ends_in(field.ty, marker()),
            forall|b: int| 0 <= b < a ==> !argument_names(#[trigger] last.arguments@[b], parameter@),
        decreases last.arguments@.len() - a,
    {
        let named = match &last.arguments[a] {
            GenericArgument::Type(inner) => type_ends_in(inner, parameter),
            GenericArgument::Other => false,
        };
        if named {
            return true;
        }
        a = a + 1;
    }
    false
}

/// Whether the field projects a path out of `parameter`.
pub fn field_projects(field: &Field, parameter: &String) -> (r: bool)
    ensures
        r == projection(*field, parameter@).is_some(),
{
    if type_ends_in(&field.ty, &String::from_str("PhantomData")) {
        return false;
    }
    if field.ty.segments.len() > 1 && field.ty.segments[0].name == *parameter {
        return true;
    }
    match first_type_argument(&field.ty) {
        Some(inner) => inner.segments.len() > 1 && inner.segments[0].name == *parameter,
        None => false,
    }
}

/// Whether the generator leaves the parameter named `parameter` alone
/// because of how the fields use it: never as a field's type, and somewhere
/// inside a marker wrapper or at the head of a projected path.
pub fn passed_over(fields: &Vec<Field>, parameter: &String) -> (r: bool)
    ensures
        r == (!used_directly(fields@, parameter@) && used_indirectly(fields@, parameter@)),
{
    let mut direct = false;
    let mut indirect = false;
    let mut i: usize = 0;
    while i < fields.len()
        invariant
            i <= fields@.len(),
            direct == exists|j: int|
                0 <= j < i && uses_directly(#[trigger] fields@[j], parameter@),
            indirect == exists|j: int|
                0 <= j < i && (marks(#[trigger] fields@[j], parameter@) || projection(
                    fields@[j],
                    parameter@,
                ).is_some()),
        decreases fields@.len() - i,
    {
        if type_ends_in(&fields[i].ty, parameter) {
            direct = true;
        }
        if field_marks(&fields[i], parameter) || field_projects(&fields[i], parameter) {
            indirect = true;
        }
        i = i + 1;
    }
    !direct && indirect
}

/// What a parameter is, as mathematics: its name, its kind and its
/// constraints.
pub open spec fn parameter_facts(parameter: GenericParameter) -> (
    Seq<char>,
    ParameterKind,
    Seq<Seq<char>>,
) {
    (parameter.name@, parameter.kind, views(parameter.constraints@))
}

/// What a parameter is once the generator has dealt with it: as before, with
/// the formatting capability added where the parameter needs it.
pub open spec fn bounded(parameter: GenericParameter, fields: Seq<Field>, overridden: bool) -> (
    Seq<char>,
    ParameterKind,
    Seq<Seq<char>>,
) {
    if needs_bound(parameter, fields, overridden) {
        (parameter.name@, parameter.kind, views(parameter.constraints@).push(capability()))
    } else {
        parameter_facts(parameter)
    }
}

/// Adds the formatting capability to every parameter that needs it.
pub fn add_trait_bounds(parameters: &mut Vec<GenericParameter>, fields: &Vec<Field>)
    ensures
        final(parameters)@.len() == old(parameters)@.len(),
        forall|i: int|
            0 <= i < old(parameters)@.len() ==> parameter_facts(#[trigger] final(parameters)@[i])
                == bounded(old(parameters)@[i], fields@, false),
{
    let count: usize = parameters.len();
    let mut i: usize = 0;
    while i < count
        invariant
            i <= count,
            count == old(parameters)@.len(),
            parameters@.len() == count,
            forall|j: int|
                0 <= j < i ==> parameter_facts(#[trigger] parameters@[j]) == bounded(
                    old(parameters)@[j],
                    fields@,
                    false,
                ),
            forall|j: int| i <= j < count ==> #[trigger] parameters@[j] == old(parameters)@[j],
        decreases count - i,
    {
        let wanted = parameters[i].kind == ParameterKind::Type && parameters[i].constraints.len()
            == 0 && !passed_over(fields, &parameters[i].name);
        if wanted {
            let ghost earlier = views(parameters@[i as int].constraints@);
            parameters[i].constraints.push(String::from_str("std::fmt::Debug"));
            proof {
                assert(views(parameters@[i as int].constraints@) =~= earlier.push(capability()));
            }
        }
        i = i + 1;
    }
}

/// A copy of a list of strings.
fn copy_strings(list: &Vec<String>) -> (copy: Vec<String>)
    ensures
        views(copy@) == views(list@),
{
    let mut copy: Vec<String> = Vec::new();
    let mut i: usize = 0;
    while i < list.len()
        invariant
            i <= list@.len(),
            copy@.len() == i,
            forall|j: int| 0 <= j < i ==> (#[trigger] copy@[j])@ == list@[j]@,
        decreases list@.len() - i,
    {
        copy.push(list[i].clone());
        i = i + 1;
    }
    proof {
        assert(views(copy@) =~= views(list@));
    }
    copy
}

/// A copy of a list of parameters.
fn copy_parameters(parameters: &Vec<GenericParameter>) -> (copy: Vec<GenericParameter>)
    ensures
        copy@.len() == parameters@.len(),
        forall|i: int|
            0 <= i < parameters@.len() ==> {
                &&& parameter_facts(#[trigger] copy@[i]) == parameter_facts(parameters@[i])
                &&& copy@[i].name@ == parameters@[i].name@
                &&& copy@[i].constraints@.len() == parameters@[i].constraints@.len()
            },
{
    let mut copy: Vec<GenericParameter> = Vec::new();
    let mut i: usize = 0;
    while i < parameters.len()
        invariant
            i <= parameters@.len(),
            copy@.len() == i,
            forall|j: int|
                0 <= j < i ==> {
                    &&& parameter_facts(#[trigger] copy@[j]) == parameter_facts(parameters@[j])
                    &&& copy@[j].name@ == parameters@[j].name@
                    &&& copy@[j].constraints@.len() == parameters@[j].constraints@.len()
                },
        decreases parameters@.len() - i,
    {
        let constraints = copy_strings(&parameters[i].constraints);
        proof {
            assert(views(constraints@).len() == views(parameters@[i as int].constraints@).len());
        }
        copy.push(
            GenericParameter {
                name: parameters[i].name.clone(),
                kind: parameters[i].kind,
                constraints,
            },
        );
        i = i + 1;
    }
    copy
}

/// Resolves the template that a field asks to be printed through: the
/// string of its attribute `attr_name = "..."`.
pub fn parse_field_attr_val(field: &Field, attr_name: &str) -> (r: Result<
    Option<String>,
    Diagnostic,
>)
    ensures
        resolution(r) == resolved_value(field.attributes@, attr_name@),
{
    parse_attr_val(&field.attributes, attr_name)
}

/// One line of the generated formatter: the field it prints and the
/// template it prints the field through, if any.
#[derive(Debug, PartialEq, Eq)]
pub struct Line {
    pub name: String,
    pub template: Option<String>,
}

/// The template that a field asks to be printed through.
pub open spec fn template_of(field: Field) -> Result<Option<Seq<char>>, Finding> {
    resolved_value(field.attributes@, "debug"@)
}

/// Whether `line` is the line that prints `field`.
pub open spec fn line_for(line: Line, field: Field) -> bool {
    &&& line.name@ == field.name@
    &&& template_of(field) == Ok::<Option<Seq<char>>, Finding>(
        match line.template {
            Some(text) => Some(text@),
            None => None,
        },
    )
}

/// What is wrong with the first field, at or after `from`, whose template
/// attribute has the wrong shape.
pub open spec fn first_template_finding(fields: Seq<Field>, from: int) -> Option<Finding>
    decreases fields.len() - from,
{
    if from < 0 || from >= fields.len() {
        None
    } else {
        match template_of(fields[from]) {
            Err(finding) => Some(finding),
            Ok(_) => first_template_finding(fields, from + 1),
        }
    }
}

/// The generated formatter of a record: the record's name, its parameters
/// with their constraints, the further constraints, and one line per field in
/// declared order.
#[derive(Debug, PartialEq, Eq)]
pub struct DebugImpl {
    pub name: String,
    pub parameters: Vec<GenericParameter>,
    pub constraints: Vec<Constraint>,
    pub lines: Vec<Line>,
}

/// The constraint fragment that a declaration supplies in place of the
/// inferred ones.
pub open spec fn supplied_bound(input: Declaration) -> Result<Option<Seq<char>>, Finding> {
    resolved(input.attributes@, "debug"@, "bound"@)
}

/// What keeps a formatter from being generated: the declaration's override
/// attribute has the wrong shape, or the declaration is no record with named
/// fields, or the template attribute of one of its fields has the wrong
/// shape.
pub open spec fn debug_finding(input: Declaration) -> Option<Finding> {
    match supplied_bound(input) {
        Err(finding) => Some(finding),
        Ok(_) => match input.members {
            Members::Record(fields) => first_template_finding(fields@, 0),
            _ => shape_finding(input),
        },
    }
}

/// Whether `plan` is the formatter generated for `input`.
pub open spec fn impl_for(plan: DebugImpl, input: Declaration) -> bool {
    let fields = record_fields(input);
    let supplied = match supplied_bound(input) {
        Ok(supplied) => supplied,
        Err(_) => None,
    };
    &&& plan.name@ == input.name@
    &&& plan.parameters@.len() == input.generics@.len()
    &&& forall|i: int|
        0 <= i < input.generics@.len() ==> parameter_facts(#[trigger] plan.parameters@[i])
            == bounded(input.generics@[i], fields, supplied.is_some())
    &&& constraint_texts(plan.constraints@) == constraints_of(fields, input.generics@, supplied)
    &&& plan.lines@.len() == fields.len()
    &&& forall|i: int| 0 <= i < fields.len() ==> line_for(#[trigger] plan.lines@[i], fields[i])
}

/// The constraints inferred from the fields, in declared order.
pub fn infer_constraints(fields: &Vec<Field>, parameters: &Vec<GenericParameter>) -> (constraints:
    Vec<Constraint>)
    ensures
        constraint_texts(constraints@) == inferred(fields@, parameters@),
{
    let mut constraints: Vec<Constraint> = Vec::new();
    let mut i: usize = 0;
    while i < fields.len()
        invariant
            i <= fields@.len(),
            constraint_texts(constraints@) =~= inferred(fields@.take(i as int), parameters@),
        decreases fields@.len() - i,
    {
        proof {
            assert(fields@.take(i + 1).drop_last() =~= fields@.take(i as int));
            assert(fields@.take(i + 1).last() == fields@[i as int]);
        }
        match constraint_of_field(&fields[i], parameters) {
            Some(text) => {
                let ghost earlier = constraint_texts(constraints@);
                constraints.push(Constraint::Formatting(text));
                proof {
                    assert(constraint_texts(constraints@) =~= earlier.push(
                        ConstraintText::Formatting(text@),
                    ));
                }
            },
            None => {},
        }
        i = i + 1;
    }
    proof {
        assert(fields@.take(fields@.len() as int) =~= fields@);
    }
    constraints
}

/// Generates the formatter of a record.
///
/// A constraint fragment supplied by the declaration is spliced in as it
/// stands and replaces all inference. Otherwise every type parameter without
/// a constraint of its own gets the formatting capability, unless it only
/// occurs inside marker wrappers or at the head of projected paths; those
/// wrappers and paths get the capability themselves.
pub fn generate_debug_impl(input: &Declaration) -> (r: Result<DebugImpl, Diagnostic>)
    ensures
        match r {
            Ok(plan) => debug_finding(*input).is_none() && impl_for(plan, *input),
            Err(d) => debug_finding(*input) == Some(d.finding()),
        },
{
    let supplied = match parse_attr_meta_val(&input.attributes, "debug", "bound") {
        Ok(supplied) => supplied,
        Err(d) => {
            return Err(d);
        },
    };
    let fields = match parse_fields(input) {
        Ok(fields) => fields,
        Err(d) => {
            return Err(d);
        },
    };
    let mut lines: Vec<Line> = Vec::new();
    let mut i: usize = 0;
    while i < fields.len()
        invariant
            i <= fields@.len(),
            lines@.len() == i,
            input.members == Members::Record(*fields),
            supplied_bound(*input) is Ok,
            first_template_finding(fields@, 0) == first_template_finding(fields@, i as int),
            forall|j: int| 0 <= j < i ==> line_for(#[trigger] lines@[j], fields@[j]),
        decreases fields@.len() - i,
    {
        match parse_field_attr_val(&fields[i], "debug") {
            Ok(template) => {
                lines.push(Line { name: fields[i].name.clone(), template });
            },
            Err(d) => {
                return Err(d);
            },
        }
        i = i + 1;
    }
    let mut parameters = copy_parameters(&input.generics);
    let constraints = match supplied {
        Some(text) => {
            let mut constraints: Vec<Constraint> = Vec::new();
            constraints.push(Constraint::Verbatim(text));
            proof {
                assert(constraint_texts(constraints@) =~= seq![ConstraintText::Verbatim(text@)]);
                assert forall|i: int| 0 <= i < input.generics@.len() implies parameter_facts(
                    #[trigger] parameters@[i],
                ) == bounded(input.generics@[i], fields@, true) by {}
            }
            constraints
        },
        None => {
            let ghost copied = parameters@;
            add_trait_bounds(&mut parameters, fields);
            proof {
                assert forall|i: int| 0 <= i < input.generics@.len() implies parameter_facts(
                    #[trigger] parameters@[i],
                ) == bounded(input.generics@[i], fields@, false) by {
                    assert(parameter_facts(copied[i]) == parameter_facts(input.generics@[i]));
                    assert(needs_bound(copied[i], fields@, false) == needs_bound(
                        input.generics@[i],
                        fields@,
                        false,
                    ));
                }
            }
            infer_constraints(fields, &input.generics)
        },
    };
    Ok(DebugImpl { name: input.name.clone(), parameters, constraints, lines })
}

/// Whether `out` is the fragment for `input`: the formatter generated for
/// it, or the finding that keeps it from being generated.
pub open spec fn derives(out: Fragment<DebugImpl>, input: Declaration) -> bool {
    match out {
        Fragment::Generated(plan) => debug_finding(input).is_none() && impl_for(plan, input),
        Fragment::Flagged(d) => debug_finding(input) == Some(d.finding()),
        Fragment::Verbatim => false,
    }
}

/// Generates the formatter of a record; a declaration with anything wrong
/// comes back flagged and with nothing generated.
pub fn token_stream(input: &Declaration) -> (out: Fragment<DebugImpl>)
    ensures
        derives(out, *input),
{
    match generate_debug_impl(input) {
        Ok(plan) => Fragment::Generated(plan),
        Err(d) => Fragment::Flagged(d),
    }
}

/// Derives the formatter of the record that carries the annotation.
pub fn derive(input: &Declaration) -> (out: Fragment<DebugImpl>)
    ensures
        derives(out, *input),
{
    token_stream(input)
}

/// The entries that the formatter prints between the braces: each field's
/// name, a colon, and the text of its value.
pub open spec fn entries(names: Seq<Seq<char>>, values: Seq<Seq<char>>) -> Seq<Seq<char>> {
    Seq::new(names.len(), |i: int| names[i] + ": "@ + values[i])
}

/// What the formatter prints for a record named `name`: the name alone for a
/// record without fields, and otherwise the name and, between braces, the
/// entries in declared order, separated by commas.
pub open spec fn formatted(name: Seq<char>, names: Seq<Seq<char>>, values: Seq<Seq<char>>) -> Seq<
    char,
> {
    if names.len() == 0 {
        name
    } else {
        name + " { "@ + joined(entries(names, values), ", "@) + " }"@
    }
}

/// The names of the fields that the lines print.
pub open spec fn line_names(lines: Seq<Line>) -> Seq<Seq<char>> {
    Seq::new(lines.len(), |i: int| lines[i].name@)
}

impl DebugImpl {
    /// What the formatter prints for a value whose fields, in declared
    /// order, have the texts `values`. A field with a template has been put
    /// through it by the caller.
    pub fn format(&self, values: &Vec<String>) -> (text: String)
        requires
            values@.len() == self.lines@.len(),
        ensures
            text@ == formatted(self.name@, line_names(self.lines@), views(values@)),
    {
        let mut text = self.name.clone();
        if self.lines.len() == 0 {
            return text;
        }
        let mut parts: Vec<String> = Vec::new();
        let mut i: usize = 0;
        while i < self.lines.len()
            invariant
                i <= self.lines@.len(),
                values@.len() == self.lines@.len(),
                parts@.len() == i,
                forall|j: int|
                    0 <= j < i ==> (#[trigger] parts@[j])@ == entries(
                        line_names(self.lines@),
                        views(values@),
                    )[j],
            decreases self.lines@.len() - i,
        {
            let mut part = self.lines[i].name.clone();
            part.append(": ");
            part.append(values[i].as_str());
            parts.push(part);
            i = i + 1;
        }
        proof {
            assert(views(parts@) =~= entries(line_names(self.lines@), views(values@)));
        }
        text.append(" { ");
        text.append(join(&parts, ", ").as_str());
        text.append(" }");
        text
    }
}

/// Formatting is a function of the value: two texts printed for the same
/// record and the same field values are the same text.
pub proof fn lemma_formatting_repeats(
    name: Seq<char>,
    names: Seq<Seq<char>>,
    values: Seq<Seq<char>>,
    first: Seq<char>,
    second: Seq<char>,
)
    requires
        first == formatted(name, names, values),
        second == formatted(name, names, values),
    ensures
        first == second,
{
}

/// A type parameter that is the type of a field gets the formatting
/// capability, whatever else the fields hold.
pub proof fn lemma_direct_use_is_constrained(
    parameter: GenericParameter,
    fields: Seq<Field>,
    at: int,
)
    requires
        parameter.kind == ParameterKind::Type,
        parameter.constraints@.len() == 0,
        0 <= at < fields.len(),
        uses_directly(fields[at], parameter.name@),
    ensures
        needs_bound(parameter, fields, false),
        bounded(parameter, fields, false).2 == seq![capability()],
{
    assert(views(parameter.constraints@) =~= Seq::<Seq<char>>::empty());
    assert(Seq::<Seq<char>>::empty().push(capability()) =~= seq![capability()]);
}

/// A type parameter that occurs inside a marker wrapper and is the type of
/// no field is left without the capability, and the whole instantiated
/// wrapper gets it instead.
pub proof fn lemma_marker_is_constrained_instead(
    parameter: GenericParameter,
    parameters: Seq<GenericParameter>,
    fields: Seq<Field>,
    at: int,
)
    requires
        0 <= at < fields.len(),
        marks(fields[at], parameter.name@),
        !used_directly(fields, parameter.name@),
    ensures
        !needs_bound(parameter, fields, false),
        bounded(parameter, fields, false) == parameter_facts(parameter),
        field_constraint(fields[at], parameters) == Some(fields[at].ty.text@),
{
}

/// A supplied constraint fragment suppresses all inference: no parameter
/// gets the capability, and the fragment is the only further constraint, as
/// it was written.
pub proof fn lemma_override_replaces_inference(
    parameter: GenericParameter,
    parameters: Seq<GenericParameter>,
    fields: Seq<Field>,
    fragment: Seq<char>,
)
    ensures
        !needs_bound(parameter, fields, true),
        bounded(parameter, fields, true) == parameter_facts(parameter),
        constraints_of(fields, parameters, Some(fragment)) == seq![
            ConstraintText::Verbatim(fragment),
        ],
{
}

/// A `debug` attribute of the wrong shape on a declaration keeps the
/// formatter from being generated, whatever the declaration holds: the
/// finding is the one at that attribute.
pub proof fn lemma_malformed_override_stops_generation(input: Declaration, at: int)
    requires
        find_attribute(input.attributes@, "debug"@, 0) == Some(at),
        body_value(input.attributes@[at].body, "bound"@).is_none(),
    ensures
        debug_finding(input) matches Some(finding) && finding.1 == input.attributes@[at].location,
        forall|out: Fragment<DebugImpl>| derives(out, input) ==> out is Flagged,
{
}

/// A template attribute of the wrong shape, at or after `from`, makes the
/// fields have a finding from `from` on.
proof fn lemma_template_finding_surfaces(fields: Seq<Field>, from: int, at: int)
    requires
        0 <= from <= at < fields.len(),
        template_of(fields[at]) is Err,
    ensures
        first_template_finding(fields, from).is_some(),
    decreases at - from,
{
    if from < at {
        lemma_template_finding_surfaces(fields, from + 1, at);
    }
}

/// A template attribute of the wrong shape on any field keeps the formatter
/// from being generated: nothing is left to fail when the formatter runs.
pub proof fn lemma_malformed_template_stops_generation(input: Declaration, field: int, at: int)
    requires
        0 <= field < record_fields(input).len(),
        find_attribute(record_fields(input)[field].attributes@, "debug"@, 0) == Some(at),
        crate::attribute::body_text(record_fields(input)[field].attributes@[at].body).is_none(),
    ensures
        debug_finding(input).is_some(),
        forall|out: Fragment<DebugImpl>| derives(out, input) ==> out is Flagged,
{
    if supplied_bound(input) is Ok {
        lemma_template_finding_surfaces(record_fields(input), 0, field);
    }
}

} // verus!
