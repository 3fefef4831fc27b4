//! The declaration model: what a record or an enumeration looks like once the
//! front end has read it.

use vstd::prelude::*;
use crate::diagnostic::Location;

verus! {

/// Who may see an item.
#[derive(Debug, PartialEq, Eq)]
pub enum Visibility {
    /// No visibility was written.
    Private,
    /// Visible everywhere.
    Public,
    /// Visible within the scope given by the text, such as `pub(crate)`.
    Restricted(String),
}

/// A visibility as mathematics.
pub enum Scope {
    Private,
    Public,
    Restricted(Seq<char>),
}

impl View for Visibility {
    type V = Scope;

    open spec fn view(&self) -> Scope {
        match self {
            Visibility::Private => Scope::Private,
            Visibility::Public => Scope::Public,
            Visibility::Restricted(text) => Scope::Restricted(text@),
        }
    }
}

impl Visibility {
    /// A visibility that says the same as this one.
    pub fn duplicate(&self) -> (copy: Visibility)
        ensures
            copy@ == self@,
    {
        match self {
            Visibility::Private => Visibility::Private,
            Visibility::Public => Visibility::Public,
            Visibility::Restricted(scope) => Visibility::Restricted(scope.clone()),
        }
    }
}

/// A path of identifiers, such as `Error::Io`.
#[derive(Debug, PartialEq, Eq)]
pub struct Path {
    pub segments: Vec<String>,
    pub location: Location,
}

/// A reference to a type.
///
/// `text` is the type as it was written. For a type that is a path,
/// `segments` holds the path's segments in order; for every other type it is
/// empty.
#[derive(Debug, PartialEq, Eq)]
pub struct TypeReference {
    pub text: String,
    pub segments: Vec<PathSegment>,
}

/// One segment of a type path, with the generic arguments written between
/// its angle brackets.
#[derive(Debug, PartialEq, Eq)]
pub struct PathSegment {
    pub name: String,
    pub arguments: Vec<GenericArgument>,
}

/// A generic argument of a path segment.
#[derive(Debug, PartialEq, Eq)]
pub enum GenericArgument {
    /// A type.
    Type(TypeReference),
    /// Anything else: a lifetime, a constant, a binding.
    Other,
}

/// The value of an attribute or of one of its entries.
#[derive(Debug, PartialEq, Eq)]
pub enum Literal {
    /// A string literal, by its value.
    Text(String),
    /// Any other literal.
    Other,
}

/// One entry of an attribute's list.
#[derive(Debug, PartialEq, Eq)]
pub enum Entry {
    /// `key = value`.
    Pair { key: String, value: Literal },
    /// Anything else: a bare word, a nested list, a literal.
    Other,
}

/// What follows an attribute's name.
#[derive(Debug, PartialEq, Eq)]
pub enum AttributeBody {
    /// Nothing: `#[name]`.
    Word,
    /// A value: `#[name = value]`.
    Value(Literal),
    /// A list: `#[name(entry, ..)]`.
    List(Vec<Entry>),
    /// Tokens that form none of these.
    Malformed,
}

/// An attribute on a declaration or on a field.
#[derive(Debug, PartialEq, Eq)]
pub struct Attribute {
    pub namespace: String,
    pub body: AttributeBody,
    pub location: Location,
}

/// A named field of a record.
#[derive(Debug, PartialEq, Eq)]
pub struct Field {
    pub name: String,
    pub ty: TypeReference,
    pub attributes: Vec<Attribute>,
    pub visibility: Visibility,
    pub location: Location,
}

/// The shape of an enumeration's variant.
#[derive(Clone, Copy, Debug, PartialEq, Eq, Structural)]
pub enum VariantShape {
    Unit,
    Tuple,
    Record,
}

/// One alternative of an enumeration.
#[derive(Debug, PartialEq, Eq)]
pub struct Variant {
    pub name: String,
    pub shape: VariantShape,
    pub location: Location,
}

/// What a generic parameter stands for.
#[derive(Clone, Copy, Debug, PartialEq, Eq, Structural)]
pub enum ParameterKind {
    Type,
    Lifetime,
    Constant,
}

/// A generic parameter with the constraints written on it.
#[derive(Debug, PartialEq, Eq)]
pub struct GenericParameter {
    pub name: String,
    pub kind: ParameterKind,
    pub constraints: Vec<String>,
}

/// The members of a declaration.
#[derive(Debug, PartialEq, Eq)]
pub enum Members {
    /// A record with named fields.
    Record(Vec<Field>),
    /// A record without named fields; the place of its field list.
    Unnamed(Location),
    /// An enumeration.
    Enumeration(Vec<Variant>),
    /// Any other item.
    Other,
}

/// A declaration as the front end read it.
#[derive(Debug, PartialEq, Eq)]
pub struct Declaration {
    pub name: String,
    pub visibility: Visibility,
    pub generics: Vec<GenericParameter>,
    pub attributes: Vec<Attribute>,
    pub members: Members,
    pub location: Location,
}

/// The names of a list of fields, in order.
pub open spec fn field_names(fields: Seq<Field>) -> Seq<Seq<char>> {
    Seq::new(fields.len(), |i: int| fields[i].name@)
}

/// The names of a list of variants, in order.
pub open spec fn variant_names(variants: Seq<Variant>) -> Seq<Seq<char>> {
    Seq::new(variants.len(), |i: int| variants[i].name@)
}

/// No name occurs twice.
pub open spec fn distinct(names: Seq<Seq<char>>) -> bool {
    forall|i: int, j: int| 0 <= i < j < names.len() ==> names[i] != names[j]
}

impl Declaration {
    /// The names of the members, in declared order.
    pub open spec fn member_names(self) -> Seq<Seq<char>> {
        match self.members {
            Members::Record(fields) => field_names(fields@),
            Members::Enumeration(variants) => variant_names(variants@),
            _ => Seq::empty(),
        }
    }

    /// The invariant of a declaration: its members' names are distinct.
    pub open spec fn well_formed(self) -> bool {
        distinct(self.member_names())
    }

    /// Whether the declaration is well formed.
    pub fn is_well_formed(&self) -> (r: bool)
        ensures
            r == self.well_formed(),
    {
        let mut names: Vec<String> = Vec::new();
        match &self.members {
            Members::Record(fields) => {
                let mut i: usize = 0;
                while i < fields.len()
                    invariant
                        i <= fields@.len(),
                        names@.len() == i,
                        forall|j: int| 0 <= j < i ==> (#[trigger] names@[j])@ == fields@[j].name@,
                    decreases fields@.len() - i,
                {
                    names.push(fields[i].name.clone());
                    i = i + 1;
                }
                proof {
                    assert(crate::text::views(names@) =~= self.member_names());
                }
            },
            Members::Enumeration(variants) => {
                let mut i: usize = 0;
                while i < variants.len()
                    invariant
                        i <= variants@.len(),
                        names@.len() == i,
                        forall|j: int| 0 <= j < i ==> (#[trigger] names@[j])@ == variants@[j].name@,
                    decreases variants@.len() - i,
                {
                    names.push(variants[i].name.clone());
                    i = i + 1;
                }
                proof {
                    assert(crate::text::views(names@) =~= self.member_names());
                }
            },
            _ => {
                proof {
                    assert(crate::text::views(names@) =~= self.member_names());
                }
            },
        }
        all_distinct(&names)
    }
}

/// Whether no name occurs twice in `names`.
pub fn all_distinct(names: &Vec<String>) -> (r: bool)
    ensures
        r == distinct(crate::text::views(names@)),
{
    let ghost all = crate::text::views(names@);
    let mut j: usize = 0;
    while j < names.len()
        invariant
            j <= names@.len(),
            all == crate::text::views(names@),
            forall|a: int, b: int| 0 <= a < b < j ==> all[a] != all[b],
        decreases names@.len() - j,
    {
        let mut i: usize = 0;
        while i < j
            invariant
                i <= j < names@.len(),
                all == crate::text::views(names@),
                forall|a: int| 0 <= a < i ==> all[a] != all[j as int],
            decreases j - i,
        {
            if names[i] == names[j] {
                proof {
                    assert(all[i as int] == all[j as int]);
                }
                return false;
            }
            i = i + 1;
        }
        j = j + 1;
    }
    true
}

} // verus!
