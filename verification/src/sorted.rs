//! The order validators: an enumeration's variants, and the arms of the
//! tagged dispatch expressions of a function body.

use vstd::prelude::*;
use vstd::string::*;
use crate::diagnostic::{Diagnostic, Finding, Fragment, Location, first_of, reports};
use crate::model::{Declaration, Members, Path, Variant};
use crate::order::{Key, arranged, compare_orders, keys_of, order_finding, sort_pairs};
use crate::text::{join, joined, views};

verus! {

/// The pattern of one arm of a dispatch expression.
#[derive(Debug, PartialEq, Eq)]
pub enum Pattern {
    /// A path alone, such as `Error::Io`.
    Identifier(Path),
    /// A path with arguments, such as `Error::Io(e)`.
    Constructor(Path),
    /// A path with named fields, such as `Error::Io { source }`.
    Fields(Path),
    /// A fixed-length sequence of `elements` patterns, such as `[a, b]`.
    Sequence { elements: usize, location: Location },
    /// Any other pattern: a wildcard, a binding, a literal, a range.
    Other,
}

/// One arm of a dispatch expression: its pattern, and the dispatch
/// expressions found in its guard and its body, in the order they are
/// written.
#[derive(Debug, PartialEq, Eq)]
pub struct Arm {
    pub pattern: Pattern,
    pub nested: Vec<Dispatch>,
}

/// A dispatch expression: the paths of the attributes written on it, the
/// dispatch expressions found in the value it matches on, and its arms.
#[derive(Debug, PartialEq, Eq)]
pub struct Dispatch {
    pub attributes: Vec<Path>,
    pub subject: Vec<Dispatch>,
    pub arms: Vec<Arm>,
}

/// A function body, as the outermost dispatch expressions found in it, in the
/// order they are written.
#[derive(Debug, PartialEq, Eq)]
pub struct FunctionBody {
    pub dispatches: Vec<Dispatch>,
}

/// The name of a path: its segments joined by `::`.
pub open spec fn path_name(path: Path) -> Seq<char> {
    joined(views(path.segments@), "::"@)
}

/// The name of a path: its segments joined by `::`.
pub fn get_path_name(path: &Path) -> (name: String)
    ensures
        name@ == path_name(*path),
{
    join(&path.segments, "::")
}

/// The keys of an enumeration's variants, in declared order.
pub open spec fn variant_keys(variants: Seq<Variant>) -> Seq<Key> {
    Seq::new(variants.len(), |i: int| (variants[i].name@, variants[i].location))
}

/// The variants' names with their places, stably sorted by name.
pub fn get_sorted_pairs(variants: &Vec<Variant>) -> (sorted: Vec<(String, Location)>)
    ensures
        keys_of(sorted@) == arranged(variant_keys(variants@)),
{
    let declared = declared_pairs(variants);
    sort_pairs(&declared)
}

/// The variants' names with their places, in declared order.
fn declared_pairs(variants: &Vec<Variant>) -> (pairs: Vec<(String, Location)>)
    ensures
        keys_of(pairs@) == variant_keys(variants@),
{
    let mut pairs: Vec<(String, Location)> = Vec::new();
    let mut i: usize = 0;
    while i < variants.len()
        invariant
            i <= variants@.len(),
            pairs@.len() == i,
            forall|j: int| 0 <= j < i ==> keys_of(pairs@)[j] == variant_keys(variants@)[j],
        decreases variants@.len() - i,
    {
        let ghost earlier = pairs@;
        pairs.push((variants[i].name.clone(), variants[i].location));
        proof {
            assert forall|j: int| 0 <= j < i + 1 implies keys_of(pairs@)[j] == variant_keys(
                variants@,
            )[j] by {
                if j < i {
                    assert(pairs@[j] == earlier[j]);
                    assert(keys_of(earlier)[j] == keys_of(pairs@)[j]);
                }
            }
        }
        i = i + 1;
    }
    proof {
        assert(keys_of(pairs@) =~= variant_keys(variants@));
    }
    pairs
}

/// The message for an item that is no enumeration.
pub open spec fn wrong_target_message() -> Seq<char> {
    "expected enumeration"@
}

/// What the enumeration check finds in `item`, annotated at `site`: that it
/// is no enumeration, or the first variant out of order, or nothing.
pub open spec fn item_finding(item: Declaration, site: Location) -> Option<Finding> {
    match item.members {
        Members::Enumeration(variants) => order_finding(variant_keys(variants@)),
        _ => Some((wrong_target_message(), site)),
    }
}

/// Checks that `item`, annotated at `site`, is an enumeration whose variants
/// are declared in sorted order.
pub fn parse_item(item: &Declaration, site: Location) -> (r: Result<(), Diagnostic>)
    ensures
        reports(r, item_finding(*item, site)),
{
    match &item.members {
        Members::Enumeration(variants) => {
            let declared = declared_pairs(variants);
            let sorted = sort_pairs(&declared);
            compare_orders(&declared, &sorted)
        },
        _ => Err(Diagnostic::new(String::from_str("expected enumeration"), site)),
    }
}

/// Whether `out` is the fragment for a unit in which a check found
/// `finding`: the unit as written, flagged where there is a finding.
pub open spec fn gates(out: Fragment<()>, finding: Option<Finding>) -> bool {
    match out {
        Fragment::Verbatim => finding.is_none(),
        Fragment::Flagged(d) => finding == Some(d.finding()),
        Fragment::Generated(_) => false,
    }
}

/// The enumeration check as a transformation: the item comes back as it was
/// written, flagged with what the check found. The check never rewrites.
pub fn token_stream(item: &Declaration, site: Location) -> (out: Fragment<()>)
    ensures
        gates(out, item_finding(*item, site)),
{
    match parse_item(item, site) {
        Ok(_) => Fragment::Verbatim,
        Err(d) => Fragment::Flagged(d),
    }
}

/// Checks the item that carries the annotation at `site`.
pub fn sorted(item: &Declaration, site: Location) -> (out: Fragment<()>)
    ensures
        gates(out, item_finding(*item, site)),
{
    token_stream(item, site)
}

/// The attribute path that tags a dispatch expression for checking.
pub open spec fn tag() -> Seq<char> {
    "sorted"@
}

/// The position of the first tag at or after `from` among the attributes.
pub open spec fn tag_position(attributes: Seq<Path>, from: int) -> Option<int>
    decreases attributes.len() - from,
{
    if from < 0 || from >= attributes.len() {
        None
    } else if path_name(attributes[from]) == tag() {
        Some(from)
    } else {
        tag_position(attributes, from + 1)
    }
}

/// The attributes without the first tag.
pub open spec fn without_tag(attributes: Seq<Path>) -> Seq<Path> {
    match tag_position(attributes, 0) {
        Some(at) => attributes.remove(at),
        None => attributes,
    }
}

/// Finds the first tag among the attributes.
pub fn find_tag(attributes: &Vec<Path>) -> (at: Option<usize>)
    ensures
        match at {
            Some(i) => tag_position(attributes@, 0) == Some(i as int) && i < attributes@.len(),
            None => tag_position(attributes@, 0).is_none(),
        },
{
    let mut i: usize = 0;
    while i < attributes.len()
        invariant
            i <= attributes@.len(),
            tag_position(attributes@, 0) == tag_position(attributes@, i as int),
        decreases attributes@.len() - i,
    {
        let name = get_path_name(&attributes[i]);
        if name == String::from_str("sorted") {
            return Some(i);
        }
        i = i + 1;
    }
    None
}

impl Pattern {
    /// The key by which an arm with this pattern is ordered: the name of its
    /// path, for the three kinds of pattern that have one.
    pub open spec fn key(self) -> Option<Key> {
        match self {
            Pattern::Identifier(path) => Some((path_name(path), path.location)),
            Pattern::Constructor(path) => Some((path_name(path), path.location)),
            Pattern::Fields(path) => Some((path_name(path), path.location)),
            _ => None,
        }
    }

    /// Whether this is a sequence pattern without elements.
    pub open spec fn is_empty_sequence(self) -> bool {
        match self {
            Pattern::Sequence { elements, .. } => elements == 0,
            _ => false,
        }
    }
}

/// The keys of the arms that are ordered, in declared order; arms of any
/// other pattern leave no trace.
pub open spec fn arm_keys(arms: Seq<Arm>) -> Seq<Key>
    decreases arms.len(),
{
    if arms.len() == 0 {
        Seq::empty()
    } else {
        match arms.last().pattern.key() {
            Some(key) => arm_keys(arms.drop_last()).push(key),
            None => arm_keys(arms.drop_last()),
        }
    }
}

/// The ordered arms' names with their places, in declared order.
pub fn get_match_pairs(arms: &Vec<Arm>) -> (pairs: Vec<(String, Location)>)
    ensures
        keys_of(pairs@) == arm_keys(arms@),
{
    let mut pairs: Vec<(String, Location)> = Vec::new();
    let mut i: usize = 0;
    while i < arms.len()
        invariant
            i <= arms@.len(),
            keys_of(pairs@) =~= arm_keys(arms@.take(i as int)),
        decreases arms@.len() - i,
    {
        let ghost earlier = pairs@;
        proof {
            assert(arms@.take(i + 1).drop_last() =~= arms@.take(i as int));
            assert(arms@.take(i + 1).last() == arms@[i as int]);
        }
        match &arms[i].pattern {
            Pattern::Identifier(path) | Pattern::Constructor(path) | Pattern::Fields(path) => {
                pairs.push((get_path_name(path), path.location));
                proof {
                    assert(keys_of(pairs@) =~= keys_of(earlier).push(
                        (path_name(*path), path.location),
                    ));
                }
            },
            _ => {},
        }
        i = i + 1;
    }
    proof {
        assert(arms@.take(arms@.len() as int) =~= arms@);
    }
    pairs
}

/// The ordered arms' names with their places, stably sorted by name.
pub fn get_match_sorted_pairs(arms: &Vec<Arm>) -> (sorted: Vec<(String, Location)>)
    ensures
        keys_of(sorted@) == arranged(arm_keys(arms@)),
{
    let declared = get_match_pairs(arms);
    sort_pairs(&declared)
}

/// The place of the first sequence pattern without elements at or after
/// `from`.
pub open spec fn first_empty_sequence(arms: Seq<Arm>, from: int) -> Option<Location>
    decreases arms.len() - from,
{
    if from < 0 || from >= arms.len() {
        None
    } else {
        match arms[from].pattern {
            Pattern::Sequence { elements, location } if elements == 0 => Some(location),
            _ => first_empty_sequence(arms, from + 1),
        }
    }
}

/// The message for a pattern that has no ordering key.
pub open spec fn unsupported_message() -> Seq<char> {
    "unsupported by #[sorted]"@
}

/// What is wrong with the arms of one tagged dispatch expression: a sequence
/// pattern without elements, wherever it stands; failing that, the first
/// ordered arm that is out of order.
pub open spec fn arms_finding(arms: Seq<Arm>) -> Option<Finding> {
    match first_empty_sequence(arms, 0) {
        Some(location) => Some((unsupported_message(), location)),
        None => order_finding(arm_keys(arms)),
    }
}

/// Checks the arms of one tagged dispatch expression.
pub fn check_arms(arms: &Vec<Arm>) -> (r: Result<(), Diagnostic>)
    ensures
        reports(r, arms_finding(arms@)),
{
    let mut i: usize = 0;
    while i < arms.len()
        invariant
            i <= arms@.len(),
            first_empty_sequence(arms@, 0) == first_empty_sequence(arms@, i as int),
        decreases arms@.len() - i,
    {
        match &arms[i].pattern {
            Pattern::Sequence { elements, location } => {
                if *elements == 0 {
                    return Err(
                        Diagnostic::new(String::from_str("unsupported by #[sorted]"), *location),
                    );
                }
            },
            _ => {},
        }
        i = i + 1;
    }
    let declared = get_match_pairs(arms);
    let sorted = sort_pairs(&declared);
    compare_orders(&declared, &sorted)
}

/// What the check finds in a dispatch expression and everything nested in
/// it: for a tagged expression what is wrong with its own arms, failing that
/// the first finding in the value it matches on, failing that the first
/// finding in its arms.
pub open spec fn dispatch_finding(node: Dispatch) -> Option<Finding>
    decreases node, 0nat,
{
    let own = if tag_position(node.attributes@, 0).is_some() {
        arms_finding(node.arms@)
    } else {
        None
    };
    first_of(own, first_of(list_finding(node.subject@, 0), nested_finding(node.arms@, 0)))
}

/// The first finding in the dispatch expressions of `list` from `from` on.
pub open spec fn list_finding(list: Seq<Dispatch>, from: int) -> Option<Finding>
    decreases list, list.len() - from,
{
    if from < 0 || from >= list.len() {
        None
    } else {
        first_of(dispatch_finding(list[from]), list_finding(list, from + 1))
    }
}

/// The first finding in what is nested in the arms from `from` on.
pub open spec fn nested_finding(arms: Seq<Arm>, from: int) -> Option<Finding>
    decreases arms, arms.len() - from,
{
    if from < 0 || from >= arms.len() {
        None
    } else {
        first_of(list_finding(arms[from].nested@, 0), nested_finding(arms, from + 1))
    }
}

/// Whether `new` is `old` with the tag taken off it and off every dispatch
/// expression nested in it, and nothing else changed.
pub open spec fn stripped(new: Dispatch, old: Dispatch) -> bool
    decreases old,
{
    &&& new.attributes@ == without_tag(old.attributes@)
    &&& list_stripped(new.subject@, old.subject@)
    &&& new.arms@.len() == old.arms@.len()
    &&& forall|i: int|
        0 <= i < old.arms@.len() ==> {
            &&& (#[trigger] new.arms@[i]).pattern == old.arms@[i].pattern
            &&& list_stripped(new.arms@[i].nested@, old.arms@[i].nested@)
        }
}

/// Whether each dispatch expression of `new` is the one of `old` at its
/// position, stripped.
pub open spec fn list_stripped(new: Seq<Dispatch>, old: Seq<Dispatch>) -> bool
    decreases old,
{
    &&& new.len() == old.len()
    &&& forall|i: int| 0 <= i < old.len() ==> stripped(#[trigger] new[i], old[i])
}

/// Visits one dispatch expression and everything nested in it: takes the
/// tags off, checks the arms of each tagged expression, and reports the first
/// finding.
pub fn visit_expr_match_mut(node: &mut Dispatch) -> (r: Result<(), Diagnostic>)
    ensures
        stripped(*final(node), *old(node)),
        reports(r, dispatch_finding(*old(node))),
    decreases *old(node), 0nat,
{
    let mut outcome: Result<(), Diagnostic> = Ok(());
    let tag = find_tag(&node.attributes);
    if let Some(at) = tag {
        node.attributes.remove(at);
        outcome = check_arms(&node.arms);
    }
    let ghost own = if tag_position(old(node).attributes@, 0).is_some() {
        arms_finding(old(node).arms@)
    } else {
        None
    };
    let inner = visit_all(&mut node.subject);
    if outcome.is_ok() {
        outcome = inner;
    }
    let ghost upto_subject = first_of(own, list_finding(old(node).subject@, 0));
    let ghost mut found: Option<Finding> = upto_subject;
    let count: usize = node.arms.len();
    let mut i: usize = 0;
    while i < count
        invariant
            i <= count,
            count == old(node).arms@.len(),
            node.arms@.len() == count,
            node.attributes@ == without_tag(old(node).attributes@),
            list_stripped(node.subject@, old(node).subject@),
            forall|j: int|
                0 <= j < count ==> (#[trigger] node.arms@[j]).pattern == old(node).arms@[j].pattern,
            forall|j: int|
                0 <= j < i ==> list_stripped(
                    (#[trigger] node.arms@[j]).nested@,
                    old(node).arms@[j].nested@,
                ),
            forall|j: int| i <= j < count ==> #[trigger] node.arms@[j] == old(node).arms@[j],
            reports(outcome, found),
            first_of(found, nested_finding(old(node).arms@, i as int)) == first_of(
                upto_subject,
                nested_finding(old(node).arms@, 0),
            ),
        decreases count - i,
    {
        let inner = visit_all(&mut node.arms[i].nested);
        if outcome.is_ok() {
            outcome = inner;
            proof {
                found = list_finding(old(node).arms@[i as int].nested@, 0);
            }
        }
        i = i + 1;
    }
    outcome
}

/// Visits each dispatch expression of `list` in order and reports the first
/// finding.
pub fn visit_all(list: &mut Vec<Dispatch>) -> (r: Result<(), Diagnostic>)
    ensures
        list_stripped(final(list)@, old(list)@),
        reports(r, list_finding(old(list)@, 0)),
    decreases *old(list), 1nat,
{
    let mut outcome: Result<(), Diagnostic> = Ok(());
    let ghost mut found: Option<Finding> = None;
    let count: usize = list.len();
    let mut i: usize = 0;
    while i < count
        invariant
            i <= count,
            count == old(list)@.len(),
            list@.len() == count,
            forall|j: int| 0 <= j < i ==> stripped(#[trigger] list@[j], old(list)@[j]),
            forall|j: int| i <= j < count ==> #[trigger] list@[j] == old(list)@[j],
            reports(outcome, found),
            first_of(found, list_finding(old(list)@, i as int)) == list_finding(old(list)@, 0),
        decreases count - i,
    {
        let inner = visit_expr_match_mut(&mut list[i]);
        if outcome.is_ok() {
            outcome = inner;
            proof {
                found = dispatch_finding(old(list)@[i as int]);
            }
        }
        i = i + 1;
    }
    outcome
}

/// What the dispatch check finds in a function body.
pub open spec fn body_finding(body: FunctionBody) -> Option<Finding> {
    list_finding(body.dispatches@, 0)
}

/// Checks every tagged dispatch expression of a function body, at any depth,
/// and takes the tags off. Untagged expressions are left as they are. The
/// body comes back flagged with the first finding.
pub fn check_token_stream(body: &mut FunctionBody) -> (out: Fragment<()>)
    ensures
        list_stripped(final(body).dispatches@, old(body).dispatches@),
        gates(out, body_finding(*old(body))),
{
    match visit_all(&mut body.dispatches) {
        Ok(_) => Fragment::Verbatim,
        Err(d) => Fragment::Flagged(d),
    }
}

/// Checks the function body that carries the annotation.
pub fn check(body: &mut FunctionBody) -> (out: Fragment<()>)
    ensures
        list_stripped(final(body).dispatches@, old(body).dispatches@),
        gates(out, body_finding(*old(body))),
{
    check_token_stream(body)
}

/// A sequence pattern without elements among the arms is reported as
/// unsupported, whatever the order of the other arms.
pub proof fn lemma_empty_sequence_is_unsupported(arms: Seq<Arm>, at: int)
    requires
        0 <= at < arms.len(),
        arms[at].pattern.is_empty_sequence(),
    ensures
        arms_finding(arms) matches Some(finding) && finding.0 == unsupported_message(),
{
    lemma_first_empty_sequence(arms, 0, at);
}

/// Where an arm at or after `from` is a sequence pattern without elements,
/// the search from `from` finds one.
proof fn lemma_first_empty_sequence(arms: Seq<Arm>, from: int, at: int)
    requires
        0 <= from <= at < arms.len(),
        arms[at].pattern.is_empty_sequence(),
    ensures
        first_empty_sequence(arms, from).is_some(),
    decreases at - from,
{
    if from < at {
        lemma_first_empty_sequence(arms, from + 1, at);
    }
}

/// A finding in one of the dispatch expressions of a list, at or after
/// `from`, makes the list have a finding from `from` on.
pub proof fn lemma_list_finding_surfaces(list: Seq<Dispatch>, from: int, at: int)
    requires
        0 <= from <= at < list.len(),
        dispatch_finding(list[at]).is_some(),
    ensures
        list_finding(list, from).is_some(),
    decreases at - from,
{
    if from < at {
        lemma_list_finding_surfaces(list, from + 1, at);
    }
}

/// A finding in what is nested in one of the arms, at or after `from`,
/// makes the arms have a nested finding from `from` on.
proof fn lemma_nested_finding_surfaces(arms: Seq<Arm>, from: int, arm: int)
    requires
        0 <= from <= arm < arms.len(),
        list_finding(arms[arm].nested@, 0).is_some(),
    ensures
        nested_finding(arms, from).is_some(),
    decreases arm - from,
{
    if from < arm {
        lemma_nested_finding_surfaces(arms, from + 1, arm);
    }
}

/// A violation in a dispatch expression nested in an arm is never lost: the
/// enclosing expression has a finding, tagged or not, in order or not.
pub proof fn lemma_inner_violation_is_reported(node: Dispatch, arm: int, inner: int)
    requires
        0 <= arm < node.arms@.len(),
        0 <= inner < node.arms@[arm].nested@.len(),
        dispatch_finding(node.arms@[arm].nested@[inner]).is_some(),
    ensures
        dispatch_finding(node).is_some(),
{
    lemma_list_finding_surfaces(node.arms@[arm].nested@, 0, inner);
    lemma_nested_finding_surfaces(node.arms@, 0, arm);
}

/// Where the enclosing dispatch expression is itself in order, matches on
/// nothing that has a finding, and holds nothing with a finding in its
/// earlier arms, the finding of an inner dispatch expression is the one
/// reported.
pub proof fn lemma_inner_violation_is_the_finding(node: Dispatch, arm: int)
    requires
        0 <= arm < node.arms@.len(),
        tag_position(node.attributes@, 0).is_some() ==> arms_finding(node.arms@).is_none(),
        list_finding(node.subject@, 0).is_none(),
        forall|earlier: int|
            0 <= earlier < arm ==> list_finding(
                (#[trigger] node.arms@[earlier]).nested@,
                0,
            ).is_none(),
        list_finding(node.arms@[arm].nested@, 0).is_some(),
    ensures
        dispatch_finding(node) == list_finding(node.arms@[arm].nested@, 0),
{
    lemma_nested_finding_first(node.arms@, 0, arm);
}

/// The nested finding from `from` on is that of the first arm that has one.
proof fn lemma_nested_finding_first(arms: Seq<Arm>, from: int, arm: int)
    requires
        0 <= from <= arm < arms.len(),
        forall|earlier: int|
            from <= earlier < arm ==> list_finding((#[trigger] arms[earlier]).nested@, 0).is_none(),
        list_finding(arms[arm].nested@, 0).is_some(),
    ensures
        nested_finding(arms, from) == list_finding(arms[arm].nested@, 0),
    decreases arm - from,
{
    if from < arm {
        assert(list_finding(arms[from].nested@, 0).is_none());
        lemma_nested_finding_first(arms, from + 1, arm);
    }
}

} // verus!
