use derive_core::diagnostic::{Diagnostic, Fragment, Location};
use derive_core::model::{Declaration, Members, Path, Variant, VariantShape, Visibility};
use derive_core::order::{compare_orders, sort_pairs, sorted_positions};
use derive_core::sorted::{
    check, check_arms, check_token_stream, find_tag, get_match_pairs, get_match_sorted_pairs,
    get_path_name, get_sorted_pairs, parse_item, sorted, token_stream, visit_all,
    visit_expr_match_mut, Arm, Dispatch, FunctionBody, Pattern,
};

fn at(slot: usize) -> Location {
    Location { slot }
}

fn variant(name: &str, slot: usize) -> Variant {
    Variant { name: name.to_string(), shape: VariantShape::Unit, location: at(slot) }
}

fn enumeration(names: &[&str]) -> Declaration {
    let variants = names.iter().enumerate().map(|(i, n)| variant(n, 10 + i)).collect();
    Declaration {
        name: "Sample".to_string(),
        visibility: Visibility::Public,
        generics: vec![],
        attributes: vec![],
        members: Members::Enumeration(variants),
        location: at(1),
    }
}

fn path(text: &str, slot: usize) -> Path {
    Path { segments: text.split("::").map(|s| s.to_string()).collect(), location: at(slot) }
}

fn arm(pattern: Pattern) -> Arm {
    Arm { pattern, nested: vec![] }
}

fn constructor(text: &str, slot: usize) -> Arm {
    arm(Pattern::Constructor(path(text, slot)))
}

fn tagged(arms: Vec<Arm>) -> Dispatch {
    Dispatch { attributes: vec![path("sorted", 0)], subject: vec![], arms }
}

fn untagged(arms: Vec<Arm>) -> Dispatch {
    Dispatch { attributes: vec![], subject: vec![], arms }
}

fn pairs(names: &[&str]) -> Vec<(String, Location)> {
    names.iter().enumerate().map(|(i, n)| (n.to_string(), at(i))).collect()
}

fn error(message: &str, slot: usize) -> Diagnostic {
    Diagnostic { message: message.to_string(), location: at(slot) }
}

#[test]
fn enumeration_in_order_passes() {
    let item = enumeration(&["Alpha", "Beta", "Gamma"]);
    assert_eq!(parse_item(&item, at(0)), Ok(()));
    assert_eq!(sorted(&item, at(0)), Fragment::Verbatim);
    assert_eq!(token_stream(&item, at(0)), Fragment::Verbatim);
}

#[test]
fn enumeration_out_of_order_cites_the_misplaced_variant() {
    let item = enumeration(&["Beta", "Alpha"]);
    let expected = error("Alpha should sort before Beta", 11);
    assert_eq!(parse_item(&item, at(0)), Err(expected));
    assert_eq!(
        sorted(&item, at(0)),
        Fragment::Flagged(error("Alpha should sort before Beta", 11))
    );
}

#[test]
fn enumeration_reports_only_the_first_mismatch() {
    let item = enumeration(&["Alpha", "Delta", "Charlie", "Beta"]);
    assert_eq!(parse_item(&item, at(0)), Err(error("Beta should sort before Delta", 13)));
}

#[test]
fn empty_and_single_enumerations_pass() {
    assert_eq!(parse_item(&enumeration(&[]), at(0)), Ok(()));
    assert_eq!(parse_item(&enumeration(&["Only"]), at(0)), Ok(()));
}

#[test]
fn other_items_are_rejected_at_the_annotation() {
    let mut item = enumeration(&["Alpha"]);
    item.members = Members::Record(vec![]);
    assert_eq!(parse_item(&item, at(7)), Err(error("expected enumeration", 7)));
    item.members = Members::Other;
    assert_eq!(sorted(&item, at(8)), Fragment::Flagged(error("expected enumeration", 8)));
    item.members = Members::Unnamed(at(3));
    assert_eq!(parse_item(&item, at(9)), Err(error("expected enumeration", 9)));
}

#[test]
fn sorted_pairs_of_variants_come_by_name() {
    let variants = vec![variant("Io", 1), variant("Fmt", 2), variant("Parse", 3)];
    assert_eq!(
        get_sorted_pairs(&variants),
        vec![("Fmt".to_string(), at(2)), ("Io".to_string(), at(1)), ("Parse".to_string(), at(3))]
    );
}

#[test]
fn sorting_keeps_equal_names_in_declared_order() {
    let sorted = sort_pairs(&pairs(&["b", "a", "b", "a"]));
    assert_eq!(
        sorted,
        vec![
            ("a".to_string(), at(1)),
            ("a".to_string(), at(3)),
            ("b".to_string(), at(0)),
            ("b".to_string(), at(2)),
        ]
    );
    assert_eq!(sorted_positions(&pairs(&["b", "a", "b", "a"])), vec![1, 3, 0, 2]);
}

#[test]
fn names_are_ordered_by_code_point() {
    assert_eq!(sorted_positions(&pairs(&["a", "Z"])), vec![1, 0]);
    assert_eq!(sorted_positions(&pairs(&["Abc", "Ab"])), vec![1, 0]);
    assert_eq!(sorted_positions(&pairs(&["\u{e9}", "z", ""])), vec![2, 1, 0]);
    assert_eq!(sorted_positions(&pairs(&["a10", "a9", "a1"])), vec![2, 0, 1]);
    assert_eq!(sorted_positions(&pairs(&[])), Vec::<usize>::new());
}

#[test]
fn compare_orders_cites_sorted_name_and_declared_name() {
    let declared = pairs(&["C", "A", "B"]);
    let arranged = sort_pairs(&declared);
    assert_eq!(compare_orders(&declared, &arranged), Err(error("A should sort before C", 1)));
    let fine = pairs(&["A", "B", "C"]);
    assert_eq!(compare_orders(&fine, &sort_pairs(&fine)), Ok(()));
}

#[test]
fn path_names_join_segments() {
    assert_eq!(get_path_name(&path("Error::Io", 0)), "Error::Io");
    assert_eq!(get_path_name(&path("Io", 0)), "Io");
    assert_eq!(get_path_name(&Path { segments: vec![], location: at(0) }), "");
    assert_eq!(get_path_name(&path("a::b::c", 0)), "a::b::c");
}

#[test]
fn tag_is_found_by_its_whole_path() {
    assert_eq!(find_tag(&vec![path("inline", 0), path("sorted", 1), path("sorted", 2)]), Some(1));
    assert_eq!(find_tag(&vec![path("sorted::check", 0)]), None);
    assert_eq!(find_tag(&vec![]), None);
}

#[test]
fn match_pairs_keep_only_ordered_patterns() {
    let arms = vec![
        constructor("Error::Io", 1),
        arm(Pattern::Other),
        arm(Pattern::Fields(path("Error::Fmt", 2))),
        arm(Pattern::Sequence { elements: 2, location: at(3) }),
        arm(Pattern::Identifier(path("Error::Dup", 4))),
    ];
    assert_eq!(
        get_match_pairs(&arms),
        vec![
            ("Error::Io".to_string(), at(1)),
            ("Error::Fmt".to_string(), at(2)),
            ("Error::Dup".to_string(), at(4)),
        ]
    );
    assert_eq!(
        get_match_sorted_pairs(&arms),
        vec![
            ("Error::Dup".to_string(), at(4)),
            ("Error::Fmt".to_string(), at(2)),
            ("Error::Io".to_string(), at(1)),
        ]
    );
}

#[test]
fn tagged_dispatch_in_order_passes_and_loses_its_tag() {
    let mut node = tagged(vec![constructor("Fmt", 1), constructor("Io", 2), arm(Pattern::Other)]);
    assert_eq!(visit_expr_match_mut(&mut node), Ok(()));
    assert!(node.attributes.is_empty());
    assert_eq!(node.arms.len(), 3);
}

#[test]
fn tagged_dispatch_out_of_order_is_reported_at_the_arm() {
    let mut node = tagged(vec![constructor("Io", 1), constructor("Fmt", 2), arm(Pattern::Other)]);
    assert_eq!(visit_expr_match_mut(&mut node), Err(error("Fmt should sort before Io", 2)));
    assert!(node.attributes.is_empty());
}

#[test]
fn skipped_patterns_do_not_reset_the_sequence() {
    let arms = vec![
        arm(Pattern::Other),
        constructor("A", 1),
        arm(Pattern::Sequence { elements: 1, location: at(9) }),
        constructor("B", 2),
        arm(Pattern::Other),
        constructor("C", 3),
    ];
    assert_eq!(check_arms(&arms), Ok(()));
    let arms = vec![arm(Pattern::Other), constructor("B", 1), arm(Pattern::Other), constructor("A", 2)];
    assert_eq!(check_arms(&arms), Err(error("A should sort before B", 2)));
}

#[test]
fn untagged_dispatch_is_left_alone() {
    let mut node = untagged(vec![constructor("Io", 1), constructor("Fmt", 2)]);
    node.attributes = vec![path("inline", 5)];
    let before = untagged(vec![constructor("Io", 1), constructor("Fmt", 2)]);
    assert_eq!(visit_expr_match_mut(&mut node), Ok(()));
    assert_eq!(node.attributes, vec![path("inline", 5)]);
    assert_eq!(node.arms, before.arms);
}

#[test]
fn empty_sequence_pattern_is_unsupported_wherever_it_stands() {
    let arms = vec![
        constructor("A", 1),
        constructor("B", 2),
        arm(Pattern::Sequence { elements: 0, location: at(3) }),
    ];
    assert_eq!(check_arms(&arms), Err(error("unsupported by #[sorted]", 3)));
    let arms = vec![
        constructor("B", 1),
        constructor("A", 2),
        arm(Pattern::Sequence { elements: 0, location: at(3) }),
    ];
    assert_eq!(check_arms(&arms), Err(error("unsupported by #[sorted]", 3)));
    let arms = vec![arm(Pattern::Sequence { elements: 0, location: at(4) }), constructor("A", 2)];
    assert_eq!(check_arms(&arms), Err(error("unsupported by #[sorted]", 4)));
}

#[test]
fn inner_violation_is_reported_under_a_correct_outer_dispatch() {
    let inner = tagged(vec![constructor("Y", 21), constructor("X", 22)]);
    let mut outer = tagged(vec![
        constructor("A", 1),
        Arm { pattern: Pattern::Constructor(path("B", 2)), nested: vec![inner] },
    ]);
    assert_eq!(visit_expr_match_mut(&mut outer), Err(error("X should sort before Y", 22)));
    assert!(outer.attributes.is_empty());
    assert!(outer.arms[1].nested[0].attributes.is_empty());
}

#[test]
fn inner_violation_is_reported_under_an_untagged_dispatch() {
    let inner = tagged(vec![constructor("Y", 21), constructor("X", 22)]);
    let deeper = untagged(vec![Arm { pattern: Pattern::Other, nested: vec![inner] }]);
    let mut body = FunctionBody {
        dispatches: vec![Dispatch { attributes: vec![], subject: vec![deeper], arms: vec![] }],
    };
    assert_eq!(
        check_token_stream(&mut body),
        Fragment::Flagged(error("X should sort before Y", 22))
    );
    assert!(body.dispatches[0].subject[0].arms[0].nested[0].attributes.is_empty());
}

#[test]
fn first_finding_wins_and_every_tag_is_taken_off() {
    let first = tagged(vec![constructor("B", 1), constructor("A", 2)]);
    let second = tagged(vec![constructor("D", 3), constructor("C", 4)]);
    let mut body = FunctionBody { dispatches: vec![first, second] };
    assert_eq!(check(&mut body), Fragment::Flagged(error("A should sort before B", 2)));
    assert!(body.dispatches[0].attributes.is_empty());
    assert!(body.dispatches[1].attributes.is_empty());
    assert_eq!(body.dispatches[1].arms.len(), 2);
}

#[test]
fn own_arms_come_before_nested_findings() {
    let inner = tagged(vec![constructor("Y", 21), constructor("X", 22)]);
    let mut outer = tagged(vec![
        Arm { pattern: Pattern::Constructor(path("B", 1)), nested: vec![inner] },
        constructor("A", 2),
    ]);
    assert_eq!(visit_expr_match_mut(&mut outer), Err(error("A should sort before B", 2)));
    assert!(outer.arms[0].nested[0].attributes.is_empty());
}

#[test]
fn subject_is_visited_before_the_arms() {
    let in_subject = tagged(vec![constructor("N", 31), constructor("M", 32)]);
    let in_arm = tagged(vec![constructor("Y", 21), constructor("X", 22)]);
    let mut outer = Dispatch {
        attributes: vec![],
        subject: vec![in_subject],
        arms: vec![Arm { pattern: Pattern::Other, nested: vec![in_arm] }],
    };
    assert_eq!(visit_expr_match_mut(&mut outer), Err(error("M should sort before N", 32)));
}

#[test]
fn body_without_findings_comes_back_verbatim() {
    let mut body = FunctionBody {
        dispatches: vec![
            tagged(vec![constructor("Error::Fmt", 1), constructor("Error::Io", 2)]),
            untagged(vec![constructor("Z", 3), constructor("A", 4)]),
        ],
    };
    assert_eq!(check(&mut body), Fragment::Verbatim);
    let mut empty = FunctionBody { dispatches: vec![] };
    assert_eq!(check_token_stream(&mut empty), Fragment::Verbatim);
}

#[test]
fn only_the_first_tag_is_taken_off() {
    let mut node = Dispatch {
        attributes: vec![path("allow", 1), path("sorted", 2), path("sorted", 3)],
        subject: vec![],
        arms: vec![],
    };
    assert_eq!(visit_expr_match_mut(&mut node), Ok(()));
    assert_eq!(node.attributes, vec![path("allow", 1), path("sorted", 3)]);
}

#[test]
fn visiting_a_list_reports_the_first_finding_in_order() {
    let mut list = vec![
        untagged(vec![constructor("Z", 1), constructor("A", 2)]),
        tagged(vec![constructor("B", 3), constructor("A", 4)]),
        tagged(vec![constructor("D", 5), constructor("C", 6)]),
    ];
    assert_eq!(visit_all(&mut list), Err(error("A should sort before B", 4)));
    assert!(list.iter().all(|d| d.attributes.is_empty()));
}

#[test]
fn well_formed_declarations_have_distinct_member_names() {
    assert!(enumeration(&["A", "B", "C"]).is_well_formed());
    assert!(!enumeration(&["A", "B", "A"]).is_well_formed());
    assert!(enumeration(&[]).is_well_formed());
    let mut other = enumeration(&["A", "A"]);
    other.members = Members::Other;
    assert!(other.is_well_formed());
}
