//! The stable order of a list of names, and the comparison of a declared
//! order against it.

use vstd::prelude::*;
use vstd::string::*;
use crate::diagnostic::{Diagnostic, Finding, Location, reports};
use crate::text::{
    lemma_precedes_asymmetric,
    lemma_precedes_total,
    lemma_precedes_irreflexive,
    lemma_precedes_transitive,
    precedes,
    sorts_before,
};

verus! {

/// A name with the place it was written at, as mathematics.
pub type Key = (Seq<char>, Location);

/// The keys that a list of pairs stands for.
pub open spec fn keys_of(pairs: Seq<(String, Location)>) -> Seq<Key> {
    Seq::new(pairs.len(), |i: int| (pairs[i].0@, pairs[i].1))
}

/// The names of a list of keys.
pub open spec fn names_of(keys: Seq<Key>) -> Seq<Seq<char>> {
    Seq::new(keys.len(), |i: int| keys[i].0)
}

/// Where a name belongs in `order`, a list of positions into `names`: the
/// first place at or after `from` that holds a name coming after `key`, and
/// the end of the list where there is none.
pub open spec fn insertion_point(
    names: Seq<Seq<char>>,
    order: Seq<int>,
    key: Seq<char>,
    from: int,
) -> int
    decreases order.len() - from,
{
    if from < 0 || from >= order.len() {
        order.len() as int
    } else if precedes(key, names[order[from]]) {
        from
    } else {
        insertion_point(names, order, key, from + 1)
    }
}

/// The positions of the first `count` names, arranged by name; among equal
/// names the one declared first comes first.
pub open spec fn order_of_first(names: Seq<Seq<char>>, count: nat) -> Seq<int>
    decreases count,
{
    if count == 0 {
        Seq::empty()
    } else {
        let earlier = order_of_first(names, (count - 1) as nat);
        earlier.insert(insertion_point(names, earlier, names[count - 1], 0), count - 1)
    }
}

/// The positions of all names in stably sorted order.
pub open spec fn stable_order(names: Seq<Seq<char>>) -> Seq<int> {
    order_of_first(names, names.len())
}

/// The insertion point lies between `from` and the end of the list, every
/// name before it (from `from` on) does not come after `key`, and the name at
/// it does.
pub proof fn lemma_insertion_point(
    names: Seq<Seq<char>>,
    order: Seq<int>,
    key: Seq<char>,
    from: int,
)
    requires
        0 <= from <= order.len(),
    ensures
        from <= insertion_point(names, order, key, from) <= order.len(),
        forall|p: int|
            from <= p < insertion_point(names, order, key, from) ==> !precedes(
                key,
                names[#[trigger] order[p]],
            ),
        insertion_point(names, order, key, from) < order.len() ==> precedes(
            key,
            names[order[insertion_point(names, order, key, from)]],
        ),
    decreases order.len() - from,
{
    if from < order.len() && !precedes(key, names[order[from]]) {
        lemma_insertion_point(names, order, key, from + 1);
    }
}

/// The arrangement of the first `count` names holds each of their positions.
pub proof fn lemma_order_bounds(names: Seq<Seq<char>>, count: nat)
    ensures
        order_of_first(names, count).len() == count,
        forall|p: int|
            0 <= p < count ==> 0 <= #[trigger] order_of_first(names, count)[p] < count,
    decreases count,
{
    if count > 0 {
        let earlier = order_of_first(names, (count - 1) as nat);
        lemma_order_bounds(names, (count - 1) as nat);
        lemma_insertion_point(names, earlier, names[count - 1], 0);
    }
}

/// The positions held by a vector, as integers.
pub open spec fn positions(order: Seq<usize>) -> Seq<int> {
    Seq::new(order.len(), |i: int| order[i] as int)
}

/// Finds where `key` belongs in `order`.
fn find_insertion_point(pairs: &Vec<(String, Location)>, order: &Vec<usize>, key: &String) -> (at:
    usize)
    requires
        forall|p: int| 0 <= p < order@.len() ==> order@[p] < pairs@.len(),
    ensures
        at == insertion_point(names_of(keys_of(pairs@)), positions(order@), key@, 0),
        at <= order@.len(),
{
    let ghost names = names_of(keys_of(pairs@));
    let ghost held = positions(order@);
    let mut at: usize = 0;
    let mut found = false;
    while at < order.len() && !found
        invariant
            at <= order@.len(),
            names == names_of(keys_of(pairs@)),
            held == positions(order@),
            forall|p: int| 0 <= p < order@.len() ==> order@[p] < pairs@.len(),
            insertion_point(names, held, key@, 0) == insertion_point(names, held, key@, at as int),
            found ==> at < order@.len() && precedes(key@, names[held[at as int]]),
        decreases order@.len() - at + (if found { 0int } else { 1int }),
    {
        let candidate: usize = order[at];
        if sorts_before(key.as_str(), pairs[candidate].0.as_str()) {
            found = true;
        } else {
            at = at + 1;
        }
    }
    at
}

/// The positions of `pairs` in stably sorted order of their names: each
/// position once, by name, and in declared order among equal names.
pub fn sorted_positions(pairs: &Vec<(String, Location)>) -> (order: Vec<usize>)
    ensures
        positions(order@) == stable_order(names_of(keys_of(pairs@))),
        is_stable_arrangement(
            names_of(keys_of(pairs@)),
            positions(order@),
            pairs@.len() as int,
        ),
{
    let ghost names = names_of(keys_of(pairs@));
    let mut order: Vec<usize> = Vec::new();
    let mut k: usize = 0;
    while k < pairs.len()
        invariant
            k <= pairs@.len(),
            names == names_of(keys_of(pairs@)),
            positions(order@) =~= order_of_first(names, k as nat),
        decreases pairs@.len() - k,
    {
        proof {
            lemma_order_bounds(names, k as nat);
            assert forall|p: int| 0 <= p < order@.len() implies order@[p] < pairs@.len() by {
                assert(positions(order@)[p] == order@[p]);
            }
        }
        let at: usize = find_insertion_point(pairs, &order, &pairs[k].0);
        let ghost before = positions(order@);
        order.insert(at, k);
        proof {
            assert(positions(order@) =~= before.insert(at as int, k as int));
        }
        k = k + 1;
    }
    proof {
        lemma_stable_order_is_sorted(names);
    }
    order
}

/// The keys arranged in stably sorted order of their names.
pub open spec fn arranged(keys: Seq<Key>) -> Seq<Key> {
    Seq::new(keys.len(), |p: int| keys[stable_order(names_of(keys))[p]])
}

/// Arranges `pairs` by name; among equal names the one that stood first
/// stays first.
pub fn sort_pairs(pairs: &Vec<(String, Location)>) -> (sorted: Vec<(String, Location)>)
    ensures
        keys_of(sorted@) == arranged(keys_of(pairs@)),
{
    let order = sorted_positions(pairs);
    let ghost names = names_of(keys_of(pairs@));
    proof {
        lemma_order_bounds(names, names.len());
        assert(positions(order@).len() == pairs@.len());
        assert forall|q: int| 0 <= q < order@.len() implies order@[q] < pairs@.len() by {
            assert(positions(order@)[q] == order@[q]);
        }
    }
    let mut sorted: Vec<(String, Location)> = Vec::new();
    let mut p: usize = 0;
    while p < order.len()
        invariant
            p <= order@.len(),
            order@.len() == pairs@.len(),
            names == names_of(keys_of(pairs@)),
            positions(order@) == stable_order(names),
            forall|q: int| 0 <= q < order@.len() ==> order@[q] < pairs@.len(),
            sorted@.len() == p,
            forall|q: int| 0 <= q < p ==> keys_of(sorted@)[q] == arranged(keys_of(pairs@))[q],
        decreases order@.len() - p,
    {
        let at: usize = order[p];
        proof {
            assert(positions(order@)[p as int] == at);
        }
        let ghost earlier = sorted@;
        sorted.push((pairs[at].0.clone(), pairs[at].1));
        proof {
            assert(keys_of(pairs@)[at as int] == (pairs@[at as int].0@, pairs@[at as int].1));
            assert(keys_of(sorted@)[p as int] == (sorted@[p as int].0@, sorted@[p as int].1));
            assert forall|q: int| 0 <= q < p implies keys_of(sorted@)[q] == arranged(
                keys_of(pairs@),
            )[q] by {
                assert(sorted@[q] == earlier[q]);
                assert(keys_of(earlier)[q] == keys_of(sorted@)[q]);
            }
        }
        p = p + 1;
    }
    proof {
        assert(keys_of(sorted@) =~= arranged(keys_of(pairs@)));
    }
    sorted
}

/// The first position at or after `from` at which the sorted order holds
/// another name than the declared order.
pub open spec fn first_mismatch(keys: Seq<Key>, from: int) -> Option<int>
    decreases keys.len() - from,
{
    if from < 0 || from >= keys.len() {
        None
    } else if arranged(keys)[from].0 != keys[from].0 {
        Some(from)
    } else {
        first_mismatch(keys, from + 1)
    }
}

/// The message that cites a name and the name it should come before.
pub open spec fn misplaced_message(earlier: Seq<char>, later: Seq<char>) -> Seq<char> {
    earlier + " should sort before "@ + later
}

/// What is wrong with the declared order of `keys`: nothing where it is the
/// sorted order; otherwise, at the first position that differs, the name that
/// belongs there and the name that stands there, at the place of the former.
pub open spec fn order_finding(keys: Seq<Key>) -> Option<Finding> {
    match first_mismatch(keys, 0) {
        None => None,
        Some(i) => Some((misplaced_message(arranged(keys)[i].0, keys[i].0), arranged(keys)[i].1)),
    }
}

/// Compares a declared order with its sorted arrangement, position by
/// position, and reports the first difference.
pub fn compare_orders(declared: &Vec<(String, Location)>, sorted: &Vec<(String, Location)>) -> (r:
    Result<(), Diagnostic>)
    requires
        keys_of(sorted@) == arranged(keys_of(declared@)),
    ensures
        reports(r, order_finding(keys_of(declared@))),
{
    let ghost keys = keys_of(declared@);
    proof {
        assert(keys_of(sorted@).len() == keys.len());
    }
    let mut i: usize = 0;
    while i < declared.len()
        invariant
            i <= declared@.len(),
            sorted@.len() == declared@.len(),
            keys == keys_of(declared@),
            keys_of(sorted@) == arranged(keys),
            first_mismatch(keys, 0) == first_mismatch(keys, i as int),
        decreases declared@.len() - i,
    {
        proof {
            assert(keys_of(sorted@)[i as int] == (sorted@[i as int].0@, sorted@[i as int].1));
            assert(keys[i as int] == (declared@[i as int].0@, declared@[i as int].1));
        }
        if sorted[i].0 != declared[i].0 {
            let mut message = sorted[i].0.clone();
            message.append(" should sort before ");
            message.append(declared[i].0.as_str());
            return Err(Diagnostic::new(message, sorted[i].1));
        }
        i = i + 1;
    }
    Ok(())
}

/// Whether `order` holds the position `v`.
pub open spec fn occurs(order: Seq<int>, v: int) -> bool {
    exists|p: int| 0 <= p < order.len() && #[trigger] order[p] == v
}

/// Whether `order` arranges the positions of the first `count` names by
/// name: it holds each position once, no name comes before a name that
/// precedes it, and equal names stand in declared order.
pub open spec fn is_stable_arrangement(names: Seq<Seq<char>>, order: Seq<int>, count: int) -> bool {
    &&& order.len() == count
    &&& forall|p: int| 0 <= p < count ==> 0 <= #[trigger] order[p] < count
    &&& forall|p: int, q: int| 0 <= p < q < count ==> #[trigger] order[p] != #[trigger] order[q]
    &&& forall|v: int| 0 <= v < count ==> #[trigger] occurs(order, v)
    &&& forall|p: int, q: int|
        0 <= p < q < count ==> !precedes(names[#[trigger] order[q]], names[#[trigger] order[p]])
    &&& forall|p: int, q: int|
        0 <= p < q < count && names[#[trigger] order[p]] == names[#[trigger] order[q]] ==> order[p]
            < order[q]
}

/// The arrangement of the first `count` names is a stable arrangement.
pub proof fn lemma_order_of_first_is_stable(names: Seq<Seq<char>>, count: nat)
    requires
        count <= names.len(),
    ensures
        is_stable_arrangement(names, order_of_first(names, count), count as int),
    decreases count,
{
    if count > 0 {
        let k = count - 1;
        let earlier = order_of_first(names, k as nat);
        let key = names[k];
        let at = insertion_point(names, earlier, key, 0);
        let order = order_of_first(names, count);
        lemma_order_of_first_is_stable(names, k as nat);
        lemma_insertion_point(names, earlier, key, 0);
        assert(order == earlier.insert(at, k));
        assert(order.len() == count);
        assert forall|p: int| 0 <= p < count implies (#[trigger] order[p]) == (if p < at {
            earlier[p]
        } else if p == at {
            k
        } else {
            earlier[p - 1]
        }) by {}
        assert forall|v: int| 0 <= v < count implies #[trigger] occurs(order, v) by {
            if v == k {
                assert(order[at] == v);
            } else {
                assert(occurs(earlier, v));
                let before = choose|p: int| 0 <= p < earlier.len() && #[trigger] earlier[p] == v;
                if before < at {
                    assert(order[before] == v);
                } else {
                    assert(order[before + 1] == v);
                }
            }
        }
        assert forall|p: int, q: int| 0 <= p < q < count implies !precedes(
            names[#[trigger] order[q]],
            names[#[trigger] order[p]],
        ) by {
            if p == at {
                lemma_precedes_asymmetric(key, names[earlier[at]]);
                if q - 1 > at {
                    if precedes(names[earlier[q - 1]], key) {
                        lemma_precedes_transitive(names[earlier[q - 1]], key, names[earlier[at]]);
                    }
                }
            }
        }
        assert forall|p: int, q: int|
            0 <= p < q < count && names[#[trigger] order[p]] == names[#[trigger] order[q]]
            implies order[p] < order[q] by {
            if p == at {
                lemma_precedes_irreflexive(key);
                if q - 1 > at {
                    assert(!precedes(names[earlier[q - 1]], names[earlier[at]]));
                }
            }
        }
    }
}

/// The stable order holds each position once, arranges the names so that no
/// name comes before one that precedes it, and keeps equal names in declared
/// order.
pub proof fn lemma_stable_order_is_sorted(names: Seq<Seq<char>>)
    ensures
        is_stable_arrangement(names, stable_order(names), names.len() as int),
{
    lemma_order_of_first_is_stable(names, names.len());
}

/// Whether no name is followed by one that precedes it.
pub open spec fn in_order(names: Seq<Seq<char>>) -> bool {
    forall|i: int, j: int| 0 <= i < j < names.len() ==> !precedes(names[j], names[i])
}

/// A name that precedes nothing in `order` from `from` on belongs at the
/// end.
proof fn lemma_insertion_point_at_end(
    names: Seq<Seq<char>>,
    order: Seq<int>,
    key: Seq<char>,
    from: int,
)
    requires
        0 <= from <= order.len(),
        forall|p: int| from <= p < order.len() ==> !precedes(key, names[#[trigger] order[p]]),
    ensures
        insertion_point(names, order, key, from) == order.len(),
    decreases order.len() - from,
{
    if from < order.len() {
        assert(!precedes(key, names[order[from]]));
        lemma_insertion_point_at_end(names, order, key, from + 1);
    }
}

/// Names that are in order are their own arrangement.
proof fn lemma_in_order_is_fixed(names: Seq<Seq<char>>, count: nat)
    requires
        count <= names.len(),
        in_order(names),
    ensures
        order_of_first(names, count) == Seq::new(count, |i: int| i),
    decreases count,
{
    if count > 0 {
        let k = count - 1;
        let earlier = order_of_first(names, k as nat);
        lemma_in_order_is_fixed(names, k as nat);
        assert forall|p: int| 0 <= p < earlier.len() implies !precedes(
            names[k],
            names[#[trigger] earlier[p]],
        ) by {
            assert(earlier[p] == p);
        }
        lemma_insertion_point_at_end(names, earlier, names[k], 0);
        assert(earlier.insert(k, k) =~= Seq::new(count, |i: int| i));
    } else {
        assert(order_of_first(names, count) =~= Seq::new(count, |i: int| i));
    }
}

/// Where no position from `from` on shows a mismatch, the arrangement holds
/// the declared name at each of them.
proof fn lemma_no_mismatch(keys: Seq<Key>, from: int, at: int)
    requires
        0 <= from <= at < keys.len(),
        first_mismatch(keys, from).is_none(),
    ensures
        arranged(keys)[at].0 == keys[at].0,
    decreases at - from,
{
    if from < at {
        lemma_no_mismatch(keys, from + 1, at);
    }
}

/// Where every position from `from` on holds its declared name, there is no
/// mismatch.
proof fn lemma_all_match(keys: Seq<Key>, from: int)
    requires
        0 <= from,
        forall|i: int| from <= i < keys.len() ==> (#[trigger] arranged(keys)[i]).0 == keys[i].0,
    ensures
        first_mismatch(keys, from).is_none(),
    decreases keys.len() - from,
{
    if from < keys.len() {
        assert(arranged(keys)[from].0 == keys[from].0);
        lemma_all_match(keys, from + 1);
    }
}

/// The order check passes exactly when the declared names are in order.
pub proof fn lemma_passes_iff_in_order(keys: Seq<Key>)
    ensures
        order_finding(keys).is_none() <==> in_order(names_of(keys)),
{
    let names = names_of(keys);
    let order = stable_order(names);
    lemma_stable_order_is_sorted(names);
    if in_order(names) {
        lemma_in_order_is_fixed(names, names.len());
        assert forall|i: int| 0 <= i < keys.len() implies (#[trigger] arranged(keys)[i]).0
            == keys[i].0 by {
            assert(order[i] == i);
        }
        lemma_all_match(keys, 0);
    }
    if order_finding(keys).is_none() {
        assert forall|i: int, j: int| 0 <= i < j < names.len() implies !precedes(
            names[j],
            names[i],
        ) by {
            lemma_no_mismatch(keys, 0, i);
            lemma_no_mismatch(keys, 0, j);
            assert(names[order[i]] == keys[order[i]].0);
            assert(names[order[j]] == keys[order[j]].0);
            assert(!precedes(names[order[j]], names[order[i]]));
        }
    }
}

/// What a failed order check cites: at the first position that differs, the
/// name that belongs there, which is another name than the one declared
/// there, and the place where that name was written.
pub proof fn lemma_finding_cites_first_mismatch(keys: Seq<Key>, at: int)
    requires
        first_mismatch(keys, 0) == Some(at),
    ensures
        0 <= at < keys.len(),
        arranged(keys)[at].0 != keys[at].0,
        order_finding(keys) == Some(
            (misplaced_message(arranged(keys)[at].0, keys[at].0), arranged(keys)[at].1),
        ),
{
    lemma_mismatch_position(keys, 0, at);
}

/// A mismatch found from `from` on lies in range and is a mismatch.
proof fn lemma_mismatch_position(keys: Seq<Key>, from: int, at: int)
    requires
        0 <= from,
        first_mismatch(keys, from) == Some(at),
    ensures
        from <= at < keys.len(),
        arranged(keys)[at].0 != keys[at].0,
    decreases keys.len() - from,
{
    if from < keys.len() && arranged(keys)[from].0 == keys[from].0 {
        lemma_mismatch_position(keys, from + 1, at);
    }
}

/// Where the arrangement holds the declared name at every position before
/// `upto`, it holds those positions themselves.
proof fn lemma_matching_prefix_is_fixed(names: Seq<Seq<char>>, upto: int, at: int)
    requires
        0 <= at < upto <= names.len(),
        forall|p: int| 0 <= p < upto ==> names[#[trigger] stable_order(names)[p]] == names[p],
    ensures
        stable_order(names)[at] == at,
    decreases at,
{
    let order = stable_order(names);
    lemma_stable_order_is_sorted(names);
    assert forall|p: int| 0 <= p < at implies #[trigger] order[p] == p by {
        lemma_matching_prefix_is_fixed(names, upto, p);
    }
    if order[at] != at {
        assert(occurs(order, at));
        let q = choose|q: int| 0 <= q < order.len() && #[trigger] order[q] == at;
        assert(q > at) by {
            if q < at {
                assert(order[q] == q);
            }
        }
        assert(names[order[at]] == names[at]);
        assert(names[order[at]] == names[order[q]]);
        assert(order[at] < order[q]);
        assert(order[at] >= at) by {
            if order[at] < at {
                assert(order[order[at]] == order[at]);
            }
        }
    }
}

/// A failed order check tells the truth: the name it cites precedes the name
/// it should come before, and it was declared after it.
pub proof fn lemma_cited_name_precedes(keys: Seq<Key>, at: int)
    requires
        first_mismatch(keys, 0) == Some(at),
    ensures
        0 <= at < keys.len(),
        precedes(arranged(keys)[at].0, keys[at].0),
        at < stable_order(names_of(keys))[at] < keys.len(),
{
    let names = names_of(keys);
    let order = stable_order(names);
    lemma_mismatch_position(keys, 0, at);
    lemma_stable_order_is_sorted(names);
    assert forall|p: int| 0 <= p < at implies names[#[trigger] order[p]] == names[p] by {
        lemma_matches_before_mismatch(keys, 0, at, p);
    }
    assert forall|p: int| 0 <= p < at implies #[trigger] order[p] == p by {
        lemma_matching_prefix_is_fixed(names, at, p);
    }
    assert(names[order[at]] == keys[order[at]].0);
    assert(order[at] != at);
    assert(order[at] > at) by {
        if order[at] < at {
            assert(order[order[at]] == order[at]);
        }
    }
    assert(occurs(order, at));
    let q = choose|q: int| 0 <= q < order.len() && #[trigger] order[q] == at;
    assert(q > at) by {
        if q < at {
            assert(order[q] == q);
        }
    }
    assert(!precedes(names[order[q]], names[order[at]]));
    lemma_precedes_total(names[order[at]], names[at]);
}

/// Before the first mismatch every position holds its declared name.
proof fn lemma_matches_before_mismatch(keys: Seq<Key>, from: int, at: int, p: int)
    requires
        0 <= from <= p < at,
        first_mismatch(keys, from) == Some(at),
    ensures
        arranged(keys)[p].0 == keys[p].0,
        at < keys.len(),
    decreases p - from,
{
    lemma_mismatch_position(keys, from, at);
    if from < p {
        lemma_matches_before_mismatch(keys, from + 1, at, p);
    }
}

/// Two stable arrangements of the same names agree at every position.
proof fn lemma_arrangements_agree(names: Seq<Seq<char>>, a: Seq<int>, b: Seq<int>, at: int)
    requires
        is_stable_arrangement(names, a, names.len() as int),
        is_stable_arrangement(names, b, names.len() as int),
        0 <= at < names.len(),
    ensures
        a[at] == b[at],
    decreases at,
{
    assert forall|p: int| 0 <= p < at implies a[p] == b[p] by {
        lemma_arrangements_agree(names, a, b, p);
    }
    let x = a[at];
    let y = b[at];
    if x != y {
        assert(occurs(b, x));
        let q = choose|q: int| 0 <= q < b.len() && #[trigger] b[q] == x;
        assert(q > at) by {
            if q < at {
                assert(a[q] == b[q]);
            }
        }
        assert(occurs(a, y));
        let r = choose|r: int| 0 <= r < a.len() && #[trigger] a[r] == y;
        assert(r > at) by {
            if r < at {
                assert(a[r] == b[r]);
            }
        }
        assert(!precedes(names[b[q]], names[b[at]]));
        assert(!precedes(names[a[r]], names[a[at]]));
        lemma_precedes_total(names[x], names[y]);
        assert(names[a[at]] == names[a[r]]);
        assert(names[b[at]] == names[b[q]]);
    }
}

/// There is one stable arrangement of a list of names, and the stable order
/// is it.
pub proof fn lemma_stable_order_is_unique(names: Seq<Seq<char>>, order: Seq<int>)
    requires
        is_stable_arrangement(names, order, names.len() as int),
    ensures
        order == stable_order(names),
{
    lemma_stable_order_is_sorted(names);
    assert forall|p: int| 0 <= p < names.len() implies order[p] == stable_order(names)[p] by {
        lemma_arrangements_agree(names, order, stable_order(names), p);
    }
    assert(order =~= stable_order(names));
}

} // verus!
