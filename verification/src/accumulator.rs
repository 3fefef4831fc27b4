//! What the generated builder does when it runs: the slots it holds, the
//! effect of a setter, and the finalizer.

use vstd::prelude::*;
use vstd::string::*;
use crate::builder::{Action, Assignment, BuildMethod, Rule, Setter, Slot, SlotContent};

verus! {

/// What one slot of the companion holds.
#[derive(Debug, PartialEq, Eq)]
pub enum Held<V> {
    /// A value, or nothing yet.
    Single(Option<V>),
    /// The elements gathered so far, in call order.
    Many(Vec<V>),
}

/// What one slot holds, as mathematics.
pub enum HeldValue<V> {
    Single(Option<V>),
    Many(Seq<V>),
}

impl<V> View for Held<V> {
    type V = HeldValue<V>;

    open spec fn view(&self) -> HeldValue<V> {
        match self {
            Held::Single(value) => HeldValue::Single(*value),
            Held::Many(items) => HeldValue::Many(items@),
        }
    }
}

/// One field of the finished record.
#[derive(Debug, PartialEq, Eq)]
pub enum Built<V> {
    /// A required field.
    Required(V),
    /// A field of an optional type.
    Optional(Option<V>),
    /// A field that was filled one element per call.
    Each(Vec<V>),
}

/// One field of the finished record, as mathematics.
pub enum BuiltValue<V> {
    Required(V),
    Optional(Option<V>),
    Each(Seq<V>),
}

impl<V> View for Built<V> {
    type V = BuiltValue<V>;

    open spec fn view(&self) -> BuiltValue<V> {
        match self {
            Built::Required(value) => BuiltValue::Required(*value),
            Built::Optional(value) => BuiltValue::Optional(*value),
            Built::Each(items) => BuiltValue::Each(items@),
        }
    }
}

/// The failure of a finalizer: a required field was never set.
#[derive(Debug, PartialEq, Eq)]
pub struct BuildError {
    pub message: String,
}

impl BuildError {
    /// The error as the generated code prints it.
    pub fn describe(&self) -> (text: String)
        ensures
            text@ == "build "@ + self.message@ + " error"@,
    {
        let mut text = String::from_str("build ");
        text.append(self.message.as_str());
        text.append(" error");
        text
    }
}

/// The state a slot starts in.
pub open spec fn initial_value<V>(slot: Slot) -> HeldValue<V> {
    match slot.content {
        SlotContent::Empty => HeldValue::Many(Seq::empty()),
        _ => HeldValue::Single(None),
    }
}

/// The state a companion starts in.
pub open spec fn initial_state<V>(slots: Seq<Slot>) -> Seq<HeldValue<V>> {
    Seq::new(slots.len(), |i: int| initial_value(slots[i]))
}

/// The position of the first setter named `method` at or after `from`.
pub open spec fn setter_position(setters: Seq<Setter>, method: Seq<char>, from: int) -> Option<int>
    decreases setters.len() - from,
{
    if from < 0 || from >= setters.len() {
        None
    } else if setters[from].method@ == method {
        Some(from)
    } else {
        setter_position(setters, method, from + 1)
    }
}

/// What a slot holds after a setter was applied to it: an assignment puts
/// the value in place of whatever was there; an append adds it behind the
/// elements already gathered, starting a collection where there was none.
pub open spec fn applied<V>(held: HeldValue<V>, action: Action, value: V) -> HeldValue<V> {
    match action {
        Action::Assign => HeldValue::Single(Some(value)),
        Action::Append => match held {
            HeldValue::Many(items) => HeldValue::Many(items.push(value)),
            HeldValue::Single(_) => HeldValue::Many(seq![value]),
        },
    }
}

/// The slot that a call of `method` works on: the one at the position of
/// the setter of that name.
pub open spec fn target_slot<V>(state: Seq<HeldValue<V>>, setters: Seq<Setter>, method: Seq<char>)
    -> Option<int> {
    match setter_position(setters, method, 0) {
        Some(at) if 0 <= at < state.len() => Some(at),
        _ => None,
    }
}

/// The state after a call of the setter `method` with `value`. A name that
/// no setter has changes nothing.
pub open spec fn after_call<V>(
    state: Seq<HeldValue<V>>,
    setters: Seq<Setter>,
    method: Seq<char>,
    value: V,
) -> Seq<HeldValue<V>> {
    match target_slot(state, setters, method) {
        Some(at) => state.update(at, applied(state[at], setters[at].action, value)),
        None => state,
    }
}

/// Whether a slot holds what a required field needs.
pub open spec fn is_set<V>(held: HeldValue<V>) -> bool {
    held matches HeldValue::Single(Some(_))
}

/// The position of the first required field, at or after `from`, whose slot
/// holds nothing.
pub open spec fn first_missing<V>(state: Seq<HeldValue<V>>, assignments: Seq<Assignment>, from: int)
    -> Option<int>
    decreases assignments.len() - from,
{
    if from < 0 || from >= assignments.len() || from >= state.len() {
        None
    } else if assignments[from].rule == Rule::Unwrap && !is_set(state[from]) {
        Some(from)
    } else {
        first_missing(state, assignments, from + 1)
    }
}

/// The message of the failure for a required field that was never set.
pub open spec fn missing_message(field: Seq<char>) -> Seq<char> {
    field + " is none"@
}

/// Whether `built` is what a slot holding `held` hands over under `rule`: a
/// required field its value, an optional field whatever is there, and a
/// gathered field its elements, none where it was never touched.
pub open spec fn handed_over<V>(built: BuiltValue<V>, held: HeldValue<V>, rule: Rule) -> bool {
    match rule {
        Rule::Unwrap => match built {
            BuiltValue::Required(value) => held == HeldValue::Single(Some(value)),
            _ => false,
        },
        Rule::PassThrough => built == BuiltValue::Optional(
            match held {
                HeldValue::Single(value) => value,
                HeldValue::Many(_) => None,
            },
        ),
        Rule::Collected => built == BuiltValue::Each(
            match held {
                HeldValue::Many(items) => items,
                HeldValue::Single(_) => Seq::<V>::empty(),
            },
        ),
    }
}

/// The state of a slot once its content was handed over.
pub open spec fn emptied<V>(held: HeldValue<V>) -> HeldValue<V> {
    match held {
        HeldValue::Single(_) => HeldValue::Single(None),
        HeldValue::Many(_) => HeldValue::Many(Seq::empty()),
    }
}

/// The companion while it gathers values: one slot per field of the record,
/// in declared order.
#[derive(Debug, PartialEq, Eq)]
pub struct Accumulator<V> {
    pub slots: Vec<Held<V>>,
}

impl<V> Accumulator<V> {
    /// What the slots hold, as mathematics.
    pub open spec fn state(self) -> Seq<HeldValue<V>> {
        Seq::new(self.slots@.len(), |i: int| self.slots@[i]@)
    }

    /// A companion in the state that `initial` describes.
    pub fn start(initial: &Vec<Slot>) -> (fresh: Accumulator<V>)
        ensures
            fresh.state() == initial_state::<V>(initial@),
    {
        let mut slots: Vec<Held<V>> = Vec::new();
        let mut i: usize = 0;
        while i < initial.len()
            invariant
                i <= initial@.len(),
                slots@.len() == i,
                forall|j: int| 0 <= j < i ==> (#[trigger] slots@[j])@ == initial_value::<V>(initial@[j]),
            decreases initial@.len() - i,
        {
            match &initial[i].content {
                SlotContent::Empty => slots.push(Held::Many(Vec::new())),
                _ => slots.push(Held::Single(None)),
            }
            i = i + 1;
        }
        let fresh = Accumulator { slots };
        proof {
            assert(fresh.state() =~= initial_state::<V>(initial@));
        }
        fresh
    }

    /// Calls the setter named `method` with `value`. Says whether there is
    /// such a setter; where there is none, nothing changes.
    pub fn call(&mut self, setters: &Vec<Setter>, method: &str, value: V) -> (known: bool)
        ensures
            final(self).state() == after_call(old(self).state(), setters@, method@, value),
            known == target_slot(old(self).state(), setters@, method@).is_some(),
    {
        let wanted = String::from_str(method);
        let mut at: usize = 0;
        let mut found = false;
        while at < setters.len() && !found
            invariant
                at <= setters@.len(),
                wanted@ == method@,
                setter_position(setters@, method@, 0) == setter_position(
                    setters@,
                    method@,
                    at as int,
                ),
                found ==> at < setters@.len() && setters@[at as int].method@ == method@,
            decreases setters@.len() - at + (if found { 0int } else { 1int }),
        {
            if setters[at].method == wanted {
                found = true;
            } else {
                at = at + 1;
            }
        }
        if !found || at >= self.slots.len() {
            proof {
                assert(final(self).state() =~= old(self).state());
            }
            return false;
        }
        let ghost before = self.state();
        match setters[at].action {
            Action::Assign => {
                self.slots[at] = Held::Single(Some(value));
            },
            Action::Append => {
                match &mut self.slots[at] {
                    Held::Many(items) => {
                        items.push(value);
                    },
                    single => {
                        let mut items: Vec<V> = Vec::new();
                        items.push(value);
                        *single = Held::Many(items);
                    },
                }
            },
        }
        proof {
            assert(self.state() =~= before.update(
                at as int,
                applied(before[at as int], setters@[at as int].action, value),
            ));
        }
        true
    }

    /// Runs the finalizer. It fails at the first required field whose slot
    /// holds nothing, and then leaves every slot as it was, so that the
    /// caller may set the field and try again. Otherwise it hands over what
    /// the slots hold, field by field in declared order, and leaves them
    /// empty.
    pub fn build(&mut self, method: &BuildMethod) -> (r: Result<Vec<Built<V>>, BuildError>)
        requires
            old(self).slots@.len() == method.assignments@.len(),
        ensures
            match r {
                Err(e) => {
                    &&& first_missing(old(self).state(), method.assignments@, 0) matches Some(at)
                        && e.message@ == missing_message(method.assignments@[at].field@)
                    &&& final(self).state() == old(self).state()
                },
                Ok(record) => {
                    &&& first_missing(old(self).state(), method.assignments@, 0).is_none()
                    &&& record@.len() == old(self).state().len()
                    &&& forall|i: int|
                        0 <= i < record@.len() ==> handed_over(
                            (#[trigger] record@[i])@,
                            old(self).state()[i],
                            method.assignments@[i].rule,
                        )
                    &&& final(self).state() == Seq::new(
                        old(self).state().len(),
                        |i: int| emptied(old(self).state()[i]),
                    )
                },
            },
    {
        let count: usize = self.slots.len();
        let ghost state = self.state();
        let mut i: usize = 0;
        while i < count
            invariant
                i <= count,
                count == self.slots@.len(),
                count == method.assignments@.len(),
                state == self.state(),
                *self == *old(self),
                first_missing(state, method.assignments@, 0) == first_missing(
                    state,
                    method.assignments@,
                    i as int,
                ),
                forall|j: int|
                    0 <= j < i ==> method.assignments@[j].rule == Rule::Unwrap ==> is_set(
                        #[trigger] state[j],
                    ),
            decreases count - i,
        {
            if method.assignments[i].rule == Rule::Unwrap {
                let set = match &self.slots[i] {
                    Held::Single(Some(_)) => true,
                    _ => false,
                };
                if !set {
                    let mut message = method.assignments[i].field.clone();
                    message.append(" is none");
                    return Err(BuildError { message });
                }
            }
            i = i + 1;
        }
        let mut taken: Vec<Held<V>> = Vec::new();
        core::mem::swap(&mut self.slots, &mut taken);
        let ghost everything = taken@;
        let mut record: Vec<Built<V>> = Vec::new();
        let mut left: usize = count;
        while left > 0
            invariant
                left <= count,
                count == everything.len(),
                count == method.assignments@.len(),
                state =~= Seq::new(everything.len(), |i: int| everything[i]@),
                taken@ =~= everything.take(left as int),
                record@.len() == count - left,
                self.slots@.len() == count - left,
                forall|j: int|
                    0 <= j < count ==> method.assignments@[j].rule == Rule::Unwrap ==> is_set(
                        #[trigger] state[j],
                    ),
                forall|j: int|
                    0 <= j < count - left ==> handed_over(
                        (#[trigger] record@[j])@,
                        state[left + j],
                        method.assignments@[left + j].rule,
                    ),
                forall|j: int|
                    0 <= j < count - left ==> (#[trigger] self.slots@[j])@ == emptied(
                        state[left + j],
                    ),
            decreases left,
        {
            left = left - 1;
            let held = taken.pop().unwrap();
            proof {
                assert(held == everything[left as int]);
                assert(state[left as int] == held@);
            }
            let (built, fresh) = hand_over(held, method.assignments[left].rule);
            let ghost earlier_record = record@;
            let ghost earlier_slots = self.slots@;
            record.insert(0, built);
            self.slots.insert(0, fresh);
            proof {
                assert forall|j: int| 0 <= j < count - left implies handed_over(
                    (#[trigger] record@[j])@,
                    state[left + j],
                    method.assignments@[left + j].rule,
                ) by {
                    if j > 0 {
                        assert(record@[j] == earlier_record[j - 1]);
                    }
                }
                assert forall|j: int| 0 <= j < count - left implies (#[trigger] self.slots@[j])@
                    == emptied(state[left + j]) by {
                    if j > 0 {
                        assert(self.slots@[j] == earlier_slots[j - 1]);
                    }
                }
            }
        }
        proof {
            assert(self.state() =~= Seq::new(state.len(), |i: int| emptied(state[i])));
        }
        Ok(record)
    }
}

/// Takes what a slot holds and leaves the slot empty. The finalizer has
/// checked every required slot before it takes anything, so a required slot
/// that holds nothing never arrives here.
fn hand_over<V>(held: Held<V>, rule: Rule) -> (r: (Built<V>, Held<V>))
    requires
        rule == Rule::Unwrap ==> is_set(held@),
    ensures
        handed_over(r.0@, held@, rule),
        r.1@ == emptied(held@),
{
    match (rule, held) {
        (Rule::Unwrap, Held::Single(Some(value))) => (Built::Required(value), Held::Single(None)),
        (Rule::Unwrap, other) => (Built::Optional(None), other),
        (Rule::PassThrough, Held::Single(value)) => (Built::Optional(value), Held::Single(None)),
        (Rule::PassThrough, Held::Many(_)) => (Built::Optional(None), Held::Many(Vec::new())),
        (Rule::Collected, Held::Many(items)) => (Built::Each(items), Held::Many(Vec::new())),
        (Rule::Collected, Held::Single(_)) => (Built::Each(Vec::new()), Held::Single(None)),
    }
}

/// A setter that assigns overwrites: after two calls the slot holds the
/// second value, exactly as if the first call had never been made.
pub proof fn lemma_assign_overwrites<V>(
    state: Seq<HeldValue<V>>,
    setters: Seq<Setter>,
    method: Seq<char>,
    first: V,
    second: V,
)
    requires
        target_slot(state, setters, method) matches Some(at) && setters[at].action
            == Action::Assign,
    ensures
        after_call(after_call(state, setters, method, first), setters, method, second)
            == after_call(state, setters, method, second),
        after_call(after_call(state, setters, method, first), setters, method, second)[target_slot(
            state,
            setters,
            method,
        ).unwrap()] == HeldValue::Single(Some(second)),
{
    let at = target_slot(state, setters, method).unwrap();
    let once = after_call(state, setters, method, first);
    assert(target_slot(once, setters, method) == Some(at));
    assert(after_call(once, setters, method, second) =~= after_call(
        state,
        setters,
        method,
        second,
    ));
}

/// A setter that appends accumulates: after two calls the slot holds what
/// it held before, then the first element, then the second.
pub proof fn lemma_append_accumulates<V>(
    state: Seq<HeldValue<V>>,
    setters: Seq<Setter>,
    method: Seq<char>,
    first: V,
    second: V,
)
    requires
        target_slot(state, setters, method) matches Some(at) && setters[at].action
            == Action::Append && state[at] is Many,
    ensures
        after_call(after_call(state, setters, method, first), setters, method, second)[target_slot(
            state,
            setters,
            method,
        ).unwrap()] == HeldValue::Many(
            state[target_slot(state, setters, method).unwrap()]->Many_0.push(first).push(second),
        ),
{
    let at = target_slot(state, setters, method).unwrap();
    let once = after_call(state, setters, method, first);
    assert(target_slot(once, setters, method) == Some(at));
}

/// A call touches no slot but the one of its setter.
pub proof fn lemma_call_leaves_other_slots<V>(
    state: Seq<HeldValue<V>>,
    setters: Seq<Setter>,
    method: Seq<char>,
    value: V,
    other: int,
)
    requires
        0 <= other < state.len(),
        target_slot(state, setters, method) != Some(other),
    ensures
        after_call(state, setters, method, value).len() == state.len(),
        after_call(state, setters, method, value)[other] == state[other],
{
}

} // verus!
