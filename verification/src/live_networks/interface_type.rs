//! How an interface is to be configured, and the order that emission
//! follows.

use vstd::prelude::*;
use vstd::std_specs::cmp::{PartialEqSpecImpl, PartialOrdSpecImpl};
use core::cmp::Ordering;
use crate::config_drive::network_info::{Network, NetworkView};
use crate::text::{
    comes_before, lemma_precedes_asymmetric, lemma_precedes_irreflexive, lemma_precedes_total,
    lemma_precedes_transitive, precedes,
};

verus! {

/// The configuration of one interface: the network that the metadata gives
/// it, or, where it gives none, dynamic configuration of the named interface.
#[derive(Debug)]
pub enum InterfaceType {
    Static(Network),
    Dhcp(String),
}

/// An `InterfaceType` as the contracts speak of it.
pub enum InterfaceTypeView {
    Static(NetworkView),
    Dhcp(Seq<char>),
}

impl View for InterfaceType {
    type V = InterfaceTypeView;

    open spec fn view(&self) -> InterfaceTypeView {
        match self {
            InterfaceType::Static(network) => InterfaceTypeView::Static(network@),
            InterfaceType::Dhcp(name) => InterfaceTypeView::Dhcp(name@),
        }
    }
}

/// The key that assignments are ordered and compared by: the name of the
/// interface.
pub open spec fn key_of(assignment: InterfaceTypeView) -> Seq<char> {
    match assignment {
        InterfaceTypeView::Static(network) => network.id,
        InterfaceTypeView::Dhcp(name) => name,
    }
}

/// The views of a run of assignments.
pub open spec fn assignment_views(assignments: Seq<InterfaceType>) -> Seq<InterfaceTypeView> {
    Seq::new(assignments.len(), |i: int| assignments[i]@)
}

/// No assignment is followed by one whose key comes before its own.
pub open spec fn sorted_by_key(assignments: Seq<InterfaceTypeView>) -> bool {
    forall|i: int, j: int|
        0 <= i < j < assignments.len() ==> !precedes(
            key_of(#[trigger] assignments[j]),
            key_of(#[trigger] assignments[i]),
        )
}

/// Where `assignment` goes in a sorted run: before the first one whose key
/// comes after its own, which is behind every one with the same key.
pub open spec fn insert_position(
    assignments: Seq<InterfaceTypeView>,
    assignment: InterfaceTypeView,
) -> int
    decreases assignments.len(),
{
    if assignments.len() == 0 {
        0
    } else if precedes(key_of(assignment), key_of(assignments[0])) {
        0
    } else {
        1 + insert_position(assignments.drop_first(), assignment)
    }
}

/// `assignments` with `assignment` put in its place.
pub open spec fn inserted(assignments: Seq<InterfaceTypeView>, assignment: InterfaceTypeView) -> Seq<
    InterfaceTypeView,
> {
    assignments.insert(insert_position(assignments, assignment), assignment)
}

/// `assignments` sorted by key; assignments with the same key keep their
/// order.
pub open spec fn sorted_assignments(assignments: Seq<InterfaceTypeView>) -> Seq<InterfaceTypeView>
    decreases assignments.len(),
{
    if assignments.len() == 0 {
        Seq::empty()
    } else {
        inserted(sorted_assignments(assignments.drop_last()), assignments.last())
    }
}

/// The place of an assignment lies in the run; what stands before it does
/// not come after the assignment, and what stands at it does.
pub proof fn lemma_insert_position(
    assignments: Seq<InterfaceTypeView>,
    assignment: InterfaceTypeView,
)
    ensures
        0 <= insert_position(assignments, assignment) <= assignments.len(),
        forall|i: int|
            0 <= i < insert_position(assignments, assignment) ==> !precedes(
                key_of(assignment),
                key_of(#[trigger] assignments[i]),
            ),
        insert_position(assignments, assignment) < assignments.len() ==> precedes(
            key_of(assignment),
            key_of(assignments[insert_position(assignments, assignment)]),
        ),
    decreases assignments.len(),
{
    if assignments.len() > 0 && !precedes(key_of(assignment), key_of(assignments[0])) {
        let rest = assignments.drop_first();
        lemma_insert_position(rest, assignment);
        assert forall|i: int| 0 <= i < insert_position(assignments, assignment) implies !precedes(
            key_of(assignment),
            key_of(#[trigger] assignments[i]),
        ) by {
            if i > 0 {
                assert(assignments[i] == rest[i - 1]);
            }
        }
        if insert_position(assignments, assignment) < assignments.len() {
            assert(assignments[insert_position(assignments, assignment)] == rest[insert_position(
                rest,
                assignment,
            )]);
        }
    }
}

/// Putting an assignment in its place keeps a sorted run sorted and adds
/// nothing but the assignment.
pub proof fn lemma_inserted(assignments: Seq<InterfaceTypeView>, assignment: InterfaceTypeView)
    requires
        sorted_by_key(assignments),
    ensures
        sorted_by_key(inserted(assignments, assignment)),
        inserted(assignments, assignment).to_multiset() == assignments.to_multiset().insert(
            assignment,
        ),
        inserted(assignments, assignment).len() == assignments.len() + 1,
{
    lemma_insert_position(assignments, assignment);
    let at = insert_position(assignments, assignment);
    let after = inserted(assignments, assignment);
    assert forall|i: int, j: int| 0 <= i < j < after.len() implies !precedes(
        key_of(#[trigger] after[j]),
        key_of(#[trigger] after[i]),
    ) by {
        if j == at {
            assert(after[i] == assignments[i]);
            assert(after[j] == assignment);
        } else if i == at {
            assert(after[i] == assignment);
            assert(after[j] == assignments[j - 1]);
            lemma_precedes_asymmetric(key_of(assignment), key_of(assignments[at]));
            if at < j - 1 {
                assert(!precedes(key_of(assignments[j - 1]), key_of(assignments[at])));
                if precedes(key_of(assignments[j - 1]), key_of(assignment)) {
                    lemma_precedes_transitive(
                        key_of(assignments[j - 1]),
                        key_of(assignment),
                        key_of(assignments[at]),
                    );
                }
            }
        } else {
            let a = if i < at {
                i
            } else {
                i - 1
            };
            let b = if j < at {
                j
            } else {
                j - 1
            };
            assert(after[i] == assignments[a]);
            assert(after[j] == assignments[b]);
            assert(!precedes(key_of(assignments[b]), key_of(assignments[a])));
        }
    }
    assert(after.remove(at) == assignments);
    assert(after[at] == assignment);
    vstd::seq_lib::to_multiset_remove(after, at);
    after.to_multiset_ensures();
    assert(after.contains(assignment));
    assert(after.to_multiset() =~= assignments.to_multiset().insert(assignment));
}

/// Sorting yields a sorted run that holds each assignment as often as the
/// run that was sorted.
pub proof fn lemma_sorted_assignments(assignments: Seq<InterfaceTypeView>)
    ensures
        sorted_by_key(sorted_assignments(assignments)),
        sorted_assignments(assignments).to_multiset() == assignments.to_multiset(),
        sorted_assignments(assignments).len() == assignments.len(),
    decreases assignments.len(),
{
    if assignments.len() == 0 {
        assert(sorted_assignments(assignments) =~= assignments);
    } else {
        let front = assignments.drop_last();
        lemma_sorted_assignments(front);
        lemma_inserted(sorted_assignments(front), assignments.last());
        assert(front.push(assignments.last()) == assignments);
        vstd::seq_lib::to_multiset_build(front, assignments.last());
    }
}

impl InterfaceType {
    /// The key of the assignment.
    pub fn get_key(&self) -> (key: String)
        ensures
            key@ == key_of(self@),
    {
        match self {
            InterfaceType::Static(network) => network.id.clone(),
            InterfaceType::Dhcp(name) => name.clone(),
        }
    }

    /// The key of the assignment, borrowed.
    pub fn key(&self) -> (key: &String)
        ensures
            key@ == key_of(self@),
    {
        match self {
            InterfaceType::Static(network) => &network.id,
            InterfaceType::Dhcp(name) => name,
        }
    }
}

/// The order of two keys.
pub open spec fn key_order(a: Seq<char>, b: Seq<char>) -> Ordering {
    if precedes(a, b) {
        Ordering::Less
    } else if precedes(b, a) {
        Ordering::Greater
    } else {
        Ordering::Equal
    }
}

/// Two keys are in the same place of the order exactly if they are the same
/// key.
pub proof fn lemma_key_order_equal(a: Seq<char>, b: Seq<char>)
    ensures
        (key_order(a, b) == Ordering::Equal) <==> a == b,
{
    lemma_precedes_total(a, b);
    lemma_precedes_irreflexive(a);
}

impl PartialEq for InterfaceType {
    fn eq(&self, other: &Self) -> (r: bool) {
        *self.key() == *other.key()
    }
}

impl PartialEqSpecImpl for InterfaceType {
    open spec fn obeys_eq_spec() -> bool {
        true
    }

    open spec fn eq_spec(&self, other: &Self) -> bool {
        key_of(self@) == key_of(other@)
    }
}

impl Eq for InterfaceType {

}

impl PartialOrd for InterfaceType {
    fn partial_cmp(&self, other: &Self) -> (r: Option<Ordering>) {
        if comes_before(self.key().as_str(), other.key().as_str()) {
            Some(Ordering::Less)
        } else if comes_before(other.key().as_str(), self.key().as_str()) {
            Some(Ordering::Greater)
        } else {
            Some(Ordering::Equal)
        }
    }
}

impl PartialOrdSpecImpl for InterfaceType {
    open spec fn obeys_partial_cmp_spec() -> bool {
        true
    }

    open spec fn partial_cmp_spec(&self, other: &Self) -> Option<Ordering> {
        Some(key_order(key_of(self@), key_of(other@)))
    }
}

} // verus!
