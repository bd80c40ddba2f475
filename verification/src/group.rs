//! The group disambiguator: which alternative of each group was taken.

use vstd::prelude::*;
use crate::error::ErrorKind;
use crate::error::ErrorKindView;
use crate::error::ErrorView;
use crate::error::ResolutionError;
use crate::parsed::GroupBinding;
use crate::parsed::GroupBindingView;
use crate::parsed::Selection;
use crate::parsed::SelectionView;
use crate::schema::Alternative;
use crate::schema::AlternativeView;
use crate::schema::Group;
use crate::schema::GroupView;
use crate::slot::Slot;
use crate::slot::SlotView;

verus! {

/// An alternative is taken when the slot of its entry is filled.
pub open spec fn taken(slots: Seq<SlotView>, alternative: AlternativeView) -> bool {
    0 <= alternative.entry < slots.len() && !(slots[alternative.entry] is Empty)
}

/// The place of the first alternative, at or after `from`, that is taken.
pub open spec fn first_taken(slots: Seq<SlotView>, alternatives: Seq<AlternativeView>, from: int) -> Option<int>
    decreases alternatives.len() - from,
{
    if from < 0 || from >= alternatives.len() {
        None
    } else if taken(slots, alternatives[from]) {
        Some(from)
    } else {
        first_taken(slots, alternatives, from + 1)
    }
}

/// The later of two places.
pub open spec fn later(a: int, b: int) -> int {
    if a >= b {
        a
    } else {
        b
    }
}

/// What one group resolves to.
///
/// With no alternative taken, a mandatory group is missing and an optional one
/// stays unset. With exactly one taken, that one is chosen. With two or more
/// taken, the group is in conflict: the error names the first two of them in
/// the order of declaration, and points at the later of the two tokens that
/// took them.
pub open spec fn group_outcome(group: GroupView, slots: Seq<SlotView>, end: int) -> Result<
    SelectionView,
    ErrorView,
> {
    match first_taken(slots, group.alternatives, 0) {
        None => if group.mandatory {
            Err(ErrorView { kind: ErrorKindView::MissingGroup(group.name), position: end })
        } else {
            Ok(SelectionView::Unset)
        },
        Some(a) => match first_taken(slots, group.alternatives, a + 1) {
            None => Ok(SelectionView::Chosen(a, group.alternatives[a].tag)),
            Some(b) => Err(
                ErrorView {
                    kind: ErrorKindView::ConflictingGroup(
                        group.name,
                        group.alternatives[a].tag,
                        group.alternatives[b].tag,
                    ),
                    position: later(
                        slots[group.alternatives[a].entry].filled_at(),
                        slots[group.alternatives[b].entry].filled_at(),
                    ),
                },
            ),
        },
    }
}

/// What the groups from the `g`-th on resolve to, after `done`: the first error
/// among them in the order of declaration, or a binding for each.
pub open spec fn selections_from(
    groups: Seq<GroupView>,
    slots: Seq<SlotView>,
    end: int,
    g: int,
    done: Seq<GroupBindingView>,
) -> Result<Seq<GroupBindingView>, ErrorView>
    decreases groups.len() - g,
{
    if g < 0 || g >= groups.len() {
        Ok(done)
    } else {
        match group_outcome(groups[g], slots, end) {
            Err(error) => Err(error),
            Ok(selection) => selections_from(
                groups,
                slots,
                end,
                g + 1,
                done.push(GroupBindingView { name: groups[g].name, selection }),
            ),
        }
    }
}

/// What the groups resolve to.
pub open spec fn selections(groups: Seq<GroupView>, slots: Seq<SlotView>, end: int) -> Result<
    Seq<GroupBindingView>,
    ErrorView,
> {
    selections_from(groups, slots, end, 0, Seq::empty())
}

/// The view of a selection or of the error in its place.
pub open spec fn selection_view(outcome: Result<Selection, ResolutionError>) -> Result<
    SelectionView,
    ErrorView,
> {
    match outcome {
        Ok(selection) => Ok(selection@),
        Err(error) => Err(error@),
    }
}

/// The view of the group bindings or of the error in their place.
pub open spec fn selections_view(outcome: Result<Vec<GroupBinding>, ResolutionError>) -> Result<
    Seq<GroupBindingView>,
    ErrorView,
> {
    match outcome {
        Ok(bindings) => Ok(bindings.deep_view()),
        Err(error) => Err(error@),
    }
}

/// What is found is taken, and nothing between `from` and it is.
pub proof fn lemma_first_taken(slots: Seq<SlotView>, alternatives: Seq<AlternativeView>, from: int)
    requires
        0 <= from,
    ensures
        match first_taken(slots, alternatives, from) {
            Some(place) => {
                &&& from <= place < alternatives.len()
                &&& taken(slots, alternatives[place])
                &&& forall|k: int| from <= k < place ==> !taken(slots, alternatives[k])
            },
            None => forall|k: int| from <= k < alternatives.len() ==> !taken(slots, alternatives[k]),
        },
    decreases alternatives.len() - from,
{
    if from < alternatives.len() && !taken(slots, alternatives[from]) {
        lemma_first_taken(slots, alternatives, from + 1);
    }
}

/// Finds the first alternative, at or after `from`, that is taken.
fn find_taken(alternatives: &Vec<Alternative>, slots: &Vec<Slot>, from: usize) -> (found: Option<usize>)
    ensures
        match found {
            Some(place) => first_taken(slots.deep_view(), alternatives.deep_view(), from as int)
                == Some(place as int) && place < alternatives.len() && alternatives[place as int].entry
                < slots.len(),
            None => first_taken(slots.deep_view(), alternatives.deep_view(), from as int) is None,
        },
{
    let mut i: usize = from;
    while i < alternatives.len()
        invariant
            from <= i,
            first_taken(slots.deep_view(), alternatives.deep_view(), i as int) == first_taken(
                slots.deep_view(),
                alternatives.deep_view(),
                from as int,
            ),
        decreases alternatives.len() - i,
    {
        let entry: usize = alternatives[i].entry;
        assert(alternatives.deep_view()[i as int] == alternatives[i as int]@);
        if entry < slots.len() {
            assert(slots.deep_view()[entry as int] == slots[entry as int]@);
            if !slots[entry].is_empty() {
                return Some(i);
            }
        }
        i += 1;
    }
    None
}

/// Resolves one group against the slots that the scan has filled.
///
/// `end` is the number of tokens: the place that a missing group is reported
/// at.
pub fn resolve_group(group: &Group, slots: &Vec<Slot>, end: usize) -> (outcome: Result<
    Selection,
    ResolutionError,
>)
    ensures
        selection_view(outcome) == group_outcome(group@, slots.deep_view(), end as int),
{
    match find_taken(&group.alternatives, slots, 0) {
        None => {
            if group.mandatory {
                Err(
                    ResolutionError {
                        kind: ErrorKind::MissingGroup(group.name.clone()),
                        position: end,
                    },
                )
            } else {
                Ok(Selection::Unset)
            }
        },
        Some(a) => {
            assert(group@.alternatives[a as int] == group.alternatives[a as int]@);
            match find_taken(&group.alternatives, slots, a + 1) {
                None => Ok(Selection::Chosen(a, group.alternatives[a].tag.clone())),
                Some(b) => {
                    assert(group@.alternatives[b as int] == group.alternatives[b as int]@);
                    let first = &group.alternatives[a];
                    let second = &group.alternatives[b];
                    assert(slots.deep_view()[first.entry as int] == slots[first.entry as int]@);
                    assert(slots.deep_view()[second.entry as int] == slots[second.entry as int]@);
                    let at_first: usize = slots[first.entry].filled_at();
                    let at_second: usize = slots[second.entry].filled_at();
                    let position: usize = if at_first >= at_second {
                        at_first
                    } else {
                        at_second
                    };
                    Err(
                        ResolutionError {
                            kind: ErrorKind::ConflictingGroup(
                                group.name.clone(),
                                first.tag.clone(),
                                second.tag.clone(),
                            ),
                            position,
                        },
                    )
                },
            }
        },
    }
}

/// Resolves every group, in the order of declaration, and stops at the first
/// that fails.
pub fn disambiguate(groups: &Vec<Group>, slots: &Vec<Slot>, end: usize) -> (outcome: Result<
    Vec<GroupBinding>,
    ResolutionError,
>)
    ensures
        selections_view(outcome) == selections(groups.deep_view(), slots.deep_view(), end as int),
{
    let mut done: Vec<GroupBinding> = Vec::new();
    let mut g: usize = 0;
    assert(done.deep_view() =~= Seq::empty());
    while g < groups.len()
        invariant
            g <= groups.len(),
            selections_from(
                groups.deep_view(),
                slots.deep_view(),
                end as int,
                g as int,
                done.deep_view(),
            ) == selections(groups.deep_view(), slots.deep_view(), end as int),
        decreases groups.len() - g,
    {
        assert(groups.deep_view()[g as int] == groups[g as int]@);
        match resolve_group(&groups[g], slots, end) {
            Err(error) => {
                return Err(error);
            },
            Ok(selection) => {
                let ghost held = done.deep_view();
                let binding = GroupBinding { name: groups[g].name.clone(), selection };
                let ghost bound = binding@;
                done.push(binding);
                assert(done.deep_view() =~= held.push(bound));
            },
        }
        g += 1;
    }
    Ok(done)
}

} // verus!
