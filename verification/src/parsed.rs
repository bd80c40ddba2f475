//! The result of a resolution.

use vstd::prelude::*;
use crate::value::TypedValue;
use crate::value::ValueView;

verus! {

/// What one entry resolved to.
#[derive(Debug, PartialEq, Eq)]
pub enum Resolved {
    /// A flag: whether the command line held it.
    Flag(bool),
    /// A positional or a flag with a value: the value, supplied or by default.
    Value(TypedValue),
    /// A positional or a flag with a value that was neither supplied nor has a
    /// default.
    Unset,
}

/// What a resolved entry is, as mathematics.
pub enum ResolvedView {
    Flag(bool),
    Value(ValueView),
    Unset,
}

impl View for Resolved {
    type V = ResolvedView;

    open spec fn view(&self) -> ResolvedView {
        match self {
            Resolved::Flag(present) => ResolvedView::Flag(*present),
            Resolved::Value(value) => ResolvedView::Value(value@),
            Resolved::Unset => ResolvedView::Unset,
        }
    }
}

/// The name of an entry and what it resolved to.
#[derive(Debug, PartialEq, Eq)]
pub struct Binding {
    pub name: String,
    pub value: Resolved,
}

/// What a binding is, as mathematics.
pub struct BindingView {
    pub name: Seq<char>,
    pub value: ResolvedView,
}

impl View for Binding {
    type V = BindingView;

    open spec fn view(&self) -> BindingView {
        BindingView { name: self.name@, value: self.value@ }
    }
}

impl DeepView for Binding {
    type V = BindingView;

    open spec fn deep_view(&self) -> BindingView {
        self@
    }
}

/// What a group resolved to: one alternative, or none.
#[derive(Debug, PartialEq, Eq)]
pub enum Selection {
    /// No alternative was taken.
    Unset,
    /// The alternative at this place among the group's alternatives, of this
    /// tag, was taken, and no other.
    Chosen(usize, String),
}

/// What a selection is, as mathematics.
pub enum SelectionView {
    Unset,
    Chosen(int, Seq<char>),
}

impl View for Selection {
    type V = SelectionView;

    open spec fn view(&self) -> SelectionView {
        match self {
            Selection::Unset => SelectionView::Unset,
            Selection::Chosen(place, tag) => SelectionView::Chosen(*place as int, tag@),
        }
    }
}

/// The name of a group and what it resolved to.
#[derive(Debug, PartialEq, Eq)]
pub struct GroupBinding {
    pub name: String,
    pub selection: Selection,
}

/// What a group binding is, as mathematics.
pub struct GroupBindingView {
    pub name: Seq<char>,
    pub selection: SelectionView,
}

impl View for GroupBinding {
    type V = GroupBindingView;

    open spec fn view(&self) -> GroupBindingView {
        GroupBindingView { name: self.name@, selection: self.selection@ }
    }
}

impl DeepView for GroupBinding {
    type V = GroupBindingView;

    open spec fn deep_view(&self) -> GroupBindingView {
        self@
    }
}

/// What a command line resolved to: one binding for each entry of the schema
/// and one for each of its groups, both in the order of declaration.
#[derive(Debug, PartialEq, Eq)]
pub struct ParsedResult {
    pub entries: Vec<Binding>,
    pub groups: Vec<GroupBinding>,
}

/// What a result is, as mathematics.
pub struct ParsedView {
    pub entries: Seq<BindingView>,
    pub groups: Seq<GroupBindingView>,
}

impl View for ParsedResult {
    type V = ParsedView;

    open spec fn view(&self) -> ParsedView {
        ParsedView { entries: self.entries.deep_view(), groups: self.groups.deep_view() }
    }
}

/// The place of the first binding, at or after `from`, of this name.
pub open spec fn first_binding(entries: Seq<BindingView>, name: Seq<char>, from: int) -> Option<int>
    decreases entries.len() - from,
{
    if from < 0 || from >= entries.len() {
        None
    } else if entries[from].name == name {
        Some(from)
    } else {
        first_binding(entries, name, from + 1)
    }
}

/// The place of the first group binding, at or after `from`, of this name.
pub open spec fn first_group_binding(groups: Seq<GroupBindingView>, name: Seq<char>, from: int) -> Option<int>
    decreases groups.len() - from,
{
    if from < 0 || from >= groups.len() {
        None
    } else if groups[from].name == name {
        Some(from)
    } else {
        first_group_binding(groups, name, from + 1)
    }
}

impl ParsedView {
    /// What the entry of this name resolved to, if the result binds the name.
    pub open spec fn value_of(self, name: Seq<char>) -> Option<ResolvedView> {
        match first_binding(self.entries, name, 0) {
            Some(place) => Some(self.entries[place].value),
            None => None,
        }
    }

    /// What the group of this name resolved to, if the result binds the name.
    pub open spec fn selection_of(self, name: Seq<char>) -> Option<SelectionView> {
        match first_group_binding(self.groups, name, 0) {
            Some(place) => Some(self.groups[place].selection),
            None => None,
        }
    }
}

/// A binding is found exactly when some binding has the name, and what is
/// found is the first of them.
pub proof fn lemma_first_binding(entries: Seq<BindingView>, name: Seq<char>, from: int)
    requires
        0 <= from,
    ensures
        match first_binding(entries, name, from) {
            Some(place) => {
                &&& from <= place < entries.len()
                &&& entries[place].name == name
                &&& forall|k: int| from <= k < place ==> entries[k].name != name
            },
            None => forall|k: int| from <= k < entries.len() ==> entries[k].name != name,
        },
    decreases entries.len() - from,
{
    if from < entries.len() && entries[from].name != name {
        lemma_first_binding(entries, name, from + 1);
    }
}

/// A group binding is found exactly when some group binding has the name, and
/// what is found is the first of them.
pub proof fn lemma_first_group_binding(groups: Seq<GroupBindingView>, name: Seq<char>, from: int)
    requires
        0 <= from,
    ensures
        match first_group_binding(groups, name, from) {
            Some(place) => {
                &&& from <= place < groups.len()
                &&& groups[place].name == name
                &&& forall|k: int| from <= k < place ==> groups[k].name != name
            },
            None => forall|k: int| from <= k < groups.len() ==> groups[k].name != name,
        },
    decreases groups.len() - from,
{
    if from < groups.len() && groups[from].name != name {
        lemma_first_group_binding(groups, name, from + 1);
    }
}

impl ParsedResult {
    /// What the entry of this name resolved to.
    pub fn value_of(&self, name: &str) -> (found: Option<&Resolved>)
        ensures
            match found {
                Some(value) => self@.value_of(name@) == Some(value@),
                None => self@.value_of(name@) is None,
            },
    {
        let wanted = name.to_owned();
        let mut i: usize = 0;
        while i < self.entries.len()
            invariant
                i <= self.entries.len(),
                wanted@ == name@,
                first_binding(self@.entries, name@, i as int) == first_binding(
                    self@.entries,
                    name@,
                    0,
                ),
            decreases self.entries.len() - i,
        {
            assert(self@.entries[i as int] == self.entries[i as int]@);
            if self.entries[i].name == wanted {
                return Some(&self.entries[i].value);
            }
            i += 1;
        }
        None
    }

    /// What the group of this name resolved to.
    pub fn selection_of(&self, name: &str) -> (found: Option<&Selection>)
        ensures
            match found {
                Some(selection) => self@.selection_of(name@) == Some(selection@),
                None => self@.selection_of(name@) is None,
            },
    {
        let wanted = name.to_owned();
        let mut i: usize = 0;
        while i < self.groups.len()
            invariant
                i <= self.groups.len(),
                wanted@ == name@,
                first_group_binding(self@.groups, name@, i as int) == first_group_binding(
                    self@.groups,
                    name@,
                    0,
                ),
            decreases self.groups.len() - i,
        {
            assert(self@.groups[i as int] == self.groups[i as int]@);
            if self.groups[i].name == wanted {
                return Some(&self.groups[i].selection);
            }
            i += 1;
        }
        None
    }
}

} // verus!
