//! The schema: entries, groups of alternatives, and the table that holds them.

use vstd::prelude::*;
use crate::token::LongFlag;
use crate::token::ShortFlag;
use crate::value::ParserView;
use crate::value::ValueParser;

verus! {

/// What an entry is.
#[derive(Clone, Copy, Debug, PartialEq, Eq)]
pub enum EntryKind {
    /// An argument known by its place among the values.
    Positional,
    /// A boolean switch that takes no argument.
    Flag,
    /// A named switch that takes exactly one value.
    FlagArg,
}

/// How a flag is addressed: by its long name alone, or by its long name and by
/// a short character.
#[derive(Debug, PartialEq, Eq)]
pub enum Flag {
    LongOnly(String),
    BothLongAndShort(String, char),
}

impl Flag {
    /// The long name.
    pub open spec fn long_name(&self) -> Seq<char> {
        match self {
            Flag::LongOnly(long) => long@,
            Flag::BothLongAndShort(long, _) => long@,
        }
    }

    /// The short character, where there is one.
    pub open spec fn short_char(&self) -> Option<char> {
        match self {
            Flag::LongOnly(_) => None,
            Flag::BothLongAndShort(_, short) => Some(*short),
        }
    }

    /// The shape that a long name and an optional short character call for.
    pub fn new(long: String, short: Option<char>) -> (flag: Flag)
        ensures
            flag.long_name() == long@,
            flag.short_char() == short,
            short is None <==> flag is LongOnly,
    {
        match short {
            Some(c) => Flag::BothLongAndShort(long, c),
            None => Flag::LongOnly(long),
        }
    }

    /// The long form.
    pub fn long(&self) -> (long: LongFlag)
        ensures
            long@ == self.long_name(),
    {
        match self {
            Flag::LongOnly(name) => LongFlag(name.clone()),
            Flag::BothLongAndShort(name, _) => LongFlag(name.clone()),
        }
    }

    /// The short form, where there is one.
    pub fn short(&self) -> (short: Option<ShortFlag>)
        ensures
            match short {
                Some(flag) => self.short_char() == Some(flag@),
                None => self.short_char() is None,
            },
    {
        match self {
            Flag::LongOnly(_) => None,
            Flag::BothLongAndShort(_, c) => Some(ShortFlag(*c)),
        }
    }
}

/// One entry of a schema.
#[derive(Debug, PartialEq, Eq)]
pub struct SchemaEntry {
    pub kind: EntryKind,
    /// The canonical name: what follows the two hyphens of a flag, and the name
    /// under which a positional is reported.
    pub long_name: String,
    pub short: Option<char>,
    pub description: String,
    /// The raw text that stands in where the command line supplies none.
    pub default: Option<String>,
    pub parser: ValueParser,
}

/// What an entry is, as mathematics.
pub struct EntryView {
    pub kind: EntryKind,
    pub long_name: Seq<char>,
    pub short: Option<char>,
    pub description: Seq<char>,
    pub default: Option<Seq<char>>,
    pub parser: ParserView,
}

impl View for SchemaEntry {
    type V = EntryView;

    open spec fn view(&self) -> EntryView {
        EntryView {
            kind: self.kind,
            long_name: self.long_name@,
            short: self.short,
            description: self.description@,
            default: self.default.deep_view(),
            parser: self.parser@,
        }
    }
}

impl DeepView for SchemaEntry {
    type V = EntryView;

    open spec fn deep_view(&self) -> EntryView {
        self@
    }
}

impl Clone for SchemaEntry {
    fn clone(&self) -> (copy: Self)
        ensures
            copy@ == self@,
    {
        let default = match &self.default {
            Some(text) => Some(text.clone()),
            None => None,
        };
        SchemaEntry {
            kind: self.kind,
            long_name: self.long_name.clone(),
            short: self.short,
            description: self.description.clone(),
            default,
            parser: self.parser.clone(),
        }
    }
}

impl SchemaEntry {
    /// A positional argument.
    pub fn positional(
        name: String,
        description: String,
        default: Option<String>,
        parser: ValueParser,
    ) -> (entry: SchemaEntry)
        ensures
            entry@ == (EntryView {
                kind: EntryKind::Positional,
                long_name: name@,
                short: None,
                description: description@,
                default: default.deep_view(),
                parser: parser@,
            }),
    {
        SchemaEntry {
            kind: EntryKind::Positional,
            long_name: name,
            short: None,
            description,
            default,
            parser,
        }
    }

    /// A boolean flag.
    pub fn flag(flag: Flag, description: String) -> (entry: SchemaEntry)
        ensures
            entry@ == (EntryView {
                kind: EntryKind::Flag,
                long_name: flag.long_name(),
                short: flag.short_char(),
                description: description@,
                default: None,
                parser: ParserView::Text,
            }),
    {
        let (long_name, short) = match flag {
            Flag::LongOnly(long) => (long, None),
            Flag::BothLongAndShort(long, c) => (long, Some(c)),
        };
        SchemaEntry {
            kind: EntryKind::Flag,
            long_name,
            short,
            description,
            default: None,
            parser: ValueParser::Text,
        }
    }

    /// A flag that takes one value.
    pub fn flag_arg(
        flag: Flag,
        description: String,
        default: Option<String>,
        parser: ValueParser,
    ) -> (entry: SchemaEntry)
        ensures
            entry@ == (EntryView {
                kind: EntryKind::FlagArg,
                long_name: flag.long_name(),
                short: flag.short_char(),
                description: description@,
                default: default.deep_view(),
                parser: parser@,
            }),
    {
        let (long_name, short) = match flag {
            Flag::LongOnly(long) => (long, None),
            Flag::BothLongAndShort(long, c) => (long, Some(c)),
        };
        SchemaEntry { kind: EntryKind::FlagArg, long_name, short, description, default, parser }
    }
}

/// Two entries clash when they share a long name or a short character.
pub open spec fn clash(a: EntryView, b: EntryView) -> bool {
    a.long_name == b.long_name || (a.short is Some && a.short == b.short)
}

/// Some entry of the list clashes with `entry`.
pub open spec fn declares(entries: Seq<EntryView>, entry: EntryView) -> bool {
    exists|i: int| 0 <= i < entries.len() && clash(#[trigger] entries[i], entry)
}

/// One alternative of a group as it is declared: a tag and the entry behind it.
#[derive(Debug, PartialEq, Eq)]
pub struct AlternativeDecl {
    pub tag: String,
    pub entry: SchemaEntry,
}

/// A group as it is declared: alternatives of which at most one may be taken.
#[derive(Debug, PartialEq, Eq)]
pub struct GroupDecl {
    pub name: String,
    pub description: String,
    /// Whether one alternative must be taken.
    pub mandatory: bool,
    pub alternatives: Vec<AlternativeDecl>,
}

/// What a declared alternative is, as mathematics.
pub struct AlternativeDeclView {
    pub tag: Seq<char>,
    pub entry: EntryView,
}

/// What a declared group is, as mathematics.
pub struct GroupDeclView {
    pub name: Seq<char>,
    pub description: Seq<char>,
    pub mandatory: bool,
    pub alternatives: Seq<AlternativeDeclView>,
}

impl View for AlternativeDecl {
    type V = AlternativeDeclView;

    open spec fn view(&self) -> AlternativeDeclView {
        AlternativeDeclView { tag: self.tag@, entry: self.entry@ }
    }
}

impl DeepView for AlternativeDecl {
    type V = AlternativeDeclView;

    open spec fn deep_view(&self) -> AlternativeDeclView {
        self@
    }
}

impl View for GroupDecl {
    type V = GroupDeclView;

    open spec fn view(&self) -> GroupDeclView {
        GroupDeclView {
            name: self.name@,
            description: self.description@,
            mandatory: self.mandatory,
            alternatives: self.alternatives.deep_view(),
        }
    }
}

/// One alternative of a group in a schema: a tag and the place of its entry.
#[derive(Debug, PartialEq, Eq)]
pub struct Alternative {
    pub tag: String,
    pub entry: usize,
}

/// A group in a schema.
#[derive(Debug, PartialEq, Eq)]
pub struct Group {
    pub name: String,
    pub description: String,
    pub mandatory: bool,
    pub alternatives: Vec<Alternative>,
}

/// What an alternative is, as mathematics.
pub struct AlternativeView {
    pub tag: Seq<char>,
    pub entry: int,
}

/// What a group is, as mathematics.
pub struct GroupView {
    pub name: Seq<char>,
    pub description: Seq<char>,
    pub mandatory: bool,
    pub alternatives: Seq<AlternativeView>,
}

impl View for Alternative {
    type V = AlternativeView;

    open spec fn view(&self) -> AlternativeView {
        AlternativeView { tag: self.tag@, entry: self.entry as int }
    }
}

impl DeepView for Alternative {
    type V = AlternativeView;

    open spec fn deep_view(&self) -> AlternativeView {
        self@
    }
}

impl View for Group {
    type V = GroupView;

    open spec fn view(&self) -> GroupView {
        GroupView {
            name: self.name@,
            description: self.description@,
            mandatory: self.mandatory,
            alternatives: self.alternatives.deep_view(),
        }
    }
}

impl DeepView for Group {
    type V = GroupView;

    open spec fn deep_view(&self) -> GroupView {
        self@
    }
}

impl GroupDeclView {
    /// The entries behind the alternatives, in the order of declaration.
    pub open spec fn entries(self) -> Seq<EntryView> {
        Seq::new(self.alternatives.len(), |k: int| self.alternatives[k].entry)
    }

    /// The `k`-th alternative, once its entry stands at `base + k`.
    pub open spec fn placed(self, base: int, k: int) -> AlternativeView {
        AlternativeView { tag: self.alternatives[k].tag, entry: base + k }
    }

    /// The group, once its entries stand in a row that starts at `base`.
    pub open spec fn placed_at(self, base: int) -> GroupView {
        GroupView {
            name: self.name,
            description: self.description,
            mandatory: self.mandatory,
            alternatives: Seq::new(self.alternatives.len(), |k: int| self.placed(base, k)),
        }
    }
}

/// The first of the incoming entries, at or after `k`, that clashes with an
/// entry already there or with an incoming one before it.
pub open spec fn first_clash(entries: Seq<EntryView>, incoming: Seq<EntryView>, k: int) -> Option<int>
    decreases incoming.len() - k,
{
    if k < 0 || k >= incoming.len() {
        None
    } else if declares(entries + incoming.take(k), incoming[k]) {
        Some(k)
    } else {
        first_clash(entries, incoming, k + 1)
    }
}

/// What a schema is, as mathematics: its entries in the order of declaration,
/// and its groups.
pub struct SchemaView {
    pub entries: Seq<EntryView>,
    pub groups: Seq<GroupView>,
}

impl SchemaView {
    /// The invariants of a schema: no two entries share a long name or a short
    /// character, no two groups share a name, and the alternatives of a group
    /// are entries of the schema, each a different one.
    pub open spec fn wf(self) -> bool {
        &&& forall|i: int, j: int|
            0 <= i < j < self.entries.len() ==> !clash(
                #[trigger] self.entries[i],
                #[trigger] self.entries[j],
            )
        &&& forall|g: int, h: int|
            0 <= g < h < self.groups.len() ==> (#[trigger] self.groups[g]).name != (
            #[trigger] self.groups[h]).name
        &&& forall|g: int, a: int|
            0 <= g < self.groups.len() && 0 <= a < self.groups[g].alternatives.len() ==> 0 <= (
            #[trigger] self.groups[g].alternatives[a]).entry < self.entries.len()
        &&& forall|g: int, a: int, b: int|
            0 <= g < self.groups.len() && 0 <= a < b < self.groups[g].alternatives.len() ==> (
            #[trigger] self.groups[g].alternatives[a]).entry != (
            #[trigger] self.groups[g].alternatives[b]).entry
    }

    /// Some group of the schema has this name.
    pub open spec fn names_group(self, name: Seq<char>) -> bool {
        exists|g: int| 0 <= g < self.groups.len() && (#[trigger] self.groups[g]).name == name
    }

    /// The schema with one more entry at its end.
    pub open spec fn with_entry(self, entry: EntryView) -> SchemaView {
        SchemaView { entries: self.entries.push(entry), groups: self.groups }
    }

    /// The schema with one more group, whose entries stand at the end in the
    /// order of declaration.
    pub open spec fn with_group(self, group: GroupDeclView) -> SchemaView {
        SchemaView {
            entries: self.entries + group.entries(),
            groups: self.groups.push(group.placed_at(self.entries.len() as int)),
        }
    }

    /// The name under which a group is refused, if it is: the group's own name
    /// where a group of the schema has it, else the long name of the first of
    /// its entries that clashes.
    pub open spec fn refusal(self, group: GroupDeclView) -> Option<Seq<char>> {
        if self.names_group(group.name) {
            Some(group.name)
        } else {
            match first_clash(self.entries, group.entries(), 0) {
                Some(k) => Some(group.entries()[k].long_name),
                None => None,
            }
        }
    }
}

/// A schema that takes in an entry which clashes with none of its own keeps
/// the invariants.
pub proof fn lemma_with_entry_wf(schema: SchemaView, entry: EntryView)
    requires
        schema.wf(),
        !declares(schema.entries, entry),
    ensures
        schema.with_entry(entry).wf(),
{
    let grown = schema.with_entry(entry);
    assert forall|i: int, j: int| 0 <= i < j < grown.entries.len() implies !clash(
        #[trigger] grown.entries[i],
        #[trigger] grown.entries[j],
    ) by {
        assert(grown.entries[i] == schema.entries[i]);
        if j < schema.entries.len() {
            assert(grown.entries[j] == schema.entries[j]);
        }
    }
}

/// Why a declaration was refused when the schema was built.
#[derive(Debug, PartialEq, Eq)]
pub enum SchemaError {
    /// The declaration of this name repeats a long name, a short character or a
    /// group name that the schema holds already.
    DuplicateSchemaDeclaration(String),
}

/// What a schema error is, as mathematics.
pub enum SchemaErrorView {
    DuplicateSchemaDeclaration(Seq<char>),
}

impl View for SchemaError {
    type V = SchemaErrorView;

    open spec fn view(&self) -> SchemaErrorView {
        match self {
            SchemaError::DuplicateSchemaDeclaration(name) => SchemaErrorView::DuplicateSchemaDeclaration(
                name@,
            ),
        }
    }
}

/// Whether the two entries clash.
fn entries_clash(a: &SchemaEntry, b: &SchemaEntry) -> (found: bool)
    ensures
        found == clash(a@, b@),
{
    if a.long_name == b.long_name {
        return true;
    }
    match (a.short, b.short) {
        (Some(x), Some(y)) => x == y,
        _ => false,
    }
}

/// Whether some entry of the list clashes with `entry`.
fn declared_in(entries: &Vec<SchemaEntry>, entry: &SchemaEntry) -> (found: bool)
    ensures
        found == declares(entries.deep_view(), entry@),
{
    let mut i: usize = 0;
    while i < entries.len()
        invariant
            i <= entries.len(),
            forall|k: int| 0 <= k < i ==> !clash(#[trigger] entries.deep_view()[k], entry@),
        decreases entries.len() - i,
    {
        assert(entries.deep_view()[i as int] == entries[i as int]@);
        if entries_clash(&entries[i], entry) {
            return true;
        }
        i += 1;
    }
    false
}

/// Whether some group of the list has this name.
fn group_named(groups: &Vec<Group>, name: &String) -> (found: bool)
    ensures
        found == exists|g: int|
            0 <= g < groups.len() && (#[trigger] groups.deep_view()[g]).name == name@,
{
    let mut i: usize = 0;
    while i < groups.len()
        invariant
            i <= groups.len(),
            forall|k: int| 0 <= k < i ==> (#[trigger] groups.deep_view()[k]).name != name@,
        decreases groups.len() - i,
    {
        assert(groups.deep_view()[i as int] == groups[i as int]@);
        if groups[i].name == *name {
            return true;
        }
        i += 1;
    }
    false
}

/// A schema: a table of entries and groups that keeps its invariants.
///
/// A schema starts empty and grows by one declaration at a time; a declaration
/// that would break an invariant is refused.
#[derive(Debug)]
pub struct Schema {
    entries: Vec<SchemaEntry>,
    groups: Vec<Group>,
}

impl View for Schema {
    type V = SchemaView;

    closed spec fn view(&self) -> SchemaView {
        SchemaView { entries: self.entries.deep_view(), groups: self.groups.deep_view() }
    }
}

impl Schema {
    #[verifier::type_invariant]
    spec fn inv(self) -> bool {
        self@.wf()
    }

    /// The schema that declares nothing.
    pub fn new() -> (schema: Schema)
        ensures
            schema@ == (SchemaView { entries: Seq::empty(), groups: Seq::empty() }),
    {
        let entries: Vec<SchemaEntry> = Vec::new();
        let groups: Vec<Group> = Vec::new();
        assert(entries.deep_view() =~= Seq::empty());
        assert(groups.deep_view() =~= Seq::empty());
        Schema { entries, groups }
    }

    /// The entries, in the order of declaration.
    pub fn entries(&self) -> (entries: &Vec<SchemaEntry>)
        ensures
            entries.deep_view() == self@.entries,
            self@.wf(),
    {
        proof {
            use_type_invariant(self);
        }
        &self.entries
    }

    /// The groups, in the order of declaration.
    pub fn groups(&self) -> (groups: &Vec<Group>)
        ensures
            groups.deep_view() == self@.groups,
            self@.wf(),
    {
        proof {
            use_type_invariant(self);
        }
        &self.groups
    }

    /// Declares one entry.
    ///
    /// The entry is refused, under its long name, where an entry of the schema
    /// has its long name or its short character.
    pub fn with_entry(self, entry: SchemaEntry) -> (result: Result<Schema, SchemaError>)
        ensures
            match result {
                Ok(schema) => !declares(self@.entries, entry@) && schema@ == self@.with_entry(
                    entry@,
                ),
                Err(error) => declares(self@.entries, entry@) && error@
                    == SchemaErrorView::DuplicateSchemaDeclaration(entry@.long_name),
            },
    {
        proof {
            use_type_invariant(&self);
        }
        if declared_in(&self.entries, &entry) {
            return Err(SchemaError::DuplicateSchemaDeclaration(entry.long_name));
        }
        let ghost before = self@;
        let mut entries = self.entries;
        let groups = self.groups;
        entries.push(entry);
        proof {
            assert(entries.deep_view() =~= before.entries.push(entry@));
            lemma_with_entry_wf(before, entry@);
        }
        Ok(Schema { entries, groups })
    }

    /// Declares one group, and with it the entries behind its alternatives.
    ///
    /// The group is refused under its own name where a group of the schema has
    /// that name; else under the long name of the first of its entries that
    /// clashes with an entry of the schema or with an earlier entry of the
    /// group.
    pub fn with_group(self, group: &GroupDecl) -> (result: Result<Schema, SchemaError>)
        ensures
            match result {
                Ok(schema) => self@.refusal(group@) is None && schema@ == self@.with_group(group@),
                Err(error) => self@.refusal(group@) is Some && error@
                    == SchemaErrorView::DuplicateSchemaDeclaration(self@.refusal(group@)->0),
            },
    {
        proof {
            use_type_invariant(&self);
        }
        if group_named(&self.groups, &group.name) {
            return Err(SchemaError::DuplicateSchemaDeclaration(group.name.clone()));
        }
        let ghost before = self@;
        let ghost incoming = group@.entries();
        let mut entries = self.entries;
        let mut groups = self.groups;
        let base: usize = entries.len();
        let mut alternatives: Vec<Alternative> = Vec::new();
        let mut k: usize = 0;
        while k < group.alternatives.len()
            invariant
                k <= group.alternatives.len(),
                incoming == group@.entries(),
                incoming.len() == group.alternatives.len(),
                base == before.entries.len(),
                before == self@,
                before.wf(),
                !before.names_group(group@.name),
                entries.len() == base + k,
                entries.deep_view() == before.entries + incoming.take(k as int),
                first_clash(before.entries, incoming, k as int) == first_clash(
                    before.entries,
                    incoming,
                    0,
                ),
                forall|i: int, j: int|
                    0 <= i < j < entries.len() ==> !clash(
                        #[trigger] entries.deep_view()[i],
                        #[trigger] entries.deep_view()[j],
                    ),
                alternatives.len() == k,
                forall|a: int| 0 <= a < k ==> (#[trigger] alternatives.deep_view()[a]) == group@.placed(base as int, a),
            decreases group.alternatives.len() - k,
        {
            let declared = &group.alternatives[k];
            assert(group.alternatives.deep_view()[k as int] == group.alternatives[k as int]@);
            assert(incoming[k as int] == declared.entry@);
            if declared_in(&entries, &declared.entry) {
                return Err(SchemaError::DuplicateSchemaDeclaration(declared.entry.long_name.clone()));
            }
            let ghost held = entries.deep_view();
            let place: usize = entries.len();
            entries.push(declared.entry.clone());
            let ghost chosen = alternatives.deep_view();
            alternatives.push(Alternative { tag: declared.tag.clone(), entry: place });
            proof {
                assert(group@.alternatives[k as int] == declared@);
                assert(alternatives.deep_view() =~= chosen.push(group@.placed(base as int, k as int)));
                assert(entries.deep_view() =~= held.push(declared.entry@));
                assert(incoming.take(k + 1) =~= incoming.take(k as int).push(incoming[k as int]));
                assert(entries.deep_view() =~= before.entries + incoming.take(k + 1));
            }
            k += 1;
        }
        assert(incoming.take(k as int) =~= incoming);
        let ghost placed = group@.placed_at(base as int);
        let made = Group {
            name: group.name.clone(),
            description: group.description.clone(),
            mandatory: group.mandatory,
            alternatives,
        };
        assert(made@.alternatives =~= placed.alternatives);
        let ghost held = groups.deep_view();
        groups.push(made);
        proof {
            assert(groups.deep_view() =~= held.push(placed));
            let grown = before.with_group(group@);
            assert(grown.entries == entries.deep_view());
            assert(grown.groups == groups.deep_view());
            assert forall|g: int, h: int| 0 <= g < h < grown.groups.len() implies (
            #[trigger] grown.groups[g]).name != (#[trigger] grown.groups[h]).name by {
                if h < before.groups.len() {
                    assert(grown.groups[g] == before.groups[g]);
                    assert(grown.groups[h] == before.groups[h]);
                } else {
                    assert(grown.groups[g] == before.groups[g]);
                }
            }
            assert forall|g: int, a: int|
                0 <= g < grown.groups.len() && 0 <= a < grown.groups[g].alternatives.len() implies 0
                <= (#[trigger] grown.groups[g].alternatives[a]).entry < grown.entries.len() by {
                if g < before.groups.len() {
                    assert(grown.groups[g] == before.groups[g]);
                }
            }
            assert forall|g: int, a: int, b: int|
                0 <= g < grown.groups.len() && 0 <= a < b
                    < grown.groups[g].alternatives.len() implies (
            #[trigger] grown.groups[g].alternatives[a]).entry != (
            #[trigger] grown.groups[g].alternatives[b]).entry by {
                if g < before.groups.len() {
                    assert(grown.groups[g] == before.groups[g]);
                }
            }
            assert(grown.wf());
        }
        Ok(Schema { entries, groups })
    }
}

} // verus!
