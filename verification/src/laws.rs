//! Laws of the resolution, proved from its model.

use vstd::prelude::*;
use crate::error::ErrorKindView;
use crate::error::ErrorView;
use crate::error::ResolutionError;
use crate::group::first_taken;
use crate::group::group_outcome;
use crate::group::later;
use crate::group::lemma_first_taken;
use crate::group::taken;
use crate::group::selections_from;
use crate::parsed::BindingView;
use crate::parsed::first_binding;
use crate::parsed::first_group_binding;
use crate::parsed::lemma_first_binding;
use crate::parsed::lemma_first_group_binding;
use crate::parsed::GroupBindingView;
use crate::parsed::ParsedResult;
use crate::parsed::ParsedView;
use crate::parsed::ResolvedView;
use crate::parsed::SelectionView;
use crate::resolver::addresses;
use crate::resolver::bindings_from;
use crate::resolver::lookup;
use crate::resolver::loose_in;
use crate::resolver::mandatory;
use crate::resolver::named;
use crate::resolver::outcome_view;
use crate::resolver::resolution;
use crate::resolver::scan;
use crate::resolver::scan_from;
use crate::resolver::seat_from;
use crate::resolver::settled;
use crate::resolver::ScanView;
use crate::schema::clash;
use crate::schema::declares;
use crate::schema::first_clash;
use crate::schema::GroupDeclView;
use crate::schema::EntryView;
use crate::schema::GroupView;
use crate::schema::Schema;
use crate::schema::SchemaView;
use crate::slot::empty_slots;
use crate::slot::SlotView;
use crate::token::item_tokens;
use crate::token::short_flag_token;
use crate::token::tokens_of;
use crate::token::Token;
use crate::token::TokenView;

verus! {

/// Tokenizing is deterministic: two runs on the same items give the same
/// tokens.
pub proof fn law_tokens_are_determined(
    items_a: Vec<String>,
    first: Vec<Token>,
    items_b: Vec<String>,
    second: Vec<Token>,
)
    requires
        items_a.deep_view() == items_b.deep_view(),
        first.deep_view() == tokens_of(items_a.deep_view()),
        second.deep_view() == tokens_of(items_b.deep_view()),
    ensures
        first.deep_view() == second.deep_view(),
{
}

/// An item that begins with two hyphens makes exactly one token, a long flag
/// of all that follows them: it is never split.
pub proof fn law_long_item_is_one_token(item: Seq<char>)
    requires
        item.len() >= 2,
        item[0] == '-',
        item[1] == '-',
    ensures
        item_tokens(item) == seq![TokenView::LongFlag(item.skip(2))],
{
}

/// An item that begins with a single hyphen makes one short flag of each
/// character behind the hyphen, in the order of the characters.
pub proof fn law_cluster_keeps_order(item: Seq<char>)
    requires
        item.len() >= 1,
        item[0] == '-',
        item.len() >= 2 ==> item[1] != '-',
    ensures
        item_tokens(item).len() == item.len() - 1,
        forall|k: int|
            0 <= k < item.len() - 1 ==> #[trigger] item_tokens(item)[k] == short_flag_token(
                item[k + 1],
            ),
{
}

/// The tokens follow the items: those of a command line in two parts are those
/// of the first part, then those of the second.
pub proof fn law_tokens_follow_the_items(first: Seq<Seq<char>>, second: Seq<Seq<char>>)
    ensures
        tokens_of(first + second) == tokens_of(first) + tokens_of(second),
    decreases second.len(),
{
    if second.len() == 0 {
        assert(first + second =~= first);
        assert(tokens_of(first) + tokens_of(second) =~= tokens_of(first));
    } else {
        law_tokens_follow_the_items(first, second.drop_last());
        assert((first + second).drop_last() =~= first + second.drop_last());
        assert((first + second).last() == second.last());
        assert(tokens_of(first + second) =~= tokens_of(first) + tokens_of(second));
    }
}

/// Resolution is deterministic: two runs on the same schema and the same
/// tokens give the same result, or the same error.
pub proof fn law_resolution_is_deterministic(
    schema_a: Schema,
    tokens_a: Vec<Token>,
    first: Result<ParsedResult, ResolutionError>,
    schema_b: Schema,
    tokens_b: Vec<Token>,
    second: Result<ParsedResult, ResolutionError>,
)
    requires
        schema_a@ == schema_b@,
        tokens_a.deep_view() == tokens_b.deep_view(),
        outcome_view(first) == resolution(schema_a@, tokens_a.deep_view()),
        outcome_view(second) == resolution(schema_b@, tokens_b.deep_view()),
    ensures
        outcome_view(first) == outcome_view(second),
{
}

/// The resolution fails fast: an error of the scan is the error of the
/// resolution.
pub proof fn law_scan_error_is_final(schema: SchemaView, tokens: Seq<TokenView>)
    requires
        scan(schema.entries, tokens) is Err,
    ensures
        resolution(schema, tokens) == Err::<ParsedView, ErrorView>(
            scan(schema.entries, tokens)->Err_0,
        ),
{
}

/// A flag token that addresses no entry stops the scan where it stands, as an
/// unknown flag.
pub proof fn law_unknown_flag_stops_the_scan(
    entries: Seq<EntryView>,
    tokens: Seq<TokenView>,
    i: int,
    state: ScanView,
)
    requires
        0 <= i < tokens.len(),
        !(tokens[i] is Value),
        forall|k: int| 0 <= k < entries.len() ==> !addresses(entries[k], tokens[i]),
    ensures
        scan_from(entries, tokens, i, state) == Err::<ScanView, ErrorView>(
            ErrorView { kind: ErrorKindView::UnknownFlag(named(tokens[i])), position: i },
        ),
{
    lemma_lookup(entries, tokens[i], 0);
}

/// The flag of an entry that takes a value stops the scan where it stands
/// unless a value token follows it: at the end of the command line, and before
/// another flag, its value is missing.
pub proof fn law_flag_without_value_stops_the_scan(
    entries: Seq<EntryView>,
    tokens: Seq<TokenView>,
    i: int,
    state: ScanView,
)
    requires
        0 <= i < tokens.len(),
        !(tokens[i] is Value),
        lookup(entries, tokens[i], 0) is Some,
        entries[lookup(entries, tokens[i], 0)->0].kind is FlagArg,
        i + 1 == tokens.len() || !(tokens[i + 1] is Value),
    ensures
        scan_from(entries, tokens, i, state) == Err::<ScanView, ErrorView>(
            ErrorView {
                kind: ErrorKindView::MissingArgumentValue(
                    entries[lookup(entries, tokens[i], 0)->0].long_name,
                ),
                position: i,
            },
        ),
{
}

/// What is looked up is addressed by the token, and no entry between `from`
/// and it is.
pub proof fn lemma_lookup(entries: Seq<EntryView>, token: TokenView, from: int)
    requires
        0 <= from,
    ensures
        match lookup(entries, token, from) {
            Some(k) => {
                &&& from <= k < entries.len()
                &&& addresses(entries[k], token)
                &&& forall|j: int| from <= j < k ==> !addresses(entries[j], token)
            },
            None => forall|j: int| from <= j < entries.len() ==> !addresses(entries[j], token),
        },
    decreases entries.len() - from,
{
    if from < entries.len() && !addresses(entries[from], token) {
        lemma_lookup(entries, token, from + 1);
    }
}

/// The bindings that come after `done` continue it: one for each entry from
/// the `e`-th on, under the entry's long name, with what the entry settles to.
pub proof fn lemma_bindings_from(
    entries: Seq<EntryView>,
    slots: Seq<SlotView>,
    end: int,
    e: int,
    done: Seq<BindingView>,
)
    requires
        0 <= e <= entries.len(),
        bindings_from(entries, slots, end, e, done) is Ok,
    ensures
        ({
            let bound = bindings_from(entries, slots, end, e, done)->Ok_0;
            &&& bound.len() == done.len() + entries.len() - e
            &&& forall|j: int| 0 <= j < done.len() ==> bound[j] == done[j]
            &&& forall|j: int|
                e <= j < entries.len() ==> (#[trigger] bound[done.len() + j - e]).name
                    == entries[j].long_name && settled(entries[j], slots[j], end) == Ok::<
                    ResolvedView,
                    ErrorView,
                >(bound[done.len() + j - e].value)
        }),
    decreases entries.len() - e,
{
    if e < entries.len() {
        let value = settled(entries[e], slots[e], end)->Ok_0;
        let next = done.push(BindingView { name: entries[e].long_name, value });
        lemma_bindings_from(entries, slots, end, e + 1, next);
        let bound = bindings_from(entries, slots, end, e, done)->Ok_0;
        assert forall|j: int| 0 <= j < done.len() implies bound[j] == done[j] by {
            assert(next[j] == done[j]);
        }
        assert forall|j: int| e <= j < entries.len() implies (#[trigger] bound[done.len() + j
            - e]).name == entries[j].long_name && settled(entries[j], slots[j], end) == Ok::<
            ResolvedView,
            ErrorView,
        >(bound[done.len() + j - e].value) by {
            if j == e {
                assert(bound[done.len() as int] == next[done.len() as int]);
            } else {
                assert(bound[next.len() + j - (e + 1)] == bound[done.len() + j - e]);
            }
        }
    }
}

/// The group bindings that come after `done` continue it: one for each group
/// from the `g`-th on, under the group's name.
pub proof fn lemma_selections_from(
    groups: Seq<GroupView>,
    slots: Seq<SlotView>,
    end: int,
    g: int,
    done: Seq<GroupBindingView>,
)
    requires
        0 <= g <= groups.len(),
        selections_from(groups, slots, end, g, done) is Ok,
    ensures
        ({
            let bound = selections_from(groups, slots, end, g, done)->Ok_0;
            &&& bound.len() == done.len() + groups.len() - g
            &&& forall|j: int| 0 <= j < done.len() ==> bound[j] == done[j]
            &&& forall|j: int|
                g <= j < groups.len() ==> (#[trigger] bound[done.len() + j - g]).name
                    == groups[j].name
        }),
    decreases groups.len() - g,
{
    if g < groups.len() {
        let selection = group_outcome(groups[g], slots, end)->Ok_0;
        let next = done.push(GroupBindingView { name: groups[g].name, selection });
        lemma_selections_from(groups, slots, end, g + 1, next);
        let bound = selections_from(groups, slots, end, g, done)->Ok_0;
        assert forall|j: int| 0 <= j < done.len() implies bound[j] == done[j] by {
            assert(next[j] == done[j]);
        }
        assert forall|j: int| g <= j < groups.len() implies (#[trigger] bound[done.len() + j
            - g]).name == groups[j].name by {
            if j == g {
                assert(bound[done.len() as int] == next[done.len() as int]);
            } else {
                assert(bound[next.len() + j - (g + 1)] == bound[done.len() + j - g]);
            }
        }
    }
}

/// A result binds the whole schema: every entry under its long name and every
/// group under its name, in the order of declaration.
pub proof fn law_result_binds_the_schema(schema: SchemaView, tokens: Seq<TokenView>)
    requires
        resolution(schema, tokens) is Ok,
    ensures
        ({
            let parsed = resolution(schema, tokens)->Ok_0;
            &&& parsed.entries.len() == schema.entries.len()
            &&& forall|e: int|
                0 <= e < schema.entries.len() ==> (#[trigger] parsed.entries[e]).name
                    == schema.entries[e].long_name
            &&& parsed.groups.len() == schema.groups.len()
            &&& forall|g: int|
                0 <= g < schema.groups.len() ==> (#[trigger] parsed.groups[g]).name
                    == schema.groups[g].name
        }),
{
    let state = scan(schema.entries, tokens)->Ok_0;
    let slots = seat_from(schema.entries, schema.groups, tokens, state.loose, 0, 0, state.slots)->Ok_0;
    let end = tokens.len() as int;
    lemma_selections_from(schema.groups, slots, end, 0, Seq::empty());
    lemma_bindings_from(schema.entries, slots, end, 0, Seq::empty());
    let parsed = resolution(schema, tokens)->Ok_0;
    assert forall|e: int| 0 <= e < schema.entries.len() implies (#[trigger] parsed.entries[e]).name
        == schema.entries[e].long_name by {
        assert(parsed.entries[0 + e - 0] == parsed.entries[e]);
    }
    assert forall|g: int| 0 <= g < schema.groups.len() implies (#[trigger] parsed.groups[g]).name
        == schema.groups[g].name by {
        assert(parsed.groups[0 + g - 0] == parsed.groups[g]);
    }
}

/// The number of positionals among the entries before the `e`-th.
pub open spec fn positionals_before(entries: Seq<EntryView>, e: int) -> int
    decreases e,
{
    if e <= 0 {
        0
    } else if entries[e - 1].kind is Positional {
        positionals_before(entries, e - 1) + 1
    } else {
        positionals_before(entries, e - 1)
    }
}

/// Further on, no fewer positionals lie behind.
proof fn lemma_positionals_before_grows(entries: Seq<EntryView>, a: int, b: int)
    requires
        a <= b,
    ensures
        positionals_before(entries, a) <= positionals_before(entries, b),
    decreases b - a,
{
    if a < b {
        lemma_positionals_before_grows(entries, a, b - 1);
    }
}

/// The seating fails where the loose values that are left do not reach a
/// positional that must be supplied.
proof fn lemma_seat_falls_short(
    entries: Seq<EntryView>,
    groups: Seq<GroupView>,
    tokens: Seq<TokenView>,
    loose: Seq<int>,
    j: int,
    k: int,
    slots: Seq<SlotView>,
    e: int,
)
    requires
        0 <= j <= e < entries.len(),
        0 <= k <= loose.len(),
        mandatory(entries, groups, e),
        loose.len() - k <= positionals_before(entries, e) - positionals_before(entries, j),
    ensures
        match seat_from(entries, groups, tokens, loose, j, k, slots) {
            Ok(_) => false,
            Err(error) => error.kind is InvalidValue || (error.kind is MissingPositional
                && error.position == tokens.len()),
        },
    decreases e - j,
{
    if j < e {
        assert(positionals_before(entries, j + 1) == if entries[j].kind is Positional {
            positionals_before(entries, j) + 1
        } else {
            positionals_before(entries, j)
        });
        if !(entries[j].kind is Positional) {
            lemma_seat_falls_short(entries, groups, tokens, loose, j + 1, k, slots, e);
        } else if k < loose.len() {
            match entries[j].parser.parsed(crate::resolver::raw_text(tokens[loose[k]])) {
                None => {},
                Some(value) => {
                    lemma_seat_falls_short(
                        entries,
                        groups,
                        tokens,
                        loose,
                        j + 1,
                        k + 1,
                        slots.update(j, SlotView::Value(value, loose[k])),
                        e,
                    );
                },
            }
        } else if !mandatory(entries, groups, j) {
            lemma_positionals_before_grows(entries, j + 1, e);
            lemma_seat_falls_short(entries, groups, tokens, loose, j + 1, k, slots, e);
        }
    }
}

/// A positional that must be supplied, and that the loose values of the
/// command line do not reach, fails the resolution: either it, or one that
/// must be supplied before it, is reported missing at the end of the tokens,
/// unless an earlier positional has refused its value first.
pub proof fn law_unsupplied_positional_fails(schema: SchemaView, tokens: Seq<TokenView>, e: int)
    requires
        0 <= e < schema.entries.len(),
        mandatory(schema.entries, schema.groups, e),
        scan(schema.entries, tokens) is Ok,
        scan(schema.entries, tokens)->Ok_0.loose.len() <= positionals_before(schema.entries, e),
    ensures
        match resolution(schema, tokens) {
            Ok(_) => false,
            Err(error) => error.kind is InvalidValue || (error.kind is MissingPositional
                && error.position == tokens.len()),
        },
{
    let state = scan(schema.entries, tokens)->Ok_0;
    lemma_seat_falls_short(schema.entries, schema.groups, tokens, state.loose, 0, 0, state.slots, e);
}

/// The place of the first positional, at or after `from`, that must be
/// supplied.
pub open spec fn first_mandatory(entries: Seq<EntryView>, groups: Seq<GroupView>, from: int) -> Option<int>
    decreases entries.len() - from,
{
    if from < 0 || from >= entries.len() {
        None
    } else if mandatory(entries, groups, from) {
        Some(from)
    } else {
        first_mandatory(entries, groups, from + 1)
    }
}

/// With no loose value, the seating stops at the first positional that must be
/// supplied.
proof fn lemma_seat_of_nothing(
    entries: Seq<EntryView>,
    groups: Seq<GroupView>,
    tokens: Seq<TokenView>,
    j: int,
    slots: Seq<SlotView>,
)
    requires
        0 <= j,
    ensures
        seat_from(entries, groups, tokens, Seq::empty(), j, 0, slots) == match first_mandatory(
            entries,
            groups,
            j,
        ) {
            Some(e) => Err::<Seq<SlotView>, ErrorView>(
                ErrorView {
                    kind: ErrorKindView::MissingPositional(entries[e].long_name),
                    position: tokens.len() as int,
                },
            ),
            None => Ok::<Seq<SlotView>, ErrorView>(slots),
        },
    decreases entries.len() - j,
{
    if j < entries.len() {
        lemma_seat_of_nothing(entries, groups, tokens, j + 1, slots);
    }
}

/// Where the command line holds no loose value, the first positional that must
/// be supplied is reported missing, at the end of the tokens.
pub proof fn law_unsupplied_positional_is_missing(schema: SchemaView, tokens: Seq<TokenView>)
    requires
        scan(schema.entries, tokens) is Ok,
        scan(schema.entries, tokens)->Ok_0.loose.len() == 0,
        first_mandatory(schema.entries, schema.groups, 0) is Some,
    ensures
        resolution(schema, tokens) == Err::<ParsedView, ErrorView>(
            ErrorView {
                kind: ErrorKindView::MissingPositional(
                    schema.entries[first_mandatory(schema.entries, schema.groups, 0)->0].long_name,
                ),
                position: tokens.len() as int,
            },
        ),
{
    let state = scan(schema.entries, tokens)->Ok_0;
    assert(state.loose =~= Seq::empty());
    lemma_seat_of_nothing(schema.entries, schema.groups, tokens, 0, state.slots);
}

/// The scan leaves alone the slot of an entry that no token from the `i`-th on
/// addresses.
proof fn lemma_scan_keeps_unaddressed(
    entries: Seq<EntryView>,
    tokens: Seq<TokenView>,
    i: int,
    state: ScanView,
    x: int,
)
    requires
        0 <= i,
        0 <= x < entries.len(),
        state.slots.len() == entries.len(),
        forall|j: int| i <= j < tokens.len() ==> !addresses(entries[x], #[trigger] tokens[j]),
        scan_from(entries, tokens, i, state) is Ok,
    ensures
        scan_from(entries, tokens, i, state)->Ok_0.slots.len() == entries.len(),
        scan_from(entries, tokens, i, state)->Ok_0.slots[x] == state.slots[x],
    decreases tokens.len() - i,
{
    if i < tokens.len() {
        if tokens[i] is Value {
            lemma_scan_keeps_unaddressed(
                entries,
                tokens,
                i + 1,
                ScanView { slots: state.slots, loose: state.loose.push(i) },
                x,
            );
        } else {
            lemma_lookup(entries, tokens[i], 0);
            let k = lookup(entries, tokens[i], 0)->0;
            assert(k != x);
            if entries[k].kind is Flag {
                lemma_scan_keeps_unaddressed(
                    entries,
                    tokens,
                    i + 1,
                    ScanView { slots: state.slots.update(k, SlotView::Present(i)), loose: state.loose },
                    x,
                );
            } else {
                let value = entries[k].parser.parsed(crate::resolver::raw_text(tokens[i + 1]))->0;
                lemma_scan_keeps_unaddressed(
                    entries,
                    tokens,
                    i + 2,
                    ScanView {
                        slots: state.slots.update(k, SlotView::Value(value, i)),
                        loose: state.loose,
                    },
                    x,
                );
            }
        }
    }
}

/// The seating leaves alone the slot of an entry that is no positional.
proof fn lemma_seat_keeps_others(
    entries: Seq<EntryView>,
    groups: Seq<GroupView>,
    tokens: Seq<TokenView>,
    loose: Seq<int>,
    e: int,
    k: int,
    slots: Seq<SlotView>,
    x: int,
)
    requires
        0 <= e,
        0 <= x < entries.len(),
        slots.len() == entries.len(),
        !(entries[x].kind is Positional),
        seat_from(entries, groups, tokens, loose, e, k, slots) is Ok,
    ensures
        seat_from(entries, groups, tokens, loose, e, k, slots)->Ok_0.len() == entries.len(),
        seat_from(entries, groups, tokens, loose, e, k, slots)->Ok_0[x] == slots[x],
    decreases entries.len() - e,
{
    if e < entries.len() {
        if !(entries[e].kind is Positional) {
            lemma_seat_keeps_others(entries, groups, tokens, loose, e + 1, k, slots, x);
        } else if 0 <= k < loose.len() {
            let value = entries[e].parser.parsed(crate::resolver::raw_text(tokens[loose[k]]))->0;
            lemma_seat_keeps_others(
                entries,
                groups,
                tokens,
                loose,
                e + 1,
                k + 1,
                slots.update(e, SlotView::Value(value, loose[k])),
                x,
            );
        } else {
            lemma_seat_keeps_others(entries, groups, tokens, loose, e + 1, k, slots, x);
        }
    }
}

/// A flag with a value that has a default, and that no token of the command
/// line addresses, resolves to what its parser makes of the default.
pub proof fn law_absent_flag_takes_its_default(schema: SchemaView, tokens: Seq<TokenView>, x: int)
    requires
        0 <= x < schema.entries.len(),
        schema.entries[x].kind is FlagArg,
        schema.entries[x].default is Some,
        forall|j: int| 0 <= j < tokens.len() ==> !addresses(schema.entries[x], #[trigger] tokens[j]),
        resolution(schema, tokens) is Ok,
    ensures
        schema.entries[x].parser.parsed(schema.entries[x].default->0) is Some,
        resolution(schema, tokens)->Ok_0.entries[x].value == ResolvedView::Value(
            schema.entries[x].parser.parsed(schema.entries[x].default->0)->0,
        ),
{
    let entries = schema.entries;
    let start = ScanView { slots: empty_slots(entries.len() as int), loose: Seq::empty() };
    lemma_scan_keeps_unaddressed(entries, tokens, 0, start, x);
    let state = scan(entries, tokens)->Ok_0;
    lemma_seat_keeps_others(entries, schema.groups, tokens, state.loose, 0, 0, state.slots, x);
    let slots = seat_from(entries, schema.groups, tokens, state.loose, 0, 0, state.slots)->Ok_0;
    assert(slots[x] == SlotView::Empty);
    let end = tokens.len() as int;
    lemma_bindings_from(entries, slots, end, 0, Seq::empty());
    let parsed = resolution(schema, tokens)->Ok_0;
    assert(parsed.entries[0 + x - 0] == parsed.entries[x]);
}

/// A flag that no token of the command line addresses resolves to absent.
pub proof fn law_absent_flag_is_not_present(schema: SchemaView, tokens: Seq<TokenView>, x: int)
    requires
        0 <= x < schema.entries.len(),
        schema.entries[x].kind is Flag,
        forall|j: int| 0 <= j < tokens.len() ==> !addresses(schema.entries[x], #[trigger] tokens[j]),
        resolution(schema, tokens) is Ok,
    ensures
        resolution(schema, tokens)->Ok_0.entries[x].value == ResolvedView::Flag(false),
{
    let entries = schema.entries;
    let start = ScanView { slots: empty_slots(entries.len() as int), loose: Seq::empty() };
    lemma_scan_keeps_unaddressed(entries, tokens, 0, start, x);
    let state = scan(entries, tokens)->Ok_0;
    lemma_seat_keeps_others(entries, schema.groups, tokens, state.loose, 0, 0, state.slots, x);
    let slots = seat_from(entries, schema.groups, tokens, state.loose, 0, 0, state.slots)->Ok_0;
    assert(slots[x] == SlotView::Empty);
    let end = tokens.len() as int;
    lemma_bindings_from(entries, slots, end, 0, Seq::empty());
    let parsed = resolution(schema, tokens)->Ok_0;
    assert(parsed.entries[0 + x - 0] == parsed.entries[x]);
}

/// In a schema that keeps its invariants, the long name of an entry that is no
/// positional is looked up to that entry, and so is its short character.
proof fn lemma_lookup_own_forms(schema: SchemaView, x: int, c: char)
    requires
        schema.wf(),
        0 <= x < schema.entries.len(),
        !(schema.entries[x].kind is Positional),
    ensures
        lookup(schema.entries, TokenView::LongFlag(schema.entries[x].long_name), 0) == Some(x),
        schema.entries[x].short == Some(c) ==> lookup(schema.entries, TokenView::ShortFlag(c), 0)
            == Some(x),
{
    let entries = schema.entries;
    let long = TokenView::LongFlag(entries[x].long_name);
    lemma_lookup(entries, long, 0);
    assert(addresses(entries[x], long));
    let k = lookup(entries, long, 0)->0;
    if k != x {
        assert(clash(entries[k], entries[x]));
        assert(clash(entries[x], entries[k]));
    }
    if entries[x].short == Some(c) {
        let short = TokenView::ShortFlag(c);
        lemma_lookup(entries, short, 0);
        assert(addresses(entries[x], short));
        let h = lookup(entries, short, 0)->0;
        if h != x {
            assert(clash(entries[h], entries[x]));
            assert(clash(entries[x], entries[h]));
        }
    }
}

/// The loose places of a scan are places of value tokens.
proof fn lemma_scan_loose(entries: Seq<EntryView>, tokens: Seq<TokenView>, i: int, state: ScanView)
    requires
        0 <= i,
        loose_in(tokens, state.loose),
        scan_from(entries, tokens, i, state) is Ok,
    ensures
        loose_in(tokens, scan_from(entries, tokens, i, state)->Ok_0.loose),
    decreases tokens.len() - i,
{
    if i < tokens.len() {
        if tokens[i] is Value {
            let next = ScanView { slots: state.slots, loose: state.loose.push(i) };
            assert forall|j: int| 0 <= j < next.loose.len() implies 0 <= #[trigger] next.loose[j]
                < tokens.len() && tokens[next.loose[j]] is Value by {
                if j < state.loose.len() {
                    assert(next.loose[j] == state.loose[j]);
                }
            }
            lemma_scan_loose(entries, tokens, i + 1, next);
        } else {
            let k = lookup(entries, tokens[i], 0)->0;
            if entries[k].kind is Flag {
                lemma_scan_loose(
                    entries,
                    tokens,
                    i + 1,
                    ScanView { slots: state.slots.update(k, SlotView::Present(i)), loose: state.loose },
                );
            } else {
                let value = entries[k].parser.parsed(crate::resolver::raw_text(tokens[i + 1]))->0;
                lemma_scan_loose(
                    entries,
                    tokens,
                    i + 2,
                    ScanView {
                        slots: state.slots.update(k, SlotView::Value(value, i)),
                        loose: state.loose,
                    },
                );
            }
        }
    }
}

/// The scan goes alike over two command lines that differ in one flag token,
/// where both tokens are looked up to the same entry.
proof fn lemma_scan_alike(
    entries: Seq<EntryView>,
    tokens: Seq<TokenView>,
    other: Seq<TokenView>,
    p: int,
    i: int,
    state: ScanView,
)
    requires
        0 <= i,
        0 <= p < tokens.len(),
        other == tokens.update(p, other[p]),
        !(tokens[p] is Value),
        !(other[p] is Value),
        lookup(entries, tokens[p], 0) is Some,
        lookup(entries, tokens[p], 0) == lookup(entries, other[p], 0),
    ensures
        scan_from(entries, tokens, i, state) == scan_from(entries, other, i, state),
    decreases tokens.len() - i,
{
    if i < tokens.len() {
        if i != p {
            assert(tokens[i] == other[i]);
        }
        if i + 1 < tokens.len() && i + 1 != p {
            assert(tokens[i + 1] == other[i + 1]);
        }
        if tokens[i] is Value {
            lemma_scan_alike(
                entries,
                tokens,
                other,
                p,
                i + 1,
                ScanView { slots: state.slots, loose: state.loose.push(i) },
            );
        } else {
            match lookup(entries, tokens[i], 0) {
                None => {},
                Some(k) => {
                    if entries[k].kind is Flag {
                        lemma_scan_alike(
                            entries,
                            tokens,
                            other,
                            p,
                            i + 1,
                            ScanView {
                                slots: state.slots.update(k, SlotView::Present(i)),
                                loose: state.loose,
                            },
                        );
                    } else if i + 1 < tokens.len() && tokens[i + 1] is Value {
                        match entries[k].parser.parsed(crate::resolver::raw_text(tokens[i + 1])) {
                            None => {},
                            Some(value) => {
                                lemma_scan_alike(
                                    entries,
                                    tokens,
                                    other,
                                    p,
                                    i + 2,
                                    ScanView {
                                        slots: state.slots.update(k, SlotView::Value(value, i)),
                                        loose: state.loose,
                                    },
                                );
                            },
                        }
                    }
                },
            }
        }
    }
}

/// The seating goes alike over two command lines that hold the same values at
/// the loose places.
proof fn lemma_seat_alike(
    entries: Seq<EntryView>,
    groups: Seq<GroupView>,
    tokens: Seq<TokenView>,
    other: Seq<TokenView>,
    loose: Seq<int>,
    e: int,
    k: int,
    slots: Seq<SlotView>,
)
    requires
        0 <= e,
        tokens.len() == other.len(),
        forall|j: int| 0 <= j < loose.len() ==> tokens[#[trigger] loose[j]] == other[loose[j]],
    ensures
        seat_from(entries, groups, tokens, loose, e, k, slots) == seat_from(
            entries,
            groups,
            other,
            loose,
            e,
            k,
            slots,
        ),
    decreases entries.len() - e,
{
    if e < entries.len() {
        if !(entries[e].kind is Positional) {
            lemma_seat_alike(entries, groups, tokens, other, loose, e + 1, k, slots);
        } else if 0 <= k < loose.len() {
            assert(tokens[loose[k]] == other[loose[k]]);
            match entries[e].parser.parsed(crate::resolver::raw_text(tokens[loose[k]])) {
                None => {},
                Some(value) => {
                    lemma_seat_alike(
                        entries,
                        groups,
                        tokens,
                        other,
                        loose,
                        e + 1,
                        k + 1,
                        slots.update(e, SlotView::Value(value, loose[k])),
                    );
                },
            }
        } else if !mandatory(entries, groups, e) {
            lemma_seat_alike(entries, groups, tokens, other, loose, e + 1, k, slots);
        }
    } else if 0 <= k < loose.len() {
        assert(tokens[loose[k]] == other[loose[k]]);
    }
}

/// The long form and the short form of a flag resolve alike: a command line
/// that names an entry by its long name, and the one that names it by its
/// short character at that place, give the same result or the same error.
pub proof fn law_long_and_short_form_resolve_alike(
    schema: SchemaView,
    tokens: Seq<TokenView>,
    p: int,
    x: int,
    c: char,
)
    requires
        schema.wf(),
        0 <= x < schema.entries.len(),
        !(schema.entries[x].kind is Positional),
        schema.entries[x].short == Some(c),
        0 <= p < tokens.len(),
        tokens[p] == TokenView::LongFlag(schema.entries[x].long_name),
    ensures
        resolution(schema, tokens) == resolution(schema, tokens.update(p, TokenView::ShortFlag(c))),
{
    let entries = schema.entries;
    let other = tokens.update(p, TokenView::ShortFlag(c));
    lemma_lookup_own_forms(schema, x, c);
    assert(other =~= tokens.update(p, other[p]));
    let start = ScanView { slots: empty_slots(entries.len() as int), loose: Seq::empty() };
    lemma_scan_alike(entries, tokens, other, p, 0, start);
    if scan(entries, tokens) is Ok {
        let state = scan(entries, tokens)->Ok_0;
        assert(loose_in(tokens, start.loose));
        lemma_scan_loose(entries, tokens, 0, start);
        assert forall|j: int| 0 <= j < state.loose.len() implies tokens[#[trigger] state.loose[j]]
            == other[state.loose[j]] by {
            assert(state.loose[j] != p);
        }
        lemma_seat_alike(entries, schema.groups, tokens, other, state.loose, 0, 0, state.slots);
    }
}

/// What a group resolves to, said by what is taken.
///
/// An unset group is optional and has no alternative taken. A chosen
/// alternative is taken and is the only one that is. A missing group is
/// mandatory and has no alternative taken. A group in conflict has two
/// alternatives taken, which the error names by their tags in the order of
/// declaration, and no alternative before the second but the first is taken.
pub proof fn law_group_outcome(group: GroupView, slots: Seq<SlotView>, end: int)
    ensures
        match group_outcome(group, slots, end) {
            Ok(SelectionView::Unset) => !group.mandatory && forall|a: int|
                0 <= a < group.alternatives.len() ==> !taken(slots, group.alternatives[a]),
            Ok(SelectionView::Chosen(a, tag)) => {
                &&& 0 <= a < group.alternatives.len()
                &&& tag == group.alternatives[a].tag
                &&& forall|b: int|
                    0 <= b < group.alternatives.len() ==> (taken(slots, group.alternatives[b])
                        <==> b == a)
            },
            Err(error) => match error.kind {
                ErrorKindView::MissingGroup(name) => {
                    &&& name == group.name
                    &&& error.position == end
                    &&& group.mandatory
                    &&& forall|a: int|
                        0 <= a < group.alternatives.len() ==> !taken(slots, group.alternatives[a])
                },
                ErrorKindView::ConflictingGroup(name, first, second) => {
                    &&& name == group.name
                    &&& exists|a: int, b: int|
                        {
                            &&& 0 <= a < b < group.alternatives.len()
                            &&& taken(slots, #[trigger] group.alternatives[a])
                            &&& taken(slots, #[trigger] group.alternatives[b])
                            &&& first == group.alternatives[a].tag
                            &&& second == group.alternatives[b].tag
                            &&& error.position == later(
                                slots[group.alternatives[a].entry].filled_at(),
                                slots[group.alternatives[b].entry].filled_at(),
                            )
                            &&& forall|c: int|
                                0 <= c < b && c != a ==> !taken(slots, group.alternatives[c])
                        }
                },
                _ => false,
            },
        },
{
    lemma_first_taken(slots, group.alternatives, 0);
    match first_taken(slots, group.alternatives, 0) {
        None => {},
        Some(a) => {
            lemma_first_taken(slots, group.alternatives, a + 1);
            match first_taken(slots, group.alternatives, a + 1) {
                None => {},
                Some(b) => {
                    assert(taken(slots, group.alternatives[a]));
                    assert(taken(slots, group.alternatives[b]));
                },
            }
        },
    }
}

/// Where none of the incoming entries from the `k`-th on clashes with what
/// stands before it, and no two entries before the `k`-th clash, no two
/// entries clash at all.
proof fn lemma_no_first_clash(entries: Seq<EntryView>, incoming: Seq<EntryView>, k: int)
    requires
        0 <= k <= incoming.len(),
        first_clash(entries, incoming, k) is None,
        forall|i: int, j: int|
            0 <= i < j < entries.len() + k ==> !clash(
                #[trigger] (entries + incoming)[i],
                #[trigger] (entries + incoming)[j],
            ),
    ensures
        forall|i: int, j: int|
            0 <= i < j < entries.len() + incoming.len() ==> !clash(
                #[trigger] (entries + incoming)[i],
                #[trigger] (entries + incoming)[j],
            ),
    decreases incoming.len() - k,
{
    if k < incoming.len() {
        let all = entries + incoming;
        let before = entries + incoming.take(k);
        assert forall|i: int, j: int| 0 <= i < j < entries.len() + k + 1 implies !clash(
            #[trigger] all[i],
            #[trigger] all[j],
        ) by {
            if j == entries.len() + k {
                assert(all[j] == incoming[k]);
                assert(before[i] == all[i]);
                assert(!declares(before, incoming[k]));
            }
        }
        lemma_no_first_clash(entries, incoming, k + 1);
    }
}

/// A schema that takes in a group which it does not refuse keeps the
/// invariants.
pub proof fn law_with_group_keeps_invariants(schema: SchemaView, group: GroupDeclView)
    requires
        schema.wf(),
        schema.refusal(group) is None,
    ensures
        schema.with_group(group).wf(),
{
    let grown = schema.with_group(group);
    let incoming = group.entries();
    assert forall|i: int, j: int| 0 <= i < j < schema.entries.len() + 0 implies !clash(
        #[trigger] (schema.entries + incoming)[i],
        #[trigger] (schema.entries + incoming)[j],
    ) by {
        assert((schema.entries + incoming)[i] == schema.entries[i]);
        assert((schema.entries + incoming)[j] == schema.entries[j]);
    }
    lemma_no_first_clash(schema.entries, incoming, 0);
    assert forall|g: int, h: int| 0 <= g < h < grown.groups.len() implies (
    #[trigger] grown.groups[g]).name != (#[trigger] grown.groups[h]).name by {
        assert(grown.groups[g] == schema.groups[g]);
        if h < schema.groups.len() {
            assert(grown.groups[h] == schema.groups[h]);
        }
    }
    assert forall|g: int, a: int|
        0 <= g < grown.groups.len() && 0 <= a < grown.groups[g].alternatives.len() implies 0 <= (
        #[trigger] grown.groups[g].alternatives[a]).entry < grown.entries.len() by {
        if g < schema.groups.len() {
            assert(grown.groups[g] == schema.groups[g]);
        }
    }
    assert forall|g: int, a: int, b: int|
        0 <= g < grown.groups.len() && 0 <= a < b < grown.groups[g].alternatives.len() implies (
        #[trigger] grown.groups[g].alternatives[a]).entry != (
        #[trigger] grown.groups[g].alternatives[b]).entry by {
        if g < schema.groups.len() {
            assert(grown.groups[g] == schema.groups[g]);
        }
    }
}

/// In the result of a schema that keeps its invariants, the long name of an
/// entry finds what that entry resolved to, and the name of a group finds
/// what that group resolved to.
pub proof fn law_result_maps_names(schema: SchemaView, tokens: Seq<TokenView>)
    requires
        schema.wf(),
        resolution(schema, tokens) is Ok,
    ensures
        forall|e: int|
            0 <= e < schema.entries.len() ==> resolution(schema, tokens)->Ok_0.value_of(
                (#[trigger] schema.entries[e]).long_name,
            ) == Some(resolution(schema, tokens)->Ok_0.entries[e].value),
        forall|g: int|
            0 <= g < schema.groups.len() ==> resolution(schema, tokens)->Ok_0.selection_of(
                (#[trigger] schema.groups[g]).name,
            ) == Some(resolution(schema, tokens)->Ok_0.groups[g].selection),
{
    let parsed = resolution(schema, tokens)->Ok_0;
    law_result_binds_the_schema(schema, tokens);
    assert forall|e: int| 0 <= e < schema.entries.len() implies parsed.value_of(
        (#[trigger] schema.entries[e]).long_name,
    ) == Some(parsed.entries[e].value) by {
        let name = schema.entries[e].long_name;
        lemma_first_binding(parsed.entries, name, 0);
        assert(parsed.entries[e].name == name);
        let place = first_binding(parsed.entries, name, 0)->0;
        if place != e {
            assert(parsed.entries[place].name == schema.entries[place].long_name);
            assert(clash(schema.entries[place], schema.entries[e]));
        }
    }
    assert forall|g: int| 0 <= g < schema.groups.len() implies parsed.selection_of(
        (#[trigger] schema.groups[g]).name,
    ) == Some(parsed.groups[g].selection) by {
        let name = schema.groups[g].name;
        lemma_first_group_binding(parsed.groups, name, 0);
        assert(parsed.groups[g].name == name);
        let place = first_group_binding(parsed.groups, name, 0)->0;
        if place != g {
            assert(parsed.groups[place].name == schema.groups[place].name);
        }
    }
}

} // verus!
