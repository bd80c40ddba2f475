//! The resolver: one scan of the tokens from left to right against a schema,
//! then the seating of the positionals, the groups, and the defaults.

use vstd::prelude::*;
use crate::error::ErrorKind;
use crate::error::ErrorKindView;
use crate::error::ErrorView;
use crate::error::FlagName;
use crate::error::FlagNameView;
use crate::error::ResolutionError;
use crate::group::disambiguate;
use crate::group::selections;
use crate::parsed::Binding;
use crate::parsed::BindingView;
use crate::parsed::ParsedResult;
use crate::parsed::ParsedView;
use crate::parsed::Resolved;
use crate::parsed::ResolvedView;
use crate::schema::EntryKind;
use crate::schema::EntryView;
use crate::schema::Group;
use crate::schema::GroupView;
use crate::schema::Schema;
use crate::schema::SchemaEntry;
use crate::schema::SchemaView;
use crate::slot::empty_slots;
use crate::slot::Slot;
use crate::slot::SlotView;
use crate::token::Token;
use crate::token::TokenView;

verus! {

/// A flag token addresses an entry that is no positional and whose long name,
/// or short character, is the token's.
pub open spec fn addresses(entry: EntryView, token: TokenView) -> bool {
    !(entry.kind is Positional) && match token {
        TokenView::LongFlag(name) => entry.long_name == name,
        TokenView::ShortFlag(c) => entry.short == Some(c),
        TokenView::Value(_) => false,
    }
}

/// The place of the first entry, at or after `from`, that the token addresses.
pub open spec fn lookup(entries: Seq<EntryView>, token: TokenView, from: int) -> Option<int>
    decreases entries.len() - from,
{
    if from < 0 || from >= entries.len() {
        None
    } else if addresses(entries[from], token) {
        Some(from)
    } else {
        lookup(entries, token, from + 1)
    }
}

/// The flag that a token names.
pub open spec fn named(token: TokenView) -> FlagNameView {
    match token {
        TokenView::LongFlag(name) => FlagNameView::Long(name),
        TokenView::ShortFlag(c) => FlagNameView::Short(c),
        TokenView::Value(text) => FlagNameView::Long(text),
    }
}

/// The text that a token carries.
pub open spec fn raw_text(token: TokenView) -> Seq<char> {
    match token {
        TokenView::LongFlag(name) => name,
        TokenView::ShortFlag(_) => Seq::empty(),
        TokenView::Value(text) => text,
    }
}

/// The state of the scan: a slot for each entry, and the places of the values
/// that no flag has taken, in the order of the command line.
pub struct ScanView {
    pub slots: Seq<SlotView>,
    pub loose: Seq<int>,
}

/// The state in which a scan of tokens against these entries ends, when it
/// stands in `state` before the `i`-th token, or the error that stops it.
///
/// A value joins the loose values. A flag token must address an entry: a flag
/// is marked present; a flag with a value takes the next token, which must be
/// a value that the entry's parser accepts, and the latest one stands. So the
/// short form of a flag with a value can stand in a cluster only as its last
/// character, and its value is never written in the same item.
pub open spec fn scan_from(entries: Seq<EntryView>, tokens: Seq<TokenView>, i: int, state: ScanView) -> Result<
    ScanView,
    ErrorView,
>
    decreases tokens.len() - i,
{
    if i < 0 || i >= tokens.len() {
        Ok(state)
    } else if tokens[i] is Value {
        scan_from(entries, tokens, i + 1, ScanView { slots: state.slots, loose: state.loose.push(i) })
    } else {
        match lookup(entries, tokens[i], 0) {
            None => Err(ErrorView { kind: ErrorKindView::UnknownFlag(named(tokens[i])), position: i }),
            Some(k) => if entries[k].kind is Flag {
                scan_from(
                    entries,
                    tokens,
                    i + 1,
                    ScanView { slots: state.slots.update(k, SlotView::Present(i)), loose: state.loose },
                )
            } else if i + 1 < tokens.len() && tokens[i + 1] is Value {
                match entries[k].parser.parsed(raw_text(tokens[i + 1])) {
                    None => Err(
                        ErrorView {
                            kind: ErrorKindView::InvalidValue(
                                entries[k].long_name,
                                raw_text(tokens[i + 1]),
                            ),
                            position: i + 1,
                        },
                    ),
                    Some(value) => scan_from(
                        entries,
                        tokens,
                        i + 2,
                        ScanView {
                            slots: state.slots.update(k, SlotView::Value(value, i)),
                            loose: state.loose,
                        },
                    ),
                }
            } else {
                Err(
                    ErrorView {
                        kind: ErrorKindView::MissingArgumentValue(entries[k].long_name),
                        position: i,
                    },
                )
            },
        }
    }
}

/// The state in which the scan of the tokens ends, or the error that stops it.
pub open spec fn scan(entries: Seq<EntryView>, tokens: Seq<TokenView>) -> Result<ScanView, ErrorView> {
    scan_from(entries, tokens, 0, ScanView { slots: empty_slots(entries.len() as int), loose: Seq::empty() })
}

/// The entry at this place is an alternative of some group.
pub open spec fn grouped(groups: Seq<GroupView>, entry: int) -> bool {
    exists|g: int, a: int|
        0 <= g < groups.len() && 0 <= a < groups[g].alternatives.len() && (
        #[trigger] groups[g].alternatives[a]).entry == entry
}

/// A positional must be supplied when it has no default and is no alternative
/// of a group.
pub open spec fn mandatory(entries: Seq<EntryView>, groups: Seq<GroupView>, e: int) -> bool {
    entries[e].kind is Positional && entries[e].default is None && !grouped(groups, e)
}

/// The slots once the loose values from the `k`-th on are seated in the
/// positionals from the `e`-th entry on, or the error that stops the seating.
///
/// The loose values go to the positionals in the order of declaration, each
/// read by the parser of its positional. A positional that must be supplied and
/// gets no value is missing; a value that is left when every positional has one
/// is unexpected.
pub open spec fn seat_from(
    entries: Seq<EntryView>,
    groups: Seq<GroupView>,
    tokens: Seq<TokenView>,
    loose: Seq<int>,
    e: int,
    k: int,
    slots: Seq<SlotView>,
) -> Result<Seq<SlotView>, ErrorView>
    decreases entries.len() - e,
{
    if e < 0 || e >= entries.len() {
        if 0 <= k < loose.len() {
            Err(
                ErrorView {
                    kind: ErrorKindView::UnexpectedPositional(raw_text(tokens[loose[k]])),
                    position: loose[k],
                },
            )
        } else {
            Ok(slots)
        }
    } else if !(entries[e].kind is Positional) {
        seat_from(entries, groups, tokens, loose, e + 1, k, slots)
    } else if 0 <= k < loose.len() {
        match entries[e].parser.parsed(raw_text(tokens[loose[k]])) {
            None => Err(
                ErrorView {
                    kind: ErrorKindView::InvalidValue(
                        entries[e].long_name,
                        raw_text(tokens[loose[k]]),
                    ),
                    position: loose[k],
                },
            ),
            Some(value) => seat_from(
                entries,
                groups,
                tokens,
                loose,
                e + 1,
                k + 1,
                slots.update(e, SlotView::Value(value, loose[k])),
            ),
        }
    } else if mandatory(entries, groups, e) {
        Err(
            ErrorView {
                kind: ErrorKindView::MissingPositional(entries[e].long_name),
                position: tokens.len() as int,
            },
        )
    } else {
        seat_from(entries, groups, tokens, loose, e + 1, k, slots)
    }
}

/// What an entry resolves to, given its slot: a flag to whether it was seen;
/// any other entry to the value it was given, else to what its parser makes of
/// its default, else to nothing. A default that the parser does not accept is
/// an invalid value, reported at `end`.
pub open spec fn settled(entry: EntryView, slot: SlotView, end: int) -> Result<ResolvedView, ErrorView> {
    if entry.kind is Flag {
        Ok(ResolvedView::Flag(!(slot is Empty)))
    } else {
        match slot {
            SlotView::Value(value, _) => Ok(ResolvedView::Value(value)),
            _ => match entry.default {
                None => Ok(ResolvedView::Unset),
                Some(text) => match entry.parser.parsed(text) {
                    Some(value) => Ok(ResolvedView::Value(value)),
                    None => Err(
                        ErrorView {
                            kind: ErrorKindView::InvalidValue(entry.long_name, text),
                            position: end,
                        },
                    ),
                },
            },
        }
    }
}

/// The bindings of the entries from the `e`-th on, after `done`, or the first
/// error among them.
pub open spec fn bindings_from(
    entries: Seq<EntryView>,
    slots: Seq<SlotView>,
    end: int,
    e: int,
    done: Seq<BindingView>,
) -> Result<Seq<BindingView>, ErrorView>
    decreases entries.len() - e,
{
    if e < 0 || e >= entries.len() {
        Ok(done)
    } else {
        match settled(entries[e], slots[e], end) {
            Err(error) => Err(error),
            Ok(value) => bindings_from(
                entries,
                slots,
                end,
                e + 1,
                done.push(BindingView { name: entries[e].long_name, value }),
            ),
        }
    }
}

/// What the tokens resolve to against the schema.
///
/// The scan comes first, then the seating of the loose values, then the
/// groups, then the defaults; the first error ends it all.
pub open spec fn resolution(schema: SchemaView, tokens: Seq<TokenView>) -> Result<ParsedView, ErrorView> {
    match scan(schema.entries, tokens) {
        Err(error) => Err(error),
        Ok(state) => match seat_from(
            schema.entries,
            schema.groups,
            tokens,
            state.loose,
            0,
            0,
            state.slots,
        ) {
            Err(error) => Err(error),
            Ok(slots) => match selections(schema.groups, slots, tokens.len() as int) {
                Err(error) => Err(error),
                Ok(groups) => match bindings_from(
                    schema.entries,
                    slots,
                    tokens.len() as int,
                    0,
                    Seq::empty(),
                ) {
                    Err(error) => Err(error),
                    Ok(entries) => Ok(ParsedView { entries, groups }),
                },
            },
        },
    }
}

/// The view of a result or of the error in its place.
pub open spec fn outcome_view(outcome: Result<ParsedResult, ResolutionError>) -> Result<
    ParsedView,
    ErrorView,
> {
    match outcome {
        Ok(parsed) => Ok(parsed@),
        Err(error) => Err(error@),
    }
}

/// The places that a list of loose values holds.
pub open spec fn places(loose: Seq<usize>) -> Seq<int> {
    loose.map_values(|place: usize| place as int)
}

/// Every loose place is the place of a value token.
pub open spec fn loose_in(tokens: Seq<TokenView>, loose: Seq<int>) -> bool {
    forall|j: int| 0 <= j < loose.len() ==> 0 <= #[trigger] loose[j] < tokens.len() && tokens[loose[j]] is Value
}

/// Whether the token addresses the entry.
fn token_addresses(entry: &SchemaEntry, token: &Token) -> (found: bool)
    ensures
        found == addresses(entry@, token@),
{
    match entry.kind {
        EntryKind::Positional => false,
        _ => match token {
            Token::LongFlag(name) => entry.long_name == *name,
            Token::ShortFlag(c) => match entry.short {
                Some(short) => short == *c,
                None => false,
            },
            Token::Value(_) => false,
        },
    }
}

/// Finds the entry that a token addresses.
fn find_entry(entries: &Vec<SchemaEntry>, token: &Token) -> (found: Option<usize>)
    ensures
        match found {
            Some(k) => lookup(entries.deep_view(), token@, 0) == Some(k as int) && k < entries.len(),
            None => lookup(entries.deep_view(), token@, 0) is None,
        },
{
    let mut k: usize = 0;
    while k < entries.len()
        invariant
            k <= entries.len(),
            lookup(entries.deep_view(), token@, k as int) == lookup(entries.deep_view(), token@, 0),
        decreases entries.len() - k,
    {
        assert(entries.deep_view()[k as int] == entries[k as int]@);
        if token_addresses(&entries[k], token) {
            return Some(k);
        }
        k += 1;
    }
    None
}

/// The flag that a token names.
fn flag_name(token: &Token) -> (name: FlagName)
    ensures
        name@ == named(token@),
{
    match token {
        Token::LongFlag(name) => FlagName::Long(name.clone()),
        Token::ShortFlag(c) => FlagName::Short(*c),
        Token::Value(text) => FlagName::Long(text.clone()),
    }
}

/// Whether the entry at this place is an alternative of some group.
fn is_grouped(groups: &Vec<Group>, entry: usize) -> (found: bool)
    ensures
        found == grouped(groups.deep_view(), entry as int),
{
    let mut g: usize = 0;
    while g < groups.len()
        invariant
            g <= groups.len(),
            forall|h: int, a: int|
                0 <= h < g && 0 <= a < groups.deep_view()[h].alternatives.len() ==> (
                #[trigger] groups.deep_view()[h].alternatives[a]).entry != entry,
        decreases groups.len() - g,
    {
        let alternatives = &groups[g].alternatives;
        assert(groups.deep_view()[g as int] == groups[g as int]@);
        let mut a: usize = 0;
        while a < alternatives.len()
            invariant
                a <= alternatives.len(),
                g < groups.len(),
                groups.deep_view()[g as int].alternatives == alternatives.deep_view(),
                forall|b: int| 0 <= b < a ==> (#[trigger] alternatives.deep_view()[b]).entry != entry,
            decreases alternatives.len() - a,
        {
            assert(alternatives.deep_view()[a as int] == alternatives[a as int]@);
            if alternatives[a].entry == entry {
                return true;
            }
            a += 1;
        }
        g += 1;
    }
    false
}

/// Scans the tokens from left to right.
fn scan_tokens(entries: &Vec<SchemaEntry>, tokens: &Vec<Token>) -> (outcome: Result<
    (Vec<Slot>, Vec<usize>),
    ResolutionError,
>)
    ensures
        match outcome {
            Ok((slots, loose)) => scan(entries.deep_view(), tokens.deep_view()) == Ok::<
                ScanView,
                ErrorView,
            >(ScanView { slots: slots.deep_view(), loose: places(loose@) }) && slots.len()
                == entries.len() && loose_in(tokens.deep_view(), places(loose@)),
            Err(error) => scan(entries.deep_view(), tokens.deep_view()) == Err::<ScanView, ErrorView>(
                error@,
            ),
        },
{
    let mut slots: Vec<Slot> = Vec::new();
    while slots.len() < entries.len()
        invariant
            slots.len() <= entries.len(),
            forall|k: int| 0 <= k < slots.len() ==> #[trigger] slots[k]@ == SlotView::Empty,
        decreases entries.len() - slots.len(),
    {
        slots.push(Slot::Empty);
    }
    let mut loose: Vec<usize> = Vec::new();
    assert(slots.deep_view() =~= empty_slots(entries.deep_view().len() as int));
    assert(places(loose@) =~= Seq::empty());
    let mut i: usize = 0;
    while i < tokens.len()
        invariant
            i <= tokens.len(),
            slots.len() == entries.len(),
            loose_in(tokens.deep_view(), places(loose@)),
            scan_from(
                entries.deep_view(),
                tokens.deep_view(),
                i as int,
                ScanView { slots: slots.deep_view(), loose: places(loose@) },
            ) == scan(entries.deep_view(), tokens.deep_view()),
        decreases tokens.len() - i,
    {
        let token = &tokens[i];
        assert(tokens.deep_view()[i as int] == token@);
        match token {
            Token::Value(_) => {
                let ghost held = places(loose@);
                loose.push(i);
                assert(places(loose@) =~= held.push(i as int));
                i += 1;
            },
            _ => match find_entry(entries, token) {
                None => {
                    return Err(ResolutionError { kind: ErrorKind::UnknownFlag(flag_name(token)), position: i });
                },
                Some(k) => {
                    let entry = &entries[k];
                    assert(entries.deep_view()[k as int] == entry@);
                    match entry.kind {
                        EntryKind::Flag => {
                            let ghost held = slots.deep_view();
                            slots[k] = Slot::Present(i);
                            assert(slots.deep_view() =~= held.update(k as int, SlotView::Present(i as int)));
                            i += 1;
                        },
                        _ => {
                            if i + 1 >= tokens.len() {
                                return Err(
                                    ResolutionError {
                                        kind: ErrorKind::MissingArgumentValue(entry.long_name.clone()),
                                        position: i,
                                    },
                                );
                            }
                            let next = &tokens[i + 1];
                            assert(tokens.deep_view()[i + 1] == next@);
                            match next {
                                Token::Value(raw) => match entry.parser.parse(raw.as_str()) {
                                    None => {
                                        return Err(
                                            ResolutionError {
                                                kind: ErrorKind::InvalidValue(
                                                    entry.long_name.clone(),
                                                    raw.clone(),
                                                ),
                                                position: i + 1,
                                            },
                                        );
                                    },
                                    Some(value) => {
                                        let ghost held = slots.deep_view();
                                        let ghost seen = value@;
                                        slots[k] = Slot::Value(value, i);
                                        assert(slots.deep_view() =~= held.update(
                                            k as int,
                                            SlotView::Value(seen, i as int),
                                        ));
                                        i += 2;
                                    },
                                },
                                _ => {
                                    return Err(
                                        ResolutionError {
                                            kind: ErrorKind::MissingArgumentValue(entry.long_name.clone()),
                                            position: i,
                                        },
                                    );
                                },
                            }
                        },
                    }
                },
            },
        }
    }
    Ok((slots, loose))
}

/// Seats the loose values in the positionals, in the order of declaration.
fn seat_positionals(
    entries: &Vec<SchemaEntry>,
    groups: &Vec<Group>,
    tokens: &Vec<Token>,
    loose: &Vec<usize>,
    given: Vec<Slot>,
) -> (outcome: Result<Vec<Slot>, ResolutionError>)
    requires
        given.len() == entries.len(),
        loose_in(tokens.deep_view(), places(loose@)),
    ensures
        match outcome {
            Ok(seated) => seat_from(
                entries.deep_view(),
                groups.deep_view(),
                tokens.deep_view(),
                places(loose@),
                0,
                0,
                given.deep_view(),
            ) == Ok::<Seq<SlotView>, ErrorView>(seated.deep_view()) && seated.len() == entries.len(),
            Err(error) => seat_from(
                entries.deep_view(),
                groups.deep_view(),
                tokens.deep_view(),
                places(loose@),
                0,
                0,
                given.deep_view(),
            ) == Err::<Seq<SlotView>, ErrorView>(error@),
        },
{
    let ghost start = given.deep_view();
    let mut slots = given;
    let mut e: usize = 0;
    let mut k: usize = 0;
    while e < entries.len()
        invariant
            e <= entries.len(),
            k <= loose.len(),
            start == given.deep_view(),
            slots.len() == entries.len(),
            loose_in(tokens.deep_view(), places(loose@)),
            seat_from(
                entries.deep_view(),
                groups.deep_view(),
                tokens.deep_view(),
                places(loose@),
                e as int,
                k as int,
                slots.deep_view(),
            ) == seat_from(
                entries.deep_view(),
                groups.deep_view(),
                tokens.deep_view(),
                places(loose@),
                0,
                0,
                start,
            ),
        decreases entries.len() - e,
    {
        let entry = &entries[e];
        assert(entries.deep_view()[e as int] == entry@);
        match entry.kind {
            EntryKind::Positional => {
                if k < loose.len() {
                    let place: usize = loose[k];
                    assert(places(loose@)[k as int] == place);
                    assert(tokens.deep_view()[place as int] == tokens[place as int]@);
                    match &tokens[place] {
                        Token::Value(raw) => match entry.parser.parse(raw.as_str()) {
                            None => {
                                return Err(
                                    ResolutionError {
                                        kind: ErrorKind::InvalidValue(entry.long_name.clone(), raw.clone()),
                                        position: place,
                                    },
                                );
                            },
                            Some(value) => {
                                let ghost held = slots.deep_view();
                                let ghost seen = value@;
                                slots[e] = Slot::Value(value, place);
                                assert(slots.deep_view() =~= held.update(
                                    e as int,
                                    SlotView::Value(seen, place as int),
                                ));
                                k += 1;
                            },
                        },
                        _ => {
                            assert(false);
                        },
                    }
                } else {
                    let unsupplied: bool = match &entry.default {
                        None => !is_grouped(groups, e),
                        Some(_) => false,
                    };
                    if unsupplied {
                        return Err(
                            ResolutionError {
                                kind: ErrorKind::MissingPositional(entry.long_name.clone()),
                                position: tokens.len(),
                            },
                        );
                    }
                }
            },
            _ => {},
        }
        e += 1;
    }
    if k < loose.len() {
        let place: usize = loose[k];
        assert(places(loose@)[k as int] == place);
        assert(tokens.deep_view()[place as int] == tokens[place as int]@);
        match &tokens[place] {
            Token::Value(raw) => {
                return Err(
                    ResolutionError { kind: ErrorKind::UnexpectedPositional(raw.clone()), position: place },
                );
            },
            _ => {
                assert(false);
            },
        }
    }
    Ok(slots)
}

/// The view of a resolved entry or of the error in its place.
pub open spec fn resolved_view(outcome: Result<Resolved, ResolutionError>) -> Result<
    ResolvedView,
    ErrorView,
> {
    match outcome {
        Ok(value) => Ok(value@),
        Err(error) => Err(error@),
    }
}

/// Settles one entry: what its slot holds, else its default.
fn settle(entry: &SchemaEntry, slot: &Slot, end: usize) -> (outcome: Result<Resolved, ResolutionError>)
    ensures
        resolved_view(outcome) == settled(entry@, slot@, end as int),
{
    match entry.kind {
        EntryKind::Flag => Ok(Resolved::Flag(!slot.is_empty())),
        _ => match slot {
            Slot::Value(value, _) => Ok(Resolved::Value(value.clone())),
            _ => match &entry.default {
                None => Ok(Resolved::Unset),
                Some(text) => match entry.parser.parse(text.as_str()) {
                    Some(value) => Ok(Resolved::Value(value)),
                    None => Err(
                        ResolutionError {
                            kind: ErrorKind::InvalidValue(entry.long_name.clone(), text.clone()),
                            position: end,
                        },
                    ),
                },
            },
        },
    }
}

/// Binds every entry to what it resolves to.
fn bind_entries(entries: &Vec<SchemaEntry>, slots: &Vec<Slot>, end: usize) -> (outcome: Result<
    Vec<Binding>,
    ResolutionError,
>)
    requires
        slots.len() == entries.len(),
    ensures
        match outcome {
            Ok(bindings) => bindings_from(
                entries.deep_view(),
                slots.deep_view(),
                end as int,
                0,
                Seq::empty(),
            ) == Ok::<Seq<BindingView>, ErrorView>(bindings.deep_view()),
            Err(error) => bindings_from(
                entries.deep_view(),
                slots.deep_view(),
                end as int,
                0,
                Seq::empty(),
            ) == Err::<Seq<BindingView>, ErrorView>(error@),
        },
{
    let mut done: Vec<Binding> = Vec::new();
    assert(done.deep_view() =~= Seq::empty());
    let mut e: usize = 0;
    while e < entries.len()
        invariant
            e <= entries.len(),
            slots.len() == entries.len(),
            bindings_from(
                entries.deep_view(),
                slots.deep_view(),
                end as int,
                e as int,
                done.deep_view(),
            ) == bindings_from(entries.deep_view(), slots.deep_view(), end as int, 0, Seq::empty()),
        decreases entries.len() - e,
    {
        assert(entries.deep_view()[e as int] == entries[e as int]@);
        assert(slots.deep_view()[e as int] == slots[e as int]@);
        match settle(&entries[e], &slots[e], end) {
            Err(error) => {
                return Err(error);
            },
            Ok(value) => {
                let ghost held = done.deep_view();
                let binding = Binding { name: entries[e].long_name.clone(), value };
                let ghost bound = binding@;
                done.push(binding);
                assert(done.deep_view() =~= held.push(bound));
            },
        }
        e += 1;
    }
    Ok(done)
}

/// Resolves the tokens of a command line against a schema.
///
/// The result binds every entry and every group of the schema; the error is
/// the first violation, and nothing is returned beside it.
pub fn resolve(schema: &Schema, tokens: &Vec<Token>) -> (outcome: Result<ParsedResult, ResolutionError>)
    ensures
        outcome_view(outcome) == resolution(schema@, tokens.deep_view()),
{
    let entries = schema.entries();
    let groups = schema.groups();
    let (slots, loose) = match scan_tokens(entries, tokens) {
        Err(error) => {
            return Err(error);
        },
        Ok(state) => state,
    };
    let slots = match seat_positionals(entries, groups, tokens, &loose, slots) {
        Err(error) => {
            return Err(error);
        },
        Ok(seated) => seated,
    };
    let selected = match disambiguate(groups, &slots, tokens.len()) {
        Err(error) => {
            return Err(error);
        },
        Ok(selected) => selected,
    };
    let bound = match bind_entries(entries, &slots, tokens.len()) {
        Err(error) => {
            return Err(error);
        },
        Ok(bound) => bound,
    };
    Ok(ParsedResult { entries: bound, groups: selected })
}

} // verus!
