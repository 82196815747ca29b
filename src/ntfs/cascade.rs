//! Relation lookups: from selected operators or lines to the calendars and
//! vehicle journeys they reach.

use vstd::prelude::*;
use crate::model::{
    calendar_ids, collect_calendar_ids, collect_journey_column, collect_line_column,
    collect_operator_ids, journey_calendar_ids, journey_line_ids, line_ids, line_operator_ids,
    operator_ids, JourneyColumn, LineColumn, Model,
};
use crate::ntfs::filter::{Action, ObjectType};
use crate::text::texts;

verus! {

/// `key` is the identifier held at one of the flagged positions of `ids`.
pub open spec fn flagged_holds(ids: Seq<Seq<char>>, flags: Seq<bool>, key: Seq<char>) -> bool {
    exists|k: int| 0 <= k < ids.len() && k < flags.len() && #[trigger] flags[k] && ids[k] == key
}

/// For each key, whether a flagged position of `ids` holds it.
pub open spec fn mark(ids: Seq<Seq<char>>, flags: Seq<bool>, keys: Seq<Seq<char>>) -> Seq<bool> {
    Seq::new(keys.len(), |j: int| flagged_holds(ids, flags, keys[j]))
}

/// Position by position, whether the entity survives `action` applied to the
/// chosen identifiers.
pub open spec fn selected(action: Action, chosen: Set<Seq<char>>, col: Seq<Seq<char>>) -> Seq<bool> {
    Seq::new(col.len(), |i: int| chosen.contains(col[i]) == (action == Action::Extract))
}

/// Position by position disjunction.
pub open spec fn either(a: Seq<bool>, b: Seq<bool>) -> Seq<bool> {
    Seq::new(a.len(), |i: int| a[i] || b[i])
}

/// Number of entities in the collection of type `t`.
pub open spec fn collection_len(m: Model, t: ObjectType) -> nat {
    match t {
        ObjectType::Operator => m.operators@.len(),
        ObjectType::Line => m.lines@.len(),
    }
}

/// Identifiers of the collection of type `t`.
pub open spec fn collection_ids(m: Model, t: ObjectType) -> Seq<Seq<char>> {
    match t {
        ObjectType::Operator => operator_ids(m.operators@),
        ObjectType::Line => line_ids(m.lines@),
    }
}

/// Lines reached from the kept entities of type `t`.
pub open spec fn lines_reached(m: Model, t: ObjectType, kept: Seq<bool>) -> Seq<bool> {
    match t {
        ObjectType::Operator => mark(operator_ids(m.operators@), kept, line_operator_ids(m.lines@)),
        ObjectType::Line => kept,
    }
}

/// Vehicle journeys running on the flagged lines.
pub open spec fn journeys_reached(m: Model, line_flags: Seq<bool>) -> Seq<bool> {
    mark(line_ids(m.lines@), line_flags, journey_line_ids(m.vehicle_journeys@))
}

/// Calendars of the flagged vehicle journeys.
pub open spec fn calendars_reached(m: Model, journey_flags: Seq<bool>) -> Seq<bool> {
    mark(journey_calendar_ids(m.vehicle_journeys@), journey_flags, calendar_ids(m.calendars@))
}

/// Whether `key` is one of the strings of `v`.
pub fn holds(v: &Vec<String>, key: &String) -> (r: bool)
    ensures
        r == texts(v@).contains(key@),
{
    let mut i: usize = 0;
    while i < v.len()
        invariant
            i <= v@.len(),
            forall|k: int| 0 <= k < i ==> v@[k]@ != key@,
        decreases v@.len() - i,
    {
        if v[i] == *key {
            assert(texts(v@)[i as int] == key@);
            return true;
        }
        i = i + 1;
    }
    assert(!texts(v@).contains(key@)) by {
        assert(forall|k: int| 0 <= k < v@.len() ==> texts(v@)[k] != key@);
    }
    false
}

/// Whether a flagged position of `ids` holds `key`.
pub fn flagged_contains(ids: &Vec<String>, flags: &Vec<bool>, key: &String) -> (r: bool)
    requires
        ids@.len() == flags@.len(),
    ensures
        r == flagged_holds(texts(ids@), flags@, key@),
{
    let mut i: usize = 0;
    while i < ids.len()
        invariant
            i <= ids@.len(),
            ids@.len() == flags@.len(),
            forall|k: int| 0 <= k < i ==> !(#[trigger] flags@[k] && ids@[k]@ == key@),
        decreases ids@.len() - i,
    {
        if flags[i] && ids[i] == *key {
            assert(flags@[i as int] && texts(ids@)[i as int] == key@);
            return true;
        }
        i = i + 1;
    }
    false
}

/// For each key, whether a flagged position of `ids` holds it.
pub fn mark_matching(ids: &Vec<String>, flags: &Vec<bool>, keys: &Vec<String>) -> (r: Vec<bool>)
    requires
        ids@.len() == flags@.len(),
    ensures
        r@ == mark(texts(ids@), flags@, texts(keys@)),
{
    let mut r: Vec<bool> = Vec::new();
    let mut j: usize = 0;
    while j < keys.len()
        invariant
            j <= keys@.len(),
            ids@.len() == flags@.len(),
            r@.len() == j,
            forall|k: int| 0 <= k < j ==> #[trigger] r@[k] == flagged_holds(texts(ids@), flags@, keys@[k]@),
        decreases keys@.len() - j,
    {
        let b = flagged_contains(ids, flags, &keys[j]);
        r.push(b);
        j = j + 1;
    }
    assert(r@ =~= mark(texts(ids@), flags@, texts(keys@)));
    r
}

/// Position by position, whether the entity with that identifier survives
/// `action` applied to `chosen`.
pub fn select(action: Action, chosen: &Vec<String>, col: &Vec<String>) -> (r: Vec<bool>)
    ensures
        r@ == selected(action, texts(chosen@).to_set(), texts(col@)),
{
    let extract = match action {
        Action::Extract => true,
        Action::Remove => false,
    };
    let mut r: Vec<bool> = Vec::new();
    let mut i: usize = 0;
    while i < col.len()
        invariant
            i <= col@.len(),
            extract == (action == Action::Extract),
            r@.len() == i,
            forall|k: int|
                0 <= k < i ==> #[trigger] r@[k] == (texts(chosen@).contains(col@[k]@) == extract),
        decreases col@.len() - i,
    {
        let inside = holds(chosen, &col[i]);
        r.push(inside == extract);
        i = i + 1;
    }
    assert(r@ =~= selected(action, texts(chosen@).to_set(), texts(col@)));
    r
}

/// Adds the flags of `more` to `acc`, position by position.
pub fn or_into(acc: &mut Vec<bool>, more: &Vec<bool>)
    requires
        old(acc)@.len() == more@.len(),
    ensures
        final(acc)@ == either(old(acc)@, more@),
{
    let mut i: usize = 0;
    while i < acc.len()
        invariant
            i <= acc@.len(),
            acc@.len() == more@.len(),
            acc@.len() == old(acc)@.len(),
            forall|k: int| 0 <= k < i ==> #[trigger] acc@[k] == (old(acc)@[k] || more@[k]),
            forall|k: int| i <= k < acc@.len() ==> #[trigger] acc@[k] == old(acc)@[k],
        decreases acc@.len() - i,
    {
        let b = acc[i] || more[i];
        acc.set(i, b);
        i = i + 1;
    }
    assert(acc@ =~= either(old(acc)@, more@));
}

/// From the kept entities of type `t` (one flag per position), the calendars,
/// the vehicle journeys and the lines they reach, one flag per position.
pub fn cascade(m: &Model, t: ObjectType, kept: &Vec<bool>) -> (r: (Vec<bool>, Vec<bool>, Vec<bool>))
    requires
        kept@.len() == collection_len(*m, t),
    ensures
        r.2@ == lines_reached(*m, t, kept@),
        r.1@ == journeys_reached(*m, r.2@),
        r.0@ == calendars_reached(*m, r.1@),
{
    let line_ids_col = collect_line_column(&m.lines, LineColumn::Id);
    let journey_lines = collect_journey_column(&m.vehicle_journeys, JourneyColumn::LineId);
    let line_flags = match t {
        ObjectType::Operator => {
            let op_ids = collect_operator_ids(&m.operators);
            let owners = collect_line_column(&m.lines, LineColumn::OperatorId);
            mark_matching(&op_ids, kept, &owners)
        },
        ObjectType::Line => copy_flags(kept),
    };
    let journeys = mark_matching(&line_ids_col, &line_flags, &journey_lines);
    let journey_calendars = collect_journey_column(&m.vehicle_journeys, JourneyColumn::CalendarId);
    let calendar_col = collect_calendar_ids(&m.calendars);
    let calendars = mark_matching(&journey_calendars, &journeys, &calendar_col);
    (calendars, journeys, line_flags)
}

/// A copy of `v`.
pub fn copy_flags(v: &Vec<bool>) -> (r: Vec<bool>)
    ensures
        r@ == v@,
{
    let mut r: Vec<bool> = Vec::new();
    let mut i: usize = 0;
    while i < v.len()
        invariant
            i <= v@.len(),
            r@ == v@.take(i as int),
        decreases v@.len() - i,
    {
        r.push(v[i]);
        assert(v@.take(i + 1) =~= v@.take(i as int).push(v@[i as int]));
        i = i + 1;
    }
    assert(v@.take(v@.len() as int) =~= v@);
    r
}

} // verus!
