//! Properties relating several selections or several steps of a rebuild.

use vstd::prelude::*;
use crate::error::ErrorView;
use crate::model::{
    calendar_ids, distinct, journey_calendar_ids, journey_ids, journey_line_ids, line_ids,
    line_operator_ids, operator_ids, Model, StopTimeAttribute, VehicleJourney,
};
use crate::ntfs::cascade::{either, journeys_reached, lines_reached};
use crate::ntfs::filter::{
    filter_outcome, FilterView, initial_selection, resolve_properties, selection_of, step, Action, EntryView, ObjectType,
    PropertyView,
};
use crate::ntfs::rebuild::{all_in, keep_where, rebuilt_from, remap, remap_one};

verus! {

/// A flagged element is kept.
proof fn lemma_keep_where_keeps<T>(s: Seq<T>, f: Seq<bool>, j: int)
    requires
        f.len() >= s.len(),
        0 <= j < s.len(),
        f[j],
    ensures
        keep_where(s, f).contains(s[j]),
    decreases s.len(),
{
    let p = keep_where(s.drop_last(), f);
    if j == s.len() - 1 {
        assert(keep_where(s, f) == p.push(s[j]));
        assert(keep_where(s, f)[p.len() as int] == s[j]);
    } else {
        lemma_keep_where_keeps(s.drop_last(), f, j);
        let k = choose|k: int| 0 <= k < p.len() && p[k] == s[j];
        assert(keep_where(s, f)[k] == s[j]);
    }
}

/// Nothing is added by keeping.
proof fn lemma_keep_where_len<T>(s: Seq<T>, f: Seq<bool>)
    ensures
        keep_where(s, f).len() <= s.len(),
    decreases s.len(),
{
    if s.len() > 0 {
        lemma_keep_where_len(s.drop_last(), f);
    }
}

/// Every kept element sits at a flagged position.
proof fn lemma_keep_where_origin<T>(s: Seq<T>, f: Seq<bool>, k: int)
    requires
        f.len() >= s.len(),
        0 <= k < keep_where(s, f).len(),
    ensures
        exists|j: int| 0 <= j < s.len() && f[j] && s[j] == keep_where(s, f)[k],
    decreases s.len(),
{
    let p = keep_where(s.drop_last(), f);
    if k < p.len() {
        lemma_keep_where_origin(s.drop_last(), f, k);
        let j = choose|j: int| 0 <= j < s.drop_last().len() && f[j] && s.drop_last()[j] == p[k];
        assert(s[j] == keep_where(s, f)[k]);
    } else {
        assert(f[s.len() - 1] && keep_where(s, f)[k] == s[s.len() - 1]);
    }
}

/// The remapped image of each entry is among the remapped entries.
proof fn lemma_remap_keeps(
    old_ids: Seq<Seq<char>>,
    new_ids: Seq<Seq<char>>,
    attrs: Seq<StopTimeAttribute>,
    i: int,
)
    requires
        0 <= i < attrs.len(),
        remap_one(old_ids, new_ids, attrs[i]) is Some,
    ensures
        remap(old_ids, new_ids, attrs).contains(remap_one(old_ids, new_ids, attrs[i])->0),
    decreases attrs.len(),
{
    let p = remap(old_ids, new_ids, attrs.drop_last());
    let e = remap_one(old_ids, new_ids, attrs[i])->0;
    if i == attrs.len() - 1 {
        assert(remap(old_ids, new_ids, attrs)[p.len() as int] == e);
    } else {
        lemma_remap_keeps(old_ids, new_ids, attrs.drop_last(), i);
        let k = choose|k: int| 0 <= k < p.len() && p[k] == e;
        assert(remap(old_ids, new_ids, attrs)[k] == e);
    }
}

/// Each remapped entry is the image of an entry of `attrs`.
proof fn lemma_remap_origin(
    old_ids: Seq<Seq<char>>,
    new_ids: Seq<Seq<char>>,
    attrs: Seq<StopTimeAttribute>,
    n: int,
)
    requires
        0 <= n < remap(old_ids, new_ids, attrs).len(),
    ensures
        exists|i: int|
            0 <= i < attrs.len() && remap_one(old_ids, new_ids, attrs[i]) == Some(
                remap(old_ids, new_ids, attrs)[n],
            ),
    decreases attrs.len(),
{
    let p = remap(old_ids, new_ids, attrs.drop_last());
    if n < p.len() {
        lemma_remap_origin(old_ids, new_ids, attrs.drop_last(), n);
        let i = choose|i: int|
            0 <= i < attrs.drop_last().len() && remap_one(old_ids, new_ids, attrs.drop_last()[i])
                == Some(p[n]);
        assert(attrs[i] == attrs.drop_last()[i]);
    } else {
        assert(remap_one(old_ids, new_ids, attrs[attrs.len() - 1]) == Some(
            remap(old_ids, new_ids, attrs)[n],
        ));
    }
}

/// An attribute of a vehicle journey that survives compaction is found
/// afterwards, with the same stop sequence and value, at the new position of
/// that journey.
pub proof fn law_attribute_follows_journey(
    old_vjs: Seq<VehicleJourney>,
    flags: Seq<bool>,
    attrs: Seq<StopTimeAttribute>,
    i: int,
)
    requires
        flags.len() == old_vjs.len(),
        distinct(journey_ids(old_vjs)),
        0 <= i < attrs.len(),
        attrs[i].vehicle_journey < old_vjs.len(),
        flags[attrs[i].vehicle_journey as int],
    ensures
        ({
            let new_vjs = keep_where(old_vjs, flags);
            let out = remap(journey_ids(old_vjs), journey_ids(new_vjs), attrs);
            exists|k: int|
                0 <= k < new_vjs.len() && new_vjs[k] == old_vjs[attrs[i].vehicle_journey as int]
                    && out.contains(
                    StopTimeAttribute {
                        vehicle_journey: k as usize,
                        sequence: attrs[i].sequence,
                        value: attrs[i].value,
                    },
                )
        }),
{
    let new_vjs = keep_where(old_vjs, flags);
    let old_ids = journey_ids(old_vjs);
    let new_ids = journey_ids(new_vjs);
    let j = attrs[i].vehicle_journey as int;
    lemma_keep_where_keeps(old_vjs, flags, j);
    let k0 = choose|k: int| 0 <= k < new_vjs.len() && new_vjs[k] == old_vjs[j];
    assert(new_ids[k0] == old_ids[j]);
    assert(new_ids.contains(old_ids[j]));
    new_ids.index_of_first_ensures(old_ids[j]);
    let k = new_ids.index_of_first(old_ids[j])->0;
    lemma_keep_where_origin(old_vjs, flags, k);
    let j2 = choose|j2: int| 0 <= j2 < old_vjs.len() && flags[j2] && old_vjs[j2] == new_vjs[k];
    assert(old_ids[j2] == old_ids[j]);
    assert(j2 == j);
    lemma_remap_keeps(old_ids, new_ids, attrs, i);
    assert(remap_one(old_ids, new_ids, attrs[i]) == Some(
        StopTimeAttribute {
            vehicle_journey: k as usize,
            sequence: attrs[i].sequence,
            value: attrs[i].value,
        },
    ));
}

/// No attribute survives compaction but at the position of a surviving
/// vehicle journey, which held the same entry before.
pub proof fn law_no_dangling_attribute(
    old_vjs: Seq<VehicleJourney>,
    flags: Seq<bool>,
    attrs: Seq<StopTimeAttribute>,
    n: int,
)
    requires
        flags.len() == old_vjs.len(),
        old_vjs.len() <= usize::MAX,
        distinct(journey_ids(old_vjs)),
        0 <= n < remap(journey_ids(old_vjs), journey_ids(keep_where(old_vjs, flags)), attrs).len(),
    ensures
        ({
            let new_vjs = keep_where(old_vjs, flags);
            let e = remap(journey_ids(old_vjs), journey_ids(new_vjs), attrs)[n];
            &&& e.vehicle_journey < new_vjs.len()
            &&& exists|i: int|
                0 <= i < attrs.len() && attrs[i].vehicle_journey < old_vjs.len() && flags[attrs[i].vehicle_journey as int]
                    && new_vjs[e.vehicle_journey as int] == old_vjs[attrs[i].vehicle_journey as int]
                    && e.sequence == attrs[i].sequence && e.value == attrs[i].value
        }),
{
    let new_vjs = keep_where(old_vjs, flags);
    let old_ids = journey_ids(old_vjs);
    let new_ids = journey_ids(new_vjs);
    let e = remap(old_ids, new_ids, attrs)[n];
    lemma_remap_origin(old_ids, new_ids, attrs, n);
    let i = choose|i: int| 0 <= i < attrs.len() && remap_one(old_ids, new_ids, attrs[i]) == Some(e);
    let j = attrs[i].vehicle_journey as int;
    new_ids.index_of_first_ensures(old_ids[j]);
    lemma_keep_where_len(old_vjs, flags);
    let k = new_ids.index_of_first(old_ids[j])->0;
    assert(e.vehicle_journey as int == k);
    assert(new_ids[k] == old_ids[j]);
    lemma_keep_where_origin(old_vjs, flags, k);
    let j2 = choose|j2: int| 0 <= j2 < old_vjs.len() && flags[j2] && old_vjs[j2] == new_vjs[k];
    assert(old_ids[j2] == old_ids[j]);
    assert(j2 == j);
}

/// Removing with the same properties keeps exactly the operators that
/// extracting drops, and the vehicle journeys that the others reach.
pub proof fn law_remove_complements_extract(m: Model, props: Seq<PropertyView>)
    requires
        resolve_properties(m, ObjectType::Operator, props) is Ok,
    ensures
        ({
            let entries = seq![(ObjectType::Operator, props)];
            let ex = selection_of(m, Action::Extract, entries);
            let rm = selection_of(m, Action::Remove, entries);
            &&& ex is Ok && rm is Ok
            &&& ex->Ok_0.operators is Some && rm->Ok_0.operators is Some
            &&& ex->Ok_0.operators->0.len() == m.operators@.len()
            &&& rm->Ok_0.operators->0.len() == m.operators@.len()
            &&& forall|i: int|
                0 <= i < m.operators@.len() ==> #[trigger] rm->Ok_0.operators->0[i]
                    == !ex->Ok_0.operators->0[i]
            &&& rm->Ok_0.journeys == journeys_reached(
                m,
                lines_reached(
                    m,
                    ObjectType::Operator,
                    Seq::new(m.operators@.len(), |i: int| !ex->Ok_0.operators->0[i]),
                ),
            )
        }),
{
    let entries = seq![(ObjectType::Operator, props)];
    assert(entries.drop_last() =~= Seq::<EntryView>::empty());
    assert(entries.last() == (ObjectType::Operator, props));
    let chosen = resolve_properties(m, ObjectType::Operator, props)->Ok_0;
    assert(selection_of(m, Action::Extract, entries.drop_last()) == Ok::<_, ErrorView>(
        initial_selection(m),
    ));
    assert(selection_of(m, Action::Remove, entries.drop_last()) == Ok::<_, ErrorView>(
        initial_selection(m),
    ));
    assert(selection_of(m, Action::Extract, entries) == Ok::<_, ErrorView>(
        step(m, Action::Extract, initial_selection(m), ObjectType::Operator, chosen),
    ));
    assert(selection_of(m, Action::Remove, entries) == Ok::<_, ErrorView>(
        step(m, Action::Remove, initial_selection(m), ObjectType::Operator, chosen),
    ));
    let ex = selection_of(m, Action::Extract, entries)->Ok_0;
    let rm = selection_of(m, Action::Remove, entries)->Ok_0;
    let complement = Seq::new(m.operators@.len(), |i: int| !ex.operators->0[i]);
    assert(rm.operators->0 =~= complement);
    let j = journeys_reached(m, lines_reached(m, ObjectType::Operator, complement));
    assert(rm.journeys =~= j);
}

/// Across object types, the calendars and vehicle journeys kept are the
/// union of those each type's selection reaches alone.
pub proof fn law_union_across_types(m: Model, action: Action, a: EntryView, b: EntryView)
    requires
        selection_of(m, action, seq![a, b]) is Ok,
    ensures
        selection_of(m, action, seq![a]) is Ok,
        selection_of(m, action, seq![b]) is Ok,
        selection_of(m, action, seq![a, b])->Ok_0.journeys == either(
            selection_of(m, action, seq![a])->Ok_0.journeys,
            selection_of(m, action, seq![b])->Ok_0.journeys,
        ),
        selection_of(m, action, seq![a, b])->Ok_0.calendars == either(
            selection_of(m, action, seq![a])->Ok_0.calendars,
            selection_of(m, action, seq![b])->Ok_0.calendars,
        ),
{
    assert(seq![a, b].drop_last() =~= seq![a]);
    assert(seq![a].drop_last() =~= Seq::<EntryView>::empty());
    assert(seq![b].drop_last() =~= Seq::<EntryView>::empty());
    let both = selection_of(m, action, seq![a, b])->Ok_0;
    let sa = selection_of(m, action, seq![a])->Ok_0;
    let sb = selection_of(m, action, seq![b])->Ok_0;
    assert(both.journeys =~= either(sa.journeys, sb.journeys));
    assert(both.calendars =~= either(sa.calendars, sb.calendars));
}

/// On a model rebuilt by a filter speaking of two object types, the
/// calendars and vehicle journeys kept are those either type's selection
/// reaches alone.
pub proof fn law_filter_keeps_union(model: Model, f: FilterView, out: Model)
    requires
        f.entries.len() == 2,
        filter_outcome(model, f) matches Ok(s) && rebuilt_from(out, model, s),
    ensures
        selection_of(model, f.action, seq![f.entries[0]]) is Ok,
        selection_of(model, f.action, seq![f.entries[1]]) is Ok,
        out.vehicle_journeys@ == keep_where(
            model.vehicle_journeys@,
            either(
                selection_of(model, f.action, seq![f.entries[0]])->Ok_0.journeys,
                selection_of(model, f.action, seq![f.entries[1]])->Ok_0.journeys,
            ),
        ),
        out.calendars@ == keep_where(
            model.calendars@,
            either(
                selection_of(model, f.action, seq![f.entries[0]])->Ok_0.calendars,
                selection_of(model, f.action, seq![f.entries[1]])->Ok_0.calendars,
            ),
        ),
{
    assert(f.entries =~= seq![f.entries[0], f.entries[1]]);
    law_union_across_types(model, f.action, f.entries[0], f.entries[1]);
}

/// A model rebuilt by a filter holds no reference to an absent entity: each
/// line's operator, each vehicle journey's line and calendar are kept.
pub proof fn law_no_dangling_reference(model: Model, f: FilterView, out: Model)
    requires
        filter_outcome(model, f) matches Ok(s) && rebuilt_from(out, model, s),
    ensures
        all_in(line_operator_ids(out.lines@), operator_ids(out.operators@)),
        all_in(journey_line_ids(out.vehicle_journeys@), line_ids(out.lines@)),
        all_in(journey_calendar_ids(out.vehicle_journeys@), calendar_ids(out.calendars@)),
        out.calendars@.len() > 0,
{
}

} // verus!
