//! Declarative selections and their application to a model.

use vstd::prelude::*;
use vstd::string::StringExecFns;
use crate::error::{Error, ErrorView};
use crate::model::{
    collect_line_column, collect_operator_ids, line_codes, line_ids, operator_ids, LineColumn,
    Model,
};
use crate::ntfs::cascade::{
    calendars_reached, cascade, collection_ids, collection_len, either, holds, journeys_reached,
    lines_reached, or_into, select, selected,
};
use crate::ntfs::rebuild::{position_of, rebuild, rebuild_error, rebuilt_from, Pass, Selection};
use crate::text::{copy_strings, texts};

verus! {

/// What happens to the selected entities.
#[derive(Debug, Clone, Copy, PartialEq, Eq, Structural)]
pub enum Action {
    /// Keep exactly the selected entities.
    Extract,
    /// Keep everything but the selected entities.
    Remove,
}

/// The top-level entity types a selection can speak of.
#[derive(Debug, Clone, Copy, PartialEq, Eq, Structural, Hash)]
pub enum ObjectType {
    Operator,
    Line,
}

/// The accepted values of one property.
#[derive(Debug)]
pub struct PropertyValues {
    pub name: String,
    /// Each value at most once, in the order they were added.
    pub values: Vec<String>,
}

/// The properties given for one object type, in the order they were added.
#[derive(Debug)]
pub struct TypeSelection {
    pub object_type: ObjectType,
    pub properties: Vec<PropertyValues>,
}

/// An action together with, per object type, the accepted values of each
/// property.
#[derive(Debug)]
pub struct Filter {
    pub action: Action,
    pub filters: Vec<TypeSelection>,
}

/// A property name with its accepted values.
pub type PropertyView = (Seq<char>, Seq<Seq<char>>);

/// An object type with its properties.
pub type EntryView = (ObjectType, Seq<PropertyView>);

pub open spec fn property_view(p: PropertyValues) -> PropertyView {
    (p.name@, texts(p.values@))
}

pub open spec fn property_views(s: Seq<PropertyValues>) -> Seq<PropertyView> {
    s.map_values(|p: PropertyValues| property_view(p))
}

pub open spec fn entry_view(e: TypeSelection) -> EntryView {
    (e.object_type, property_views(e.properties@))
}

pub open spec fn entry_views(s: Seq<TypeSelection>) -> Seq<EntryView> {
    s.map_values(|e: TypeSelection| entry_view(e))
}

/// The property names, in order.
pub open spec fn names_of(props: Seq<PropertyView>) -> Seq<Seq<char>> {
    props.map_values(|p: PropertyView| p.0)
}

/// The object types, in order.
pub open spec fn kinds_of(entries: Seq<EntryView>) -> Seq<ObjectType> {
    entries.map_values(|e: EntryView| e.0)
}

/// The mathematical content of a [`Filter`].
pub struct FilterView {
    pub action: Action,
    pub entries: Seq<EntryView>,
}

impl View for Filter {
    type V = FilterView;

    open spec fn view(&self) -> FilterView {
        FilterView {
            action: self.action,
            entries: entry_views(self.filters@),
        }
    }
}

/// `props` once `value` is accepted for `prop`: added to the values of an
/// existing property unless already there, else under a new property.
pub open spec fn with_value(props: Seq<PropertyView>, prop: Seq<char>, value: Seq<char>) -> Seq<
    PropertyView,
> {
    match names_of(props).index_of_first(prop) {
        Some(j) => props.update(
            j,
            (prop, if props[j].1.contains(value) {
                props[j].1
            } else {
                props[j].1.push(value)
            }),
        ),
        None => props.push((prop, seq![value])),
    }
}

/// `entries` once `value` is accepted for `prop` of object type `t`.
pub open spec fn with_entry(
    entries: Seq<EntryView>,
    t: ObjectType,
    prop: Seq<char>,
    value: Seq<char>,
) -> Seq<EntryView> {
    match kinds_of(entries).index_of_first(t) {
        Some(i) => entries.update(i, (t, with_value(entries[i].1, prop, value))),
        None => entries.push((t, seq![(prop, seq![value])])),
    }
}

/// Property names are distinct, and so are the values of each property.
pub open spec fn wf_properties(props: Seq<PropertyView>) -> bool {
    &&& names_of(props).no_duplicates()
    &&& forall|j: int| 0 <= j < props.len() ==> (#[trigger] props[j]).1.no_duplicates()
}

/// Object types are distinct, and the properties of each are well formed.
pub open spec fn wf_entries(entries: Seq<EntryView>) -> bool {
    &&& kinds_of(entries).no_duplicates()
    &&& forall|i: int| 0 <= i < entries.len() ==> wf_properties(#[trigger] entries[i].1)
}

/// Accepting a value keeps properties well formed.
proof fn lemma_with_value_wf(props: Seq<PropertyView>, prop: Seq<char>, value: Seq<char>)
    requires
        wf_properties(props),
    ensures
        wf_properties(with_value(props, prop, value)),
{
    let names = names_of(props);
    names.index_of_first_ensures(prop);
    let r = with_value(props, prop, value);
    match names.index_of_first(prop) {
        Some(j) => {
            assert(names_of(r) =~= names);
            assert forall|k: int| 0 <= k < r.len() implies (#[trigger] r[k]).1.no_duplicates() by {
                if k == j {
                    assert(props[j].1.no_duplicates());
                    if !props[j].1.contains(value) {
                        let w = props[j].1.push(value);
                        assert forall|a: int, b: int|
                            0 <= a < w.len() && 0 <= b < w.len() && a != b implies w[a] != w[b] by {
                            if a == w.len() - 1 {
                                assert(props[j].1[b] != value);
                            } else if b == w.len() - 1 {
                                assert(props[j].1[a] != value);
                            }
                        }
                    }
                } else {
                    assert(r[k] == props[k]);
                }
            }
        },
        None => {
            assert(names_of(r) =~= names.push(prop));
            assert forall|a: int, b: int|
                0 <= a < names_of(r).len() && 0 <= b < names_of(r).len() && a != b implies names_of(
                r,
            )[a] != names_of(r)[b] by {
                if a == names.len() {
                    assert(names[b] != prop);
                } else if b == names.len() {
                    assert(names[a] != prop);
                }
            }
            assert forall|k: int| 0 <= k < r.len() implies (#[trigger] r[k]).1.no_duplicates() by {
                if k < props.len() {
                    assert(r[k] == props[k]);
                }
            }
        },
    }
}

/// Accepting a value keeps entries well formed.
proof fn lemma_with_entry_wf(entries: Seq<EntryView>, t: ObjectType, prop: Seq<char>, value: Seq<char>)
    requires
        wf_entries(entries),
    ensures
        wf_entries(with_entry(entries, t, prop, value)),
{
    let kinds = kinds_of(entries);
    kinds.index_of_first_ensures(t);
    let r = with_entry(entries, t, prop, value);
    match kinds.index_of_first(t) {
        Some(i) => {
            assert(kinds_of(r) =~= kinds);
            lemma_with_value_wf(entries[i].1, prop, value);
            assert forall|k: int| 0 <= k < r.len() implies wf_properties(#[trigger] r[k].1) by {
                if k != i {
                    assert(r[k] == entries[k]);
                }
            }
        },
        None => {
            assert(kinds_of(r) =~= kinds.push(t));
            assert forall|a: int, b: int|
                0 <= a < kinds_of(r).len() && 0 <= b < kinds_of(r).len() && a != b implies kinds_of(
                r,
            )[a] != kinds_of(r)[b] by {
                if a == kinds.len() {
                    assert(kinds[b] != t);
                } else if b == kinds.len() {
                    assert(kinds[a] != t);
                }
            }
            let one: Seq<PropertyView> = seq![(prop, seq![value])];
            assert(names_of(one) =~= seq![prop]);
            assert(one[0].1 =~= seq![value]);
            assert(wf_properties(one));
            assert forall|k: int| 0 <= k < r.len() implies wf_properties(#[trigger] r[k].1) by {
                if k < entries.len() {
                    assert(r[k] == entries[k]);
                }
            }
        },
    }
}

/// The names of the properties, in order.
fn property_names(props: &Vec<PropertyValues>) -> (r: Vec<String>)
    ensures
        texts(r@) == names_of(property_views(props@)),
{
    let mut r: Vec<String> = Vec::new();
    let mut i: usize = 0;
    while i < props.len()
        invariant
            i <= props@.len(),
            r@.len() == i,
            forall|k: int| 0 <= k < i ==> #[trigger] r@[k]@ == props@[k].name@,
        decreases props@.len() - i,
    {
        r.push(props[i].name.clone());
        i = i + 1;
    }
    assert forall|k: int| 0 <= k < r@.len() implies texts(r@)[k] == names_of(property_views(props@))[k] by {
        assert(property_views(props@)[k] == property_view(props@[k]));
    }
    assert(texts(r@) =~= names_of(property_views(props@)));
    r
}

/// The position of the first property named `prop`.
fn find_property(props: &Vec<PropertyValues>, prop: &String) -> (r: Option<usize>)
    ensures
        match r {
            Some(j) => names_of(property_views(props@)).index_of_first(prop@) == Some(j as int),
            None => names_of(property_views(props@)).index_of_first(prop@) is None,
        },
{
    position_of(&property_names(props), prop)
}

/// The position of the entry for object type `t`.
fn find_entry(filters: &Vec<TypeSelection>, t: ObjectType) -> (r: Option<usize>)
    ensures
        match r {
            Some(i) => kinds_of(entry_views(filters@)).index_of_first(t) == Some(i as int),
            None => kinds_of(entry_views(filters@)).index_of_first(t) is None,
        },
{
    let ghost kinds = kinds_of(entry_views(filters@));
    proof {
        kinds.index_of_first_ensures(t);
        assert forall|k: int| 0 <= k < kinds.len() implies #[trigger] kinds[k] == filters@[k].object_type by {
            assert(entry_views(filters@)[k] == entry_view(filters@[k]));
        }
    }
    let mut i: usize = 0;
    while i < filters.len()
        invariant
            i <= filters@.len(),
            kinds.len() == filters@.len(),
            forall|k: int| 0 <= k < kinds.len() ==> #[trigger] kinds[k] == filters@[k].object_type,
            forall|k: int| 0 <= k < i ==> kinds[k] != t,
            match kinds.index_of_first(t) {
                Some(index) => {
                    &&& 0 <= index < kinds.len()
                    &&& kinds[index] == t
                    &&& forall|k: int| 0 <= k < index ==> kinds[k] != t
                },
                None => !kinds.contains(t),
            },
        decreases filters@.len() - i,
    {
        if filters[i].object_type == t {
            assert(kinds[i as int] == t);
            assert(kinds.contains(t));
            let ghost first = kinds.index_of_first(t)->0;
            assert(first == i);
            assert(kinds == kinds_of(entry_views(filters@)));
            assert(kinds_of(entry_views(filters@)).index_of_first(t) == Some(i as int));
            return Some(i);
        }
        i = i + 1;
    }
    None
}

/// `props` once `value` is accepted for `prop`.
fn add_value(props: Vec<PropertyValues>, prop: String, value: String) -> (r: Vec<PropertyValues>)
    ensures
        property_views(r@) == with_value(
            property_views(props@),
            prop@,
            value@,
        ),
{
    let ghost before = property_views(props@);
    let mut props = props;
    match find_property(&props, &prop) {
        Some(j) => {
            proof {
                names_of(before).index_of_first_ensures(prop@);
                assert(before[j as int] == property_view(props@[j as int]));
            }
            let old_entry = props.remove(j);
            let mut values = old_entry.values;
            let present = crate::ntfs::cascade::holds(&values, &value);
            if !present {
                values.push(value);
            }
            proof {
                assert(texts(values@) =~= if before[j as int].1.contains(value@) {
                    before[j as int].1
                } else {
                    before[j as int].1.push(value@)
                });
            }
            props.insert(j, PropertyValues { name: prop, values });
            assert(property_views(props@) =~= with_value(
                before,
                prop@,
                value@,
            ));
        },
        None => {
            let mut values: Vec<String> = Vec::new();
            values.push(value);
            props.push(PropertyValues { name: prop, values });
            assert(texts(values@) =~= seq![value@]);
            assert(property_views(props@) =~= with_value(
                before,
                prop@,
                value@,
            ));
        },
    }
    props
}

impl Filter {
    /// Object types are distinct, property names are distinct within a
    /// type, and values are distinct within a property.
    pub open spec fn wf(&self) -> bool {
        wf_entries(self@.entries)
    }

    pub fn new(action: Action) -> (r: Filter)
        ensures
            r@.action == action,
            r@.entries.len() == 0,
            r.wf(),
    {
        assert(kinds_of(Seq::<EntryView>::empty()) =~= Seq::<ObjectType>::empty());
        Filter { action, filters: Vec::new() }
    }

    /// Accepts `value` for property `prop` of object type `object_type`.
    pub fn add(&mut self, object_type: ObjectType, prop: &str, value: &str)
        requires
            old(self).wf(),
        ensures
            final(self).wf(),
            final(self)@.action == old(self)@.action,
            final(self)@.entries == with_entry(old(self)@.entries, object_type, prop@, value@),
    {
        let ghost before = self@.entries;
        let ghost old_filters = self.filters@;
        proof { lemma_with_entry_wf(before, object_type, prop@, value@); }
        let prop = String::from_str(prop);
        let value = String::from_str(value);
        match find_entry(&self.filters, object_type) {
            Some(i) => {
                proof {
                    kinds_of(before).index_of_first_ensures(object_type);
                    assert(before[i as int] == entry_view(self.filters@[i as int]));
                }
                let old_entry = self.filters.remove(i);
                let properties = add_value(old_entry.properties, prop, value);
                let entry = TypeSelection { object_type, properties };
                self.filters.insert(i, entry);
                assert(self.filters@ =~= old_filters.update(i as int, entry));
                assert(entry_view(entry) == (object_type, with_value(before[i as int].1, prop@, value@)));
                assert(kinds_of(before).index_of_first(object_type) == Some(i as int));
                assert(with_entry(before, object_type, prop@, value@) == before.update(
                    i as int,
                    (object_type, with_value(before[i as int].1, prop@, value@)),
                ));
                assert(entry_views(old_filters.update(i as int, entry)) =~= before.update(
                    i as int,
                    entry_view(entry),
                ));
                assert(self@.entries =~= with_entry(before, object_type, prop@, value@));
            },
            None => {
                let properties = add_value(Vec::new(), prop, value);
                proof {
                    let empty = property_views(Seq::<PropertyValues>::empty());
                    assert(empty =~= Seq::<PropertyView>::empty());
                    names_of(empty).index_of_first_ensures(prop@);
                    assert(with_value(empty, prop@, value@) == seq![(prop@, seq![value@])]);
                }
                self.filters.push(TypeSelection { object_type, properties });
                assert(self@.entries =~= with_entry(before, object_type, prop@, value@));
            },
        }
    }
}


/// The position of the first requested value that names no entity of `ids`.
pub open spec fn first_missing(ids: Seq<Seq<char>>, values: Seq<Seq<char>>) -> Option<int> {
    presence(ids, values).index_of_first(false)
}

/// For each value, whether it is one of `ids`.
pub open spec fn presence(ids: Seq<Seq<char>>, values: Seq<Seq<char>>) -> Seq<bool> {
    values.map_values(|v: Seq<char>| ids.contains(v))
}

/// Once a prefix of the properties fails, the whole fails the same way.
proof fn lemma_resolve_failure_stays(m: Model, t: ObjectType, props: Seq<PropertyView>, k: int)
    requires
        0 <= k <= props.len(),
        resolve_properties(m, t, props.take(k)) is Err,
    ensures
        resolve_properties(m, t, props) == resolve_properties(m, t, props.take(k)),
    decreases props.len() - k,
{
    if k < props.len() {
        assert(props.take(k + 1).drop_last() =~= props.take(k));
        lemma_resolve_failure_stays(m, t, props, k + 1);
    } else {
        assert(props.take(k) =~= props);
    }
}

/// Once a prefix of the entries fails, the whole fails the same way.
proof fn lemma_selection_failure_stays(m: Model, action: Action, entries: Seq<EntryView>, k: int)
    requires
        0 <= k <= entries.len(),
        selection_of(m, action, entries.take(k)) is Err,
    ensures
        selection_of(m, action, entries) == selection_of(m, action, entries.take(k)),
    decreases entries.len() - k,
{
    if k < entries.len() {
        assert(entries.take(k + 1).drop_last() =~= entries.take(k));
        lemma_selection_failure_stays(m, action, entries, k + 1);
    } else {
        assert(entries.take(k) =~= entries);
    }
}

/// The identifiers of the lines whose code is one of `values`, in order.
pub open spec fn lines_with_code(
    ids: Seq<Seq<char>>,
    codes: Seq<Seq<char>>,
    values: Seq<Seq<char>>,
) -> Seq<Seq<char>>
    decreases ids.len(),
{
    if ids.len() == 0 {
        Seq::empty()
    } else {
        let p = lines_with_code(ids.drop_last(), codes, values);
        if values.contains(codes[ids.len() - 1]) {
            p.push(ids.last())
        } else {
            p
        }
    }
}

/// The identifiers selected by one property of object type `t`.
pub open spec fn resolution(m: Model, t: ObjectType, prop: Seq<char>, values: Seq<Seq<char>>) -> Result<
    Seq<Seq<char>>,
    ErrorView,
> {
    match t {
        ObjectType::Operator => if prop == "operator_id"@ {
            match first_missing(operator_ids(m.operators@), values) {
                Some(k) => Err(ErrorView::NotFound(ObjectType::Operator, values[k])),
                None => Ok(values),
            }
        } else {
            Err(ErrorView::UnsupportedProperty(ObjectType::Operator, prop))
        },
        ObjectType::Line => if prop == "line_code"@ {
            let found = lines_with_code(line_ids(m.lines@), line_codes(m.lines@), values);
            if found.len() == 0 {
                Err(ErrorView::EmptyMatch(prop, values))
            } else {
                Ok(found)
            }
        } else {
            Err(ErrorView::UnsupportedProperty(ObjectType::Line, prop))
        },
    }
}

/// Every property resolved in order; the first failure stops, else the last
/// property decides.
pub open spec fn resolve_properties(m: Model, t: ObjectType, props: Seq<PropertyView>) -> Result<
    Seq<Seq<char>>,
    ErrorView,
>
    decreases props.len(),
{
    if props.len() == 0 {
        Ok(Seq::empty())
    } else {
        match resolve_properties(m, t, props.drop_last()) {
            Err(e) => Err(e),
            Ok(_) => resolution(m, t, props.last().0, props.last().1),
        }
    }
}

/// The selection once the entities of type `t` chosen by `chosen` are
/// processed: their collection is filtered by `action`, and what the kept
/// ones reach is added to the reached calendars and vehicle journeys.
pub open spec fn step(
    m: Model,
    action: Action,
    s: Selection,
    t: ObjectType,
    chosen: Seq<Seq<char>>,
) -> Selection {
    let kept = selected(action, chosen.to_set(), collection_ids(m, t));
    let lines = lines_reached(m, t, kept);
    let journeys = journeys_reached(m, lines);
    let calendars = calendars_reached(m, journeys);
    Selection {
        operators: if t == ObjectType::Operator {
            Some(kept)
        } else {
            s.operators
        },
        lines: if t == ObjectType::Line {
            Some(kept)
        } else {
            s.lines
        },
        operator_lines: if t == ObjectType::Operator {
            Some(lines)
        } else {
            s.operator_lines
        },
        calendars: either(s.calendars, calendars),
        journeys: either(s.journeys, journeys),
    }
}

/// Nothing processed, nothing reached.
pub open spec fn initial_selection(m: Model) -> Selection {
    Selection {
        operators: None,
        lines: None,
        operator_lines: None,
        calendars: Seq::new(m.calendars@.len(), |i: int| false),
        journeys: Seq::new(m.vehicle_journeys@.len(), |i: int| false),
    }
}

/// The entries processed in order, the first failure stopping.
pub open spec fn selection_of(m: Model, action: Action, entries: Seq<EntryView>) -> Result<
    Selection,
    ErrorView,
>
    decreases entries.len(),
{
    if entries.len() == 0 {
        Ok(initial_selection(m))
    } else {
        match selection_of(m, action, entries.drop_last()) {
            Err(e) => Err(e),
            Ok(s) => match resolve_properties(m, entries.last().0, entries.last().1) {
                Err(e) => Err(e),
                Ok(chosen) => Ok(step(m, action, s, entries.last().0, chosen)),
            },
        }
    }
}

/// What applying `f` to `m` gives: the failure, or the selection by which the
/// model is rebuilt.
pub open spec fn filter_outcome(m: Model, f: FilterView) -> Result<Selection, ErrorView> {
    match selection_of(m, f.action, f.entries) {
        Err(e) => Err(e),
        Ok(s) => match rebuild_error(m, s) {
            Some(e) => Err(e),
            None => Ok(s),
        },
    }
}

/// The identifiers of the lines whose code is one of `values`.
fn find_lines_with_code(m: &Model, values: &Vec<String>) -> (r: Vec<String>)
    ensures
        texts(r@) == lines_with_code(line_ids(m.lines@), line_codes(m.lines@), texts(values@)),
{
    let ids = collect_line_column(&m.lines, LineColumn::Id);
    let codes = collect_line_column(&m.lines, LineColumn::Code);
    let ghost lids = line_ids(m.lines@);
    let ghost lcodes = line_codes(m.lines@);
    let mut r: Vec<String> = Vec::new();
    let mut i: usize = 0;
    while i < ids.len()
        invariant
            i <= ids@.len(),
            texts(ids@) == lids,
            texts(codes@) == lcodes,
            ids@.len() == codes@.len(),
            texts(r@) == lines_with_code(lids.take(i as int), lcodes, texts(values@)),
        decreases ids@.len() - i,
    {
        assert(lids.take(i + 1).drop_last() =~= lids.take(i as int));
        assert(lids.take(i + 1).last() == ids@[i as int]@);
        if holds(values, &codes[i]) {
            r.push(ids[i].clone());
            assert(texts(r@) =~= lines_with_code(lids.take(i + 1), lcodes, texts(values@)));
        }
        i = i + 1;
    }
    assert(lids.take(ids@.len() as int) =~= lids);
    r
}

/// The identifiers selected by property `prop` of object type `t`.
pub fn resolve(m: &Model, t: ObjectType, prop: &String, values: &Vec<String>) -> (r: Result<
    Vec<String>,
    Error,
>)
    ensures
        match r {
            Ok(ids) => resolution(*m, t, prop@, texts(values@)) == Ok::<Seq<Seq<char>>, ErrorView>(texts(ids@)),
            Err(e) => resolution(*m, t, prop@, texts(values@)) == Err::<Seq<Seq<char>>, ErrorView>(e@),
        },
{
    match t {
        ObjectType::Operator => {
            if *prop != String::from_str("operator_id") {
                return Err(Error::UnsupportedProperty(ObjectType::Operator, prop.clone()));
            }
            let ids = collect_operator_ids(&m.operators);
            let ghost present = presence(operator_ids(m.operators@), texts(values@));
            proof { present.index_of_first_ensures(false); }
            let mut k: usize = 0;
            while k < values.len()
                invariant
                    k <= values@.len(),
                    t == ObjectType::Operator,
                    prop@ == "operator_id"@,
                    texts(ids@) == operator_ids(m.operators@),
                    present == presence(operator_ids(m.operators@), texts(values@)),
                    forall|j: int| 0 <= j < k ==> present[j],
                    match present.index_of_first(false) {
                        Some(index) => {
                            &&& 0 <= index < present.len()
                            &&& !present[index]
                            &&& forall|j: int| 0 <= j < index ==> present[j]
                        },
                        None => !present.contains(false),
                    },
                decreases values@.len() - k,
            {
                if !holds(&ids, &values[k]) {
                    assert(!present[k as int]);
                    assert(present.contains(false));
                    assert(present.index_of_first(false) == Some(k as int));
                    assert(texts(values@)[k as int] == values@[k as int]@);
                    return Err(Error::NotFound(ObjectType::Operator, values[k].clone()));
                }
                k = k + 1;
            }
            assert(!present.contains(false));
            Ok(copy_strings(values))
        },
        ObjectType::Line => {
            if *prop != String::from_str("line_code") {
                return Err(Error::UnsupportedProperty(ObjectType::Line, prop.clone()));
            }
            let found = find_lines_with_code(m, values);
            if found.len() == 0 {
                return Err(Error::EmptyMatch(prop.clone(), copy_strings(values)));
            }
            Ok(found)
        },
    }
}

/// Resolves every property of `props` in order; the last one decides.
pub fn resolve_all(m: &Model, t: ObjectType, props: &Vec<PropertyValues>) -> (r: Result<
    Vec<String>,
    Error,
>)
    ensures
        match r {
            Ok(ids) => resolve_properties(*m, t, property_views(props@)) == Ok::<Seq<Seq<char>>, ErrorView>(texts(ids@)),
            Err(e) => resolve_properties(*m, t, property_views(props@)) == Err::<Seq<Seq<char>>, ErrorView>(e@),
        },
{
    let ghost views = property_views(props@);
    let mut ids: Vec<String> = Vec::new();
    let mut j: usize = 0;
    assert(views.take(0) =~= Seq::<PropertyView>::empty());
    assert(texts(ids@) =~= Seq::<Seq<char>>::empty());
    while j < props.len()
        invariant
            j <= props@.len(),
            views == property_views(props@),
            resolve_properties(*m, t, views.take(j as int)) == Ok::<Seq<Seq<char>>, ErrorView>(texts(ids@)),
        decreases props@.len() - j,
    {
        assert(views.take(j + 1).drop_last() =~= views.take(j as int));
        assert(views.take(j + 1).last() == property_view(props@[j as int]));
        match resolve(m, t, &props[j].name, &props[j].values) {
            Ok(found) => {
                ids = found;
            },
            Err(e) => {
                proof { lemma_resolve_failure_stays(*m, t, views, j + 1); }
                return Err(e);
            },
        }
        j = j + 1;
    }
    assert(views.take(props@.len() as int) =~= views);
    Ok(ids)
}

/// `n` flags, none set.
fn vec_of_false(n: usize) -> (r: Vec<bool>)
    ensures
        r@ == Seq::new(n as nat, |i: int| false),
{
    let mut r: Vec<bool> = Vec::new();
    let mut i: usize = 0;
    while i < n
        invariant
            i <= n,
            r@.len() == i,
            forall|k: int| 0 <= k < i ==> !#[trigger] r@[k],
        decreases n - i,
    {
        r.push(false);
        i = i + 1;
    }
    assert(r@ =~= Seq::new(n as nat, |i: int| false));
    r
}

/// Extracts or removes operators and lines, and keeps the calendars and
/// vehicle journeys that what survives reaches.
pub fn filter(model: Model, f: Filter) -> (r: Result<Model, Error>)
    requires
        f.wf(),
    ensures
        match r {
            Ok(out) => filter_outcome(model, f@) matches Ok(s) && rebuilt_from(out, model, s),
            Err(e) => filter_outcome(model, f@) == Err::<Selection, ErrorView>(e@),
        },
        r matches Ok(out) ==> out.calendars@.len() > 0,
{
    let ghost entries = f@.entries;
    let mut pass = Pass {
        operators: None,
        lines: None,
        operator_lines: None,
        calendars: vec_of_false(model.calendars.len()),
        journeys: vec_of_false(model.vehicle_journeys.len()),
    };
    let mut i: usize = 0;
    assert(entries.take(0) =~= Seq::<EntryView>::empty());
    while i < f.filters.len()
        invariant
            i <= f.filters@.len(),
            entries == f@.entries,
            selection_of(model, f.action, entries.take(i as int)) == Ok::<Selection, ErrorView>(pass@),
            pass.operators matches Some(v) ==> v@.len() == model.operators@.len(),
            pass.lines matches Some(v) ==> v@.len() == model.lines@.len(),
            pass.operator_lines matches Some(v) ==> v@.len() == model.lines@.len(),
            pass.calendars@.len() == model.calendars@.len(),
            pass.journeys@.len() == model.vehicle_journeys@.len(),
        decreases f.filters@.len() - i,
    {
        let entry = &f.filters[i];
        let t = entry.object_type;
        assert(entries.take(i + 1).drop_last() =~= entries.take(i as int));
        assert(entries.take(i + 1).last() == entry_view(f.filters@[i as int]));
        let chosen = match resolve_all(&model, t, &entry.properties) {
            Ok(ids) => ids,
            Err(e) => {
                proof { lemma_selection_failure_stays(model, f.action, entries, i + 1); }
                return Err(e);
            },
        };
        let col = match t {
            ObjectType::Operator => collect_operator_ids(&model.operators),
            ObjectType::Line => collect_line_column(&model.lines, LineColumn::Id),
        };
        let kept = select(f.action, &chosen, &col);
        let (calendars, journeys, reached_lines) = cascade(&model, t, &kept);
        or_into(&mut pass.calendars, &calendars);
        or_into(&mut pass.journeys, &journeys);
        match t {
            ObjectType::Operator => {
                pass.operators = Some(kept);
                pass.operator_lines = Some(reached_lines);
            },
            ObjectType::Line => {
                pass.lines = Some(kept);
            },
        }
        assert(pass@ == step(model, f.action, selection_of(model, f.action, entries.take(i as int))->Ok_0, t, texts(chosen@)));
        i = i + 1;
    }
    assert(entries.take(f.filters@.len() as int) =~= entries);
    rebuild(&model, &pass)
}

} // verus!
