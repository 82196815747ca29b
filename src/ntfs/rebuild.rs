//! Compaction of the collections after a selection, and remapping of the
//! tables keyed by vehicle-journey positions.

use vstd::prelude::*;
use vstd::string::StringExecFns;
use crate::error::{Error, ErrorView};
use crate::model::{
    calendar_ids, collect_calendar_ids, collect_journey_column, collect_line_column,
    collect_operator_ids, distinct, journey_calendar_ids, journey_ids, journey_line_ids,
    line_ids, line_operator_ids, operator_ids, Calendar, JourneyColumn, Line, LineColumn, Model,
    Operator, StopTimeAttribute, VehicleJourney,
};
use crate::ntfs::cascade::holds;
use crate::text::texts;

verus! {

/// A value that can be duplicated field by field.
pub trait Entity: Sized {
    fn copy(&self) -> (r: Self)
        ensures
            r == *self,
    ;
}

impl Entity for Operator {
    fn copy(&self) -> (r: Self) {
        Operator::copy(self)
    }
}

impl Entity for Line {
    fn copy(&self) -> (r: Self) {
        Line::copy(self)
    }
}

impl Entity for Calendar {
    fn copy(&self) -> (r: Self) {
        Calendar::copy(self)
    }
}

impl Entity for VehicleJourney {
    fn copy(&self) -> (r: Self) {
        VehicleJourney::copy(self)
    }
}

/// The elements of `s` whose flag is set, in their order.
pub open spec fn keep_where<T>(s: Seq<T>, flags: Seq<bool>) -> Seq<T>
    decreases s.len(),
{
    if s.len() == 0 {
        Seq::empty()
    } else {
        let p = keep_where(s.drop_last(), flags);
        if flags[s.len() - 1] {
            p.push(s.last())
        } else {
            p
        }
    }
}

/// `s` filtered by `flags` when there are flags, else `s` itself.
pub open spec fn kept_or_all<T>(s: Seq<T>, flags: Option<Seq<bool>>) -> Seq<T> {
    match flags {
        Some(f) => keep_where(s, f),
        None => s,
    }
}

/// The entry moved to the new position of its vehicle journey, found by
/// identifier; none when that journey is gone.
pub open spec fn remap_one(
    old_ids: Seq<Seq<char>>,
    new_ids: Seq<Seq<char>>,
    a: StopTimeAttribute,
) -> Option<StopTimeAttribute> {
    if a.vehicle_journey < old_ids.len() {
        match new_ids.index_of_first(old_ids[a.vehicle_journey as int]) {
            Some(k) => Some(
                StopTimeAttribute { vehicle_journey: k as usize, sequence: a.sequence, value: a.value },
            ),
            None => None,
        }
    } else {
        None
    }
}

/// Every entry of `attrs` remapped, those whose journey is gone left out.
pub open spec fn remap(
    old_ids: Seq<Seq<char>>,
    new_ids: Seq<Seq<char>>,
    attrs: Seq<StopTimeAttribute>,
) -> Seq<StopTimeAttribute>
    decreases attrs.len(),
{
    if attrs.len() == 0 {
        Seq::empty()
    } else {
        let p = remap(old_ids, new_ids, attrs.drop_last());
        match remap_one(old_ids, new_ids, attrs.last()) {
            Some(e) => p.push(e),
            None => p,
        }
    }
}

/// What survives a selection: per processed top-level type, a flag per
/// position; the lines run by the kept operators, when operators were
/// processed; per calendar and per vehicle journey, whether it is reached.
pub struct Selection {
    pub operators: Option<Seq<bool>>,
    pub lines: Option<Seq<bool>>,
    pub operator_lines: Option<Seq<bool>>,
    pub calendars: Seq<bool>,
    pub journeys: Seq<bool>,
}

/// The lines kept: those of the line predicate when there is one, else
/// those run by the kept operators when operators were processed.
pub open spec fn line_flags(s: Selection) -> Option<Seq<bool>> {
    match s.lines {
        Some(f) => Some(f),
        None => s.operator_lines,
    }
}

/// The flags of a selection cover the collections of `m`.
pub open spec fn fits(m: Model, s: Selection) -> bool {
    &&& (s.operators matches Some(f) ==> f.len() == m.operators@.len())
    &&& (s.lines matches Some(f) ==> f.len() == m.lines@.len())
    &&& (s.operator_lines matches Some(f) ==> f.len() == m.lines@.len())
    &&& s.calendars.len() == m.calendars@.len()
    &&& s.journeys.len() == m.vehicle_journeys@.len()
}

/// `out` holds the collections of `m` compacted by `s`, and its attribute
/// tables remapped onto the compacted vehicle journeys.
pub open spec fn rebuilt_from(out: Model, m: Model, s: Selection) -> bool {
    let old_ids = journey_ids(m.vehicle_journeys@);
    let new_ids = journey_ids(out.vehicle_journeys@);
    &&& out.operators@ == kept_or_all(m.operators@, s.operators)
    &&& out.lines@ == kept_or_all(m.lines@, line_flags(s))
    &&& out.calendars@ == keep_where(m.calendars@, s.calendars)
    &&& out.vehicle_journeys@ == keep_where(m.vehicle_journeys@, s.journeys)
    &&& out.stop_time_ids@ == remap(old_ids, new_ids, m.stop_time_ids@)
    &&& out.stop_time_headsigns@ == remap(old_ids, new_ids, m.stop_time_headsigns@)
    &&& out.stop_time_comments@ == remap(old_ids, new_ids, m.stop_time_comments@)
}

/// Every key is one of `ids`.
pub open spec fn all_in(keys: Seq<Seq<char>>, ids: Seq<Seq<char>>) -> bool {
    forall|k: int| 0 <= k < keys.len() ==> ids.contains(#[trigger] keys[k])
}

/// Why model construction rejects these collections, if it does: first an
/// identifier that occurs twice (operators, lines, calendars, vehicle
/// journeys), then a reference to an absent entity (a line's operator, a
/// vehicle journey's line, a vehicle journey's calendar).
pub open spec fn validation_failure(
    operators: Seq<Operator>,
    lines: Seq<Line>,
    calendars: Seq<Calendar>,
    journeys: Seq<VehicleJourney>,
) -> Option<Seq<char>> {
    if !distinct(operator_ids(operators)) {
        Some("operators"@)
    } else if !distinct(line_ids(lines)) {
        Some("lines"@)
    } else if !distinct(calendar_ids(calendars)) {
        Some("calendars"@)
    } else if !distinct(journey_ids(journeys)) {
        Some("vehicle_journeys"@)
    } else if !all_in(line_operator_ids(lines), operator_ids(operators)) {
        Some("line operator"@)
    } else if !all_in(journey_line_ids(journeys), line_ids(lines)) {
        Some("vehicle journey line"@)
    } else if !all_in(journey_calendar_ids(journeys), calendar_ids(calendars)) {
        Some("vehicle journey calendar"@)
    } else {
        None
    }
}

/// Why rebuilding `m` by `s` fails, if it does: no calendar left, or
/// rebuilt collections that model construction rejects.
pub open spec fn rebuild_error(m: Model, s: Selection) -> Option<ErrorView> {
    if keep_where(m.calendars@, s.calendars).len() == 0 {
        Some(ErrorView::EmptyModel)
    } else {
        match validation_failure(
            kept_or_all(m.operators@, s.operators),
            kept_or_all(m.lines@, line_flags(s)),
            keep_where(m.calendars@, s.calendars),
            keep_where(m.vehicle_journeys@, s.journeys),
        ) {
            Some(c) => Some(ErrorView::ValidationFailed(c)),
            None => None,
        }
    }
}

/// The elements of `s` whose flag is set, in their order.
pub fn compact<T: Entity>(s: &Vec<T>, flags: &Vec<bool>) -> (r: Vec<T>)
    requires
        s@.len() == flags@.len(),
    ensures
        r@ == keep_where(s@, flags@),
{
    let mut r: Vec<T> = Vec::new();
    let mut i: usize = 0;
    while i < s.len()
        invariant
            i <= s@.len(),
            s@.len() == flags@.len(),
            r@ == keep_where(s@.take(i as int), flags@),
        decreases s@.len() - i,
    {
        assert(s@.take(i + 1).drop_last() =~= s@.take(i as int));
        if flags[i] {
            r.push(s[i].copy());
        }
        i = i + 1;
    }
    assert(s@.take(s@.len() as int) =~= s@);
    r
}

/// `s` filtered by `flags` when there are flags, else a copy of `s`.
pub fn compact_optional<T: Entity>(s: &Vec<T>, flags: &Option<Vec<bool>>) -> (r: Vec<T>)
    requires
        flags matches Some(f) ==> f@.len() == s@.len(),
    ensures
        r@ == kept_or_all(s@, match flags { Some(f) => Some(f@), None => None }),
{
    match flags {
        Some(f) => compact(s, f),
        None => {
            let all = vec_of_true(s.len());
            let r = compact(s, &all);
            proof { lemma_keep_all(s@, all@); }
            r
        },
    }
}

/// `n` flags, all set.
fn vec_of_true(n: usize) -> (r: Vec<bool>)
    ensures
        r@.len() == n,
        forall|i: int| 0 <= i < n ==> #[trigger] r@[i],
{
    let mut r: Vec<bool> = Vec::new();
    let mut i: usize = 0;
    while i < n
        invariant
            i <= n,
            r@.len() == i,
            forall|k: int| 0 <= k < i ==> #[trigger] r@[k],
        decreases n - i,
    {
        r.push(true);
        i = i + 1;
    }
    r
}

/// With every flag set, nothing is dropped.
pub proof fn lemma_keep_all<T>(s: Seq<T>, f: Seq<bool>)
    requires
        f.len() >= s.len(),
        forall|i: int| 0 <= i < s.len() ==> #[trigger] f[i],
    ensures
        keep_where(s, f) == s,
    decreases s.len(),
{
    if s.len() > 0 {
        lemma_keep_all(s.drop_last(), f);
        assert(s.drop_last().push(s.last()) =~= s);
    }
}

/// The first position of `key` in `ids`.
pub fn position_of(ids: &Vec<String>, key: &String) -> (r: Option<usize>)
    ensures
        match r {
            Some(k) => texts(ids@).index_of_first(key@) == Some(k as int),
            None => texts(ids@).index_of_first(key@) is None,
        },
{
    proof { texts(ids@).index_of_first_ensures(key@); }
    let ghost first = texts(ids@).index_of_first(key@);
    let mut i: usize = 0;
    while i < ids.len()
        invariant
            i <= ids@.len(),
            forall|k: int| 0 <= k < i ==> texts(ids@)[k] != key@,
            first == texts(ids@).index_of_first(key@),
            match first {
                Some(index) => {
                    &&& 0 <= index < ids@.len()
                    &&& texts(ids@)[index] == key@
                    &&& forall|j: int| 0 <= j < index ==> texts(ids@)[j] != key@
                },
                None => !texts(ids@).contains(key@),
            },
        decreases ids@.len() - i,
    {
        if ids[i] == *key {
            assert(texts(ids@)[i as int] == key@);
            return Some(i);
        }
        i = i + 1;
    }
    None
}

impl StopTimeAttribute {
    pub fn copy(&self) -> (r: StopTimeAttribute)
        ensures
            r == *self,
    {
        StopTimeAttribute {
            vehicle_journey: self.vehicle_journey,
            sequence: self.sequence,
            value: self.value.clone(),
        }
    }
}

/// The entries of `attrs` moved from positions among `old_ids` to the
/// positions of the same identifiers among `new_ids`; entries whose journey
/// is absent from `new_ids` are dropped.
pub fn remap_attributes(
    old_ids: &Vec<String>,
    new_ids: &Vec<String>,
    attrs: &Vec<StopTimeAttribute>,
) -> (r: Vec<StopTimeAttribute>)
    ensures
        r@ == remap(texts(old_ids@), texts(new_ids@), attrs@),
{
    let mut r: Vec<StopTimeAttribute> = Vec::new();
    let mut i: usize = 0;
    while i < attrs.len()
        invariant
            i <= attrs@.len(),
            r@ == remap(texts(old_ids@), texts(new_ids@), attrs@.take(i as int)),
        decreases attrs@.len() - i,
    {
        assert(attrs@.take(i + 1).drop_last() =~= attrs@.take(i as int));
        let a = &attrs[i];
        if a.vehicle_journey < old_ids.len() {
            match position_of(new_ids, &old_ids[a.vehicle_journey]) {
                Some(k) => {
                    r.push(
                        StopTimeAttribute {
                            vehicle_journey: k,
                            sequence: a.sequence,
                            value: a.value.clone(),
                        },
                    );
                },
                None => {},
            }
        }
        i = i + 1;
    }
    assert(attrs@.take(attrs@.len() as int) =~= attrs@);
    r
}

/// Whether some identifier occurs twice in `ids`.
pub fn has_duplicates(ids: &Vec<String>) -> (r: bool)
    ensures
        r == !distinct(texts(ids@)),
{
    let mut i: usize = 0;
    while i < ids.len()
        invariant
            i <= ids@.len(),
            forall|a: int, b: int| 0 <= a < b < ids@.len() && a < i ==> ids@[a]@ != ids@[b]@,
        decreases ids@.len() - i,
    {
        let mut j: usize = i + 1;
        while j < ids.len()
            invariant
                i < ids@.len(),
                i < j <= ids@.len(),
                forall|a: int, b: int| 0 <= a < b < ids@.len() && a < i ==> ids@[a]@ != ids@[b]@,
                forall|b: int| i < b < j ==> ids@[i as int]@ != ids@[b]@,
            decreases ids@.len() - j,
        {
            if ids[i] == ids[j] {
                assert(texts(ids@)[i as int] == texts(ids@)[j as int]);
                return true;
            }
            j = j + 1;
        }
        i = i + 1;
    }
    assert(distinct(texts(ids@)));
    false
}

/// The exact counterpart of [`Selection`].
pub struct Pass {
    pub operators: Option<Vec<bool>>,
    pub lines: Option<Vec<bool>>,
    pub operator_lines: Option<Vec<bool>>,
    pub calendars: Vec<bool>,
    pub journeys: Vec<bool>,
}

impl View for Pass {
    type V = Selection;

    open spec fn view(&self) -> Selection {
        Selection {
            operators: match self.operators {
                Some(f) => Some(f@),
                None => None,
            },
            lines: match self.lines {
                Some(f) => Some(f@),
                None => None,
            },
            operator_lines: match self.operator_lines {
                Some(f) => Some(f@),
                None => None,
            },
            calendars: self.calendars@,
            journeys: self.journeys@,
        }
    }
}

/// Compacts the collections of `m` by `p`, remaps its attribute tables, and
/// validates the result.
pub fn rebuild(m: &Model, p: &Pass) -> (r: Result<Model, Error>)
    requires
        fits(*m, p@),
    ensures
        match r {
            Ok(out) => rebuild_error(*m, p@) is None && rebuilt_from(out, *m, p@),
            Err(e) => rebuild_error(*m, p@) == Some(e@),
        },
{
    let operators = compact_optional(&m.operators, &p.operators);
    let lines = match &p.lines {
        Some(_) => compact_optional(&m.lines, &p.lines),
        None => compact_optional(&m.lines, &p.operator_lines),
    };
    let calendars = compact(&m.calendars, &p.calendars);
    let vehicle_journeys = compact(&m.vehicle_journeys, &p.journeys);
    let old_ids = collect_journey_column(&m.vehicle_journeys, JourneyColumn::Id);
    let new_ids = collect_journey_column(&vehicle_journeys, JourneyColumn::Id);
    let stop_time_ids = remap_attributes(&old_ids, &new_ids, &m.stop_time_ids);
    let stop_time_headsigns = remap_attributes(&old_ids, &new_ids, &m.stop_time_headsigns);
    let stop_time_comments = remap_attributes(&old_ids, &new_ids, &m.stop_time_comments);
    if calendars.len() == 0 {
        return Err(Error::EmptyModel);
    }
    let out = Model {
        operators,
        lines,
        calendars,
        vehicle_journeys,
        stop_time_ids,
        stop_time_headsigns,
        stop_time_comments,
    };
    match validate(&out) {
        Some(cause) => Err(Error::ValidationFailed(cause)),
        None => Ok(out),
    }
}

/// Whether every key is one of `ids`.
pub fn all_present(keys: &Vec<String>, ids: &Vec<String>) -> (r: bool)
    ensures
        r == all_in(texts(keys@), texts(ids@)),
{
    let mut k: usize = 0;
    while k < keys.len()
        invariant
            k <= keys@.len(),
            forall|j: int| 0 <= j < k ==> texts(ids@).contains(#[trigger] texts(keys@)[j]),
        decreases keys@.len() - k,
    {
        if !holds(ids, &keys[k]) {
            assert(!texts(ids@).contains(texts(keys@)[k as int]));
            return false;
        }
        k = k + 1;
    }
    true
}

/// Why model construction rejects the collections of `m`, if it does.
pub fn validate(m: &Model) -> (r: Option<String>)
    ensures
        match r {
            Some(c) => validation_failure(
                m.operators@,
                m.lines@,
                m.calendars@,
                m.vehicle_journeys@,
            ) == Some(c@),
            None => validation_failure(
                m.operators@,
                m.lines@,
                m.calendars@,
                m.vehicle_journeys@,
            ) is None,
        },
{
    let operator_col = collect_operator_ids(&m.operators);
    let line_col = collect_line_column(&m.lines, LineColumn::Id);
    let calendar_col = collect_calendar_ids(&m.calendars);
    let journey_col = collect_journey_column(&m.vehicle_journeys, JourneyColumn::Id);
    if has_duplicates(&operator_col) {
        return Some(String::from_str("operators"));
    }
    if has_duplicates(&line_col) {
        return Some(String::from_str("lines"));
    }
    if has_duplicates(&calendar_col) {
        return Some(String::from_str("calendars"));
    }
    if has_duplicates(&journey_col) {
        return Some(String::from_str("vehicle_journeys"));
    }
    if !all_present(&collect_line_column(&m.lines, LineColumn::OperatorId), &operator_col) {
        return Some(String::from_str("line operator"));
    }
    if !all_present(
        &collect_journey_column(&m.vehicle_journeys, JourneyColumn::LineId),
        &line_col,
    ) {
        return Some(String::from_str("vehicle journey line"));
    }
    if !all_present(
        &collect_journey_column(&m.vehicle_journeys, JourneyColumn::CalendarId),
        &calendar_col,
    ) {
        return Some(String::from_str("vehicle journey calendar"));
    }
    None
}

} // verus!
