//! The transit model: one collection per entity type, and the attribute
//! tables keyed by a vehicle journey's position.

use vstd::prelude::*;
use crate::text::texts;

verus! {

/// An entity owning one or more lines.
#[derive(Debug, Clone, PartialEq, Eq)]
pub struct Operator {
    pub id: String,
}

/// A named transit route, optionally carrying a short code.
#[derive(Debug, Clone, PartialEq, Eq)]
pub struct Line {
    pub id: String,
    pub code: Option<String>,
    /// Identifier of the operator offering the line.
    pub operator_id: String,
}

/// A service-validity pattern shared by vehicle journeys.
#[derive(Debug, Clone, PartialEq, Eq)]
pub struct Calendar {
    pub id: String,
}

/// A single scheduled trip.
#[derive(Debug, Clone, PartialEq, Eq)]
pub struct VehicleJourney {
    pub id: String,
    /// Identifier of the line the trip runs on.
    pub line_id: String,
    /// Identifier of the calendar the trip runs on.
    pub calendar_id: String,
}

/// One entry of a table keyed by (vehicle journey position, stop sequence).
#[derive(Debug, Clone, PartialEq, Eq)]
pub struct StopTimeAttribute {
    /// Position of the vehicle journey in its collection.
    pub vehicle_journey: usize,
    pub sequence: u32,
    pub value: String,
}

/// A snapshot of a transit network.
#[derive(Debug, Clone, PartialEq, Eq, Default)]
pub struct Model {
    pub operators: Vec<Operator>,
    pub lines: Vec<Line>,
    pub calendars: Vec<Calendar>,
    pub vehicle_journeys: Vec<VehicleJourney>,
    /// Stop-time identifier overrides.
    pub stop_time_ids: Vec<StopTimeAttribute>,
    /// Stop-time headsigns.
    pub stop_time_headsigns: Vec<StopTimeAttribute>,
    /// Stop-time comment references.
    pub stop_time_comments: Vec<StopTimeAttribute>,
}

/// The code of a line, empty when the line has none.
pub open spec fn code_of(l: Line) -> Seq<char> {
    match l.code {
        Some(c) => c@,
        None => Seq::empty(),
    }
}

pub open spec fn operator_ids(s: Seq<Operator>) -> Seq<Seq<char>> {
    s.map_values(|o: Operator| o.id@)
}

pub open spec fn line_ids(s: Seq<Line>) -> Seq<Seq<char>> {
    s.map_values(|l: Line| l.id@)
}

pub open spec fn line_codes(s: Seq<Line>) -> Seq<Seq<char>> {
    s.map_values(|l: Line| code_of(l))
}

pub open spec fn line_operator_ids(s: Seq<Line>) -> Seq<Seq<char>> {
    s.map_values(|l: Line| l.operator_id@)
}

pub open spec fn calendar_ids(s: Seq<Calendar>) -> Seq<Seq<char>> {
    s.map_values(|c: Calendar| c.id@)
}

pub open spec fn journey_ids(s: Seq<VehicleJourney>) -> Seq<Seq<char>> {
    s.map_values(|v: VehicleJourney| v.id@)
}

pub open spec fn journey_line_ids(s: Seq<VehicleJourney>) -> Seq<Seq<char>> {
    s.map_values(|v: VehicleJourney| v.line_id@)
}

pub open spec fn journey_calendar_ids(s: Seq<VehicleJourney>) -> Seq<Seq<char>> {
    s.map_values(|v: VehicleJourney| v.calendar_id@)
}

/// No identifier occurs twice.
pub open spec fn distinct(s: Seq<Seq<char>>) -> bool {
    forall|i: int, j: int| 0 <= i < j < s.len() ==> s[i] != s[j]
}

impl Operator {
    pub fn copy(&self) -> (r: Operator)
        ensures
            r == *self,
    {
        Operator { id: self.id.clone() }
    }
}

impl Line {
    pub fn copy(&self) -> (r: Line)
        ensures
            r == *self,
    {
        let code = match &self.code {
            Some(c) => Some(c.clone()),
            None => None,
        };
        Line { id: self.id.clone(), code, operator_id: self.operator_id.clone() }
    }

    /// The code of the line, empty when it has none.
    pub fn code_or_empty(&self) -> (r: String)
        ensures
            r@ == code_of(*self),
    {
        match &self.code {
            Some(c) => c.clone(),
            None => String::new(),
        }
    }
}

impl Calendar {
    pub fn copy(&self) -> (r: Calendar)
        ensures
            r == *self,
    {
        Calendar { id: self.id.clone() }
    }
}

impl VehicleJourney {
    pub fn copy(&self) -> (r: VehicleJourney)
        ensures
            r == *self,
    {
        VehicleJourney {
            id: self.id.clone(),
            line_id: self.line_id.clone(),
            calendar_id: self.calendar_id.clone(),
        }
    }
}

/// Identifiers of the operators, position by position.
pub fn collect_operator_ids(s: &Vec<Operator>) -> (r: Vec<String>)
    ensures
        r@.len() == s@.len(),
        texts(r@) == operator_ids(s@),
{
    let mut r: Vec<String> = Vec::new();
    let mut i: usize = 0;
    while i < s.len()
        invariant
            i <= s@.len(),
            r@.len() == i,
            forall|k: int| 0 <= k < i ==> #[trigger] r@[k]@ == operator_ids(s@)[k],
        decreases s@.len() - i,
    {
        r.push(s[i].id.clone());
        i = i + 1;
    }
    assert(texts(r@) =~= operator_ids(s@));
    r
}

/// One column of the lines, position by position.
pub enum LineColumn {
    Id,
    Code,
    OperatorId,
}

pub open spec fn line_column(s: Seq<Line>, c: LineColumn) -> Seq<Seq<char>> {
    match c {
        LineColumn::Id => line_ids(s),
        LineColumn::Code => line_codes(s),
        LineColumn::OperatorId => line_operator_ids(s),
    }
}

pub fn collect_line_column(s: &Vec<Line>, c: LineColumn) -> (r: Vec<String>)
    ensures
        r@.len() == s@.len(),
        texts(r@) == line_column(s@, c),
{
    let mut r: Vec<String> = Vec::new();
    let mut i: usize = 0;
    while i < s.len()
        invariant
            i <= s@.len(),
            r@.len() == i,
            forall|k: int| 0 <= k < i ==> #[trigger] r@[k]@ == line_column(s@, c)[k],
        decreases s@.len() - i,
    {
        let v = match c {
            LineColumn::Id => s[i].id.clone(),
            LineColumn::Code => s[i].code_or_empty(),
            LineColumn::OperatorId => s[i].operator_id.clone(),
        };
        r.push(v);
        i = i + 1;
    }
    assert(texts(r@) =~= line_column(s@, c));
    r
}

/// Identifiers of the calendars, position by position.
pub fn collect_calendar_ids(s: &Vec<Calendar>) -> (r: Vec<String>)
    ensures
        r@.len() == s@.len(),
        texts(r@) == calendar_ids(s@),
{
    let mut r: Vec<String> = Vec::new();
    let mut i: usize = 0;
    while i < s.len()
        invariant
            i <= s@.len(),
            r@.len() == i,
            forall|k: int| 0 <= k < i ==> #[trigger] r@[k]@ == calendar_ids(s@)[k],
        decreases s@.len() - i,
    {
        r.push(s[i].id.clone());
        i = i + 1;
    }
    assert(texts(r@) =~= calendar_ids(s@));
    r
}

/// One column of the vehicle journeys, position by position.
pub enum JourneyColumn {
    Id,
    LineId,
    CalendarId,
}

pub open spec fn journey_column(s: Seq<VehicleJourney>, c: JourneyColumn) -> Seq<Seq<char>> {
    match c {
        JourneyColumn::Id => journey_ids(s),
        JourneyColumn::LineId => journey_line_ids(s),
        JourneyColumn::CalendarId => journey_calendar_ids(s),
    }
}

pub fn collect_journey_column(s: &Vec<VehicleJourney>, c: JourneyColumn) -> (r: Vec<String>)
    ensures
        r@.len() == s@.len(),
        texts(r@) == journey_column(s@, c),
{
    let mut r: Vec<String> = Vec::new();
    let mut i: usize = 0;
    while i < s.len()
        invariant
            i <= s@.len(),
            r@.len() == i,
            forall|k: int| 0 <= k < i ==> #[trigger] r@[k]@ == journey_column(s@, c)[k],
        decreases s@.len() - i,
    {
        let v = match c {
            JourneyColumn::Id => s[i].id.clone(),
            JourneyColumn::LineId => s[i].line_id.clone(),
            JourneyColumn::CalendarId => s[i].calendar_id.clone(),
        };
        r.push(v);
        i = i + 1;
    }
    assert(texts(r@) =~= journey_column(s@, c));
    r
}

} // verus!
