use transit_model::error::Error;
use transit_model::model::{Calendar, Line, Model, Operator, StopTimeAttribute, VehicleJourney};
use transit_model::ntfs::cascade::{cascade, or_into};
use transit_model::ntfs::filter::{filter, Action, Filter, ObjectType};

fn operator(id: &str) -> Operator {
    Operator { id: id.to_string() }
}

fn line(id: &str, code: Option<&str>, operator_id: &str) -> Line {
    Line {
        id: id.to_string(),
        code: code.map(|c| c.to_string()),
        operator_id: operator_id.to_string(),
    }
}

fn calendar(id: &str) -> Calendar {
    Calendar { id: id.to_string() }
}

fn journey(id: &str, line_id: &str, calendar_id: &str) -> VehicleJourney {
    VehicleJourney {
        id: id.to_string(),
        line_id: line_id.to_string(),
        calendar_id: calendar_id.to_string(),
    }
}

fn attribute(vehicle_journey: usize, sequence: u32, value: &str) -> StopTimeAttribute {
    StopTimeAttribute { vehicle_journey, sequence, value: value.to_string() }
}

// O1 runs L1 and L3, O2 runs L2; C3 is used by both operators; O3 runs nothing.
fn network() -> Model {
    Model {
        operators: vec![operator("O1"), operator("O2"), operator("O3")],
        lines: vec![
            line("L1", Some("A"), "O1"),
            line("L2", Some("B"), "O2"),
            line("L3", None, "O1"),
        ],
        calendars: vec![calendar("C1"), calendar("C2"), calendar("C3")],
        vehicle_journeys: vec![
            journey("V1", "L1", "C1"),
            journey("V2", "L2", "C2"),
            journey("V3", "L3", "C1"),
            journey("V4", "L2", "C3"),
            journey("V5", "L1", "C3"),
        ],
        stop_time_ids: vec![attribute(0, 0, "st1"), attribute(1, 0, "st2")],
        stop_time_headsigns: vec![
            attribute(2, 1, "h3"),
            attribute(1, 2, "h2"),
            attribute(4, 0, "h5"),
            attribute(3, 7, "h4"),
        ],
        stop_time_comments: vec![attribute(4, 3, "c5"), attribute(9, 0, "stale")],
    }
}

fn ids<T>(items: &[T], id: fn(&T) -> &str) -> Vec<String> {
    items.iter().map(|i| id(i).to_string()).collect()
}

fn operator_ids(m: &Model) -> Vec<String> {
    ids(&m.operators, |o| &o.id)
}

fn line_ids(m: &Model) -> Vec<String> {
    ids(&m.lines, |l| &l.id)
}

fn calendar_ids(m: &Model) -> Vec<String> {
    ids(&m.calendars, |c| &c.id)
}

fn journey_ids(m: &Model) -> Vec<String> {
    ids(&m.vehicle_journeys, |v| &v.id)
}

fn one(action: Action, t: ObjectType, prop: &str, value: &str) -> Filter {
    let mut f = Filter::new(action);
    f.add(t, prop, value);
    f
}

#[test]
fn extract_operator_keeps_what_it_reaches() {
    let out = filter(network(), one(Action::Extract, ObjectType::Operator, "operator_id", "O1")).unwrap();
    assert_eq!(operator_ids(&out), vec!["O1"]);
    assert_eq!(journey_ids(&out), vec!["V1", "V3", "V5"]);
    assert_eq!(calendar_ids(&out), vec!["C1", "C3"]);
    assert_eq!(line_ids(&out), vec!["L1", "L3"]);
}

#[test]
fn remove_operator_keeps_the_complement() {
    let out = filter(network(), one(Action::Remove, ObjectType::Operator, "operator_id", "O1")).unwrap();
    assert_eq!(operator_ids(&out), vec!["O2", "O3"]);
    assert_eq!(line_ids(&out), vec!["L2"]);
    assert_eq!(journey_ids(&out), vec!["V2", "V4"]);
    // C1 is reached from O1 only; C3 from O2 as well.
    assert_eq!(calendar_ids(&out), vec!["C2", "C3"]);
}

#[test]
fn attributes_follow_their_journey() {
    let out = filter(network(), one(Action::Extract, ObjectType::Operator, "operator_id", "O1")).unwrap();
    assert_eq!(out.stop_time_ids, vec![attribute(0, 0, "st1")]);
    assert_eq!(out.stop_time_headsigns, vec![attribute(1, 1, "h3"), attribute(2, 0, "h5")]);
    assert_eq!(out.stop_time_comments, vec![attribute(2, 3, "c5")]);
    for table in [&out.stop_time_ids, &out.stop_time_headsigns, &out.stop_time_comments] {
        for a in table.iter() {
            assert!(a.vehicle_journey < out.vehicle_journeys.len());
        }
    }
}

#[test]
fn attributes_of_removed_journeys_are_dropped() {
    let out = filter(network(), one(Action::Remove, ObjectType::Operator, "operator_id", "O1")).unwrap();
    assert_eq!(journey_ids(&out), vec!["V2", "V4"]);
    assert_eq!(out.stop_time_ids, vec![attribute(0, 0, "st2")]);
    assert_eq!(out.stop_time_headsigns, vec![attribute(0, 2, "h2"), attribute(1, 7, "h4")]);
    assert!(out.stop_time_comments.is_empty());
}

#[test]
fn unsupported_property_is_refused() {
    let model = network();
    let before = model.clone();
    let r = filter(model.clone(), one(Action::Extract, ObjectType::Operator, "bogus", "x"));
    assert_eq!(r, Err(Error::UnsupportedProperty(ObjectType::Operator, "bogus".to_string())));
    assert_eq!(model, before);
    let r = filter(network(), one(Action::Extract, ObjectType::Line, "operator_id", "O1"));
    assert_eq!(r, Err(Error::UnsupportedProperty(ObjectType::Line, "operator_id".to_string())));
}

#[test]
fn missing_identifier_is_not_found() {
    let r = filter(network(), one(Action::Extract, ObjectType::Operator, "operator_id", "DOES_NOT_EXIST"));
    assert_eq!(r, Err(Error::NotFound(ObjectType::Operator, "DOES_NOT_EXIST".to_string())));
}

#[test]
fn first_missing_identifier_is_reported() {
    let mut f = one(Action::Extract, ObjectType::Operator, "operator_id", "O1");
    f.add(ObjectType::Operator, "operator_id", "X1");
    f.add(ObjectType::Operator, "operator_id", "X2");
    let r = filter(network(), f);
    assert_eq!(r, Err(Error::NotFound(ObjectType::Operator, "X1".to_string())));
}

#[test]
fn over_filtering_empties_the_model() {
    let r = filter(network(), one(Action::Extract, ObjectType::Operator, "operator_id", "O3"));
    assert_eq!(r, Err(Error::EmptyModel));
}

#[test]
fn selections_of_two_types_add_up() {
    let m = network();
    let (calendars_o1, journeys_o1, lines_o1) = cascade(&m, ObjectType::Operator, &vec![true, false, false]);
    let (calendars_b, journeys_b, lines_b) = cascade(&m, ObjectType::Line, &vec![false, true, false]);
    assert_eq!(lines_o1, vec![true, false, true]);
    assert_eq!(lines_b, vec![false, true, false]);
    assert_eq!(journeys_o1, vec![true, false, true, false, true]);
    assert_eq!(journeys_b, vec![false, true, false, true, false]);
    let mut journeys = journeys_o1.clone();
    or_into(&mut journeys, &journeys_b);
    assert_eq!(journeys, vec![true; 5]);
    let mut calendars = calendars_o1.clone();
    or_into(&mut calendars, &calendars_b);
    assert_eq!(calendars_o1, vec![true, false, true]);
    assert_eq!(calendars_b, vec![false, true, true]);
    assert_eq!(calendars, vec![true; 3]);
    // The union keeps line L2 without its operator O2: model construction refuses it.
    let mut f = one(Action::Extract, ObjectType::Operator, "operator_id", "O1");
    f.add(ObjectType::Line, "line_code", "B");
    let r = filter(network(), f);
    assert_eq!(r, Err(Error::ValidationFailed("line operator".to_string())));
}

#[test]
fn selections_of_two_types_are_unioned() {
    let mut f = one(Action::Remove, ObjectType::Operator, "operator_id", "O2");
    f.add(ObjectType::Line, "line_code", "B");
    let out = filter(network(), f).unwrap();
    assert_eq!(operator_ids(&out), vec!["O1", "O3"]);
    assert_eq!(line_ids(&out), vec!["L1", "L3"]);
    assert_eq!(journey_ids(&out), vec!["V1", "V3", "V5"]);
    assert_eq!(calendar_ids(&out), vec!["C1", "C3"]);
}

#[test]
fn journey_on_an_absent_calendar_fails_validation() {
    let mut model = network();
    model.vehicle_journeys.push(journey("V6", "L1", "C9"));
    let r = filter(model, one(Action::Extract, ObjectType::Operator, "operator_id", "O1"));
    assert_eq!(r, Err(Error::ValidationFailed("vehicle journey calendar".to_string())));
}

#[test]
fn line_of_an_absent_operator_fails_validation() {
    let mut model = network();
    model.lines.push(line("L4", Some("A"), "O9"));
    let r = filter(model, one(Action::Extract, ObjectType::Line, "line_code", "A"));
    assert_eq!(r, Err(Error::ValidationFailed("line operator".to_string())));
}

#[test]
fn unmatched_line_code_is_an_empty_match() {
    let r = filter(network(), one(Action::Extract, ObjectType::Line, "line_code", "ZZZ"));
    assert_eq!(r, Err(Error::EmptyMatch("line_code".to_string(), vec!["ZZZ".to_string()])));
}

#[test]
fn absent_code_matches_the_empty_string() {
    let out = filter(network(), one(Action::Extract, ObjectType::Line, "line_code", "")).unwrap();
    assert_eq!(line_ids(&out), vec!["L3"]);
    assert_eq!(journey_ids(&out), vec!["V3"]);
    assert_eq!(calendar_ids(&out), vec!["C1"]);
}

#[test]
fn line_codes_are_case_sensitive() {
    let r = filter(network(), one(Action::Extract, ObjectType::Line, "line_code", "a"));
    assert_eq!(r, Err(Error::EmptyMatch("line_code".to_string(), vec!["a".to_string()])));
}

#[test]
fn remove_lines_keeps_the_others() {
    let out = filter(network(), one(Action::Remove, ObjectType::Line, "line_code", "A")).unwrap();
    assert_eq!(line_ids(&out), vec!["L2", "L3"]);
    assert_eq!(journey_ids(&out), vec!["V2", "V3", "V4"]);
    assert_eq!(calendar_ids(&out), vec!["C1", "C2", "C3"]);
    assert_eq!(operator_ids(&out), vec!["O1", "O2", "O3"]);
    assert_eq!(out.stop_time_headsigns, vec![attribute(1, 1, "h3"), attribute(0, 2, "h2"), attribute(2, 7, "h4")]);
}

#[test]
fn values_of_one_property_accumulate() {
    let mut f = one(Action::Extract, ObjectType::Line, "line_code", "A");
    f.add(ObjectType::Line, "line_code", "B");
    f.add(ObjectType::Line, "line_code", "A");
    assert_eq!(f.filters.len(), 1);
    assert_eq!(f.filters[0].properties.len(), 1);
    assert_eq!(f.filters[0].properties[0].values, vec!["A".to_string(), "B".to_string()]);
    let out = filter(network(), f).unwrap();
    assert_eq!(line_ids(&out), vec!["L1", "L2"]);
}

#[test]
fn last_property_decides_and_errors_stop() {
    let mut f = one(Action::Extract, ObjectType::Operator, "operator_id", "O1");
    f.add(ObjectType::Operator, "bogus", "x");
    assert_eq!(f.filters[0].properties.len(), 2);
    let r = filter(network(), f);
    assert_eq!(r, Err(Error::UnsupportedProperty(ObjectType::Operator, "bogus".to_string())));
}

#[test]
fn duplicated_identifiers_fail_validation() {
    let mut model = network();
    model.calendars.push(calendar("C1"));
    let r = filter(model, one(Action::Extract, ObjectType::Operator, "operator_id", "O1"));
    assert_eq!(r, Err(Error::ValidationFailed("calendars".to_string())));
}

#[test]
fn empty_filter_keeps_no_service() {
    let r = filter(network(), Filter::new(Action::Extract));
    assert_eq!(r, Err(Error::EmptyModel));
}
