use transit_model::model::{Calendar, Model};
use transit_model::netex_france::calendars::{CalendarExporter, ObjectType};

fn model() -> Model {
    Model {
        calendars: vec![
            Calendar { id: "C:1".to_string() },
            Calendar { id: "week".to_string() },
        ],
        ..Model::default()
    }
}

#[test]
fn generated_id_replaces_colons() {
    let m = model();
    let exporter = CalendarExporter::new(&m);
    assert_eq!(exporter.generate_id("a:b:c", ObjectType::DayType), "FR:DayType:a_b_c:");
    assert_eq!(exporter.generate_id("plain", ObjectType::DayType), "FR:DayType:plain:");
    assert_eq!(exporter.generate_id("", ObjectType::DayType), "FR:DayType::");
}

#[test]
fn one_day_type_per_calendar() {
    let m = model();
    let elements = CalendarExporter::new(&m).export().unwrap();
    assert_eq!(elements.len(), 2);
    assert_eq!(elements[0].name(), "DayType");
    assert_eq!(elements[0].attr("id"), Some("FR:DayType:C_1:"));
    assert_eq!(elements[0].attr("version"), Some("any"));
    assert_eq!(elements[1].attr("id"), Some("FR:DayType:week:"));
}

#[test]
fn no_calendar_no_day_type() {
    let m = Model::default();
    assert!(CalendarExporter::new(&m).export().unwrap().is_empty());
}
