//! Calendars exported as NeTEx France day types.

use vstd::prelude::*;
use vstd::string::StringExecFns;
use minidom::{Element, ElementBuilder};
use crate::error::Error;
use crate::model::{Calendar, Model};
use crate::text::{colons_to_underscores, replace_colons};

verus! {

#[verifier::external_type_specification]
#[verifier::external_body]
pub struct ExElement(minidom::Element);

#[verifier::external_type_specification]
#[verifier::external_body]
pub struct ExElementBuilder(minidom::ElementBuilder);

/// Relies on minidom's `Element::builder`: starts an element named `name`.
/// It panics on a name holding more than one `:`.
#[verifier::external_body]
fn element_builder(name: &str) -> (r: ElementBuilder)
    requires
        !name@.contains(':'),
{
    Element::builder(name)
}

/// Relies on minidom's `ElementBuilder::attr`: sets attribute `name`.
#[verifier::external_body]
fn with_attr(b: ElementBuilder, name: &str, value: String) -> (r: ElementBuilder) {
    b.attr(name, value)
}

/// Relies on minidom's `ElementBuilder::build`: the element built so far.
#[verifier::external_body]
fn build_element(b: ElementBuilder) -> (r: Element) {
    b.build()
}

/// The kinds of NeTEx objects an identifier is generated for.
#[derive(Debug, Clone, Copy, PartialEq, Eq)]
pub enum ObjectType {
    DayType,
}

impl ObjectType {
    pub open spec fn spec_name(self) -> Seq<char> {
        match self {
            ObjectType::DayType => "DayType"@,
        }
    }

    /// The NeTEx name of the kind.
    pub fn name(&self) -> (r: String)
        ensures
            r@ == self.spec_name(),
    {
        match self {
            ObjectType::DayType => String::from_str("DayType"),
        }
    }
}

/// Exports the calendars of a model.
pub struct CalendarExporter<'a> {
    pub model: &'a Model,
}

impl<'a> CalendarExporter<'a> {
    pub fn new(model: &'a Model) -> (r: Self)
        ensures
            r.model == model,
    {
        CalendarExporter { model }
    }

    /// One `DayType` element per calendar, in the order of the calendars.
    pub fn export(&self) -> (r: Result<Vec<Element>, Error>)
        ensures
            r matches Ok(v) && v@.len() == self.model.calendars@.len(),
    {
        let calendars = &self.model.calendars;
        let mut day_types: Vec<Element> = Vec::new();
        let mut i: usize = 0;
        while i < calendars.len()
            invariant
                i <= calendars@.len(),
                day_types@.len() == i,
            decreases calendars@.len() - i,
        {
            let day_type = match self.export_day_type(&calendars[i]) {
                Ok(e) => e,
                Err(e) => {
                    return Err(e);
                },
            };
            day_types.push(day_type);
            let _assignment = self.export_day_type_assignement(&calendars[i]);
            let _period = self.export_uic_operating_period(&calendars[i]);
            i = i + 1;
        }
        Ok(day_types)
    }

    fn export_day_type(&self, calendar: &Calendar) -> (r: Result<Element, Error>)
        ensures
            r is Ok,
    {
        proof { reveal_strlit("DayType"); }
        let id = self.generate_id(calendar.id.as_str(), ObjectType::DayType);
        let b = element_builder("DayType");
        let b = with_attr(b, "id", id);
        let b = with_attr(b, "version", String::from_str("any"));
        Ok(build_element(b))
    }

    fn export_day_type_assignement(&self, _calendar: &Calendar) -> (r: Result<Element, Error>)
        ensures
            r is Ok,
    {
        proof { reveal_strlit("DayTypeAssignment"); }
        Ok(build_element(element_builder("DayTypeAssignment")))
    }

    fn export_uic_operating_period(&self, _calendar: &Calendar) -> (r: Result<Element, Error>)
        ensures
            r is Ok,
    {
        proof { reveal_strlit("UicOperatingPeriod"); }
        Ok(build_element(element_builder("UicOperatingPeriod")))
    }

    /// `FR:<kind>:<id>:`, with every `:` of `id` turned into `_`.
    pub fn generate_id(&self, id: &str, object_type: ObjectType) -> (r: String)
        ensures
            r@ == "FR:"@ + object_type.spec_name() + ":"@ + colons_to_underscores(id@) + ":"@,
    {
        let replaced = replace_colons(id);
        let kind = object_type.name();
        let mut r = String::from_str("FR:");
        r.append(kind.as_str());
        r.append(":");
        r.append(replaced.as_str());
        r.append(":");
        r
    }
}

} // verus!
