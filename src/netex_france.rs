//! Export of the model towards NeTEx France.

pub mod calendars;
