//! Order of the statistics that steer the search.

pub mod rank;
