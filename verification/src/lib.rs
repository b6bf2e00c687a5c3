//! Hourly air temperatures of a place, extracted from the open data of the Finnish
//! Meteorological Institute: the request that asks for them, and the single pass over the
//! answer that picks the temperature series out of it.

pub mod classify;
pub mod extract;
pub mod fmi;
pub mod number;
pub mod scan;
pub mod text;
pub mod time;
pub mod xml;
