//! Conversion of times of day between Paris notation (`14h30`, 24-hour clock)
//! and Pacific notation (`5:30AM`, 12-hour clock), nine hours apart.

pub mod convert;
pub mod cors;
pub mod pacific;
pub mod paris;
pub mod text;
pub mod time;
