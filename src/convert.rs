use vstd::prelude::*;

use crate::pacific::{pacific_parse, pacific_text, pst_time_string_to_time, time_to_pst_time_string};
use crate::paris::{paris_parse, paris_text, paris_time_string_to_time, time_to_paris_time_string};
use crate::time::{add_delta, shifted};

verus! {

/// How many hours Pacific time is behind Paris time.
pub const PACIFIC_HOURS_BEHIND_PARIS: i32 = 9;

/// The two directions a time string can be converted in.
#[derive(Clone, Copy, Debug, PartialEq, Eq, Structural)]
pub enum ConversionType {
    ParisToPst,
    PstToParis,
}

/// What a refused time string converts to.
pub open spec fn invalid_time_text() -> Seq<char> {
    "InvalidTimeString"@
}

/// A Paris time string converted to Pacific notation.
pub open spec fn paris_to_pst_text(s: Seq<char>) -> Seq<char> {
    match paris_parse(s) {
        Ok(time) => pacific_text(shifted(time, -PACIFIC_HOURS_BEHIND_PARIS)),
        Err(_) => invalid_time_text(),
    }
}

/// A Pacific time string converted to Paris notation.
pub open spec fn pst_to_paris_text(s: Seq<char>) -> Seq<char> {
    match pacific_parse(s) {
        Ok(time) => paris_text(shifted(time, PACIFIC_HOURS_BEHIND_PARIS as int)),
        Err(_) => invalid_time_text(),
    }
}

fn invalid_time_string() -> (r: String)
    ensures
        r@ == invalid_time_text(),
{
    String::from_str("InvalidTimeString")
}

/// Converts a time in Paris notation to Pacific notation, nine hours earlier;
/// an input without a Paris time gives `InvalidTimeString`.
pub fn paris_to_pst_string(paris_time_string: &String) -> (r: String)
    ensures
        r@ == paris_to_pst_text(paris_time_string@),
{
    let paris_time_result = paris_time_string_to_time(paris_time_string);
    match paris_time_result {
        Ok(paris_time) => {
            let pst_time = add_delta(&paris_time, -PACIFIC_HOURS_BEHIND_PARIS);
            time_to_pst_time_string(&pst_time)
        },
        Err(_) => invalid_time_string(),
    }
}

/// Converts a time in Pacific notation to Paris notation, nine hours later;
/// an input without a Pacific time gives `InvalidTimeString`.
pub fn pst_to_paris_string(pst_time_string: &String) -> (r: String)
    ensures
        r@ == pst_to_paris_text(pst_time_string@),
{
    let pst_time_result = pst_time_string_to_time(pst_time_string);
    match pst_time_result {
        Ok(pst_time) => {
            let paris_time = add_delta(&pst_time, PACIFIC_HOURS_BEHIND_PARIS);
            time_to_paris_time_string(&paris_time)
        },
        Err(_) => invalid_time_string(),
    }
}

/// Converts a time string in the given direction.
pub fn convert(conversion_type: ConversionType, time_string: &String) -> (r: String)
    ensures
        r@ == match conversion_type {
            ConversionType::ParisToPst => paris_to_pst_text(time_string@),
            ConversionType::PstToParis => pst_to_paris_text(time_string@),
        },
{
    match conversion_type {
        ConversionType::ParisToPst => paris_to_pst_string(time_string),
        ConversionType::PstToParis => pst_to_paris_string(time_string),
    }
}

} // verus!
