//! Small pure helpers behind the statistics display.

use vstd::prelude::*;

use crate::textobj::str_eq;

verus! {

/// The weekday name for a day number as the statistics queries
/// report it: `"0"` is Sunday through `"6"` for Saturday; anything
/// else is invalid.
pub open spec fn day_name(num: Seq<char>) -> Seq<char> {
    if num == "0"@ {
        "Sunday"@
    } else if num == "1"@ {
        "Monday"@
    } else if num == "2"@ {
        "Tuesday"@
    } else if num == "3"@ {
        "Wednesday"@
    } else if num == "4"@ {
        "Thursday"@
    } else if num == "5"@ {
        "Friday"@
    } else if num == "6"@ {
        "Saturday"@
    } else {
        "Invalid day"@
    }
}

/// Turns a day number into its weekday name.
pub fn num_to_day(num: &str) -> (r: String)
    ensures
        r@ == day_name(num@),
{
    if str_eq(num, "0") {
        String::from_str("Sunday")
    } else if str_eq(num, "1") {
        String::from_str("Monday")
    } else if str_eq(num, "2") {
        String::from_str("Tuesday")
    } else if str_eq(num, "3") {
        String::from_str("Wednesday")
    } else if str_eq(num, "4") {
        String::from_str("Thursday")
    } else if str_eq(num, "5") {
        String::from_str("Friday")
    } else if str_eq(num, "6") {
        String::from_str("Saturday")
    } else {
        String::from_str("Invalid day")
    }
}

} // verus!
