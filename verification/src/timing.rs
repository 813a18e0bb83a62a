//! Timing one search. What a clock reads depends on the machine and the
//! moment, so nothing is stated of the measured value; only the search that
//! is measured is itself verified.

use vstd::prelude::*;
use crate::matcher::find_words;
use crate::record::WordRecord;

verus! {

/// `std::time::Instant`, declared so that a clock reading can pass through
/// verified code; the value is opaque here.
#[verifier::external_type_specification]
#[verifier::external_body]
pub struct ExInstant(std::time::Instant);

/// Relies on `std::time::Instant::now`: an opaque reading of the monotonic
/// clock. Nothing can be promised of the value read.
#[verifier::external_body]
fn instant_now() -> std::time::Instant {
    std::time::Instant::now()
}

/// Relies on `std::time::Instant::elapsed`: the time since `start`, here
/// taken in nanoseconds. The value depends on the clock, so nothing is
/// promised of it.
#[verifier::external_body]
fn nanos_since(start: &std::time::Instant) -> u128 {
    start.elapsed().as_nanos()
}

/// How long one search of `records` for `search_text` takes, in
/// nanoseconds: `find_words` is run once on the given inputs and its result
/// is dropped. The value depends on the clock and the machine, so no
/// contract pins it down.
pub fn measure_search_time(search_text: &str, records: &Vec<WordRecord>) -> u128 {
    let start = instant_now();
    let _ = find_words(search_text, records);
    nanos_since(&start)
}

} // verus!
