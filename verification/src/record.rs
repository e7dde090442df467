//! The immutable quotation record that the corpus supplies: a clock time, the
//! context phrase that names that time, the quotation it occurs in, and the
//! attribution strings.

use vstd::prelude::*;
use crate::clock::valid_time;

verus! {

/// One corpus entry. The loader guarantees `hour` and `minute` form a valid
/// 24-hour time and that `context` occurs, case-insensitively, inside
/// `quote`; `source` and `author` are display-only.
#[derive(Debug, Clone)]
pub struct QuoteRecord {
    pub hour: u8,
    pub minute: u8,
    pub context: String,
    pub quote: String,
    pub source: String,
    pub author: String,
}

impl QuoteRecord {
    /// The record's time is a valid 24-hour clock time.
    pub open spec fn wf(self) -> bool {
        valid_time(self.hour, self.minute)
    }

    /// The record's time equals the queried `(hh, mm)`.
    pub open spec fn at_clock(self, hh: u8, mm: u8) -> bool {
        self.hour == hh && self.minute == mm
    }
}

} // verus!
