//! The script console surfaced to page code.
//!
//! Printing sits with the driver; building the log line is here.

use vstd::prelude::*;
use vstd::string::*;

verus! {

/// The console object handed to script: its only job is to turn an alert
/// into a log line.
pub struct Console {}

impl Console {
    /// A fresh console.
    pub fn new() -> (console: Console) {
        Console {  }
    }

    /// The log line for an alert: the message under the `LOG: ` prefix.
    pub fn alert(&self, s: &str) -> (line: String)
        ensures
            line@ == "LOG: "@ + s@,
    {
        let mut line = String::from_str("LOG: ");
        line.append(s);
        line
    }
}

} // verus!
