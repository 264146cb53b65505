use vstd::prelude::*;

use crate::status::{percent_string, percent_text};

verus! {

/// How alarming a percentage is.
#[derive(PartialEq, Eq, Structural, Clone, Copy, Debug)]
pub enum Severity {
    Normal,
    Warning,
    Critical,
}

/// Markers put around a value: `open` before it, `close` after it.
pub struct Decoration {
    pub open: String,
    pub close: String,
}

/// When a percentage counts as a warning or as critical, and how each is
/// shown.
pub struct Thresholds {
    pub warn_threshold: i64,
    pub error_threshold: i64,
    pub warn_decoration: Decoration,
    pub error_decoration: Decoration,
}

/// Critical from the error threshold up to a hundred; a warning from the
/// warning threshold up to the error threshold; normal otherwise. A value on
/// the error threshold is critical.
pub open spec fn severity_of(warn: int, error: int, percent: int) -> Severity {
    if error <= percent <= 100 {
        Severity::Critical
    } else if warn <= percent <= error {
        Severity::Warning
    } else {
        Severity::Normal
    }
}

pub open spec fn decorated(open: Seq<char>, text: Seq<char>, close: Seq<char>) -> Seq<char> {
    open + text + close
}

impl Thresholds {
    pub open spec fn severity_spec(&self, percent: int) -> Severity {
        severity_of(self.warn_threshold as int, self.error_threshold as int, percent)
    }

    /// `text` as shown for a value of `percent`: bare when normal, between
    /// the markers of its band otherwise.
    pub open spec fn decorate_spec(&self, percent: int, text: Seq<char>) -> Seq<char> {
        match self.severity_spec(percent) {
            Severity::Normal => text,
            Severity::Warning => decorated(
                self.warn_decoration.open@,
                text,
                self.warn_decoration.close@,
            ),
            Severity::Critical => decorated(
                self.error_decoration.open@,
                text,
                self.error_decoration.close@,
            ),
        }
    }

    pub fn severity(&self, percent: i64) -> (r: Severity)
        ensures
            r == self.severity_spec(percent as int),
    {
        if self.error_threshold <= percent && percent <= 100 {
            Severity::Critical
        } else if self.warn_threshold <= percent && percent <= self.error_threshold {
            Severity::Warning
        } else {
            Severity::Normal
        }
    }

    pub fn decorate(&self, percent: i64, text: &str) -> (r: String)
        ensures
            r@ == self.decorate_spec(percent as int, text@),
    {
        let d = match self.severity(percent) {
            Severity::Normal => {
                return String::from_str(text);
            },
            Severity::Warning => &self.warn_decoration,
            Severity::Critical => &self.error_decoration,
        };
        let mut r = d.open.clone();
        r.append(text);
        r.append(d.close.as_str());
        r
    }

    /// A percentage right-justified in three columns with its percent sign,
    /// decorated by its band.
    pub fn percent_display(&self, percent: i64) -> (r: String)
        ensures
            r@ == self.decorate_spec(percent as int, percent_text(percent as int)),
    {
        let t = percent_string(percent);
        self.decorate(percent, t.as_str())
    }
}

} // verus!
