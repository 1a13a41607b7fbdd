//! Selection of a coverage report's output format by name.

use vstd::prelude::*;
use crate::text::{concat, push_str, str_eq};

verus! {

/// Output format of a coverage report.
#[derive(Clone, Copy, Debug, PartialEq, Eq, Structural)]
pub enum ReportFormat {
    Text,
    Json,
    Markdown,
}

impl Default for ReportFormat {
    fn default() -> (r: ReportFormat)
        ensures
            r == ReportFormat::Text,
    {
        ReportFormat::Text
    }
}

/// The lower-case form of a text, as `str::to_lowercase` makes it.
pub uninterp spec fn lower_of(s: Seq<char>) -> Seq<char>;

/// Relies on `str::to_lowercase`: the lower-case form of the text, a
/// function of its characters alone.
#[verifier::external_body]
fn lowercase(s: &str) -> (r: String)
    ensures
        r@ == lower_of(s@),
{
    s.to_lowercase()
}

/// The format that a lower-case name selects.
pub open spec fn format_named(name: Seq<char>) -> Option<ReportFormat> {
    if name == "text"@ || name == "txt"@ {
        Some(ReportFormat::Text)
    } else if name == "json"@ {
        Some(ReportFormat::Json)
    } else if name == "markdown"@ || name == "md"@ {
        Some(ReportFormat::Markdown)
    } else {
        None
    }
}

/// The format that an already lower-cased name selects.
pub fn format_from_lowered(name: &str) -> (r: Option<ReportFormat>)
    ensures
        r == format_named(name@),
{
    if str_eq(name, "text") || str_eq(name, "txt") {
        Some(ReportFormat::Text)
    } else if str_eq(name, "json") {
        Some(ReportFormat::Json)
    } else if str_eq(name, "markdown") || str_eq(name, "md") {
        Some(ReportFormat::Markdown)
    } else {
        None
    }
}

/// The format that a name selects, in any letter case; an unknown name is
/// an error that lists the known ones.
pub fn parse_format(s: &str) -> (r: Result<ReportFormat, String>)
    ensures
        match format_named(lower_of(s@)) {
            Some(f) => r == Ok::<ReportFormat, String>(f),
            None => r matches Err(m) && m@ == "Unknown format: "@ + s@
                + ". Expected: text, json, or markdown"@,
        },
{
    let lowered = lowercase(s);
    match format_from_lowered(lowered.as_str()) {
        Some(f) => Ok(f),
        None => {
            let mut m = concat("Unknown format: ", s);
            push_str(&mut m, ". Expected: text, json, or markdown");
            Err(m)
        },
    }
}

impl std::str::FromStr for ReportFormat {
    type Err = String;

    fn from_str(s: &str) -> Result<ReportFormat, String> {
        parse_format(s)
    }
}

} // verus!
