//! Output formats and the structures they render.

pub mod response;
pub mod text;

use vstd::prelude::*;

verus! {

/// How search results are printed.
#[derive(Clone, Copy, Debug, PartialEq, Eq, Structural)]
pub enum OutputFormat {
    Json,
    Text,
}

/// The name of an output format.
pub open spec fn output_format_name(format: OutputFormat) -> Seq<char> {
    match format {
        OutputFormat::Json => "json"@,
        OutputFormat::Text => "text"@,
    }
}

impl OutputFormat {
    /// The format's name: `json` or `text`.
    pub fn as_str(&self) -> (s: &'static str)
        ensures
            s@ == output_format_name(*self),
    {
        match self {
            OutputFormat::Json => "json",
            OutputFormat::Text => "text",
        }
    }
}

} // verus!
