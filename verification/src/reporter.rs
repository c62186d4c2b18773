//! The formats a final report can be printed in.
use vstd::prelude::*;
use crate::caller::same_text;
use crate::sip::message::{lowercase, to_lower};

verus! {

/// How the final report is printed.
#[derive(Debug, Clone, Copy, PartialEq, Eq, Structural)]
pub enum OutputFormat {
    /// A table for the terminal.
    Table,
    Json,
    Csv,
}

/// The format a lower-case name gives: `table`, `json` or `csv`;
/// otherwise the message `未知格式: <name>`.
pub open spec fn format_of_lower(l: Seq<char>) -> Result<OutputFormat, Seq<char>> {
    if l == "table"@ {
        Ok(OutputFormat::Table)
    } else if l == "json"@ {
        Ok(OutputFormat::Json)
    } else if l == "csv"@ {
        Ok(OutputFormat::Csv)
    } else {
        Err("未知格式: "@ + l)
    }
}

/// The format a name gives, ignoring case: the format of its lower-case
/// form.
pub open spec fn format_of(name: Seq<char>) -> Result<OutputFormat, Seq<char>> {
    format_of_lower(lowercase(name))
}

/// The format a lower-cased name names.
pub fn format_from_lower(l: &str) -> (r: Result<OutputFormat, String>)
    ensures
        match r {
            Ok(f) => format_of_lower(l@) == Ok::<OutputFormat, Seq<char>>(f),
            Err(m) => format_of_lower(l@) == Err::<OutputFormat, Seq<char>>(m@),
        },
{
    if same_text(l, "table") {
        Ok(OutputFormat::Table)
    } else if same_text(l, "json") {
        Ok(OutputFormat::Json)
    } else if same_text(l, "csv") {
        Ok(OutputFormat::Csv)
    } else {
        let mut m = String::new();
        m.append("未知格式: ");
        m.append(l);
        Err(m)
    }
}

impl OutputFormat {
    /// Reads a format name (`table`, `json`, `csv`, in any case).
    pub fn parse(s: &str) -> (r: Result<OutputFormat, String>)
        ensures
            match r {
                Ok(f) => format_of(s@) == Ok::<OutputFormat, Seq<char>>(f),
                Err(m) => format_of(s@) == Err::<OutputFormat, Seq<char>>(m@),
            },
    {
        let l = to_lower(s);
        format_from_lower(l.as_str())
    }
}

impl std::str::FromStr for OutputFormat {
    type Err = String;

    fn from_str(s: &str) -> (r: Result<OutputFormat, String>)
        ensures
            match r {
                Ok(f) => format_of(s@) == Ok::<OutputFormat, Seq<char>>(f),
                Err(m) => format_of(s@) == Err::<OutputFormat, Seq<char>>(m@),
            },
    {
        OutputFormat::parse(s)
    }
}

} // verus!
