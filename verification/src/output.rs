//! The report formats that `analyze` can write, chosen by name.
use vstd::prelude::*;

use crate::error::TvaError;
use crate::text::{chars_of, push_str, same_text, string_from_chars};

verus! {

/// How an analysis report is written out.
#[derive(Debug, Clone, Copy, PartialEq, Eq, Structural)]
pub enum OutputFormat {
    Json,
    Csv,
}

/// The format called `name`, if any.
pub open spec fn format_named(name: Seq<char>) -> Option<OutputFormat> {
    if name == "json"@ {
        Some(OutputFormat::Json)
    } else if name == "csv"@ {
        Some(OutputFormat::Csv)
    } else {
        None
    }
}

/// The message that refuses the format `name`.
pub open spec fn unknown_format_message(name: Seq<char>) -> Seq<char> {
    "unknown format: "@ + name + " (expected json or csv)"@
}

/// The format called `name` (`json` or `csv`); any other name is refused
/// with a decode error that names it.
pub fn output_format(name: &str) -> (r: Result<OutputFormat, TvaError>)
    ensures
        format_named(name@) matches Some(f) ==> r == Ok::<OutputFormat, TvaError>(f),
        format_named(name@) is None ==> (r matches Err(TvaError::Decode(m)) && m@
            == unknown_format_message(name@)),
{
    let chars = chars_of(name);
    if same_text(&chars, "json") {
        Ok(OutputFormat::Json)
    } else if same_text(&chars, "csv") {
        Ok(OutputFormat::Csv)
    } else {
        let mut msg: Vec<char> = Vec::new();
        push_str(&mut msg, "unknown format: ");
        push_str(&mut msg, name);
        push_str(&mut msg, " (expected json or csv)");
        Err(TvaError::Decode(string_from_chars(msg.as_slice())))
    }
}


/// `json` and `csv` select their formats, and no other name selects any.
pub proof fn lemma_only_json_and_csv_are_formats(name: Seq<char>)
    ensures
        format_named(name) == Some(OutputFormat::Json) <==> name == "json"@,
        format_named(name) == Some(OutputFormat::Csv) <==> name == "csv"@,
        format_named(name) is None <==> (name != "json"@ && name != "csv"@),
{
    reveal_strlit("json");
    reveal_strlit("csv");
    assert("json"@.len() != "csv"@.len());
}

} // verus!
