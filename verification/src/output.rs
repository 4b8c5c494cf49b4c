//! The format reports are written in.
use vstd::prelude::*;
use crate::text::{chars_of, lowercase_of, str_to_lowercase};

verus! {

/// How reports are written: pretty JSON, or one JSON value per line.
#[derive(Debug, Clone, Copy, PartialEq, Eq, Structural)]
pub enum OutputFormat {
    Json,
    Ndjson,
}

impl Default for OutputFormat {
    fn default() -> (r: Self)
        ensures
            r == OutputFormat::Json,
    {
        OutputFormat::Json
    }
}

/// The message of an output format nobody knows.
pub open spec fn unsupported_format_message(s: Seq<char>) -> Seq<char> {
    "unsupported output format: "@ + s
}

impl OutputFormat {
    /// The format named on the command line, in any case: `json` or `ndjson`.
    pub fn from_cli(s: &str) -> (r: Result<Self, String>)
        ensures
            lowercase_of(s@) == "json"@ ==> r == Ok::<Self, String>(OutputFormat::Json),
            lowercase_of(s@) == "ndjson"@ ==> r == Ok::<Self, String>(OutputFormat::Ndjson),
            lowercase_of(s@) != "json"@ && lowercase_of(s@) != "ndjson"@ ==> (r matches Err(m)
                && m@ == unsupported_format_message(s@)),
    {
        let l = chars_of(str_to_lowercase(s).as_str());
        proof {
            reveal_strlit("json");
            reveal_strlit("ndjson");
            reveal_strlit("");
            assert(s@ + ""@ =~= s@);
            assert("ndjson"@ != "json"@) by {
                assert("ndjson"@.len() != "json"@.len());
            }
        }
        if crate::naming::same_chars(&l, &chars_of("json")) {
            Ok(OutputFormat::Json)
        } else if crate::naming::same_chars(&l, &chars_of("ndjson")) {
            Ok(OutputFormat::Ndjson)
        } else {
            Err(crate::output_paths::join3("unsupported output format: ", s, ""))
        }
    }
}

/// Writes reports in one format.
pub struct OutputWriter {
    format: OutputFormat,
}

impl OutputWriter {
    /// A writer in `format`; the directory is made by whoever writes.
    pub fn with_format(format: OutputFormat) -> (r: Self)
        ensures
            r.format() == format,
    {
        OutputWriter { format }
    }

    pub closed spec fn format_spec(&self) -> OutputFormat {
        self.format
    }

    /// The format of the writer.
    #[verifier::when_used_as_spec(format_spec)]
    pub fn format(&self) -> (r: OutputFormat)
        ensures
            r == self.format_spec(),
    {
        self.format
    }
}

} // verus!
