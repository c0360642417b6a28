//! The option types of the command-line entry points, and the small
//! decisions they share.
use vstd::prelude::*;
use vstd::string::StringExecFns;

verus! {

/// Options of the command that writes a sample schema.
pub struct InitOptions {
    pub output_path: Option<String>,
    pub force: bool,
    pub quiet: bool,
}

/// Options of the command that exports the embedded schema document.
pub struct SchemaExportOptions {
    pub output_path: Option<String>,
    pub force: bool,
    pub quiet: bool,
}

/// Options of the command that resolves variables and writes an environment
/// file.
pub struct PullOptions {
    pub schema_path: String,
    pub env_name: String,
    pub dry_run: bool,
    pub show_secrets: bool,
    pub force: bool,
    pub interactive: bool,
    pub destination_path: Option<String>,
    pub source_timeout: u64,
}

/// Output format of the listing command.
#[derive(Debug)]
pub enum ListFormat {
    Table,
    Json,
}

/// The message reported for an unknown listing format.
pub open spec fn unknown_format_msg(s: Seq<char>) -> Seq<char> {
    "Unknown format: \""@ + s + "\". Expected \"table\" or \"json\"."@
}

impl ListFormat {
    /// Reads a format name: `table` or `json`; everything else is reported.
    pub fn from_str(s: &str) -> (r: Result<Self, String>)
        ensures
            match r {
                Ok(f) => (s@ == "table"@ && f is Table) || (s@ == "json"@ && f is Json),
                Err(m) => s@ != "table"@ && s@ != "json"@ && m@ == unknown_format_msg(s@),
            },
    {
        if crate::strutil::str_eq(s, "table") {
            Ok(ListFormat::Table)
        } else if crate::strutil::str_eq(s, "json") {
            Ok(ListFormat::Json)
        } else {
            proof {
                reveal_strlit("Unknown format: \"");
                reveal_strlit("\". Expected \"table\" or \"json\".");
            }
            let mut m: String = "Unknown format: \"".to_owned();
            m.append(s);
            m.append("\". Expected \"table\" or \"json\".");
            proof {
                assert(m@ =~= unknown_format_msg(s@));
            }
            Err(m)
        }
    }
}

/// Picks the destination file: the given path, the default name inside the
/// given path when that path is an existing directory, or the default name.
pub fn resolve_output_path(
    output: Option<String>,
    output_is_existing_dir: bool,
    default_name: &str,
) -> (r: String)
    ensures
        match output {
            Some(p) => if output_is_existing_dir {
                r@ == p@ + seq!['/'] + default_name@
            } else {
                r@ == p@
            },
            None => r@ == default_name@,
        },
{
    match output {
        Some(p) => {
            if output_is_existing_dir {
                let mut joined = p;
                proof {
                    reveal_strlit("/");
                }
                joined.append("/");
                joined.append(default_name);
                proof {
                    assert(joined@ =~= output->Some_0@ + seq!['/'] + default_name@);
                }
                joined
            } else {
                p
            }
        },
        None => default_name.to_owned(),
    }
}

} // verus!
