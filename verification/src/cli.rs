//! The command line's shape: the subcommands and their arguments. Parsing
//! is done by the program around the library, which converts to these
//! types.

use vstd::prelude::*;

verus! {

/// The parsed command line.
pub struct Cli {
    pub command: Command,
}

/// The subcommands.
pub enum Command {
    /// File a papercut complaint (alias: `log`).
    Add(AddArgs),
    /// List papercuts, open first then newest (severity first in the Markdown digest).
    List(ListArgs),
    /// Mark a papercut fixed (appends a resolved event; never rewrites history).
    Resolve(ResolveArgs),
    /// Remove a papercut and its resolutions from the journal.
    Delete(DeleteArgs),
    /// Print the machine contract.
    Schema,
    /// Validate the journal file and report issues.
    Doctor,
}

/// Arguments of `add`.
pub struct AddArgs {
    /// The complaint body; `-` or none reads standard input.
    pub text: Option<String>,
    /// Area tags, repeatable.
    pub tags: Vec<String>,
    /// Severity: minor | major | blocker.
    pub severity: String,
    /// Overrides the detected model.
    pub model: Option<String>,
    /// Overrides the detected harness.
    pub harness: Option<String>,
    /// Overrides the detected user.
    pub user: Option<String>,
}

/// Arguments of `list`.
pub struct ListArgs {
    /// Output format: text (default) | json | md.
    pub format: Option<String>,
    /// Include resolved records.
    pub all: bool,
    /// Only records carrying this tag.
    pub tag: Option<String>,
}

/// Arguments of `resolve`.
pub struct ResolveArgs {
    /// Full or unique-prefix record id.
    pub id: String,
    /// How it was fixed.
    pub note: Option<String>,
}

/// Arguments of `delete`.
pub struct DeleteArgs {
    /// Full or unique-prefix record id.
    pub id: String,
}

} // verus!
