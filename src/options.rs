use vstd::prelude::*;

use crate::filter::Filter;

verus! {

/// The command line of the packing tool: one command and its options.
#[derive(Debug)]
pub struct CliOptions {
    pub command: Command,
}

/// Write a new archive holding the given files.
#[derive(Debug)]
pub struct AddCommandOptions {
    /// Path of the archive to write.
    pub archive: String,
    /// Files to put in the archive.
    pub files: Vec<String>,
}

/// Replace or add the given files in an archive, creating it if needed.
#[derive(Debug)]
pub struct UpdateCommandOptions {
    /// Path of the archive to update.
    pub archive: String,
    /// Files to put in the archive.
    pub files: Vec<String>,
}

/// List the entries of an archive that the filters select.
#[derive(Debug)]
pub struct ListCommandOptions {
    /// Path of the archive to read.
    pub archive: String,
    /// Patterns that select the entries to list; none selects all.
    pub filters: Vec<Filter>,
    /// Output line, with `%name`-style template variables.
    pub template: String,
    /// Show the template variables instead of listing.
    pub show_template_vars: bool,
}

/// Remove the entries that the filters select.
#[derive(Debug)]
pub struct RemoveCommandOptions {
    /// Path of the archive to change.
    pub archive: String,
    /// Patterns that select the entries to remove.
    pub filter: Vec<Filter>,
}

/// Write out the entries that the filters select.
#[derive(Debug)]
pub struct ExtractCommandOptions {
    /// Path of the archive to read.
    pub archive: String,
    /// Patterns that select the entries to extract.
    pub filter: Vec<Filter>,
    /// Directory to write into; the current one when absent.
    pub output_dir: Option<String>,
}

/// What the packing tool is asked to do.
#[derive(Debug)]
pub enum Command {
    Add(AddCommandOptions),
    Update(UpdateCommandOptions),
    Remove(RemoveCommandOptions),
    Extract(ExtractCommandOptions),
    List(ListCommandOptions),
}

} // verus!
