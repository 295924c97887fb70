//! The values the command line hands the program: one conversion or one
//! sort, with their file names and flags. Argument parsing itself lives
//! with the binary; these are the plain shapes it produces.

use vstd::prelude::*;

verus! {

/// Everything one invocation asks for.
#[derive(Debug, Clone)]
pub struct TektonArgs {
    /// Which kind of run this is.
    pub entity_type: TektonEntity,
}

/// The two kinds of run.
#[derive(Debug, Clone)]
pub enum TektonEntity {
    /// Convert one snippet file to another format.
    Convert(ConversionCommand),
    /// Sort one JSON snippet file, or a directory of them.
    Sort(SortCommand),
}

/// A conversion: read one file, write another, the format pair inferred
/// from the two file extensions.
#[derive(Debug, Clone)]
pub struct ConversionCommand {
    /// The file to read.
    pub input_filename: String,
    /// The file to write.
    pub output_filename: String,
    /// Whether the user is available to name or fix records.
    pub interactive: Option<String>,
}

/// A sort: rewrite the file (or every file under the path) with its keys
/// sorted.
#[derive(Debug, Clone)]
pub struct SortCommand {
    /// The file or directory to sort.
    pub path: String,
    /// When present, descend into directories under the path.
    pub crawl: Option<String>,
    /// Whether the user is available to fix records.
    pub interactive: Option<String>,
}

} // verus!
