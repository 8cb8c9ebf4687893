//! The command-line surface: one subcommand per tool, with plain
//! string paths. A front end maps its parsed arguments onto these.

use vstd::prelude::*;

verus! {

/// The full filter pipeline on one raw file.
pub struct Filter {
    pub file: String,
    pub save: String,
    pub remap_csv: String,
    pub web_csv: String,
}

/// Summaries over the chosen cycle-index ranges of a filtered file.
pub struct Export {
    pub file: String,
    pub save: String,
    pub ranges: Vec<(u32, u32)>,
}

/// Writing a selection string into a raw file's header.
pub struct Swrite {
    pub file: String,
    pub save: String,
    pub value: String,
    pub remap_csv: String,
}

/// Stacking export rows of a cohort into one file.
pub struct Concat {
    pub file: Vec<String>,
    pub save: String,
}

/// The automatic selection of a centred window, file by file.
pub struct Split {
    pub file_dir: String,
    pub save: String,
    pub percent: usize,
    pub remap_csv: String,
}

/// Header and file-count diagnostics over a directory.
pub struct Check {
    pub file_dir: String,
}

/// Removing the patient-name columns over a directory.
pub struct Clean {
    pub file_dir: String,
    pub save: String,
}

/// Column-name delta between the dictionary and a raw file.
pub struct Diff {
    pub file: String,
    pub remap_csv: String,
}

/// One invocation's subcommand.
pub enum Commands {
    Filter(Filter),
    Export(Export),
    Swrite(Swrite),
    Concat(Concat),
    Split(Split),
    Check(Check),
    Clean(Clean),
    Diff(Diff),
}

/// One invocation.
pub struct Cli {
    pub command: Commands,
}

} // verus!
