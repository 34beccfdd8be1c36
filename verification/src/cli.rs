//! The options a run is started with.
use vstd::prelude::*;

verus! {

/// The options of a run, as the command line gives them.
pub struct Cli {
    /// The source folder.
    pub source: String,
    /// The destination folder; the source folder when there is none.
    pub destination: Option<String>,
    /// Whether files are gathered in subfolders too.
    pub recursive: bool,
    /// Whether files whose contents repeat are removed.
    pub remove_duplicates: bool,
    /// Whether the files are only listed, not moved or renamed.
    pub list: bool,
    /// The file the list of files is written to.
    pub output: Option<String>,
    /// Whether the files are renamed by the date they were taken.
    pub rename: bool,
    /// The names of directories whose files are left alone.
    pub skip_dirs: Vec<String>,
    /// Whether dated files go into a subfolder for their year.
    pub sort: bool,
}

} // verus!
