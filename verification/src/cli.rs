use vstd::prelude::*;
use crate::util::path::FilePath;

verus! {

/// What the `import` command is given.
#[derive(Debug, PartialEq, Eq)]
pub struct ImportArgs {
    pub from: Vec<FilePath>,
    pub to: Option<FilePath>,
    pub clean_target_folders: bool,
    pub clean_source_folders: bool,
    pub fsync: bool,
    pub chunk_size: Option<usize>,
    pub discogs_release_id: Option<String>,
}

/// What the `add-covers` command is given.
#[derive(Debug, PartialEq, Eq)]
pub struct AddCoversArguments {
    pub to: FilePath,
}

/// What the `fsync` command is given.
#[derive(Debug, PartialEq, Eq)]
pub struct FsyncArguments {
    pub path: FilePath,
}

} // verus!
