//! Where modules find their data files.

use vstd::prelude::*;
use super::err::FrameworkError;

verus! {

/// A source of modules' data files, addressed by paths relative to it.
pub trait ModuleDataProvider {
    /// The text of the data file at `path`.
    fn read_str(&self, path: &str) -> Result<String, FrameworkError>;

    /// The bytes of the data file at `path`.
    fn read_bytes(&self, path: &str) -> Result<Vec<u8>, FrameworkError>;

    /// The directory in the file system that holds the data files, if there is one.
    fn fs_path(&self) -> Option<&str>;
}

/// A directory in the file system that holds modules' data files. Reading files from it is left
/// to the program that runs the bot, through [`ModuleDataDir::fs_path`].
#[derive(Clone, Debug)]
pub struct ModuleDataDir {
    path: String,
}

impl ModuleDataDir {
    /// The directory at `path`.
    pub fn new(path: String) -> (r: ModuleDataDir)
        ensures
            r.path_view() == path@,
    {
        ModuleDataDir { path }
    }

    /// The directory's path.
    pub closed spec fn path_view(&self) -> Seq<char> {
        self.path@
    }

    /// The directory's path.
    pub fn fs_path(&self) -> (r: &str)
        ensures
            r@ == self.path_view(),
    {
        self.path.as_str()
    }
}

/// A `ModuleDataProvider` that always answers that the file was not found.
#[derive(Clone, Copy, Debug)]
pub struct NullModuleDataProvider;

impl ModuleDataProvider for NullModuleDataProvider {
    fn read_str(&self, path: &str) -> (r: Result<String, FrameworkError>)
        ensures
            r matches Err(FrameworkError::NotFound),
    {
        Err(FrameworkError::NotFound)
    }

    fn read_bytes(&self, path: &str) -> (r: Result<Vec<u8>, FrameworkError>)
        ensures
            r matches Err(FrameworkError::NotFound),
    {
        Err(FrameworkError::NotFound)
    }

    fn fs_path(&self) -> (r: Option<&str>)
        ensures
            r is None,
    {
        None
    }
}

} // verus!
