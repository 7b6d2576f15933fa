//! What the user may configure.

use vstd::prelude::*;

verus! {

#[derive(Debug, Clone, Default)]
pub struct Configuration {
    pub output: Output,
    pub compilation: Compilation,
}

#[derive(Debug, Clone, Default)]
pub struct Output {
    pub format: Format,
    pub content: Content,
}

/// The shape of the records that are written.
#[derive(Debug, Clone, Copy)]
pub struct Format {
    /// Write the command as an array of arguments, not as one string.
    pub command_as_array: bool,
    /// Leave the output file out of each record.
    pub drop_output_field: bool,
}

impl Default for Format {
    fn default() -> (result: Self)
        ensures
            result.command_as_array,
            !result.drop_output_field,
    {
        Self { command_as_array: true, drop_output_field: false }
    }
}

/// Which records are written.
#[derive(Debug, Clone)]
pub struct Content {
    /// Keep only the records whose file exists and lies where the two lists
    /// of paths allow.
    pub include_only_existing_source: bool,
    pub paths_to_include: Vec<String>,
    pub paths_to_exclude: Vec<String>,
}

impl Default for Content {
    fn default() -> (result: Self)
        ensures
            !result.include_only_existing_source,
            result.paths_to_include@.len() == 0,
            result.paths_to_exclude@.len() == 0,
    {
        Self {
            include_only_existing_source: false,
            paths_to_include: Vec::new(),
            paths_to_exclude: Vec::new(),
        }
    }
}

#[derive(Debug, Clone, Default)]
pub struct Compilation {
    pub compilers_to_recognize: Vec<CompilerWrapper>,
    pub compilers_to_exclude: Vec<String>,
    pub flags_to_remove: Vec<String>,
}

/// A program that is to be taken for a compiler, and the flags to add to
/// each of its calls.
#[derive(Debug, Clone, Default)]
pub struct CompilerWrapper {
    pub executable: String,
    pub additional_flags: Vec<String>,
}

} // verus!
