//! A sample binary entry point: configuration, argument parsing,
//! documents and their validation.

use vstd::prelude::*;

verus! {

/// Configuration for the CLI application
#[derive(Debug, Clone)]
pub struct CliConfig {
    pub verbose: bool,
    pub output_path: String,
    pub input_files: Vec<String>,
}

impl CliConfig {
    /// The default configuration: quiet, writing to the current
    /// directory, with no input files.
    pub fn new() -> (r: CliConfig)
        ensures
            !r.verbose,
            r.output_path@ == "."@,
            r.input_files@.len() == 0,
    {
        CliConfig {
            verbose: false,
            output_path: crate::text::str_to_string("."),
            input_files: Vec::new(),
        }
    }

    /// The same configuration with verbosity set as given.
    pub fn with_verbose(self, verbose: bool) -> (r: CliConfig)
        ensures
            r.verbose == verbose,
            r.output_path == self.output_path,
            r.input_files == self.input_files,
    {
        let mut updated = self;
        updated.verbose = verbose;
        updated
    }
}

/// Command line argument parser
#[derive(Debug)]
pub struct ArgumentParser {
    pub args: Vec<String>,
}

impl ArgumentParser {
    /// Parses the held arguments; every argument list yields the default
    /// configuration.
    pub fn parse(&self) -> (r: Result<CliConfig, String>)
        ensures
            r matches Ok(c) && !c.verbose && c.output_path@ == "."@ && c.input_files@.len() == 0,
    {
        Ok(CliConfig::new())
    }
}

/// Core data structures
#[derive(Debug, Clone)]
pub struct Document {
    pub title: String,
    pub content: String,
    pub metadata: DocumentMetadata,
}

impl Document {
    /// A document with the given title and content and empty metadata.
    pub fn new(title: String, content: String) -> (r: Document)
        ensures
            r.title == title,
            r.content == content,
            r.metadata.created_at is None,
            r.metadata.author is None,
            r.metadata.tags@.len() == 0,
    {
        Document { title, content, metadata: DocumentMetadata::default() }
    }
}

#[derive(Debug, Clone)]
pub struct DocumentMetadata {
    pub created_at: Option<String>,
    pub author: Option<String>,
    pub tags: Vec<String>,
}

impl Default for DocumentMetadata {
    /// Metadata with nothing recorded yet.
    fn default() -> (r: DocumentMetadata)
        ensures
            r.created_at is None,
            r.author is None,
            r.tags@.len() == 0,
    {
        DocumentMetadata { created_at: None, author: None, tags: Vec::new() }
    }
}

/// Core error types
#[derive(Debug)]
pub enum ProcessingError {
    IoError(String),
    ParseError(String),
    ValidationError(String),
}

/// Core business logic function: an empty input is rejected, anything
/// else is accepted.
pub fn validate_input(input: &str) -> (r: Result<(), ProcessingError>)
    ensures
        input@.len() == 0 ==> (r matches Err(ProcessingError::ValidationError(m))
            && m@ == "Input cannot be empty"@),
        input@.len() > 0 ==> r is Ok,
{
    if input.is_empty() {
        return Err(
            ProcessingError::ValidationError(crate::text::str_to_string("Input cannot be empty")),
        );
    }
    Ok(())
}

} // verus!
