//! Data model for parsed documentation, format-agnostic.

use vstd::prelude::*;

verus! {

/// Complete parsed document from a single source file.
pub struct Document {
    /// File-level metadata.
    pub file: FileDoc,
    /// The documented functions, in source order.
    pub functions: Vec<FunctionDoc>,
}

/// File-level metadata extracted from annotations.
pub struct FileDoc {
    /// Title from a file or name annotation.
    pub title: Option<String>,
    /// A one-line summary.
    pub brief: Option<String>,
    /// The first description before any function.
    pub description: Option<String>,
    /// Raw comma-separated tag list.
    pub tags: Option<String>,
    /// Path of a script this file mirrors, for cross-matching.
    pub mirrors: Option<String>,
}

/// A single documented function.
pub struct FunctionDoc {
    /// The function name.
    pub name: String,
    /// Its description text.
    pub description: Option<String>,
    /// The section the function opens, if any.
    pub section: Option<SectionInfo>,
    /// Example text.
    pub example: Option<String>,
    /// Marked as internal.
    pub is_internal: bool,
    /// Argument entries, sorted by zero-padded index.
    pub args: Vec<ArgEntry>,
    /// The function takes no arguments.
    pub noargs: bool,
    /// Well-formed option entries.
    pub options: Vec<OptionEntry>,
    /// Malformed option entries, kept verbatim.
    pub options_bad: Vec<String>,
    /// Variables the function sets.
    pub set_vars: Vec<String>,
    /// Exit-code entries.
    pub exit_codes: Vec<String>,
    /// Standard-input notes.
    pub stdin: Vec<String>,
    /// Standard-output notes.
    pub stdout: Vec<String>,
    /// Standard-error notes.
    pub stderr: Vec<String>,
    /// Cross references.
    pub see_also: Vec<String>,
    /// Function-level tags.
    pub tags: Vec<String>,
    /// Where the function is implemented.
    pub implementations: Vec<Implementation>,
}

/// A section heading with an optional description.
pub struct SectionInfo {
    /// The section title.
    pub title: String,
    /// The section description.
    pub description: Option<String>,
}

/// A parsed argument entry.
pub struct ArgEntry {
    /// Zero-padded number, or `@`, used for sorting.
    pub sort_key: String,
    /// The raw entry text.
    pub raw: String,
}

/// A parsed well-formed option entry.
pub struct OptionEntry {
    /// The option terms, pipe separated.
    pub term: String,
    /// The description text.
    pub definition: String,
}

/// Implementation language for cross-matching.
#[derive(Clone, Copy, PartialEq, Eq, Structural)]
pub enum ImplLang {
    /// A bash implementation.
    Bash,
    /// A native implementation.
    Rust,
}

/// Where a function is implemented.
pub struct Implementation {
    /// The language of this implementation.
    pub lang: ImplLang,
    /// The file it lives in.
    pub source_file: String,
}

impl FunctionDoc {
    /// An empty function record named `name`.
    pub fn empty(name: String) -> (r: FunctionDoc)
        ensures
            r.name == name,
    {
        FunctionDoc {
            name,
            description: None,
            section: None,
            example: None,
            is_internal: false,
            args: Vec::new(),
            noargs: false,
            options: Vec::new(),
            options_bad: Vec::new(),
            set_vars: Vec::new(),
            exit_codes: Vec::new(),
            stdin: Vec::new(),
            stdout: Vec::new(),
            stderr: Vec::new(),
            see_also: Vec::new(),
            tags: Vec::new(),
            implementations: Vec::new(),
        }
    }

    /// Whether this entry carries any of the richer annotations.
    pub fn is_richer(&self) -> bool {
        self.example.is_some() || self.args.len() > 0 || self.exit_codes.len() > 0
            || self.stdout.len() > 0 || self.stderr.len() > 0 || self.options.len() > 0
            || self.set_vars.len() > 0
    }
}

impl FileDoc {
    /// An empty file record.
    pub fn empty() -> (r: FileDoc)
        ensures
            r.title is None,
            r.brief is None,
            r.description is None,
            r.tags is None,
            r.mirrors is None,
    {
        FileDoc { title: None, brief: None, description: None, tags: None, mirrors: None }
    }
}


impl Default for FileDoc {
    /// The empty file record.
    fn default() -> (r: FileDoc)
        ensures
            r.title is None && r.brief is None && r.description is None && r.tags is None
                && r.mirrors is None,
    {
        FileDoc::empty()
    }
}

impl Default for FunctionDoc {
    /// An empty, unnamed function record.
    fn default() -> (r: FunctionDoc)
        ensures
            r.name@.len() == 0,
    {
        let r = FunctionDoc::empty(String::new());
        r
    }
}

impl Default for Document {
    /// An empty document.
    fn default() -> (r: Document)
        ensures
            r.functions@.len() == 0,
    {
        Document { file: FileDoc::empty(), functions: Vec::new() }
    }
}

} // verus!
