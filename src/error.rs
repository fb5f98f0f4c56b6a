//! The errors that content processing reports.
use vstd::prelude::*;

verus! {

/// Why one content item could not be processed.
#[derive(Debug, Clone)]
pub enum ContentError {
    /// A front-matter line that is neither empty, a delimiter, nor `key: value`.
    FrontMatterMalformed { line: String },
    /// A required front-matter key is missing.
    FrontMatterIncomplete { key: String },
    /// The front matter is not closed by a delimiter.
    MarkdownParseFailed,
    /// A content file whose extension is neither `md` nor `html`.
    UnsupportedExtension { extension: String },
    /// A path that names no file.
    MissingFileName,
    /// A photo-project directory without its `post.html`.
    MissingProjectContent,
    /// A file or directory that could not be read or written.
    IoError { message: String },
    /// A template name that resolves to no template.
    TemplateNotFound { name: String },
    /// A template that failed while rendering, e.g. on an undefined variable.
    TemplateRenderFailed { message: String },
}

/// A `ContentError` with its text as character sequences.
pub enum ErrorKind {
    FrontMatterMalformed(Seq<char>),
    FrontMatterIncomplete(Seq<char>),
    MarkdownParseFailed,
    UnsupportedExtension(Seq<char>),
    MissingFileName,
    MissingProjectContent,
    IoError(Seq<char>),
    TemplateNotFound(Seq<char>),
    TemplateRenderFailed(Seq<char>),
}

impl View for ContentError {
    type V = ErrorKind;

    open spec fn view(&self) -> ErrorKind {
        match self {
            ContentError::FrontMatterMalformed { line } => ErrorKind::FrontMatterMalformed(line@),
            ContentError::FrontMatterIncomplete { key } => ErrorKind::FrontMatterIncomplete(key@),
            ContentError::MarkdownParseFailed => ErrorKind::MarkdownParseFailed,
            ContentError::UnsupportedExtension { extension } => ErrorKind::UnsupportedExtension(
                extension@,
            ),
            ContentError::MissingFileName => ErrorKind::MissingFileName,
            ContentError::MissingProjectContent => ErrorKind::MissingProjectContent,
            ContentError::IoError { message } => ErrorKind::IoError(message@),
            ContentError::TemplateNotFound { name } => ErrorKind::TemplateNotFound(name@),
            ContentError::TemplateRenderFailed { message } => ErrorKind::TemplateRenderFailed(
                message@,
            ),
        }
    }
}

/// A content error attributed to the path of the item that caused it.
#[derive(Debug, Clone)]
pub struct ItemError {
    pub path: String,
    pub error: ContentError,
}

impl ItemError {
    /// Attributes `error` to `path`.
    pub fn at(path: &str, error: ContentError) -> (r: ItemError)
        ensures
            r.path@ == path@,
            r.error@ == error@,
    {
        ItemError { path: path.to_owned(), error }
    }
}

} // verus!
