//! What kind of preview (if any) a file gets, by extension, and what a save
//! does to it.

use vstd::prelude::*;

use crate::paths::{extension_of, path_extension};
use crate::strings::str_eq;

verus! {

/// What kind of preview (if any) a file gets.
#[derive(Debug, Clone, Copy, PartialEq, Eq, Structural)]
pub enum FileKind {
    Plain,
    Markdown,
    Latex,
}

/// The preview kind belonging to an extension.
pub open spec fn kind_for(ext: Option<Seq<char>>) -> FileKind {
    match ext {
        Some(e) => if e == seq!['m', 'd'] {
            FileKind::Markdown
        } else if e == seq!['t', 'e', 'x'] {
            FileKind::Latex
        } else {
            FileKind::Plain
        },
        None => FileKind::Plain,
    }
}

/// The preview kind for the extension `ext` (see [`kind_for`]).
pub fn kind_for_extension(ext: Option<&str>) -> (k: FileKind)
    ensures
        k == kind_for(
            match ext {
                Some(e) => Some(e@),
                None => None,
            },
        ),
{
    match ext {
        None => FileKind::Plain,
        Some(e) => {
            proof {
                reveal_strlit("md");
                reveal_strlit("tex");
                assert("md"@ =~= seq!['m', 'd']);
                assert("tex"@ =~= seq!['t', 'e', 'x']);
            }
            if str_eq(e, "md") {
                FileKind::Markdown
            } else if str_eq(e, "tex") {
                FileKind::Latex
            } else {
                FileKind::Plain
            }
        },
    }
}

/// `.md` files get a markdown preview, `.tex` files a LaTeX one, anything
/// else (or no path at all) none.
pub fn file_kind(path: Option<&str>) -> (k: FileKind)
    ensures
        k == match path {
            Some(p) => kind_for(extension_of(p@)),
            None => FileKind::Plain,
        },
{
    match path {
        None => FileKind::Plain,
        Some(p) => match path_extension(p) {
            None => FileKind::Plain,
            Some(e) => kind_for_extension(Some(e.as_str())),
        },
    }
}

/// What refreshing the preview after a save does.
#[derive(Debug, Clone, Copy, PartialEq, Eq, Structural)]
pub enum PreviewRefresh {
    /// A plain file has no preview.
    Nothing,
    /// Re-render the markdown from the buffer text.
    RenderMarkdown,
    /// A LaTeX compile is already running: say so and start no other.
    AlreadyCompiling,
    /// Start a LaTeX compile of the saved file.
    Compile,
}

/// The refresh for a document of kind `kind`, `compiling` telling whether a
/// compile of it is running.
pub open spec fn refresh_for(kind: FileKind, compiling: bool) -> PreviewRefresh {
    match kind {
        FileKind::Plain => PreviewRefresh::Nothing,
        FileKind::Markdown => PreviewRefresh::RenderMarkdown,
        FileKind::Latex => if compiling {
            PreviewRefresh::AlreadyCompiling
        } else {
            PreviewRefresh::Compile
        },
    }
}

/// What to do with the preview of a just-saved document (see
/// [`refresh_for`]).
pub fn preview_refresh(kind: FileKind, compiling: bool) -> (r: PreviewRefresh)
    ensures
        r == refresh_for(kind, compiling),
{
    match kind {
        FileKind::Plain => PreviewRefresh::Nothing,
        FileKind::Markdown => PreviewRefresh::RenderMarkdown,
        FileKind::Latex => if compiling {
            PreviewRefresh::AlreadyCompiling
        } else {
            PreviewRefresh::Compile
        },
    }
}

} // verus!
