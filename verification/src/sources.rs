//! The source files that discovery reads, as they are handed to it: a path
//! and the text found there.

use vstd::prelude::*;
use crate::paths::is_index_file;

verus! {

/// One file found under a root directory.
#[derive(Debug, PartialEq, Eq)]
pub struct SourceFile {
    /// Where the file was found.
    pub path: String,
    /// The text of the file.
    pub content: String,
}

/// A file, as contracts speak of it.
pub struct SourceFileView {
    pub path: Seq<char>,
    pub content: Seq<char>,
}

impl View for SourceFile {
    type V = SourceFileView;

    open spec fn view(&self) -> SourceFileView {
        SourceFileView { path: self.path@, content: self.content@ }
    }
}

impl Clone for SourceFile {
    fn clone(&self) -> (r: Self)
        ensures
            r@ == self@,
    {
        SourceFile { path: self.path.clone(), content: self.content.clone() }
    }
}

/// The views of a sequence of files.
pub open spec fn file_views(v: Seq<SourceFile>) -> Seq<SourceFileView> {
    v.map_values(|f: SourceFile| f@)
}

/// The views of the files of a directory that may be absent.
pub open spec fn listing_view(files: Option<&Vec<SourceFile>>) -> Option<Seq<SourceFileView>> {
    match files {
        Some(files) => Some(file_views(files@)),
        None => None,
    }
}


/// Those of `files` that are no index files, in order.
pub open spec fn without_index_files(files: Seq<SourceFileView>) -> Seq<SourceFileView>
    decreases files.len(),
{
    if files.len() == 0 {
        Seq::empty()
    } else if is_index_file(files.last().path) {
        without_index_files(files.drop_last())
    } else {
        without_index_files(files.drop_last()).push(files.last())
    }
}

} // verus!
