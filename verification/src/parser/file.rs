//! A whole dump file.

use vstd::prelude::*;

use crate::parser::data_structs::{DataStruct, DataStructView};

verus! {

/// The top-level members of a dump, in the order they come.
pub struct ParsedFile {
    pub members: Vec<DataStruct>,
}

/// The mathematical value of a [`ParsedFile`].
pub struct ParsedFileView {
    pub members: Seq<DataStructView>,
}

impl View for ParsedFile {
    type V = ParsedFileView;

    open spec fn view(&self) -> ParsedFileView {
        ParsedFileView { members: self.members@.map_values(|d: DataStruct| d@) }
    }
}

} // verus!
