//! An immutable in-memory snapshot of a directory tree, with exact-path
//! lookup, glob search and an extraction plan.

mod dir;
mod extract;
mod file;
mod glob;
mod lemmas;
mod path;

pub use dir::{Dir, DirEntry};
pub use extract::{lemma_files_written_under_base_names, ExtractStep};
pub use file::File;
pub use glob::{Pattern, PatternError, PatternErrorKind, Token};
pub use lemmas::{
    lemma_absent_path_not_found, lemma_every_path_pattern_finds_all, lemma_present_entry_found,
    lemma_txt_pattern_finds_top_level_txt,
};
pub use path::{base_name_of, path_components, same_path};
