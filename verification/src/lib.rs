pub mod completion;
pub mod diagnostics;
pub mod document;
pub mod documents;
pub mod edits;
pub mod encoding;
pub mod knowledge;
pub mod line_index;
pub mod position;
pub mod query;
pub mod semantic;
pub mod strutil;
pub mod tree;
