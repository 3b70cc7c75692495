//! Links emitted log lines back to the source statements that produced them,
//! and recovers the values of the variables that the statements interpolated.

pub mod text;
pub mod language;
pub mod format;
pub mod source_ref;
pub mod log_ref;
pub mod matcher;
pub mod code_source;
pub mod extract;

pub use code_source::{CodeSource, SourceQuery};
pub use extract::{extract_logging, statements_in_file};
pub use format::FormatArgument;
pub use language::SourceLanguage;
pub use log_ref::{
    extract_variables, filter_log, link_to_source, lookup_source, LogDetails, LogFormat, LogRef,
    VariablePair,
};
pub use matcher::{LogError, LogMapping, LogMatcher, SourceTree, StatementsInFile};
pub use source_ref::{QueryMatch, SourceRef};
