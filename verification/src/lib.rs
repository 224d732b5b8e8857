//! Structure-aware code search: target extraction, ranking support and rendering.

mod unicode;
pub mod text;
pub mod paths;
pub mod model;
pub mod search;
pub mod parser;
pub mod output;

pub use model::{
    build_target_id, NamedText, SearchError, SearchHit, SearchMode, SearchRawTarget, SearchRequest,
    SearchResults, SearchTargetKind, SectionCategory, SupportedLanguage, TraceEntry, TraceLocation,
    TraceReference, TraceRelation, TraceSection, TraceStep,
};
pub use output::OutputFormat;
