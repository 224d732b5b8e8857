//! The response document: plain structures mirroring the search results and errors.

use vstd::prelude::*;

use crate::model::{
    error_kind_name, error_message, language_name, search_mode_name, section_category_name,
    target_kind_name, trace_relation_name, copy_opt_string, copy_strings, opt_view, NamedText,
    SearchError, SearchHit, SearchMode, SearchRawTarget, SearchResults, SearchTargetKind,
    SectionCategory, SupportedLanguage, TraceEntry, TraceLocation, TraceReference, TraceRelation,
    TraceSection, TraceStep,
};
use crate::text::strings_view;

verus! {

/// The response to a search. Each result's relevance score is added beside it when the
/// document is written out.
pub struct SearchResponse {
    pub schema_version: u32,
    pub query: String,
    pub mode: String,
    pub stats: SearchStats,
    pub results: Vec<SearchResultItem>,
}

/// The counts of a search.
pub struct SearchStats {
    pub scanned_file_count: usize,
    pub matched_target_count: usize,
    pub warning_count: usize,
}

/// One result of the response.
pub struct SearchResultItem {
    pub target_id: String,
    pub target_kind: String,
    pub symbol_name: String,
    pub file_path: String,
    pub language: String,
    pub line_start: usize,
    pub line_end: usize,
    pub semantic_role: Option<String>,
    pub sections: Vec<Section>,
    pub raw_target: RawTarget,
}

/// The raw target data of a result.
pub struct RawTarget {
    pub signature_text: Option<String>,
    pub return_type_hint: Option<String>,
    pub parameter_descriptions: Vec<NamedTextItem>,
    pub incoming_dependencies: Vec<TraceReferenceItem>,
    pub outgoing_dependencies: Vec<TraceReferenceItem>,
    pub flow_steps: Vec<TraceStepItem>,
    pub container_name: Option<String>,
    pub parent_symbol_name: Option<String>,
    pub import_hint: Option<String>,
}

/// A trace section of a result.
pub struct Section {
    pub category: String,
    pub entries: Vec<SectionEntry>,
}

/// An entry of a trace section.
pub struct SectionEntry {
    pub relation: Option<String>,
    pub text: String,
    pub location: Option<LocationItem>,
    pub annotations: Vec<String>,
}

/// A location in a file.
pub struct LocationItem {
    pub file_path: String,
    pub line_start: usize,
    pub line_end: usize,
    pub context_symbol_name: Option<String>,
}

/// A name with its text.
pub struct NamedTextItem {
    pub name: String,
    pub text: String,
}

/// A reference to related code.
pub struct TraceReferenceItem {
    pub label: String,
    pub line_start: usize,
    pub line_end: usize,
    pub snippet: String,
    pub detail: Option<String>,
}

/// A data-flow step.
pub struct TraceStepItem {
    pub label: String,
    pub line_start: usize,
    pub line_end: usize,
    pub snippet: String,
}

/// The response to a failed search.
pub struct ErrorResponse {
    pub error: ErrorDetail,
}

/// The kind and message of an error.
pub struct ErrorDetail {
    pub kind: String,
    pub message: String,
}

// ---------------------------------------------------------------------------
// Correspondence between the domain and the response
// ---------------------------------------------------------------------------

/// `item` renders the location `l`.
pub open spec fn location_item_of(item: LocationItem, l: TraceLocation) -> bool {
    &&& item.file_path@ == l.file_path@
    &&& item.line_start == l.line_start
    &&& item.line_end == l.line_end
    &&& opt_view(item.context_symbol_name) == opt_view(l.context_symbol_name)
}

/// `item` renders the entry `e`.
pub open spec fn section_entry_of(item: SectionEntry, e: TraceEntry) -> bool {
    &&& match (item.relation, e.relation) {
        (Some(r), Some(x)) => r@ == trace_relation_name(x),
        (None, None) => true,
        _ => false,
    }
    &&& item.text@ == e.text@
    &&& match (item.location, e.location) {
        (Some(a), Some(b)) => location_item_of(a, b),
        (None, None) => true,
        _ => false,
    }
    &&& strings_view(item.annotations@) == strings_view(e.annotations@)
}

/// `item` renders the section `s`.
pub open spec fn section_of(item: Section, s: TraceSection) -> bool {
    &&& item.category@ == section_category_name(s.category)
    &&& item.entries.len() == s.entries.len()
    &&& forall|k: int| 0 <= k < s.entries.len() ==> section_entry_of(#[trigger] item.entries@[k], s.entries@[k])
}

/// `item` renders the named text `n`.
pub open spec fn named_text_item_of(item: NamedTextItem, n: NamedText) -> bool {
    item.name@ == n.name@ && item.text@ == n.text@
}

/// `item` renders the reference `r`.
pub open spec fn trace_reference_item_of(item: TraceReferenceItem, r: TraceReference) -> bool {
    &&& item.label@ == r.label@
    &&& item.line_start == r.line_start
    &&& item.line_end == r.line_end
    &&& item.snippet@ == r.snippet@
    &&& opt_view(item.detail) == opt_view(r.detail)
}

/// `item` renders the flow step `s`.
pub open spec fn trace_step_item_of(item: TraceStepItem, s: TraceStep) -> bool {
    &&& item.label@ == s.label@
    &&& item.line_start == s.line_start
    &&& item.line_end == s.line_end
    &&& item.snippet@ == s.snippet@
}

/// `item` renders the raw target `r`.
pub open spec fn raw_target_of(item: RawTarget, r: SearchRawTarget) -> bool {
    &&& opt_view(item.signature_text) == opt_view(r.signature_text)
    &&& opt_view(item.return_type_hint) == opt_view(r.return_type_hint)
    &&& item.parameter_descriptions.len() == r.parameter_descriptions.len()
    &&& forall|k: int|
        0 <= k < r.parameter_descriptions.len() ==> named_text_item_of(
            #[trigger] item.parameter_descriptions@[k],
            r.parameter_descriptions@[k],
        )
    &&& item.incoming_dependencies.len() == r.incoming_dependencies.len()
    &&& forall|k: int|
        0 <= k < r.incoming_dependencies.len() ==> trace_reference_item_of(
            #[trigger] item.incoming_dependencies@[k],
            r.incoming_dependencies@[k],
        )
    &&& item.outgoing_dependencies.len() == r.outgoing_dependencies.len()
    &&& forall|k: int|
        0 <= k < r.outgoing_dependencies.len() ==> trace_reference_item_of(
            #[trigger] item.outgoing_dependencies@[k],
            r.outgoing_dependencies@[k],
        )
    &&& item.flow_steps.len() == r.flow_steps.len()
    &&& forall|k: int|
        0 <= k < r.flow_steps.len() ==> trace_step_item_of(#[trigger] item.flow_steps@[k], r.flow_steps@[k])
    &&& opt_view(item.container_name) == opt_view(r.container_name)
    &&& opt_view(item.parent_symbol_name) == opt_view(r.parent_symbol_name)
    &&& opt_view(item.import_hint) == opt_view(r.import_hint)
}

/// `item` renders the hit `h`.
pub open spec fn result_item_of(item: SearchResultItem, h: SearchHit) -> bool {
    &&& item.target_id@ == h.target_id@
    &&& item.target_kind@ == target_kind_name(h.target_kind)
    &&& item.symbol_name@ == h.symbol_name@
    &&& item.file_path@ == h.file_path@
    &&& item.language@ == language_name(h.language)
    &&& item.line_start == h.line_start
    &&& item.line_end == h.line_end
    &&& opt_view(item.semantic_role) == opt_view(h.semantic_role)
    &&& item.sections.len() == h.sections.len()
    &&& forall|k: int| 0 <= k < h.sections.len() ==> section_of(#[trigger] item.sections@[k], h.sections@[k])
    &&& raw_target_of(item.raw_target, h.raw_target)
}

// ---------------------------------------------------------------------------
// Builders
// ---------------------------------------------------------------------------

/// The name of a target kind (see `SearchTargetKind::as_str`).
pub fn search_target_kind_to_string(target_kind: SearchTargetKind) -> (s: &'static str)
    ensures
        s@ == target_kind_name(target_kind),
{
    target_kind.as_str()
}

/// The name of a language (see `SupportedLanguage::as_str`).
pub fn supported_language_to_string(language: SupportedLanguage) -> (s: &'static str)
    ensures
        s@ == language_name(language),
{
    language.as_str()
}

/// The name of a section category (see `SectionCategory::as_str`).
pub fn section_category_to_string(category: SectionCategory) -> (s: &'static str)
    ensures
        s@ == section_category_name(category),
{
    category.as_str()
}

/// The name of a trace relation (see `TraceRelation::as_str`).
pub fn trace_relation_to_string(relation: TraceRelation) -> (s: &'static str)
    ensures
        s@ == trace_relation_name(relation),
{
    relation.as_str()
}

/// The response item of a location.
pub fn build_location_item(location: &TraceLocation) -> (item: LocationItem)
    ensures
        location_item_of(item, *location),
{
    LocationItem {
        file_path: location.file_path.clone(),
        line_start: location.line_start,
        line_end: location.line_end,
        context_symbol_name: copy_opt_string(&location.context_symbol_name),
    }
}

/// The response item of a named text.
pub fn build_named_text_item(named_text: &NamedText) -> (item: NamedTextItem)
    ensures
        named_text_item_of(item, *named_text),
{
    NamedTextItem { name: named_text.name.clone(), text: named_text.text.clone() }
}

/// The response item of a trace reference.
pub fn build_trace_reference_item(trace_reference: &TraceReference) -> (item: TraceReferenceItem)
    ensures
        trace_reference_item_of(item, *trace_reference),
{
    TraceReferenceItem {
        label: trace_reference.label.clone(),
        line_start: trace_reference.line_start,
        line_end: trace_reference.line_end,
        snippet: trace_reference.snippet.clone(),
        detail: copy_opt_string(&trace_reference.detail),
    }
}

/// The response item of a flow step.
pub fn build_trace_step_item(trace_step: &TraceStep) -> (item: TraceStepItem)
    ensures
        trace_step_item_of(item, *trace_step),
{
    TraceStepItem {
        label: trace_step.label.clone(),
        line_start: trace_step.line_start,
        line_end: trace_step.line_end,
        snippet: trace_step.snippet.clone(),
    }
}

/// The response item of a section entry.
pub fn build_section_entry(entry: &TraceEntry) -> (item: SectionEntry)
    ensures
        section_entry_of(item, *entry),
{
    let relation = match entry.relation {
        Some(relation) => Some(String::from_str(trace_relation_to_string(relation))),
        None => None,
    };
    let location = match &entry.location {
        Some(location) => Some(build_location_item(location)),
        None => None,
    };
    SectionEntry { relation, text: entry.text.clone(), location, annotations: copy_strings(&entry.annotations) }
}

/// The response item of a section.
pub fn build_section(section: &TraceSection) -> (item: Section)
    ensures
        section_of(item, *section),
{
    let mut entries: Vec<SectionEntry> = Vec::new();
    let mut k: usize = 0;
    while k < section.entries.len()
        invariant
            k <= section.entries.len(),
            entries.len() == k,
            forall|j: int| 0 <= j < k ==> section_entry_of(#[trigger] entries@[j], section.entries@[j]),
        decreases section.entries.len() - k,
    {
        entries.push(build_section_entry(&section.entries[k]));
        k = k + 1;
    }
    Section { category: String::from_str(section_category_to_string(section.category)), entries }
}

/// The raw target of a response item.
pub fn build_raw_target(raw_target: &SearchRawTarget) -> (item: RawTarget)
    ensures
        raw_target_of(item, *raw_target),
{
    let mut parameter_descriptions: Vec<NamedTextItem> = Vec::new();
    let mut k: usize = 0;
    while k < raw_target.parameter_descriptions.len()
        invariant
            k <= raw_target.parameter_descriptions.len(),
            parameter_descriptions.len() == k,
            forall|j: int|
                0 <= j < k ==> named_text_item_of(
                    #[trigger] parameter_descriptions@[j],
                    raw_target.parameter_descriptions@[j],
                ),
        decreases raw_target.parameter_descriptions.len() - k,
    {
        parameter_descriptions.push(build_named_text_item(&raw_target.parameter_descriptions[k]));
        k = k + 1;
    }
    let mut incoming_dependencies: Vec<TraceReferenceItem> = Vec::new();
    let mut k: usize = 0;
    while k < raw_target.incoming_dependencies.len()
        invariant
            k <= raw_target.incoming_dependencies.len(),
            incoming_dependencies.len() == k,
            forall|j: int|
                0 <= j < k ==> trace_reference_item_of(
                    #[trigger] incoming_dependencies@[j],
                    raw_target.incoming_dependencies@[j],
                ),
        decreases raw_target.incoming_dependencies.len() - k,
    {
        incoming_dependencies.push(build_trace_reference_item(&raw_target.incoming_dependencies[k]));
        k = k + 1;
    }
    let mut outgoing_dependencies: Vec<TraceReferenceItem> = Vec::new();
    let mut k: usize = 0;
    while k < raw_target.outgoing_dependencies.len()
        invariant
            k <= raw_target.outgoing_dependencies.len(),
            outgoing_dependencies.len() == k,
            forall|j: int|
                0 <= j < k ==> trace_reference_item_of(
                    #[trigger] outgoing_dependencies@[j],
                    raw_target.outgoing_dependencies@[j],
                ),
        decreases raw_target.outgoing_dependencies.len() - k,
    {
        outgoing_dependencies.push(build_trace_reference_item(&raw_target.outgoing_dependencies[k]));
        k = k + 1;
    }
    let mut flow_steps: Vec<TraceStepItem> = Vec::new();
    let mut k: usize = 0;
    while k < raw_target.flow_steps.len()
        invariant
            k <= raw_target.flow_steps.len(),
            flow_steps.len() == k,
            forall|j: int| 0 <= j < k ==> trace_step_item_of(#[trigger] flow_steps@[j], raw_target.flow_steps@[j]),
        decreases raw_target.flow_steps.len() - k,
    {
        flow_steps.push(build_trace_step_item(&raw_target.flow_steps[k]));
        k = k + 1;
    }
    RawTarget {
        signature_text: copy_opt_string(&raw_target.signature_text),
        return_type_hint: copy_opt_string(&raw_target.return_type_hint),
        parameter_descriptions,
        incoming_dependencies,
        outgoing_dependencies,
        flow_steps,
        container_name: copy_opt_string(&raw_target.container_name),
        parent_symbol_name: copy_opt_string(&raw_target.parent_symbol_name),
        import_hint: copy_opt_string(&raw_target.import_hint),
    }
}

/// The response item of a hit.
pub fn build_search_result_item(search_hit: &SearchHit) -> (item: SearchResultItem)
    ensures
        result_item_of(item, *search_hit),
{
    let mut sections: Vec<Section> = Vec::new();
    let mut k: usize = 0;
    while k < search_hit.sections.len()
        invariant
            k <= search_hit.sections.len(),
            sections.len() == k,
            forall|j: int| 0 <= j < k ==> section_of(#[trigger] sections@[j], search_hit.sections@[j]),
        decreases search_hit.sections.len() - k,
    {
        sections.push(build_section(&search_hit.sections[k]));
        k = k + 1;
    }
    SearchResultItem {
        target_id: search_hit.target_id.clone(),
        target_kind: String::from_str(search_target_kind_to_string(search_hit.target_kind)),
        symbol_name: search_hit.symbol_name.clone(),
        file_path: search_hit.file_path.clone(),
        language: String::from_str(supported_language_to_string(search_hit.language)),
        line_start: search_hit.line_start,
        line_end: search_hit.line_end,
        semantic_role: copy_opt_string(&search_hit.semantic_role),
        sections,
        raw_target: build_raw_target(&search_hit.raw_target),
    }
}

/// The response document of a search: schema version 1, the query, the mode's name, the
/// counts, and one item per hit in order.
pub fn build_search_response(query: &str, mode: SearchMode, search_results: &SearchResults) -> (response: SearchResponse)
    ensures
        response.schema_version == 1,
        response.query@ == query@,
        response.mode@ == search_mode_name(mode),
        response.stats.scanned_file_count == search_results.scanned_file_count,
        response.stats.matched_target_count == search_results.matched_target_count,
        response.stats.warning_count == search_results.warning_count,
        response.results.len() == search_results.results.len(),
        forall|k: int|
            0 <= k < search_results.results.len() ==> result_item_of(
                #[trigger] response.results@[k],
                search_results.results@[k],
            ),
{
    let mut results: Vec<SearchResultItem> = Vec::new();
    let mut k: usize = 0;
    while k < search_results.results.len()
        invariant
            k <= search_results.results.len(),
            results.len() == k,
            forall|j: int| 0 <= j < k ==> result_item_of(#[trigger] results@[j], search_results.results@[j]),
        decreases search_results.results.len() - k,
    {
        results.push(build_search_result_item(&search_results.results[k]));
        k = k + 1;
    }
    SearchResponse {
        schema_version: 1,
        query: String::from_str(query),
        mode: String::from_str(mode.as_str()),
        stats: SearchStats {
            scanned_file_count: search_results.scanned_file_count,
            matched_target_count: search_results.matched_target_count,
            warning_count: search_results.warning_count,
        },
        results,
    }
}

/// The response document of an error: its kind and message.
pub fn build_error_response(error: &SearchError) -> (response: ErrorResponse)
    ensures
        response.error.kind@ == error_kind_name(*error),
        response.error.message@ == error_message(*error),
{
    ErrorResponse { error: ErrorDetail { kind: String::from_str(error.kind()), message: error.message() } }
}

} // verus!
