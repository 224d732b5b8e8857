//! The search domain: requests, targets, trace sections, hits and errors.

use vstd::prelude::*;

use crate::paths::{path_extension, path_extension_spec};
use crate::unicode::{chars_of, push_char};

verus! {

/// A search over the supported source files under `directory_path`.
#[derive(Clone, Debug)]
pub struct SearchRequest {
    pub directory_path: String,
    pub query: String,
    pub limit: usize,
}

/// How results are ordered: exact symbol matches first, or by relevance alone.
#[derive(Clone, Copy, Debug, PartialEq, Eq, Structural)]
pub enum SearchMode {
    Direct,
    Explore,
}

/// The name of a search mode.
pub open spec fn search_mode_name(mode: SearchMode) -> Seq<char> {
    match mode {
        SearchMode::Direct => "direct"@,
        SearchMode::Explore => "explore"@,
    }
}

impl SearchMode {
    /// The mode's name: `direct` or `explore`.
    pub fn as_str(&self) -> (s: &'static str)
        ensures
            s@ == search_mode_name(*self),
    {
        match self {
            SearchMode::Direct => "direct",
            SearchMode::Explore => "explore",
        }
    }
}

/// A searchable unit extracted from a source file.
#[derive(Clone, Debug)]
pub struct SearchTarget {
    pub target_id: String,
    pub file_path: String,
    pub language: SupportedLanguage,
    pub target_kind: SearchTargetKind,
    pub symbol_name: String,
    pub parent_symbol_name: Option<String>,
    pub parent_symbol_name_search_text: Option<String>,
    pub line_start: usize,
    pub line_end: usize,
    pub symbol_name_search_text: String,
    pub signature_search_text: String,
    pub context_search_text: String,
    pub declaration_snippet: String,
    pub signature_text: Option<String>,
    pub return_type_hint: Option<String>,
    pub parameter_descriptions: Vec<NamedText>,
    pub incoming_dependencies: Vec<TraceReference>,
    pub outgoing_dependencies: Vec<TraceReference>,
    pub flow_steps: Vec<TraceStep>,
    pub call_names: Vec<String>,
    pub doc_comment: Option<String>,
    pub semantic_role: Option<String>,
    pub sibling_symbol_names: Vec<String>,
    pub container_name: Option<String>,
    pub import_hint: Option<String>,
}

/// A name with its describing text (a parameter and its declaration).
#[derive(Clone, Debug)]
pub struct NamedText {
    pub name: String,
    pub text: String,
}

/// A reference from a target to a related piece of code.
#[derive(Clone, Debug)]
pub struct TraceReference {
    pub label: String,
    pub line_start: usize,
    pub line_end: usize,
    pub snippet: String,
    pub detail: Option<String>,
}

/// A step of a local binding's data flow.
#[derive(Clone, Debug)]
pub struct TraceStep {
    pub label: String,
    pub line_start: usize,
    pub line_end: usize,
    pub snippet: String,
}

/// The structured data of a hit's target, reported as is.
#[derive(Clone, Debug)]
pub struct SearchRawTarget {
    pub signature_text: Option<String>,
    pub return_type_hint: Option<String>,
    pub parameter_descriptions: Vec<NamedText>,
    pub incoming_dependencies: Vec<TraceReference>,
    pub outgoing_dependencies: Vec<TraceReference>,
    pub flow_steps: Vec<TraceStep>,
    pub container_name: Option<String>,
    pub parent_symbol_name: Option<String>,
    pub import_hint: Option<String>,
}

/// A search result: the target and its trace sections. The relevance score, a
/// floating-point number, is kept beside the hit by the ranking stage.
#[derive(Clone, Debug)]
pub struct SearchHit {
    pub target_id: String,
    pub target_kind: SearchTargetKind,
    pub symbol_name: String,
    pub file_path: String,
    pub language: SupportedLanguage,
    pub line_start: usize,
    pub line_end: usize,
    pub sections: Vec<TraceSection>,
    pub semantic_role: Option<String>,
    pub raw_target: SearchRawTarget,
}

/// A titled group of trace entries.
#[derive(Clone, Debug)]
pub struct TraceSection {
    pub category: SectionCategory,
    pub entries: Vec<TraceEntry>,
}

/// One line of a trace section.
#[derive(Clone, Debug)]
pub struct TraceEntry {
    pub relation: Option<TraceRelation>,
    pub text: String,
    pub location: Option<TraceLocation>,
    pub annotations: Vec<String>,
}

/// A line range in a file, optionally inside a named symbol.
#[derive(Clone, Debug)]
pub struct TraceLocation {
    pub file_path: String,
    pub line_start: usize,
    pub line_end: usize,
    pub context_symbol_name: Option<String>,
}

impl TraceLocation {
    /// A location with no context symbol.
    pub fn new(file_path: String, line_start: usize, line_end: usize) -> (location: Self)
        ensures
            location.file_path == file_path,
            location.line_start == line_start,
            location.line_end == line_end,
            location.context_symbol_name is None,
    {
        TraceLocation { file_path, line_start, line_end, context_symbol_name: None }
    }
}

/// How a trace entry relates to the hit.
#[derive(Clone, Copy, Debug, PartialEq, Eq, Structural)]
pub enum TraceRelation {
    IncomingCall,
    OutgoingCall,
    IncomingDep,
    OutgoingDep,
}

/// The name of a trace relation.
pub open spec fn trace_relation_name(relation: TraceRelation) -> Seq<char> {
    match relation {
        TraceRelation::IncomingCall => "incoming_call"@,
        TraceRelation::OutgoingCall => "outgoing_call"@,
        TraceRelation::IncomingDep => "incoming_dep"@,
        TraceRelation::OutgoingDep => "outgoing_dep"@,
    }
}

/// The arrow that marks a trace relation in text output.
pub open spec fn trace_relation_marker(relation: TraceRelation) -> Seq<char> {
    match relation {
        TraceRelation::IncomingCall => "↑"@,
        TraceRelation::OutgoingCall => "↓"@,
        TraceRelation::IncomingDep => "←"@,
        TraceRelation::OutgoingDep => "→"@,
    }
}

impl TraceRelation {
    /// The relation's name, such as `incoming_call`.
    pub fn as_str(&self) -> (s: &'static str)
        ensures
            s@ == trace_relation_name(*self),
    {
        match self {
            TraceRelation::IncomingCall => "incoming_call",
            TraceRelation::OutgoingCall => "outgoing_call",
            TraceRelation::IncomingDep => "incoming_dep",
            TraceRelation::OutgoingDep => "outgoing_dep",
        }
    }

    /// The relation's arrow in text output: `↑`, `↓`, `←` or `→`.
    pub fn marker(&self) -> (s: &'static str)
        ensures
            s@ == trace_relation_marker(*self),
    {
        match self {
            TraceRelation::IncomingCall => "↑",
            TraceRelation::OutgoingCall => "↓",
            TraceRelation::IncomingDep => "←",
            TraceRelation::OutgoingDep => "→",
        }
    }
}

/// What a trace section shows.
#[derive(Clone, Copy, Debug, PartialEq, Eq, Structural)]
pub enum SectionCategory {
    Declaration,
    DataFlow,
    Dependency,
    Implementation,
    Callers,
    Test,
    Documentation,
    Context,
    Usage,
    MatchCode,
}

/// The machine name of a section category.
pub open spec fn section_category_name(category: SectionCategory) -> Seq<char> {
    match category {
        SectionCategory::Declaration => "declaration"@,
        SectionCategory::DataFlow => "data_flow"@,
        SectionCategory::Dependency => "dependency"@,
        SectionCategory::Implementation => "implementation"@,
        SectionCategory::Callers => "callers"@,
        SectionCategory::Test => "test"@,
        SectionCategory::Documentation => "documentation"@,
        SectionCategory::Context => "context"@,
        SectionCategory::Usage => "usage"@,
        SectionCategory::MatchCode => "match_code"@,
    }
}

/// The display title of a section category.
pub open spec fn section_category_title(category: SectionCategory) -> Seq<char> {
    match category {
        SectionCategory::Declaration => "선언"@,
        SectionCategory::DataFlow => "데이터 흐름"@,
        SectionCategory::Dependency => "의존성"@,
        SectionCategory::Implementation => "구현"@,
        SectionCategory::Callers => "상위 호출지점"@,
        SectionCategory::Test => "Tests"@,
        SectionCategory::Documentation => "Documentation"@,
        SectionCategory::Context => "Context"@,
        SectionCategory::Usage => "사용법"@,
        SectionCategory::MatchCode => "Matching Code"@,
    }
}

impl SectionCategory {
    /// The category's machine name, such as `data_flow`.
    pub fn as_str(&self) -> (s: &'static str)
        ensures
            s@ == section_category_name(*self),
    {
        match self {
            SectionCategory::Declaration => "declaration",
            SectionCategory::DataFlow => "data_flow",
            SectionCategory::Dependency => "dependency",
            SectionCategory::Implementation => "implementation",
            SectionCategory::Callers => "callers",
            SectionCategory::Test => "test",
            SectionCategory::Documentation => "documentation",
            SectionCategory::Context => "context",
            SectionCategory::Usage => "usage",
            SectionCategory::MatchCode => "match_code",
        }
    }

    /// The category's heading in text output, such as `데이터 흐름` (the headings the docs show,
    /// in Korean; the others in English).
    pub fn title(&self) -> (s: &'static str)
        ensures
            s@ == section_category_title(*self),
    {
        match self {
            SectionCategory::Declaration => "선언",
            SectionCategory::DataFlow => "데이터 흐름",
            SectionCategory::Dependency => "의존성",
            SectionCategory::Implementation => "구현",
            SectionCategory::Callers => "상위 호출지점",
            SectionCategory::Test => "Tests",
            SectionCategory::Documentation => "Documentation",
            SectionCategory::Context => "Context",
            SectionCategory::Usage => "사용법",
            SectionCategory::MatchCode => "Matching Code",
        }
    }
}

/// The outcome of a search.
#[derive(Clone, Debug)]
pub struct SearchResults {
    pub results: Vec<SearchHit>,
    pub scanned_file_count: usize,
    pub matched_target_count: usize,
    pub warning_count: usize,
}

/// A language whose files are searched.
#[derive(Clone, Copy, Debug, PartialEq, Eq, Hash, Structural)]
pub enum SupportedLanguage {
    Rust,
    Go,
    TypeScript,
}

/// The language of a file with extension `ext`: `rs`, `go`, `ts` and `tsx`.
pub open spec fn language_of_extension(ext: Option<Seq<char>>) -> Option<SupportedLanguage> {
    match ext {
        Some(e) => if e == seq!['r', 's'] {
            Some(SupportedLanguage::Rust)
        } else if e == seq!['g', 'o'] {
            Some(SupportedLanguage::Go)
        } else if e == seq!['t', 's'] || e == seq!['t', 's', 'x'] {
            Some(SupportedLanguage::TypeScript)
        } else {
            None
        },
        None => None,
    }
}

/// The name of a language.
pub open spec fn language_name(language: SupportedLanguage) -> Seq<char> {
    match language {
        SupportedLanguage::Rust => "rust"@,
        SupportedLanguage::Go => "go"@,
        SupportedLanguage::TypeScript => "typescript"@,
    }
}

/// Whether `s` holds exactly the characters `expected`.
pub fn chars_equal(s: &str, expected: &[char]) -> (r: bool)
    ensures
        r == (s@ == expected@),
{
    let chars = chars_of(s);
    if chars.len() != expected.len() {
        return false;
    }
    let mut i: usize = 0;
    while i < chars.len()
        invariant
            i <= chars.len() == expected@.len(),
            chars@ == s@,
            forall|j: int| 0 <= j < i ==> chars@[j] == expected@[j],
        decreases chars.len() - i,
    {
        if chars[i] != expected[i] {
            return false;
        }
        i = i + 1;
    }
    assert(chars@ =~= expected@);
    true
}

impl SupportedLanguage {
    /// The language of the file at `path`, judged by its extension.
    pub fn from_path(path: &str) -> (language: Option<SupportedLanguage>)
        ensures
            language == language_of_extension(path_extension_spec(path@)),
    {
        let ext = match path_extension(path) {
            Some(ext) => ext,
            None => return None,
        };
        let e = ext.as_str();
        proof {
            assert(seq!['r', 's'] == ['r', 's']@) by {
                assert(seq!['r', 's'] =~= ['r', 's']@);
            }
            assert(seq!['g', 'o'] =~= ['g', 'o']@);
            assert(seq!['t', 's'] =~= ['t', 's']@);
            assert(seq!['t', 's', 'x'] =~= ['t', 's', 'x']@);
        }
        if chars_equal(e, &['r', 's']) {
            Some(SupportedLanguage::Rust)
        } else if chars_equal(e, &['g', 'o']) {
            Some(SupportedLanguage::Go)
        } else if chars_equal(e, &['t', 's']) || chars_equal(e, &['t', 's', 'x']) {
            Some(SupportedLanguage::TypeScript)
        } else {
            None
        }
    }

    /// The language's name: `rust`, `go` or `typescript`.
    pub fn as_str(&self) -> (s: &'static str)
        ensures
            s@ == language_name(*self),
    {
        match self {
            SupportedLanguage::Rust => "rust",
            SupportedLanguage::Go => "go",
            SupportedLanguage::TypeScript => "typescript",
        }
    }
}

/// The kind of a search target.
#[derive(Clone, Copy, Debug, PartialEq, Eq, Structural)]
pub enum SearchTargetKind {
    LocalBinding,
    Function,
    Method,
    Type,
    File,
}

/// The machine name of a target kind.
pub open spec fn target_kind_name(kind: SearchTargetKind) -> Seq<char> {
    match kind {
        SearchTargetKind::LocalBinding => "local_binding"@,
        SearchTargetKind::Function => "function"@,
        SearchTargetKind::Method => "method"@,
        SearchTargetKind::Type => "type"@,
        SearchTargetKind::File => "file"@,
    }
}

/// The short label of a target kind in text output.
pub open spec fn target_kind_label(kind: SearchTargetKind) -> Seq<char> {
    match kind {
        SearchTargetKind::LocalBinding => "local"@,
        SearchTargetKind::Function => "function"@,
        SearchTargetKind::Method => "method"@,
        SearchTargetKind::Type => "type"@,
        SearchTargetKind::File => "file"@,
    }
}

/// Functions and methods are callable.
pub open spec fn is_callable_kind(kind: SearchTargetKind) -> bool {
    kind == SearchTargetKind::Function || kind == SearchTargetKind::Method
}

impl SearchTargetKind {
    /// Whether targets of this kind can be called: functions and methods.
    pub fn is_callable(&self) -> (r: bool)
        ensures
            r == is_callable_kind(*self),
    {
        match self {
            SearchTargetKind::Function | SearchTargetKind::Method => true,
            _ => false,
        }
    }

    /// The kind's machine name, such as `local_binding`.
    pub fn as_str(&self) -> (s: &'static str)
        ensures
            s@ == target_kind_name(*self),
    {
        match self {
            SearchTargetKind::LocalBinding => "local_binding",
            SearchTargetKind::Function => "function",
            SearchTargetKind::Method => "method",
            SearchTargetKind::Type => "type",
            SearchTargetKind::File => "file",
        }
    }

    /// The kind's label in text output, such as `local`.
    pub fn label(&self) -> (s: &'static str)
        ensures
            s@ == target_kind_label(*self),
    {
        match self {
            SearchTargetKind::LocalBinding => "local",
            SearchTargetKind::Function => "function",
            SearchTargetKind::Method => "method",
            SearchTargetKind::Type => "type",
            SearchTargetKind::File => "file",
        }
    }
}

/// The decimal digit character for `d < 10`.
pub open spec fn digit_char(d: nat) -> char {
    if d == 0 {
        '0'
    } else if d == 1 {
        '1'
    } else if d == 2 {
        '2'
    } else if d == 3 {
        '3'
    } else if d == 4 {
        '4'
    } else if d == 5 {
        '5'
    } else if d == 6 {
        '6'
    } else if d == 7 {
        '7'
    } else if d == 8 {
        '8'
    } else {
        '9'
    }
}

/// The decimal representation of `n`, without leading zeros.
pub open spec fn decimal_spec(n: nat) -> Seq<char>
    decreases n,
{
    if n < 10 {
        seq![digit_char(n)]
    } else {
        decimal_spec(n / 10).push(digit_char(n % 10))
    }
}

fn digit(d: u64) -> (c: char)
    requires
        d < 10,
    ensures
        c == digit_char(d as nat),
{
    if d == 0 {
        '0'
    } else if d == 1 {
        '1'
    } else if d == 2 {
        '2'
    } else if d == 3 {
        '3'
    } else if d == 4 {
        '4'
    } else if d == 5 {
        '5'
    } else if d == 6 {
        '6'
    } else if d == 7 {
        '7'
    } else if d == 8 {
        '8'
    } else {
        '9'
    }
}

/// Appends the decimal representation of `n` to `out`.
pub fn push_decimal(out: &mut String, n: u64)
    ensures
        final(out)@ == old(out)@ + decimal_spec(n as nat),
    decreases n,
{
    if n < 10 {
        push_char(out, digit(n));
        assert(old(out)@.push(digit_char(n as nat)) =~= old(out)@ + seq![digit_char(n as nat)]);
    } else {
        push_decimal(out, n / 10);
        push_char(out, digit(n % 10));
        assert(old(out)@ + decimal_spec((n / 10) as nat) + seq![digit_char((n % 10) as nat)] =~= old(
            out,
        )@ + decimal_spec((n / 10) as nat).push(digit_char((n % 10) as nat)));
    }
}

/// The identifier of a target: `{path}#L{start}-L{end}:{kind}:{symbol}`.
pub open spec fn target_id_spec(
    file_path: Seq<char>,
    line_start: nat,
    line_end: nat,
    kind: SearchTargetKind,
    symbol_name: Seq<char>,
) -> Seq<char> {
    file_path + seq!['#', 'L'] + decimal_spec(line_start) + seq!['-', 'L'] + decimal_spec(line_end)
        + seq![':'] + target_kind_name(kind) + seq![':'] + symbol_name
}

/// Builds the identifier of a target (see `target_id_spec`).
pub fn build_target_id(
    file_path: &str,
    line_start: usize,
    line_end: usize,
    target_kind: SearchTargetKind,
    symbol_name: &str,
) -> (id: String)
    ensures
        id@ == target_id_spec(
            file_path@,
            line_start as nat,
            line_end as nat,
            target_kind,
            symbol_name@,
        ),
{
    let mut id = String::new();
    id.append(file_path);
    push_char(&mut id, '#');
    push_char(&mut id, 'L');
    push_decimal(&mut id, line_start as u64);
    push_char(&mut id, '-');
    push_char(&mut id, 'L');
    push_decimal(&mut id, line_end as u64);
    push_char(&mut id, ':');
    id.append(target_kind.as_str());
    push_char(&mut id, ':');
    id.append(symbol_name);
    assert(id@ =~= target_id_spec(
        file_path@,
        line_start as nat,
        line_end as nat,
        target_kind,
        symbol_name@,
    ));
    id
}

/// A failed search.
#[derive(Debug)]
pub enum SearchError {
    /// The request was rejected; the text says why.
    InvalidRequest(String),
    /// Reading the file system failed; the text is the operating system's message.
    Io(String),
    /// Indexing or querying failed; the text is the engine's message.
    SearchEngine(String),
}

/// The machine name of an error's kind.
pub open spec fn error_kind_name(error: SearchError) -> Seq<char> {
    match error {
        SearchError::InvalidRequest(_) => "invalid_request"@,
        SearchError::Io(_) => "io"@,
        SearchError::SearchEngine(_) => "search_engine"@,
    }
}

/// The human-readable message of an error.
pub open spec fn error_message(error: SearchError) -> Seq<char> {
    match error {
        SearchError::InvalidRequest(message) => message@,
        SearchError::Io(message) => "I/O error: "@ + message@,
        SearchError::SearchEngine(message) => "search engine error: "@ + message@,
    }
}

impl SearchError {
    /// The error's kind: `invalid_request`, `io` or `search_engine`.
    pub fn kind(&self) -> (s: &'static str)
        ensures
            s@ == error_kind_name(*self),
    {
        match self {
            SearchError::InvalidRequest(_) => "invalid_request",
            SearchError::Io(_) => "io",
            SearchError::SearchEngine(_) => "search_engine",
        }
    }

    /// The error's message (see `error_message`).
    pub fn message(&self) -> (s: String)
        ensures
            s@ == error_message(*self),
    {
        match self {
            SearchError::InvalidRequest(message) => message.clone(),
            SearchError::Io(message) => {
                let mut s = String::from_str("I/O error: ");
                s.append(message.as_str());
                s
            },
            SearchError::SearchEngine(message) => {
                let mut s = String::from_str("search engine error: ");
                s.append(message.as_str());
                s
            },
        }
    }
}

} // verus!

verus! {

// ---------------------------------------------------------------------------
// Views of trace data and exact copies
// ---------------------------------------------------------------------------

/// The content of a `TraceLocation`.
pub struct LocationView {
    pub file_path: Seq<char>,
    pub line_start: usize,
    pub line_end: usize,
    pub context_symbol_name: Option<Seq<char>>,
}

/// The content of a `TraceEntry`.
pub struct EntryView {
    pub relation: Option<TraceRelation>,
    pub text: Seq<char>,
    pub location: Option<LocationView>,
    pub annotations: Seq<Seq<char>>,
}

/// The content of a `TraceSection`.
pub struct SectionView {
    pub category: SectionCategory,
    pub entries: Seq<EntryView>,
}

/// The characters of an optional string.
pub open spec fn opt_view(o: Option<String>) -> Option<Seq<char>> {
    match o {
        Some(s) => Some(s@),
        None => None,
    }
}

impl View for TraceLocation {
    type V = LocationView;

    open spec fn view(&self) -> LocationView {
        LocationView {
            file_path: self.file_path@,
            line_start: self.line_start,
            line_end: self.line_end,
            context_symbol_name: opt_view(self.context_symbol_name),
        }
    }
}

impl View for TraceEntry {
    type V = EntryView;

    open spec fn view(&self) -> EntryView {
        EntryView {
            relation: self.relation,
            text: self.text@,
            location: match self.location {
                Some(l) => Some(l@),
                None => None,
            },
            annotations: self.annotations@.map_values(|a: String| a@),
        }
    }
}

impl View for TraceSection {
    type V = SectionView;

    open spec fn view(&self) -> SectionView {
        SectionView { category: self.category, entries: self.entries@.map_values(|e: TraceEntry| e@) }
    }
}

/// The content of a `TraceReference`.
pub struct ReferenceView {
    pub label: Seq<char>,
    pub line_start: usize,
    pub line_end: usize,
    pub snippet: Seq<char>,
    pub detail: Option<Seq<char>>,
}

/// The content of a `TraceStep`.
pub struct StepView {
    pub label: Seq<char>,
    pub line_start: usize,
    pub line_end: usize,
    pub snippet: Seq<char>,
}

impl View for TraceReference {
    type V = ReferenceView;

    open spec fn view(&self) -> ReferenceView {
        ReferenceView {
            label: self.label@,
            line_start: self.line_start,
            line_end: self.line_end,
            snippet: self.snippet@,
            detail: opt_view(self.detail),
        }
    }
}

impl View for TraceStep {
    type V = StepView;

    open spec fn view(&self) -> StepView {
        StepView {
            label: self.label@,
            line_start: self.line_start,
            line_end: self.line_end,
            snippet: self.snippet@,
        }
    }
}

impl View for NamedText {
    type V = (Seq<char>, Seq<char>);

    open spec fn view(&self) -> (Seq<char>, Seq<char>) {
        (self.name@, self.text@)
    }
}

/// The content of a `SearchTarget`.
pub struct TargetView {
    pub target_id: Seq<char>,
    pub file_path: Seq<char>,
    pub language: SupportedLanguage,
    pub target_kind: SearchTargetKind,
    pub symbol_name: Seq<char>,
    pub parent_symbol_name: Option<Seq<char>>,
    pub parent_symbol_name_search_text: Option<Seq<char>>,
    pub line_start: usize,
    pub line_end: usize,
    pub symbol_name_search_text: Seq<char>,
    pub signature_search_text: Seq<char>,
    pub context_search_text: Seq<char>,
    pub declaration_snippet: Seq<char>,
    pub signature_text: Option<Seq<char>>,
    pub return_type_hint: Option<Seq<char>>,
    pub parameter_descriptions: Seq<(Seq<char>, Seq<char>)>,
    pub incoming_dependencies: Seq<ReferenceView>,
    pub outgoing_dependencies: Seq<ReferenceView>,
    pub flow_steps: Seq<StepView>,
    pub call_names: Seq<Seq<char>>,
    pub doc_comment: Option<Seq<char>>,
    pub semantic_role: Option<Seq<char>>,
    pub sibling_symbol_names: Seq<Seq<char>>,
    pub container_name: Option<Seq<char>>,
    pub import_hint: Option<Seq<char>>,
}

impl View for SearchTarget {
    type V = TargetView;

    open spec fn view(&self) -> TargetView {
        TargetView {
            target_id: self.target_id@,
            file_path: self.file_path@,
            language: self.language,
            target_kind: self.target_kind,
            symbol_name: self.symbol_name@,
            parent_symbol_name: opt_view(self.parent_symbol_name),
            parent_symbol_name_search_text: opt_view(self.parent_symbol_name_search_text),
            line_start: self.line_start,
            line_end: self.line_end,
            symbol_name_search_text: self.symbol_name_search_text@,
            signature_search_text: self.signature_search_text@,
            context_search_text: self.context_search_text@,
            declaration_snippet: self.declaration_snippet@,
            signature_text: opt_view(self.signature_text),
            return_type_hint: opt_view(self.return_type_hint),
            parameter_descriptions: named_texts_view(self.parameter_descriptions@),
            incoming_dependencies: references_view(self.incoming_dependencies@),
            outgoing_dependencies: references_view(self.outgoing_dependencies@),
            flow_steps: steps_view(self.flow_steps@),
            call_names: crate::text::strings_view(self.call_names@),
            doc_comment: opt_view(self.doc_comment),
            semantic_role: opt_view(self.semantic_role),
            sibling_symbol_names: crate::text::strings_view(self.sibling_symbol_names@),
            container_name: opt_view(self.container_name),
            import_hint: opt_view(self.import_hint),
        }
    }
}

impl SearchTarget {
    /// An exact copy.
    pub fn duplicate(&self) -> (r: SearchTarget)
        ensures
            r@ == self@,
    {
        SearchTarget {
            target_id: self.target_id.clone(),
            file_path: self.file_path.clone(),
            language: self.language,
            target_kind: self.target_kind,
            symbol_name: self.symbol_name.clone(),
            parent_symbol_name: copy_opt_string(&self.parent_symbol_name),
            parent_symbol_name_search_text: copy_opt_string(&self.parent_symbol_name_search_text),
            line_start: self.line_start,
            line_end: self.line_end,
            symbol_name_search_text: self.symbol_name_search_text.clone(),
            signature_search_text: self.signature_search_text.clone(),
            context_search_text: self.context_search_text.clone(),
            declaration_snippet: self.declaration_snippet.clone(),
            signature_text: copy_opt_string(&self.signature_text),
            return_type_hint: copy_opt_string(&self.return_type_hint),
            parameter_descriptions: copy_named_texts(&self.parameter_descriptions),
            incoming_dependencies: copy_trace_references(&self.incoming_dependencies),
            outgoing_dependencies: copy_trace_references(&self.outgoing_dependencies),
            flow_steps: copy_trace_steps(&self.flow_steps),
            call_names: copy_strings(&self.call_names),
            doc_comment: copy_opt_string(&self.doc_comment),
            semantic_role: copy_opt_string(&self.semantic_role),
            sibling_symbol_names: copy_strings(&self.sibling_symbol_names),
            container_name: copy_opt_string(&self.container_name),
            import_hint: copy_opt_string(&self.import_hint),
        }
    }
}

/// The contents of a list of targets.
pub open spec fn targets_view(v: Seq<SearchTarget>) -> Seq<TargetView> {
    v.map_values(|t: SearchTarget| t@)
}

/// The contents of a list of trace references.
pub open spec fn references_view(v: Seq<TraceReference>) -> Seq<ReferenceView> {
    v.map_values(|r: TraceReference| r@)
}

/// The contents of a list of trace steps.
pub open spec fn steps_view(v: Seq<TraceStep>) -> Seq<StepView> {
    v.map_values(|r: TraceStep| r@)
}

/// The contents of a list of named texts.
pub open spec fn named_texts_view(v: Seq<NamedText>) -> Seq<(Seq<char>, Seq<char>)> {
    v.map_values(|r: NamedText| r@)
}

/// The contents of a list of sections.
pub open spec fn sections_view(sections: Seq<TraceSection>) -> Seq<SectionView> {
    sections.map_values(|s: TraceSection| s@)
}

/// An exact copy of an optional string.
pub fn copy_opt_string(o: &Option<String>) -> (r: Option<String>)
    ensures
        r == *o,
{
    match o {
        Some(s) => Some(s.clone()),
        None => None,
    }
}

/// An exact copy of a list of strings.
pub fn copy_strings(v: &Vec<String>) -> (r: Vec<String>)
    ensures
        r@ == v@,
{
    let mut r: Vec<String> = Vec::new();
    let mut i: usize = 0;
    while i < v.len()
        invariant
            i <= v.len(),
            r@ == v@.take(i as int),
        decreases v.len() - i,
    {
        r.push(v[i].clone());
        i = i + 1;
        assert(r@ =~= v@.take(i as int));
    }
    assert(v@.take(v.len() as int) =~= v@);
    r
}

impl NamedText {
    /// An exact copy.
    pub fn duplicate(&self) -> (r: NamedText)
        ensures
            r == *self,
    {
        NamedText { name: self.name.clone(), text: self.text.clone() }
    }
}

impl TraceReference {
    /// An exact copy.
    pub fn duplicate(&self) -> (r: TraceReference)
        ensures
            r == *self,
    {
        TraceReference {
            label: self.label.clone(),
            line_start: self.line_start,
            line_end: self.line_end,
            snippet: self.snippet.clone(),
            detail: copy_opt_string(&self.detail),
        }
    }
}

impl TraceStep {
    /// An exact copy.
    pub fn duplicate(&self) -> (r: TraceStep)
        ensures
            r == *self,
    {
        TraceStep {
            label: self.label.clone(),
            line_start: self.line_start,
            line_end: self.line_end,
            snippet: self.snippet.clone(),
        }
    }
}

/// An exact copy of a list of named texts.
pub fn copy_named_texts(v: &Vec<NamedText>) -> (r: Vec<NamedText>)
    ensures
        r@ == v@,
{
    let mut r: Vec<NamedText> = Vec::new();
    let mut i: usize = 0;
    while i < v.len()
        invariant
            i <= v.len(),
            r@ == v@.take(i as int),
        decreases v.len() - i,
    {
        r.push(v[i].duplicate());
        i = i + 1;
        assert(r@ =~= v@.take(i as int));
    }
    assert(v@.take(v.len() as int) =~= v@);
    r
}

/// An exact copy of a list of trace references.
pub fn copy_trace_references(v: &Vec<TraceReference>) -> (r: Vec<TraceReference>)
    ensures
        r@ == v@,
{
    let mut r: Vec<TraceReference> = Vec::new();
    let mut i: usize = 0;
    while i < v.len()
        invariant
            i <= v.len(),
            r@ == v@.take(i as int),
        decreases v.len() - i,
    {
        r.push(v[i].duplicate());
        i = i + 1;
        assert(r@ =~= v@.take(i as int));
    }
    assert(v@.take(v.len() as int) =~= v@);
    r
}

/// An exact copy of a list of trace steps.
pub fn copy_trace_steps(v: &Vec<TraceStep>) -> (r: Vec<TraceStep>)
    ensures
        r@ == v@,
{
    let mut r: Vec<TraceStep> = Vec::new();
    let mut i: usize = 0;
    while i < v.len()
        invariant
            i <= v.len(),
            r@ == v@.take(i as int),
        decreases v.len() - i,
    {
        r.push(v[i].duplicate());
        i = i + 1;
        assert(r@ =~= v@.take(i as int));
    }
    assert(v@.take(v.len() as int) =~= v@);
    r
}

} // verus!
