//! Plain-text rendering of search results.

use vstd::prelude::*;

use crate::model::{
    decimal_spec, push_decimal, search_mode_name, section_category_title, target_kind_label,
    trace_relation_marker, SearchHit, SearchMode, SearchResults, SearchTargetKind, TraceEntry,
    TraceLocation, TraceSection,
};
use crate::text::{condense_spec, condense_whitespace, join_spec, join_strings, strings_view};
use crate::unicode::{chars_of, is_alphanumeric, push_char, char_alphanumeric};

verus! {

// ---------------------------------------------------------------------------
// Normalisation for match labels
// ---------------------------------------------------------------------------

/// ASCII lowercase of a character (other characters unchanged).
pub open spec fn ascii_lower(c: char) -> char {
    if 'A' <= c && c <= 'Z' {
        ((c as u32) + 32) as char
    } else {
        c
    }
}

/// ASCII lowercase of every character of `s`.
pub open spec fn ascii_lower_seq(s: Seq<char>) -> Seq<char> {
    s.map_values(|c: char| ascii_lower(c))
}

/// `s` with every non-alphanumeric character replaced by a space.
pub open spec fn alphanumerics_or_space(s: Seq<char>) -> Seq<char> {
    s.map_values(|c: char| if char_alphanumeric(c) {
        c
    } else {
        ' '
    })
}

/// The form in which a query and a symbol name are compared: non-alphanumerics become
/// spaces, white space is condensed, ASCII letters are lowercased.
pub open spec fn normalize_text_spec(s: Seq<char>) -> Seq<char> {
    ascii_lower_seq(condense_spec(alphanumerics_or_space(s)))
}

fn ascii_lower_char(c: char) -> (r: char)
    ensures
        r == ascii_lower(c),
{
    if 'A' <= c && c <= 'Z' {
        let v = c as u8 + 32;
        proof {
            assert((c as u32) + 32 == v as u32);
        }
        v as char
    } else {
        c
    }
}

/// The normalized form of `text` (see `normalize_text_spec`).
pub fn normalize_text(text: &str) -> (normalized: String)
    ensures
        normalized@ == normalize_text_spec(text@),
{
    let chars = chars_of(text);
    let mut spaced = String::new();
    let mut i: usize = 0;
    while i < chars.len()
        invariant
            i <= chars.len(),
            chars@ == text@,
            spaced@ == alphanumerics_or_space(chars@.take(i as int)),
        decreases chars.len() - i,
    {
        let c = chars[i];
        if is_alphanumeric(c) {
            push_char(&mut spaced, c);
        } else {
            push_char(&mut spaced, ' ');
        }
        i = i + 1;
        assert(spaced@ =~= alphanumerics_or_space(chars@.take(i as int)));
    }
    assert(chars@.take(chars.len() as int) =~= chars@);
    let condensed = condense_whitespace(spaced.as_str());
    let cs = chars_of(condensed.as_str());
    let mut normalized = String::new();
    let mut j: usize = 0;
    while j < cs.len()
        invariant
            j <= cs.len(),
            normalized@ == ascii_lower_seq(cs@.take(j as int)),
        decreases cs.len() - j,
    {
        push_char(&mut normalized, ascii_lower_char(cs[j]));
        j = j + 1;
        assert(normalized@ =~= ascii_lower_seq(cs@.take(j as int)));
    }
    assert(cs@.take(cs.len() as int) =~= cs@);
    normalized
}

/// Functions, methods, types and local bindings can be exact direct matches.
pub open spec fn is_exact_direct_kind(kind: SearchTargetKind) -> bool {
    kind != SearchTargetKind::File
}

/// Whether an exact symbol match of this hit counts as an exact direct match.
pub fn is_exact_direct_match(search_result: &SearchHit, is_exact_symbol_match: bool) -> (r: bool)
    ensures
        r == (is_exact_symbol_match && is_exact_direct_kind(search_result.target_kind)),
{
    is_exact_symbol_match && match search_result.target_kind {
        SearchTargetKind::Function | SearchTargetKind::Method | SearchTargetKind::Type
        | SearchTargetKind::LocalBinding => true,
        SearchTargetKind::File => false,
    }
}

/// The hit's symbol matches the query after normalisation.
pub open spec fn symbol_matches(q: Seq<char>, h: SearchHit) -> bool {
    normalize_text_spec(h.symbol_name@) == q
}

/// Functions, methods and types are primary kinds.
pub open spec fn is_primary_kind(kind: SearchTargetKind) -> bool {
    kind == SearchTargetKind::Function || kind == SearchTargetKind::Method || kind
        == SearchTargetKind::Type
}

/// Whether a hit belongs to the leading group of direct matches: when some hit of a
/// primary kind matches the query, matching hits of primary kinds; otherwise matching
/// hits of any kind but files.
pub open spec fn in_direct_group(q: Seq<char>, has_exact_primary: bool, h: SearchHit) -> bool {
    if has_exact_primary {
        symbol_matches(q, h) && is_primary_kind(h.target_kind)
    } else {
        symbol_matches(q, h) && is_exact_direct_kind(h.target_kind)
    }
}

/// Number of leading hits that satisfy `in_direct_group`.
pub open spec fn leading_direct_count(q: Seq<char>, has: bool, hits: Seq<SearchHit>) -> nat
    decreases hits.len(),
{
    if hits.len() == 0 {
        0
    } else if in_direct_group(q, has, hits[0]) {
        1 + leading_direct_count(q, has, hits.drop_first())
    } else {
        0
    }
}

/// The number of leading hits that are direct matches of `query` (see `in_direct_group`).
pub open spec fn direct_match_count(query: Seq<char>, hits: Seq<SearchHit>) -> nat {
    let q = normalize_text_spec(query);
    let has = exists|j: int|
        0 <= j < hits.len() && symbol_matches(q, #[trigger] hits[j]) && is_primary_kind(
            hits[j].target_kind,
        );
    leading_direct_count(q, has, hits)
}

proof fn lemma_leading_direct_count(q: Seq<char>, has: bool, hits: Seq<SearchHit>, k: int)
    requires
        0 <= k <= hits.len(),
        forall|j: int| 0 <= j < k ==> in_direct_group(q, has, #[trigger] hits[j]),
        k == hits.len() || !in_direct_group(q, has, hits[k]),
    ensures
        leading_direct_count(q, has, hits) == k,
    decreases k,
{
    if k > 0 {
        assert(in_direct_group(q, has, hits[0]));
        assert forall|j: int| 0 <= j < k - 1 implies in_direct_group(q, has, #[trigger] hits.drop_first()[j]) by {
            assert(hits.drop_first()[j] == hits[j + 1]);
        }
        if k < hits.len() {
            assert(hits.drop_first()[k - 1] == hits[k]);
        }
        lemma_leading_direct_count(q, has, hits.drop_first(), k - 1);
    }
}

/// Whether a hit whose symbol does or does not match belongs to the direct group.
fn direct_group_member(hit: &SearchHit, is_match: bool, has_exact_primary: bool) -> (r: bool)
    ensures
        r == (is_match && if has_exact_primary {
            is_primary_kind(hit.target_kind)
        } else {
            is_exact_direct_kind(hit.target_kind)
        }),
{
    if has_exact_primary {
        is_match && match hit.target_kind {
            SearchTargetKind::Function | SearchTargetKind::Method | SearchTargetKind::Type => true,
            _ => false,
        }
    } else {
        is_exact_direct_match(hit, is_match)
    }
}

proof fn lemma_leading_count_bound(q: Seq<char>, has: bool, hits: Seq<SearchHit>)
    ensures
        leading_direct_count(q, has, hits) <= hits.len(),
    decreases hits.len(),
{
    if hits.len() > 0 {
        lemma_leading_count_bound(q, has, hits.drop_first());
    }
}

proof fn lemma_direct_count_bound(query: Seq<char>, hits: Seq<SearchHit>)
    ensures
        direct_match_count(query, hits) <= hits.len(),
{
    let q = normalize_text_spec(query);
    lemma_leading_count_bound(q, true, hits);
    lemma_leading_count_bound(q, false, hits);
}

/// The number of leading direct matches (see `direct_match_count`).
pub fn count_direct_matches(query: &str, search_results: &Vec<SearchHit>) -> (count: usize)
    ensures
        count == direct_match_count(query@, search_results@),
{
    let normalized_query = normalize_text(query);
    let ghost q = normalized_query@;
    let mut matches: Vec<bool> = Vec::new();
    let mut has_exact_primary_match = false;
    let mut i: usize = 0;
    while i < search_results.len()
        invariant
            i <= search_results.len(),
            q == normalized_query@,
            q == normalize_text_spec(query@),
            matches.len() == i,
            forall|j: int| 0 <= j < i ==> #[trigger] matches@[j] == symbol_matches(q, search_results@[j]),
            has_exact_primary_match == exists|j: int|
                0 <= j < i && symbol_matches(q, #[trigger] search_results@[j]) && is_primary_kind(
                    search_results@[j].target_kind,
                ),
        decreases search_results.len() - i,
    {
        let name = normalize_text(search_results[i].symbol_name.as_str());
        let is_match = name == normalized_query;
        matches.push(is_match);
        if is_match && match search_results[i].target_kind {
            SearchTargetKind::Function | SearchTargetKind::Method | SearchTargetKind::Type => true,
            _ => false,
        } {
            has_exact_primary_match = true;
            assert(symbol_matches(q, search_results@[i as int]));
        }
        i = i + 1;
    }
    let mut count: usize = 0;
    while count < search_results.len() && direct_group_member(
        &search_results[count],
        matches[count],
        has_exact_primary_match,
    )
        invariant
            count <= search_results.len() == matches.len(),
            forall|j: int| 0 <= j < search_results.len() ==> #[trigger] matches@[j] == symbol_matches(q, search_results@[j]),
            forall|j: int| 0 <= j < count ==> in_direct_group(q, has_exact_primary_match, #[trigger] search_results@[j]),
        decreases search_results.len() - count,
    {
        count = count + 1;
    }
    proof {
        lemma_leading_direct_count(q, has_exact_primary_match, search_results@, count as int);
    }
    count
}

/// The label of a hit's match: the explicit label when given; otherwise `exact` when its
/// symbol matches the query (in direct mode, for a kind other than file) and `related`
/// when not.
pub open spec fn match_label_spec(query: Seq<char>, mode: SearchMode, h: SearchHit, explicit: Option<Seq<char>>) -> Seq<char> {
    match explicit {
        Some(l) => l,
        None => {
            let exact = symbol_matches(normalize_text_spec(query), h);
            let is_exact = match mode {
                SearchMode::Explore => exact,
                SearchMode::Direct => exact && is_exact_direct_kind(h.target_kind),
            };
            if is_exact {
                "exact"@
            } else {
                "related"@
            }
        },
    }
}

/// The match label of a hit (see `match_label_spec`).
pub fn classify_match_label(
    query: &str,
    search_mode: SearchMode,
    search_result: &SearchHit,
    explicit_match_label: Option<&str>,
) -> (label: String)
    ensures
        label@ == match_label_spec(
            query@,
            search_mode,
            *search_result,
            match explicit_match_label {
                Some(l) => Some(l@),
                None => None,
            },
        ),
{
    if let Some(match_label) = explicit_match_label {
        return String::from_str(match_label);
    }
    let normalized_query = normalize_text(query);
    let is_exact_symbol_match = normalize_text(search_result.symbol_name.as_str()) == normalized_query;
    let is_exact = match search_mode {
        SearchMode::Explore => is_exact_symbol_match,
        SearchMode::Direct => is_exact_direct_match(search_result, is_exact_symbol_match),
    };
    if is_exact {
        String::from_str("exact")
    } else {
        String::from_str("related")
    }
}

// ---------------------------------------------------------------------------
// Lines of the text output
// ---------------------------------------------------------------------------

/// The parts concatenated in order.
pub open spec fn concat_all<A>(parts: Seq<Seq<A>>) -> Seq<A>
    decreases parts.len(),
{
    if parts.len() == 0 {
        Seq::empty()
    } else {
        concat_all(parts.drop_last()) + parts.last()
    }
}

/// A location as text: `path:line` or `path:start-end`, prefixed by `symbol() @ ` when it
/// has a context symbol.
pub open spec fn location_text(l: TraceLocation) -> Seq<char> {
    let line_text = if l.line_start == l.line_end {
        l.file_path@ + ":"@ + decimal_spec(l.line_start as nat)
    } else {
        l.file_path@ + ":"@ + decimal_spec(l.line_start as nat) + "-"@ + decimal_spec(l.line_end as nat)
    };
    match l.context_symbol_name {
        Some(c) => c@ + "() @ "@ + line_text,
        None => line_text,
    }
}

/// A location's text ends with its lines: `:start-end` when they differ, `:line` when
/// they agree, so no line range loses its end.
pub proof fn law_location_text_ends_with_lines(l: TraceLocation)
    ensures
        ({
            let text = location_text(l);
            let lines = ":"@ + decimal_spec(l.line_start as nat) + "-"@ + decimal_spec(l.line_end as nat);
            l.line_start != l.line_end ==> text.len() >= lines.len() && text.subrange(
                text.len() - lines.len(),
                text.len() as int,
            ) == lines
        }),
        ({
            let text = location_text(l);
            let line = ":"@ + decimal_spec(l.line_start as nat);
            l.line_start == l.line_end ==> text.len() >= line.len() && text.subrange(
                text.len() - line.len(),
                text.len() as int,
            ) == line
        }),
{
    let text = location_text(l);
    let head = match l.context_symbol_name {
        Some(c) => c@ + "() @ "@ + l.file_path@,
        None => l.file_path@,
    };
    let tail = if l.line_start == l.line_end {
        ":"@ + decimal_spec(l.line_start as nat)
    } else {
        ":"@ + decimal_spec(l.line_start as nat) + "-"@ + decimal_spec(l.line_end as nat)
    };
    assert(text =~= head + tail);
    assert((head + tail).subrange(head.len() as int, (head + tail).len() as int) =~= tail);
}

/// The lines of a trace entry: the entry (with its relation's arrow), its location and
/// its annotations.
pub open spec fn entry_lines(e: TraceEntry) -> Seq<Seq<char>> {
    seq![entry_first_line(e)] + entry_location_lines(e) + e.annotations@.map_values(|a: String| "    "@ + a@)
}

/// The first line of a trace entry: its relation's arrow, if any, and its text.
pub open spec fn entry_first_line(e: TraceEntry) -> Seq<char> {
    match e.relation {
        Some(r) => "  "@ + trace_relation_marker(r) + " "@ + e.text@,
        None => "  "@ + e.text@,
    }
}

/// The location line of a trace entry, when it has a location.
pub open spec fn entry_location_lines(e: TraceEntry) -> Seq<Seq<char>> {
    match e.location {
        Some(l) => seq!["    → 위치: "@ + location_text(l)],
        None => Seq::empty(),
    }
}

/// The lines of a section: its title, its entries and an empty line.
pub open spec fn section_lines(s: TraceSection) -> Seq<Seq<char>> {
    seq!["━━━ "@ + section_category_title(s.category) + " ━━━"@] + concat_all(
        s.entries@.map_values(|e: TraceEntry| entry_lines(e)),
    ) + seq![Seq::<char>::empty()]
}

/// The header line of the hit numbered `index`.
pub open spec fn header_line(index: nat, h: SearchHit, label: Seq<char>, score: Seq<char>) -> Seq<char> {
    "결과 "@ + decimal_spec(index) + "  "@ + target_kind_label(h.target_kind) + "  "@ + h.symbol_name@
        + "  "@ + h.file_path@ + ":"@ + decimal_spec(h.line_start as nat) + "  ["@ + label + "]  score="@
        + score + match h.semantic_role {
        Some(role) => "  role="@ + role@,
        None => Seq::empty(),
    }
}

/// The lines of the hit numbered `index`: header, an empty line, then its sections.
pub open spec fn hit_lines(
    query: Seq<char>,
    mode: SearchMode,
    index: nat,
    h: SearchHit,
    explicit: Option<Seq<char>>,
    score: Seq<char>,
) -> Seq<Seq<char>> {
    seq![header_line(index, h, match_label_spec(query, mode, h, explicit), score), Seq::<char>::empty()]
        + concat_all(h.sections@.map_values(|s: TraceSection| section_lines(s)))
}

/// The lines of the hits `hits`, numbered from `start`, followed by an empty line.
pub open spec fn group_lines(
    query: Seq<char>,
    mode: SearchMode,
    hits: Seq<SearchHit>,
    start: nat,
    explicit: Option<Seq<char>>,
    scores: Seq<String>,
) -> Seq<Seq<char>> {
    concat_all(
        Seq::new(
            hits.len(),
            |j: int| hit_lines(query, mode, start + j as nat, hits[j], explicit, scores[j]@),
        ),
    ) + seq![Seq::<char>::empty()]
}

/// The lines of the text output: the counts, then either `No matches found.` or the query,
/// the mode and the hits (in direct mode, exact matches and related matches in separate
/// groups).
pub open spec fn text_lines(query: Seq<char>, mode: SearchMode, r: SearchResults, scores: Seq<String>) -> Seq<Seq<char>> {
    let hits = r.results@;
    let counts = seq![
        "Scanned files: "@ + decimal_spec(r.scanned_file_count as nat),
        "Matched targets: "@ + decimal_spec(r.matched_target_count as nat),
        "Warnings: "@ + decimal_spec(r.warning_count as nat),
        Seq::<char>::empty(),
    ];
    if hits.len() == 0 {
        counts + seq!["No matches found."@]
    } else {
        let intro = seq!["질문: '"@ + query + "'"@, "Mode: "@ + search_mode_name(mode), Seq::<char>::empty()];
        let body = match mode {
            SearchMode::Direct => {
                let c = direct_match_count(query, hits);
                (if c > 0 {
                    seq!["━━━ Direct matches ━━━"@, Seq::<char>::empty()] + group_lines(
                        query,
                        mode,
                        hits.take(c as int),
                        1,
                        Some("exact"@),
                        scores.take(c as int),
                    )
                } else {
                    Seq::empty()
                }) + (if c < hits.len() {
                    seq!["━━━ Related matches ━━━"@, Seq::<char>::empty()] + group_lines(
                        query,
                        mode,
                        hits.skip(c as int),
                        c + 1,
                        Some("related"@),
                        scores.skip(c as int),
                    )
                } else {
                    Seq::empty()
                })
            },
            SearchMode::Explore => seq!["━━━ Matches ━━━"@, Seq::<char>::empty()] + group_lines(
                query,
                mode,
                hits,
                1,
                None,
                scores,
            ),
        };
        counts + intro + body
    }
}

/// The text output: its lines joined by newlines.
pub open spec fn render_text_spec(query: Seq<char>, mode: SearchMode, r: SearchResults, scores: Seq<String>) -> Seq<char> {
    join_spec(text_lines(query, mode, r, scores), seq!['\n'])
}

// ---------------------------------------------------------------------------
// Executable rendering
// ---------------------------------------------------------------------------

/// A location as text (see `location_text`).
pub fn format_location(location: &TraceLocation) -> (text: String)
    ensures
        text@ == location_text(*location),
{
    let mut line_text = location.file_path.clone();
    line_text.append(":");
    push_decimal(&mut line_text, location.line_start as u64);
    if location.line_start != location.line_end {
        line_text.append("-");
        push_decimal(&mut line_text, location.line_end as u64);
    }
    match &location.context_symbol_name {
        Some(context_symbol_name) => {
            let mut text = context_symbol_name.clone();
            text.append("() @ ");
            text.append(line_text.as_str());
            text
        },
        None => line_text,
    }
}

proof fn lemma_concat_push<A>(parts: Seq<Seq<A>>, p: Seq<A>)
    ensures
        concat_all(parts.push(p)) == concat_all(parts) + p,
{
    assert(parts.push(p).drop_last() =~= parts);
}

/// Appends the lines of a trace entry (see `entry_lines`).
pub fn append_trace_entry(output_lines: &mut Vec<String>, entry: &TraceEntry)
    ensures
        strings_view(final(output_lines)@) == strings_view(old(output_lines)@) + entry_lines(*entry),
{
    let first = match entry.relation {
        Some(relation) => {
            let mut line = String::from_str("  ");
            line.append(relation.marker());
            line.append(" ");
            line.append(entry.text.as_str());
            line
        },
        None => {
            let mut line = String::from_str("  ");
            line.append(entry.text.as_str());
            line
        },
    };
    output_lines.push(first);
    let ghost after_first = strings_view(output_lines@);
    let ghost loc_part = entry_location_lines(*entry);
    if let Some(location) = &entry.location {
        let mut line = String::from_str("    → 위치: ");
        line.append(format_location(location).as_str());
        output_lines.push(line);
    }
    assert(strings_view(output_lines@) =~= after_first + loc_part);
    let mut k: usize = 0;
    while k < entry.annotations.len()
        invariant
            k <= entry.annotations.len(),
            strings_view(output_lines@) == after_first + loc_part + entry.annotations@.take(k as int).map_values(
                |a: String| "    "@ + a@,
            ),
        decreases entry.annotations.len() - k,
    {
        let mut line = String::from_str("    ");
        line.append(entry.annotations[k].as_str());
        let ghost before = strings_view(output_lines@);
        output_lines.push(line);
        proof {
            assert(strings_view(output_lines@) =~= before.push(line@));
            assert(entry.annotations@.take(k + 1) =~= entry.annotations@.take(k as int).push(entry.annotations@[k as int]));
            assert(entry.annotations@.take(k + 1).map_values(|a: String| "    "@ + a@) =~= entry.annotations@.take(
                k as int,
            ).map_values(|a: String| "    "@ + a@).push(line@));
        }
        k = k + 1;
    }
    assert(entry.annotations@.take(entry.annotations.len() as int) =~= entry.annotations@);
    proof {
        let first_line = entry_first_line(*entry);
        assert(after_first =~= strings_view(old(output_lines)@) + seq![first_line]);
        assert(strings_view(output_lines@) =~= strings_view(old(output_lines)@) + entry_lines(*entry));
    }
}

/// Appends the lines of a section (see `section_lines`).
fn append_section(output_lines: &mut Vec<String>, section: &TraceSection)
    ensures
        strings_view(final(output_lines)@) == strings_view(old(output_lines)@) + section_lines(*section),
{
    let mut title = String::from_str("━━━ ");
    title.append(section.category.title());
    title.append(" ━━━");
    output_lines.push(title);
    let ghost after_title = strings_view(output_lines@);
    assert(after_title =~= strings_view(old(output_lines)@) + seq![title@]);
    let mut k: usize = 0;
    while k < section.entries.len()
        invariant
            k <= section.entries.len(),
            strings_view(output_lines@) == after_title + concat_all(
                section.entries@.take(k as int).map_values(|e: TraceEntry| entry_lines(e)),
            ),
        decreases section.entries.len() - k,
    {
        append_trace_entry(output_lines, &section.entries[k]);
        proof {
            let es = section.entries@;
            assert(es.take(k + 1).map_values(|e: TraceEntry| entry_lines(e)) =~= es.take(k as int).map_values(
                |e: TraceEntry| entry_lines(e),
            ).push(entry_lines(es[k as int])));
            lemma_concat_push(
                es.take(k as int).map_values(|e: TraceEntry| entry_lines(e)),
                entry_lines(es[k as int]),
            );
        }
        k = k + 1;
    }
    assert(section.entries@.take(section.entries.len() as int) =~= section.entries@);
    let ghost before_blank = strings_view(output_lines@);
    assert(before_blank == after_title + concat_all(section.entries@.map_values(|e: TraceEntry| entry_lines(e))));
    output_lines.push(String::new());
    assert(strings_view(output_lines@) =~= before_blank.push(Seq::<char>::empty()));
    assert(strings_view(output_lines@) =~= strings_view(old(output_lines)@) + section_lines(*section));
}

/// Appends the header line of the hit numbered `result_index`.
pub fn append_result_header(
    output_lines: &mut Vec<String>,
    query: &str,
    search_mode: SearchMode,
    result_index: usize,
    search_result: &SearchHit,
    explicit_match_label: Option<&str>,
    score_label: &str,
)
    ensures
        strings_view(final(output_lines)@) == strings_view(old(output_lines)@).push(
            header_line(
                result_index as nat,
                *search_result,
                match_label_spec(
                    query@,
                    search_mode,
                    *search_result,
                    match explicit_match_label {
                        Some(l) => Some(l@),
                        None => None,
                    },
                ),
                score_label@,
            ),
        ),
{
    let match_label = classify_match_label(query, search_mode, search_result, explicit_match_label);
    let mut header = String::from_str("결과 ");
    push_decimal(&mut header, result_index as u64);
    header.append("  ");
    header.append(search_result.target_kind.label());
    header.append("  ");
    header.append(search_result.symbol_name.as_str());
    header.append("  ");
    header.append(search_result.file_path.as_str());
    header.append(":");
    push_decimal(&mut header, search_result.line_start as u64);
    header.append("  [");
    header.append(match_label.as_str());
    header.append("]  score=");
    header.append(score_label);
    if let Some(role) = &search_result.semantic_role {
        header.append("  role=");
        header.append(role.as_str());
    }
    proof {
        let explicit = match explicit_match_label {
            Some(l) => Some(l@),
            None => None,
        };
        assert(header@ =~= header_line(
            result_index as nat,
            *search_result,
            match_label_spec(query@, search_mode, *search_result, explicit),
            score_label@,
        ));
    }
    output_lines.push(header);
    assert(strings_view(output_lines@) =~= strings_view(old(output_lines)@).push(header@));
}

/// Appends the lines of `hits[start..end]`, numbered from `start_index`, then an empty
/// line (see `group_lines`).
pub fn append_result_group(
    output_lines: &mut Vec<String>,
    query: &str,
    search_mode: SearchMode,
    search_results: &Vec<SearchHit>,
    start: usize,
    end: usize,
    start_index: usize,
    explicit_match_label: Option<&str>,
    score_labels: &Vec<String>,
)
    requires
        start <= end <= search_results.len(),
        score_labels.len() == search_results.len(),
        start_index + (end - start) <= usize::MAX,
    ensures
        strings_view(final(output_lines)@) == strings_view(old(output_lines)@) + group_lines(
            query@,
            search_mode,
            search_results@.subrange(start as int, end as int),
            start_index as nat,
            match explicit_match_label {
                Some(l) => Some(l@),
                None => None,
            },
            score_labels@.subrange(start as int, end as int),
        ),
{
    let ghost explicit = match explicit_match_label {
        Some(l) => Some(l@),
        None => None,
    };
    let ghost hits = search_results@.subrange(start as int, end as int);
    let ghost scores = score_labels@.subrange(start as int, end as int);
    let ghost per_hit = Seq::new(
        hits.len(),
        |j: int| hit_lines(query@, search_mode, start_index as nat + j as nat, hits[j], explicit, scores[j]@),
    );
    let mut offset: usize = 0;
    while offset < end - start
        invariant
            start <= end <= search_results.len(),
            score_labels.len() == search_results.len(),
            start_index + (end - start) <= usize::MAX,
            offset <= end - start,
            hits == search_results@.subrange(start as int, end as int),
            scores == score_labels@.subrange(start as int, end as int),
            explicit == match explicit_match_label {
                Some(l) => Some(l@),
                None => None::<Seq<char>>,
            },
            per_hit.len() == hits.len(),
            forall|j: int|
                0 <= j < hits.len() ==> #[trigger] per_hit[j] == hit_lines(
                    query@,
                    search_mode,
                    start_index as nat + j as nat,
                    hits[j],
                    explicit,
                    scores[j]@,
                ),
            strings_view(output_lines@) == strings_view(old(output_lines)@) + concat_all(per_hit.take(offset as int)),
        decreases end - start - offset,
    {
        let search_result = &search_results[start + offset];
        let ghost before = strings_view(output_lines@);
        append_result_header(
            output_lines,
            query,
            search_mode,
            start_index + offset,
            search_result,
            explicit_match_label,
            score_labels[start + offset].as_str(),
        );
        let ghost hl = header_line(
            (start_index + offset) as nat,
            *search_result,
            match_label_spec(query@, search_mode, *search_result, explicit),
            score_labels@[start + offset]@,
        );
        assert(strings_view(output_lines@) == before.push(hl));
        output_lines.push(String::new());
        let ghost after_header = strings_view(output_lines@);
        assert(after_header =~= before.push(hl).push(Seq::<char>::empty()));
        assert(after_header =~= before + seq![hl, Seq::<char>::empty()]);
        let mut k: usize = 0;
        while k < search_result.sections.len()
            invariant
                k <= search_result.sections.len(),
                strings_view(output_lines@) == after_header + concat_all(
                    search_result.sections@.take(k as int).map_values(|s: TraceSection| section_lines(s)),
                ),
            decreases search_result.sections.len() - k,
        {
            append_section(output_lines, &search_result.sections[k]);
            proof {
                let ss = search_result.sections@;
                assert(ss.take(k + 1).map_values(|s: TraceSection| section_lines(s)) =~= ss.take(k as int).map_values(
                    |s: TraceSection| section_lines(s),
                ).push(section_lines(ss[k as int])));
                lemma_concat_push(
                    ss.take(k as int).map_values(|s: TraceSection| section_lines(s)),
                    section_lines(ss[k as int]),
                );
            }
            k = k + 1;
        }
        proof {
            assert(search_result.sections@.take(search_result.sections.len() as int) =~= search_result.sections@);
            assert(strings_view(output_lines@) == after_header + concat_all(
                search_result.sections@.map_values(|s: TraceSection| section_lines(s)),
            ));
            assert(hits[offset as int] == search_results@[start + offset]);
            assert(scores[offset as int] == score_labels@[start + offset]);
            let lines = per_hit[offset as int];
            assert(lines == hit_lines(
                query@,
                search_mode,
                start_index as nat + offset as nat,
                hits[offset as int],
                explicit,
                scores[offset as int]@,
            ));
            assert(strings_view(output_lines@) =~= before + lines);
            assert(per_hit.take(offset + 1) =~= per_hit.take(offset as int).push(lines));
            lemma_concat_push(per_hit.take(offset as int), lines);
        }
        offset = offset + 1;
    }
    let ghost before_blank = strings_view(output_lines@);
    output_lines.push(String::new());
    proof {
        assert(per_hit.take((end - start) as int) =~= per_hit);
        assert(strings_view(output_lines@) =~= before_blank.push(Seq::<char>::empty()));
        assert(strings_view(output_lines@) =~= strings_view(old(output_lines)@) + group_lines(
            query@,
            search_mode,
            hits,
            start_index as nat,
            explicit,
            scores,
        ));
    }
}

/// A line holding `label` followed by a number.
fn count_line(label: &str, n: usize) -> (line: String)
    ensures
        line@ == label@ + decimal_spec(n as nat),
{
    let mut line = String::from_str(label);
    push_decimal(&mut line, n as u64);
    line
}

/// The text output of a search (see `render_text_spec`). `score_labels` holds, for each
/// hit, its relevance score as it is to be printed.
pub fn render_text(
    query: &str,
    search_mode: SearchMode,
    search_results: &SearchResults,
    score_labels: &Vec<String>,
) -> (text: String)
    requires
        score_labels.len() == search_results.results.len(),
        search_results.results.len() < usize::MAX,
    ensures
        text@ == render_text_spec(query@, search_mode, *search_results, score_labels@),
{
    let hits = &search_results.results;
    let mut output_lines: Vec<String> = Vec::new();
    output_lines.push(count_line("Scanned files: ", search_results.scanned_file_count));
    output_lines.push(count_line("Matched targets: ", search_results.matched_target_count));
    output_lines.push(count_line("Warnings: ", search_results.warning_count));
    output_lines.push(String::new());
    let ghost counts = strings_view(output_lines@);
    assert(counts =~= seq![
        "Scanned files: "@ + decimal_spec(search_results.scanned_file_count as nat),
        "Matched targets: "@ + decimal_spec(search_results.matched_target_count as nat),
        "Warnings: "@ + decimal_spec(search_results.warning_count as nat),
        Seq::<char>::empty(),
    ]);
    if hits.len() == 0 {
        output_lines.push(String::from_str("No matches found."));
        assert(strings_view(output_lines@) =~= text_lines(query@, search_mode, *search_results, score_labels@));
        proof {
            reveal_strlit("\n");
            assert("\n"@ =~= seq!['\n']);
        }
        return join_strings(&output_lines, "\n");
    }
    let mut question = String::from_str("질문: '");
    question.append(query);
    question.append("'");
    output_lines.push(question);
    let mut mode_line = String::from_str("Mode: ");
    mode_line.append(search_mode.as_str());
    output_lines.push(mode_line);
    output_lines.push(String::new());
    let ghost intro_end = strings_view(output_lines@);
    assert(intro_end =~= counts + seq![
        "질문: '"@ + query@ + "'"@,
        "Mode: "@ + search_mode_name(search_mode),
        Seq::<char>::empty(),
    ]);
    match search_mode {
        SearchMode::Direct => {
            let direct_match_count = count_direct_matches(query, hits);
            let ghost c = direct_match_count as nat;
            proof {
                lemma_direct_count_bound(query@, hits@);
            }
            let ghost first_part: Seq<Seq<char>> = if c > 0 {
                seq!["━━━ Direct matches ━━━"@, Seq::<char>::empty()] + group_lines(
                    query@,
                    search_mode,
                    hits@.take(c as int),
                    1,
                    Some("exact"@),
                    score_labels@.take(c as int),
                )
            } else {
                Seq::empty()
            };
            if direct_match_count > 0 {
                output_lines.push(String::from_str("━━━ Direct matches ━━━"));
                output_lines.push(String::new());
                append_result_group(
                    &mut output_lines,
                    query,
                    search_mode,
                    hits,
                    0,
                    direct_match_count,
                    1,
                    Some("exact"),
                    score_labels,
                );
                assert(hits@.subrange(0, direct_match_count as int) =~= hits@.take(c as int));
                assert(score_labels@.subrange(0, direct_match_count as int) =~= score_labels@.take(c as int));
            }
            assert(strings_view(output_lines@) =~= intro_end + first_part);
            let ghost second_part: Seq<Seq<char>> = if c < hits.len() {
                seq!["━━━ Related matches ━━━"@, Seq::<char>::empty()] + group_lines(
                    query@,
                    search_mode,
                    hits@.skip(c as int),
                    c + 1,
                    Some("related"@),
                    score_labels@.skip(c as int),
                )
            } else {
                Seq::empty()
            };
            if direct_match_count < hits.len() {
                output_lines.push(String::from_str("━━━ Related matches ━━━"));
                output_lines.push(String::new());
                append_result_group(
                    &mut output_lines,
                    query,
                    search_mode,
                    hits,
                    direct_match_count,
                    hits.len(),
                    direct_match_count + 1,
                    Some("related"),
                    score_labels,
                );
                assert(hits@.subrange(direct_match_count as int, hits.len() as int) =~= hits@.skip(c as int));
                assert(score_labels@.subrange(direct_match_count as int, hits.len() as int) =~= score_labels@.skip(
                    c as int,
                ));
            }
            assert(strings_view(output_lines@) =~= intro_end + first_part + second_part);
        },
        SearchMode::Explore => {
            output_lines.push(String::from_str("━━━ Matches ━━━"));
            output_lines.push(String::new());
            append_result_group(
                &mut output_lines,
                query,
                search_mode,
                hits,
                0,
                hits.len(),
                1,
                None,
                score_labels,
            );
            assert(hits@.subrange(0, hits.len() as int) =~= hits@);
            assert(score_labels@.subrange(0, hits.len() as int) =~= score_labels@);
            assert(strings_view(output_lines@) =~= intro_end + seq!["━━━ Matches ━━━"@, Seq::<char>::empty()]
                + group_lines(query@, search_mode, hits@, 1, None, score_labels@));
        },
    }
    assert(strings_view(output_lines@) =~= text_lines(query@, search_mode, *search_results, score_labels@));
    proof {
        reveal_strlit("\n");
        assert("\n"@ =~= seq!['\n']);
    }
    join_strings(&output_lines, "\n")
}

} // verus!
