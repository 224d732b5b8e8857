//! Trace sections of a search hit: declaration, data flow, dependencies, callers, tests
//! and the enrichment sections.

use vstd::prelude::*;

use crate::model::{
    copy_named_texts, copy_opt_string, copy_trace_references, copy_trace_steps,
    opt_view, sections_view, EntryView, LocationView, NamedText, SearchHit, SearchRawTarget,
    SearchTarget, SearchTargetKind, SectionCategory, SectionView, TraceEntry, TraceLocation,
    TraceReference, TraceRelation, TraceSection, TraceStep,
};
use crate::model::chars_equal;
use crate::search::ranking::{
    indices_in_range, primary_caller_spec, resolve_callable_index, resolve_spec,
    select_primary_caller, CallableIndex,
};
use crate::text::{join_spec, join_strings, strings_view};

verus! {

// ---------------------------------------------------------------------------
// Specifications
// ---------------------------------------------------------------------------

/// The contents of a list of entries.
pub open spec fn entries_view(v: Seq<TraceEntry>) -> Seq<EntryView> {
    v.map_values(|e: TraceEntry| e@)
}

/// A location without a context symbol.
pub open spec fn location_spec(path: Seq<char>, line_start: usize, line_end: usize) -> LocationView {
    LocationView { file_path: path, line_start, line_end, context_symbol_name: None }
}

/// The location of target `t`.
pub open spec fn target_location(t: SearchTarget) -> LocationView {
    location_spec(t.file_path@, t.line_start, t.line_end)
}

/// An entry without annotations.
pub open spec fn entry_spec(relation: Option<TraceRelation>, text: Seq<char>, location: Option<LocationView>) -> EntryView {
    EntryView { relation, text, location, annotations: Seq::empty() }
}

/// A section with one entry of plain text.
pub open spec fn text_section(category: SectionCategory, text: Seq<char>) -> SectionView {
    SectionView { category, entries: seq![entry_spec(None, text, None)] }
}

/// The text shown for a callable: its signature, or else its declaration snippet.
pub open spec fn signature_or_declaration(t: SearchTarget) -> Seq<char> {
    match t.signature_text {
        Some(s) => s@,
        None => t.declaration_snippet@,
    }
}

/// The dependency entries of a parameter list.
pub open spec fn parameter_entries(ps: Seq<NamedText>) -> Seq<EntryView> {
    ps.map_values(|p: NamedText| entry_spec(Some(TraceRelation::IncomingDep), p.text@, None))
}

/// The dependency entries of a list of references, with relation `relation`.
pub open spec fn reference_entries(rs: Seq<TraceReference>, relation: TraceRelation) -> Seq<EntryView> {
    rs.map_values(|r: TraceReference| entry_spec(Some(relation), r.label@, None))
}

/// The dependencies of a target: its parameters and incoming references (incoming), then
/// its outgoing references (outgoing).
pub open spec fn dependency_entries(t: SearchTarget) -> Seq<EntryView> {
    parameter_entries(t.parameter_descriptions@) + reference_entries(
        t.incoming_dependencies@,
        TraceRelation::IncomingDep,
    ) + reference_entries(t.outgoing_dependencies@, TraceRelation::OutgoingDep)
}

/// The dependency section of a target, absent when it has no dependencies.
pub open spec fn dependency_section_spec(t: SearchTarget) -> Option<SectionView> {
    if dependency_entries(t).len() == 0 {
        None
    } else {
        Some(SectionView { category: SectionCategory::Dependency, entries: dependency_entries(t) })
    }
}

/// The context text of a target: its siblings joined by `, `, inside `{container} { .. }`
/// when it has a container.
pub open spec fn context_text(t: SearchTarget) -> Seq<char> {
    let list = join_spec(strings_view(t.sibling_symbol_names@), seq![',', ' ']);
    match t.container_name {
        Some(c) => c@ + seq![' ', '{', ' '] + list + seq![' ', '}'],
        None => list,
    }
}

/// The enrichment sections of a target: documentation, context (siblings) and usage
/// (import hint), each when present.
pub open spec fn enrichment_sections(t: SearchTarget) -> Seq<SectionView> {
    documentation_sections(t) + context_sections(t) + usage_sections(t)
}

/// The documentation section of a target, when it has a doc comment.
pub open spec fn documentation_sections(t: SearchTarget) -> Seq<SectionView> {
    match t.doc_comment {
        Some(d) => seq![text_section(SectionCategory::Documentation, d@)],
        None => Seq::empty(),
    }
}

/// The context section of a target, when it has siblings.
pub open spec fn context_sections(t: SearchTarget) -> Seq<SectionView> {
    if t.sibling_symbol_names.len() > 0 {
        seq![text_section(SectionCategory::Context, context_text(t))]
    } else {
        Seq::empty()
    }
}

/// The usage section of a target, when it has an import hint.
pub open spec fn usage_sections(t: SearchTarget) -> Seq<SectionView> {
    match t.import_hint {
        Some(h) => seq![text_section(SectionCategory::Usage, h@)],
        None => Seq::empty(),
    }
}

/// The semantic role `test`.
pub open spec fn is_test_role(role: Option<String>) -> bool {
    match role {
        Some(r) => r@ == seq!['t', 'e', 's', 't'],
        None => false,
    }
}

/// The entry that shows a test calling the hit.
pub open spec fn test_entry(t: SearchTarget) -> EntryView {
    entry_spec(
        Some(TraceRelation::OutgoingCall),
        t.symbol_name@ + seq!['(', ')'],
        Some(target_location(t)),
    )
}

/// The entries of the callers that are tests, in caller order.
pub open spec fn test_entries(ts: Seq<SearchTarget>, callers: Seq<usize>) -> Seq<EntryView>
    decreases callers.len(),
{
    if callers.len() == 0 {
        Seq::empty()
    } else {
        let rest = test_entries(ts, callers.drop_last());
        let c = ts[callers.last() as int];
        if is_test_role(c.semantic_role) {
            rest.push(test_entry(c))
        } else {
            rest
        }
    }
}

/// The Test section lists exactly the callers whose semantic role is `test`, in caller
/// order: every entry shows such a caller, and every such caller has its entry.
pub proof fn law_test_section_lists_test_callers(ts: Seq<SearchTarget>, callers: Seq<usize>)
    ensures
        forall|e: int|
            0 <= e < test_entries(ts, callers).len() ==> exists|k: int|
                0 <= k < callers.len() && (ts[#[trigger] callers[k] as int].semantic_role matches Some(r) && r@
                    == seq!['t', 'e', 's', 't']) && #[trigger] test_entries(ts, callers)[e] == test_entry(
                    ts[callers[k] as int],
                ),
        forall|k: int|
            0 <= k < callers.len() && (ts[#[trigger] callers[k] as int].semantic_role matches Some(r) && r@
                == seq!['t', 'e', 's', 't']) ==> test_entries(ts, callers).contains(test_entry(ts[callers[k] as int])),
        test_entries(ts, callers).len() <= callers.len(),
    decreases callers.len(),
{
    if callers.len() > 0 {
        let rest = callers.drop_last();
        law_test_section_lists_test_callers(ts, rest);
        let r = test_entries(ts, rest);
        let all = test_entries(ts, callers);
        let c = ts[callers.last() as int];
        assert forall|e: int| 0 <= e < all.len() implies exists|k: int|
            0 <= k < callers.len() && (ts[#[trigger] callers[k] as int].semantic_role matches Some(r) && r@
                == seq!['t', 'e', 's', 't']) && #[trigger] all[e] == test_entry(ts[callers[k] as int]) by {
            if e < r.len() {
                assert(all[e] == r[e]);
                let k = choose|k: int|
                    0 <= k < rest.len() && (ts[#[trigger] rest[k] as int].semantic_role matches Some(r) && r@
                        == seq!['t', 'e', 's', 't']) && r[e] == test_entry(ts[rest[k] as int]);
                assert(callers[k] == rest[k]);
            } else {
                assert(callers[callers.len() - 1] == callers.last());
            }
        }
        assert forall|k: int|
            0 <= k < callers.len() && (ts[#[trigger] callers[k] as int].semantic_role matches Some(r) && r@
                == seq!['t', 'e', 's', 't']) implies all.contains(test_entry(ts[callers[k] as int])) by {
            if k < rest.len() {
                assert(callers[k] == rest[k]);
                let e = choose|e: int| 0 <= e < r.len() && r[e] == test_entry(ts[rest[k] as int]);
                assert(all[e] == r[e]);
            } else {
                assert(callers[k] == callers.last());
                assert(all[all.len() - 1] == test_entry(c));
            }
        }
    }
}

/// Up to `steps` callers going up from target `current`: each the preferred caller of the
/// previous one, stopping at a target without callers or at a caller already shown.
pub open spec fn caller_chain_spec(
    ts: Seq<SearchTarget>,
    callers: Seq<Vec<usize>>,
    current: usize,
    visited: Set<usize>,
    steps: nat,
) -> Seq<usize>
    decreases steps,
{
    if steps == 0 || current >= callers.len() || current >= ts.len() {
        Seq::empty()
    } else {
        match primary_caller_spec(ts, ts[current as int].file_path@, callers[current as int]@) {
            None => Seq::empty(),
            Some(c) => if visited.contains(c) {
                Seq::empty()
            } else {
                seq![c] + caller_chain_spec(ts, callers, c, visited.insert(c), (steps - 1) as nat)
            },
        }
    }
}

/// The entry that shows caller `c`.
pub open spec fn caller_entry(t: SearchTarget) -> EntryView {
    entry_spec(Some(TraceRelation::IncomingCall), signature_or_declaration(t), Some(target_location(t)))
}

/// The entries of the caller chain of target `t` (at most three callers).
pub open spec fn caller_chain_entries(ts: Seq<SearchTarget>, callers: Seq<Vec<usize>>, t: usize) -> Seq<EntryView> {
    caller_chain_spec(ts, callers, t, Set::empty(), 3).map_values(|c: usize| caller_entry(ts[c as int]))
}

/// The type shown for a local binding, and whether it was inferred: its own type hint, or
/// else the return type of the callable that its only call resolves to.
pub open spec fn binding_type_hint(ts: Seq<SearchTarget>, t: SearchTarget) -> Option<(Seq<char>, bool)> {
    match t.return_type_hint {
        Some(h) => Some((h@, false)),
        None => if t.call_names.len() == 1 {
            match resolve_spec(ts, t.call_names[0]@, t.file_path@) {
                Some(c) => match ts[c as int].return_type_hint {
                    Some(h) => Some((h@, true)),
                    None => None,
                },
                None => None,
            }
        } else {
            None
        },
    }
}

/// The declaration entry of a local binding.
pub open spec fn binding_declaration_entry(ts: Seq<SearchTarget>, t: SearchTarget) -> EntryView {
    EntryView {
        relation: None,
        text: t.declaration_snippet@,
        location: Some(
            LocationView {
                file_path: t.file_path@,
                line_start: t.line_start,
                line_end: t.line_end,
                context_symbol_name: opt_view(t.parent_symbol_name),
            },
        ),
        annotations: match binding_type_hint(ts, t) {
            Some((h, inferred)) => if inferred {
                seq!["-> Type: "@ + h + " (inferred)"@]
            } else {
                seq!["-> Type: "@ + h]
            },
            None => Seq::empty(),
        },
    }
}

/// The data-flow entry of a flow step of a binding in the file `path`.
pub open spec fn flow_entry(path: Seq<char>, step: TraceStep) -> EntryView {
    entry_spec(
        Some(TraceRelation::OutgoingCall),
        step.label@,
        Some(location_spec(path, step.line_start, step.line_end)),
    )
}

/// The sections of a local binding hit: declaration, data flow (when it has flow steps),
/// dependencies (when any) and enrichment.
pub open spec fn local_binding_sections(ts: Seq<SearchTarget>, t: SearchTarget) -> Seq<SectionView> {
    seq![SectionView { category: SectionCategory::Declaration, entries: seq![binding_declaration_entry(ts, t)] }]
        + (if t.flow_steps.len() > 0 {
        seq![
            SectionView {
                category: SectionCategory::DataFlow,
                entries: seq![entry_spec(None, t.symbol_name@, None)] + t.flow_steps@.map_values(
                    |s: TraceStep| flow_entry(t.file_path@, s),
                ),
            },
        ]
    } else {
        Seq::empty()
    }) + (match dependency_section_spec(t) {
        Some(s) => seq![s],
        None => Seq::empty(),
    }) + enrichment_sections(t)
}

/// The implementation entry of a callable.
pub open spec fn implementation_entry(t: SearchTarget) -> EntryView {
    EntryView {
        relation: None,
        text: signature_or_declaration(t),
        location: Some(target_location(t)),
        annotations: match t.return_type_hint {
            Some(h) => seq!["-> Return type: "@ + h@],
            None => Seq::empty(),
        },
    }
}

/// The sections of a callable hit: implementation, callers (when any), dependencies (when
/// any), tests (when any) and enrichment.
pub open spec fn callable_sections(ts: Seq<SearchTarget>, callers: Seq<Vec<usize>>, i: usize) -> Seq<SectionView> {
    let t = ts[i as int];
    let chain = caller_chain_entries(ts, callers, i);
    let tests = test_entries(ts, callers[i as int]@);
    seq![SectionView { category: SectionCategory::Implementation, entries: seq![implementation_entry(t)] }]
        + (if chain.len() > 0 {
        seq![SectionView { category: SectionCategory::Callers, entries: chain }]
    } else {
        Seq::empty()
    }) + (match dependency_section_spec(t) {
        Some(s) => seq![s],
        None => Seq::empty(),
    }) + (if tests.len() > 0 {
        seq![SectionView { category: SectionCategory::Test, entries: tests }]
    } else {
        Seq::empty()
    }) + enrichment_sections(t)
}

/// The sections of a type or file hit: its declaration (matching code for a file) and
/// enrichment.
pub open spec fn simple_sections(t: SearchTarget) -> Seq<SectionView> {
    let category = match t.target_kind {
        SearchTargetKind::File => SectionCategory::MatchCode,
        _ => SectionCategory::Declaration,
    };
    seq![
        SectionView {
            category,
            entries: seq![entry_spec(None, t.declaration_snippet@, Some(target_location(t)))],
        },
    ] + enrichment_sections(t)
}

/// The sections of the hit for target `i`, by its kind.
pub open spec fn hit_sections(ts: Seq<SearchTarget>, callers: Seq<Vec<usize>>, i: usize) -> Seq<SectionView> {
    let t = ts[i as int];
    match t.target_kind {
        SearchTargetKind::LocalBinding => local_binding_sections(ts, t),
        SearchTargetKind::Function | SearchTargetKind::Method => callable_sections(ts, callers, i),
        _ => simple_sections(t),
    }
}

/// Every hit opens with the section its kind calls for: a local binding with its
/// declaration, a function or method with its implementation, a file with its matching
/// code, a type with its declaration.
pub proof fn law_hit_opens_with_kind_section(ts: Seq<SearchTarget>, callers: Seq<Vec<usize>>, i: usize)
    requires
        i < ts.len(),
    ensures
        hit_sections(ts, callers, i).len() >= 1,
        hit_sections(ts, callers, i)[0].category == match ts[i as int].target_kind {
            SearchTargetKind::LocalBinding => SectionCategory::Declaration,
            SearchTargetKind::Function => SectionCategory::Implementation,
            SearchTargetKind::Method => SectionCategory::Implementation,
            SearchTargetKind::Type => SectionCategory::Declaration,
            SearchTargetKind::File => SectionCategory::MatchCode,
        },
{
}

/// The callers list is one sorted list of in-range target indices per target.
pub open spec fn caller_lists_valid(ts: Seq<SearchTarget>, callers: Seq<Vec<usize>>) -> bool {
    &&& callers.len() == ts.len()
    &&& forall|t: int| 0 <= t < callers.len() ==> indices_in_range(ts, #[trigger] callers[t]@)
}

// ---------------------------------------------------------------------------
// Executable functions
// ---------------------------------------------------------------------------

/// A location in `file_path` with no context symbol.
pub fn build_location(file_path: &String, line_start: usize, line_end: usize) -> (location: TraceLocation)
    ensures
        location@ == location_spec(file_path@, line_start, line_end),
{
    TraceLocation::new(file_path.clone(), line_start, line_end)
}

/// An entry without annotations.
fn plain_entry(relation: Option<TraceRelation>, text: String, location: Option<TraceLocation>) -> (entry: TraceEntry)
    ensures
        entry@ == entry_spec(
            relation,
            text@,
            match location {
                Some(l) => Some(l@),
                None => None,
            },
        ),
{
    let entry = TraceEntry { relation, text, location, annotations: Vec::new() };
    assert(entry@.annotations =~= Seq::<Seq<char>>::empty());
    entry
}

/// A section with one entry of plain text.
fn build_text_section(category: SectionCategory, text: String) -> (section: TraceSection)
    ensures
        section@ == text_section(category, text@),
{
    let entry = plain_entry(None, text, None);
    let section = TraceSection { category, entries: vec![entry] };
    assert(section@.entries =~= seq![entry_spec(None, text@, None)]);
    section
}

/// The location of a local binding: its line range within its parent symbol.
pub fn build_binding_location(search_target: &SearchTarget) -> (location: TraceLocation)
    ensures
        location@ == (LocationView {
            file_path: search_target.file_path@,
            line_start: search_target.line_start,
            line_end: search_target.line_end,
            context_symbol_name: opt_view(search_target.parent_symbol_name),
        }),
{
    let mut location = build_location(
        &search_target.file_path,
        search_target.line_start,
        search_target.line_end,
    );
    location.context_symbol_name = copy_opt_string(&search_target.parent_symbol_name);
    location
}

/// The dependency section of a target (see `dependency_section_spec`).
pub fn build_dependency_section(search_target: &SearchTarget) -> (section: Option<TraceSection>)
    ensures
        match section {
            Some(s) => dependency_section_spec(*search_target) == Some(s@),
            None => dependency_section_spec(*search_target) is None,
        },
{
    let mut entries: Vec<TraceEntry> = Vec::new();
    let ps = &search_target.parameter_descriptions;
    let ins = &search_target.incoming_dependencies;
    let outs = &search_target.outgoing_dependencies;
    let mut i: usize = 0;
    while i < ps.len()
        invariant
            i <= ps.len(),
            entries_view(entries@) == parameter_entries(ps@.take(i as int)),
        decreases ps.len() - i,
    {
        let e = plain_entry(Some(TraceRelation::IncomingDep), ps[i].text.clone(), None);
        let ghost old_entries = entries@;
        entries.push(e);
        proof {
            assert(entries@ == old_entries.push(e));
            assert(entries_view(entries@) =~= entries_view(old_entries).push(e@));
            assert(ps@.take(i + 1) =~= ps@.take(i as int).push(ps@[i as int]));
            assert(parameter_entries(ps@.take(i + 1)) =~= parameter_entries(ps@.take(i as int)).push(e@));
        }
        i = i + 1;
        assert(entries_view(entries@) =~= parameter_entries(ps@.take(i as int)));
    }
    assert(ps@.take(ps.len() as int) =~= ps@);
    let ghost base = entries_view(entries@);
    let mut j: usize = 0;
    while j < ins.len()
        invariant
            j <= ins.len(),
            base == parameter_entries(ps@),
            entries_view(entries@) == base + reference_entries(ins@.take(j as int), TraceRelation::IncomingDep),
        decreases ins.len() - j,
    {
        let e = plain_entry(Some(TraceRelation::IncomingDep), ins[j].label.clone(), None);
        let ghost old_entries = entries@;
        entries.push(e);
        proof {
            assert(entries_view(entries@) =~= entries_view(old_entries).push(e@));
            assert(ins@.take(j + 1) =~= ins@.take(j as int).push(ins@[j as int]));
            assert(reference_entries(ins@.take(j + 1), TraceRelation::IncomingDep) =~= reference_entries(
                ins@.take(j as int),
                TraceRelation::IncomingDep,
            ).push(e@));
        }
        j = j + 1;
        assert(entries_view(entries@) =~= base + reference_entries(
            ins@.take(j as int),
            TraceRelation::IncomingDep,
        ));
    }
    assert(ins@.take(ins.len() as int) =~= ins@);
    let ghost base2 = entries_view(entries@);
    let mut k: usize = 0;
    while k < outs.len()
        invariant
            k <= outs.len(),
            base2 == parameter_entries(ps@) + reference_entries(ins@, TraceRelation::IncomingDep),
            entries_view(entries@) == base2 + reference_entries(outs@.take(k as int), TraceRelation::OutgoingDep),
        decreases outs.len() - k,
    {
        let e = plain_entry(Some(TraceRelation::OutgoingDep), outs[k].label.clone(), None);
        let ghost old_entries = entries@;
        entries.push(e);
        proof {
            assert(entries_view(entries@) =~= entries_view(old_entries).push(e@));
            assert(outs@.take(k + 1) =~= outs@.take(k as int).push(outs@[k as int]));
            assert(reference_entries(outs@.take(k + 1), TraceRelation::OutgoingDep) =~= reference_entries(
                outs@.take(k as int),
                TraceRelation::OutgoingDep,
            ).push(e@));
        }
        k = k + 1;
        assert(entries_view(entries@) =~= base2 + reference_entries(
            outs@.take(k as int),
            TraceRelation::OutgoingDep,
        ));
    }
    assert(outs@.take(outs.len() as int) =~= outs@);
    assert(entries_view(entries@) == dependency_entries(*search_target));
    if entries.len() == 0 {
        return None;
    }
    let section = TraceSection { category: SectionCategory::Dependency, entries };
    Some(section)
}

/// Appends the enrichment sections of a target (see `enrichment_sections`).
pub fn append_enrichment_sections(sections: &mut Vec<TraceSection>, search_target: &SearchTarget)
    ensures
        sections_view(final(sections)@) == sections_view(old(sections)@) + enrichment_sections(*search_target),
{
    let ghost start = sections_view(sections@);
    let ghost doc_part = documentation_sections(*search_target);
    let ghost context_part = context_sections(*search_target);
    if let Some(doc_comment) = &search_target.doc_comment {
        sections.push(build_text_section(SectionCategory::Documentation, doc_comment.clone()));
    }
    assert(sections_view(sections@) =~= start + doc_part);
    if search_target.sibling_symbol_names.len() > 0 {
        let sibling_list = join_strings(&search_target.sibling_symbol_names, ", ");
        proof {
            reveal_strlit(", ");
            assert(", "@ =~= seq![',', ' ']);
        }
        let text = match &search_target.container_name {
            Some(container_name) => {
                let mut text = container_name.clone();
                text.append(" { ");
                text.append(sibling_list.as_str());
                text.append(" }");
                proof {
                    reveal_strlit(" { ");
                    reveal_strlit(" }");
                    assert(" { "@ =~= seq![' ', '{', ' ']);
                    assert(" }"@ =~= seq![' ', '}']);
                }
                text
            },
            None => sibling_list,
        };
        assert(text@ == context_text(*search_target));
        sections.push(build_text_section(SectionCategory::Context, text));
    }
    assert(sections_view(sections@) =~= start + doc_part + context_part);
    if let Some(import_hint) = &search_target.import_hint {
        sections.push(build_text_section(SectionCategory::Usage, import_hint.clone()));
    }
    assert(sections_view(sections@) =~= start + enrichment_sections(*search_target));
}

/// Whether an optional role is `test`.
fn has_test_role(role: &Option<String>) -> (r: bool)
    ensures
        r == is_test_role(*role),
{
    match role {
        Some(r) => {
            let is_test = chars_equal(r.as_str(), &['t', 'e', 's', 't']);
            proof {
                assert(['t', 'e', 's', 't']@ =~= seq!['t', 'e', 's', 't']);
            }
            is_test
        },
        None => false,
    }
}

/// The callers of target `target_index` that are tests (see `test_entries`).
pub fn collect_related_tests(
    target_index: usize,
    search_targets: &Vec<SearchTarget>,
    caller_index: &Vec<Vec<usize>>,
) -> (entries: Vec<TraceEntry>)
    requires
        caller_lists_valid(search_targets@, caller_index@),
        target_index < search_targets.len(),
    ensures
        entries_view(entries@) == test_entries(search_targets@, caller_index@[target_index as int]@),
{
    let callers = &caller_index[target_index];
    proof {
        assert(indices_in_range(search_targets@, callers@));
    }
    let mut entries: Vec<TraceEntry> = Vec::new();
    let mut k: usize = 0;
    while k < callers.len()
        invariant
            k <= callers.len(),
            indices_in_range(search_targets@, callers@),
            entries_view(entries@) == test_entries(search_targets@, callers@.take(k as int)),
        decreases callers.len() - k,
    {
        let c = callers[k];
        assert(c < search_targets.len());
        let caller_target = &search_targets[c];
        proof {
            assert(callers@.take(k + 1).drop_last() =~= callers@.take(k as int));
            assert(callers@.take(k + 1).last() == c);
        }
        if has_test_role(&caller_target.semantic_role) {
            let mut text = caller_target.symbol_name.clone();
            text.append("()");
            proof {
                reveal_strlit("()");
                assert("()"@ =~= seq!['(', ')']);
            }
            let location = build_location(&caller_target.file_path, caller_target.line_start, caller_target.line_end);
            entries.push(plain_entry(Some(TraceRelation::OutgoingCall), text, Some(location)));
            assert(entries_view(entries@) =~= test_entries(search_targets@, callers@.take(k as int)).push(
                test_entry(*caller_target),
            ));
        }
        k = k + 1;
    }
    assert(callers@.take(callers.len() as int) =~= callers@);
    entries
}

/// Whether `v` holds `x`.
fn contains_index(v: &Vec<usize>, x: usize) -> (r: bool)
    ensures
        r == v@.contains(x),
{
    let mut i: usize = 0;
    while i < v.len()
        invariant
            i <= v.len(),
            forall|j: int| 0 <= j < i ==> v@[j] != x,
        decreases v.len() - i,
    {
        if v[i] == x {
            return true;
        }
        i = i + 1;
    }
    false
}

/// The caller chain of target `target_index` (see `caller_chain_entries`).
pub fn build_caller_chain(
    target_index: usize,
    search_targets: &Vec<SearchTarget>,
    caller_index: &Vec<Vec<usize>>,
) -> (entries: Vec<TraceEntry>)
    requires
        caller_lists_valid(search_targets@, caller_index@),
        target_index < search_targets.len(),
    ensures
        entries_view(entries@) == caller_chain_entries(search_targets@, caller_index@, target_index),
{
    let ghost ts = search_targets@;
    let ghost ci = caller_index@;
    let ghost full = caller_chain_spec(ts, ci, target_index, Set::empty(), 3);
    let mut entries: Vec<TraceEntry> = Vec::new();
    let mut visited: Vec<usize> = Vec::new();
    let ghost mut visited_set: Set<usize> = Set::empty();
    let ghost mut shown: Seq<usize> = Seq::empty();
    let mut current: usize = target_index;
    let mut step: usize = 0;
    let mut stopped = false;
    while step < 3
        invariant
            step <= 3,
            ts == search_targets@,
            ci == caller_index@,
            caller_lists_valid(ts, ci),
            current < search_targets.len(),
            full == caller_chain_spec(ts, ci, target_index, Set::empty(), 3),
            forall|x: usize| #[trigger] visited@.contains(x) <==> visited_set.contains(x),
            entries_view(entries@) == shown.map_values(|c: usize| caller_entry(ts[c as int])),
            full == shown + if stopped {
                Seq::<usize>::empty()
            } else {
                caller_chain_spec(ts, ci, current, visited_set, (3 - step) as nat)
            },
        decreases 3 - step,
    {
        if !stopped {
            let candidates = &caller_index[current];
            proof {
                assert(indices_in_range(ts, ci[current as int]@));
            }
            let selected = select_primary_caller(candidates, &search_targets[current], search_targets);
            match selected {
                None => {
                    stopped = true;
                },
                Some(caller) => {
                    if contains_index(&visited, caller) {
                        stopped = true;
                    } else {
                        proof {
                            let k = choose|k: int|
                                0 <= k < candidates.len() && candidates@[k] == caller && (forall|j: int|
                                    0 <= j < k ==> crate::search::ranking::key_less(
                                        crate::search::ranking::primary_caller_key(ts, search_targets@[current as int].file_path@, caller),
                                        crate::search::ranking::primary_caller_key(ts, search_targets@[current as int].file_path@, #[trigger] candidates@[j]),
                                    )) && (forall|j: int|
                                    k < j < candidates.len() ==> !crate::search::ranking::key_less(
                                        crate::search::ranking::primary_caller_key(ts, search_targets@[current as int].file_path@, #[trigger] candidates@[j]),
                                        crate::search::ranking::primary_caller_key(ts, search_targets@[current as int].file_path@, caller),
                                    ));
                            assert(candidates@[k] < ts.len());
                        }
                        let ghost visited_before = visited@;
                        visited.push(caller);
                        assert(visited@.drop_last() =~= visited_before);
                        let caller_target = &search_targets[caller];
                        let text = match &caller_target.signature_text {
                            Some(s) => s.clone(),
                            None => caller_target.declaration_snippet.clone(),
                        };
                        let location = build_location(&caller_target.file_path, caller_target.line_start, caller_target.line_end);
                        let e = plain_entry(Some(TraceRelation::IncomingCall), text, Some(location));
                        let ghost old_entries = entries@;
                        let ghost old_visited = visited@.drop_last();
                        entries.push(e);
                        proof {
                            assert(e@ == caller_entry(ts[caller as int]));
                            assert(entries_view(entries@) =~= entries_view(old_entries).push(e@));
                            let rest = caller_chain_spec(ts, ci, caller, visited_set.insert(caller), (3 - step - 1) as nat);
                            assert(caller_chain_spec(ts, ci, current, visited_set, (3 - step) as nat) == seq![caller] + rest);
                            let old_shown = shown;
                            shown = shown.push(caller);
                            visited_set = visited_set.insert(caller);
                            assert(old_shown + (seq![caller] + rest) =~= shown + rest);
                            assert(shown.map_values(|c: usize| caller_entry(ts[c as int])) =~= old_shown.map_values(
                                |c: usize| caller_entry(ts[c as int]),
                            ).push(caller_entry(ts[caller as int])));
                            assert(entries_view(entries@) =~= shown.map_values(|c: usize| caller_entry(ts[c as int])));
                            assert(visited@ == old_visited.push(caller));
                            assert forall|x: usize| #[trigger] visited@.contains(x) <==> visited_set.contains(x) by {
                                if x == caller {
                                    assert(visited@[visited@.len() - 1] == caller);
                                } else {
                                    if visited@.contains(x) {
                                        let j = choose|j: int| 0 <= j < visited@.len() && visited@[j] == x;
                                        assert(old_visited[j] == x);
                                        assert(old_visited.contains(x));
                                    }
                                    if old_visited.contains(x) {
                                        let j = choose|j: int| 0 <= j < old_visited.len() && old_visited[j] == x;
                                        assert(visited@[j] == x);
                                    }
                                }
                            }
                        }
                        current = caller;
                    }
                },
            }
        }
        step = step + 1;
    }
    proof {
        if !stopped {
            assert(caller_chain_spec(ts, ci, current, visited_set, 0) =~= Seq::<usize>::empty());
        }
        assert(shown =~= full);
    }
    entries
}

/// The type hint of a local binding (see `binding_type_hint`).
pub fn resolve_local_binding_type_hint(
    search_target: &SearchTarget,
    callable_indices_by_name: &CallableIndex,
    search_targets: &Vec<SearchTarget>,
) -> (hint: Option<(String, bool)>)
    requires
        callable_indices_by_name.indexes(search_targets@),
    ensures
        match hint {
            Some((h, inferred)) => binding_type_hint(search_targets@, *search_target) == Some((h@, inferred)),
            None => binding_type_hint(search_targets@, *search_target) is None,
        },
{
    if let Some(type_hint) = &search_target.return_type_hint {
        return Some((type_hint.clone(), false));
    }
    if search_target.call_names.len() == 1 {
        let target_count = search_targets.len();
        let resolved = resolve_callable_index(
            search_target.call_names[0].as_str(),
            search_target.file_path.as_str(),
            callable_indices_by_name,
            search_targets,
        );
        proof {
            crate::search::ranking::law_resolved_call_names_callable(
                search_targets@,
                search_target.call_names@[0]@,
                search_target.file_path@,
            );
        }
        let callable_index = match resolved {
            Some(i) => i,
            None => return None,
        };
        return match &search_targets[callable_index].return_type_hint {
            Some(h) => Some((h.clone(), true)),
            None => None,
        };
    }
    None
}


/// A section with one entry.
fn single_entry_section(category: SectionCategory, entry: TraceEntry) -> (section: TraceSection)
    ensures
        section@ == (SectionView { category, entries: seq![entry@] }),
{
    let ghost e = entry@;
    let section = TraceSection { category, entries: vec![entry] };
    assert(section@.entries =~= seq![e]);
    section
}

/// The sections of a local binding hit (see `local_binding_sections`).
pub fn build_local_binding_sections(
    search_target: &SearchTarget,
    callable_indices_by_name: &CallableIndex,
    search_targets: &Vec<SearchTarget>,
) -> (sections: Vec<TraceSection>)
    requires
        callable_indices_by_name.indexes(search_targets@),
    ensures
        sections_view(sections@) == local_binding_sections(search_targets@, *search_target),
{
    let ghost t = *search_target;
    let ghost ts = search_targets@;
    let mut annotations: Vec<String> = Vec::new();
    match resolve_local_binding_type_hint(search_target, callable_indices_by_name, search_targets) {
        Some((type_hint, is_inferred)) => {
            let mut annotation = String::from_str("-> Type: ");
            annotation.append(type_hint.as_str());
            if is_inferred {
                annotation.append(" (inferred)");
            }
            annotations.push(annotation);
            proof {
                assert(annotations@.map_values(|a: String| a@) =~= seq![annotation@]);
            }
        },
        None => {
            proof {
                assert(annotations@.map_values(|a: String| a@) =~= Seq::<Seq<char>>::empty());
            }
        },
    }
    let declaration_entry = TraceEntry {
        relation: None,
        text: search_target.declaration_snippet.clone(),
        location: Some(build_binding_location(search_target)),
        annotations,
    };
    assert(declaration_entry@ =~= binding_declaration_entry(ts, t));
    let mut sections: Vec<TraceSection> = Vec::new();
    sections.push(single_entry_section(SectionCategory::Declaration, declaration_entry));
    let ghost part1 = seq![SectionView { category: SectionCategory::Declaration, entries: seq![binding_declaration_entry(ts, t)] }];
    assert(sections_view(sections@) =~= part1);
    let ghost flow_part: Seq<SectionView> = if t.flow_steps.len() > 0 {
        seq![
            SectionView {
                category: SectionCategory::DataFlow,
                entries: seq![entry_spec(None, t.symbol_name@, None)] + t.flow_steps@.map_values(
                    |s: TraceStep| flow_entry(t.file_path@, s),
                ),
            },
        ]
    } else {
        Seq::empty()
    };
    if search_target.flow_steps.len() > 0 {
        let mut entries: Vec<TraceEntry> = Vec::new();
        entries.push(plain_entry(None, search_target.symbol_name.clone(), None));
        let steps = &search_target.flow_steps;
        let mut i: usize = 0;
        while i < steps.len()
            invariant
                i <= steps.len(),
                t == *search_target,
                steps@ == t.flow_steps@,
                entries_view(entries@) == seq![entry_spec(None, t.symbol_name@, None)] + steps@.take(
                    i as int,
                ).map_values(|s: TraceStep| flow_entry(t.file_path@, s)),
            decreases steps.len() - i,
        {
            let location = build_location(&search_target.file_path, steps[i].line_start, steps[i].line_end);
            assert(location@ == location_spec(t.file_path@, steps@[i as int].line_start, steps@[i as int].line_end));
            let label = steps[i].label.clone();
            assert(label@ == steps@[i as int].label@);
            let e = plain_entry(Some(TraceRelation::OutgoingCall), label, Some(location));
            assert(e@.location == Some(location_spec(t.file_path@, steps@[i as int].line_start, steps@[i as int].line_end)));
            let ghost old_entries = entries@;
            entries.push(e);
            proof {
                assert(e@ == flow_entry(t.file_path@, steps@[i as int]));
                assert(entries_view(entries@) =~= entries_view(old_entries).push(e@));
                assert(steps@.take(i + 1) =~= steps@.take(i as int).push(steps@[i as int]));
                assert(steps@.take(i + 1).map_values(|s: TraceStep| flow_entry(t.file_path@, s)) =~= steps@.take(
                    i as int,
                ).map_values(|s: TraceStep| flow_entry(t.file_path@, s)).push(e@));
            }
            i = i + 1;
        }
        assert(steps@.take(steps.len() as int) =~= steps@);
        let section = TraceSection { category: SectionCategory::DataFlow, entries };
        sections.push(section);
    }
    assert(sections_view(sections@) =~= part1 + flow_part);
    let ghost dep_part: Seq<SectionView> = match dependency_section_spec(t) {
        Some(s) => seq![s],
        None => Seq::empty(),
    };
    if let Some(dependency_section) = build_dependency_section(search_target) {
        sections.push(dependency_section);
    }
    assert(sections_view(sections@) =~= part1 + flow_part + dep_part);
    append_enrichment_sections(&mut sections, search_target);
    proof {
        reveal_strlit("-> Type: ");
        reveal_strlit(" (inferred)");
        assert(sections_view(sections@) =~= local_binding_sections(ts, t));
    }
    sections
}

/// The sections of a callable hit (see `callable_sections`).
pub fn build_callable_sections(
    target_index: usize,
    search_target: &SearchTarget,
    search_targets: &Vec<SearchTarget>,
    caller_index: &Vec<Vec<usize>>,
) -> (sections: Vec<TraceSection>)
    requires
        caller_lists_valid(search_targets@, caller_index@),
        target_index < search_targets.len(),
        *search_target == search_targets@[target_index as int],
    ensures
        sections_view(sections@) == callable_sections(search_targets@, caller_index@, target_index),
{
    let ghost t = *search_target;
    let ghost ts = search_targets@;
    let mut annotations: Vec<String> = Vec::new();
    if let Some(return_type_hint) = &search_target.return_type_hint {
        let mut annotation = String::from_str("-> Return type: ");
        annotation.append(return_type_hint.as_str());
        annotations.push(annotation);
        proof {
            assert(annotations@.map_values(|a: String| a@) =~= seq![annotation@]);
        }
    } else {
        proof {
            assert(annotations@.map_values(|a: String| a@) =~= Seq::<Seq<char>>::empty());
        }
    }
    let text = match &search_target.signature_text {
        Some(s) => s.clone(),
        None => search_target.declaration_snippet.clone(),
    };
    let implementation = TraceEntry {
        relation: None,
        text,
        location: Some(build_location(&search_target.file_path, search_target.line_start, search_target.line_end)),
        annotations,
    };
    assert(implementation@ =~= implementation_entry(t));
    let mut sections: Vec<TraceSection> = Vec::new();
    sections.push(single_entry_section(SectionCategory::Implementation, implementation));
    let ghost part1 = seq![SectionView { category: SectionCategory::Implementation, entries: seq![implementation_entry(t)] }];
    assert(sections_view(sections@) =~= part1);
    let chain = build_caller_chain(target_index, search_targets, caller_index);
    let ghost chain_view = caller_chain_entries(ts, caller_index@, target_index);
    let ghost chain_part: Seq<SectionView> = if chain_view.len() > 0 {
        seq![SectionView { category: SectionCategory::Callers, entries: chain_view }]
    } else {
        Seq::empty()
    };
    if chain.len() > 0 {
        sections.push(TraceSection { category: SectionCategory::Callers, entries: chain });
    }
    assert(sections_view(sections@) =~= part1 + chain_part);
    let ghost dep_part: Seq<SectionView> = match dependency_section_spec(t) {
        Some(s) => seq![s],
        None => Seq::empty(),
    };
    if let Some(dependency_section) = build_dependency_section(search_target) {
        sections.push(dependency_section);
    }
    assert(sections_view(sections@) =~= part1 + chain_part + dep_part);
    let tests = collect_related_tests(target_index, search_targets, caller_index);
    let ghost tests_view = test_entries(ts, caller_index@[target_index as int]@);
    let ghost test_part: Seq<SectionView> = if tests_view.len() > 0 {
        seq![SectionView { category: SectionCategory::Test, entries: tests_view }]
    } else {
        Seq::empty()
    };
    if tests.len() > 0 {
        sections.push(TraceSection { category: SectionCategory::Test, entries: tests });
    }
    assert(sections_view(sections@) =~= part1 + chain_part + dep_part + test_part);
    append_enrichment_sections(&mut sections, search_target);
    proof {
        reveal_strlit("-> Return type: ");
        assert(sections_view(sections@) =~= callable_sections(ts, caller_index@, target_index));
    }
    sections
}

/// The sections of a type or file hit (see `simple_sections`).
pub fn build_simple_sections(search_target: &SearchTarget) -> (sections: Vec<TraceSection>)
    ensures
        sections_view(sections@) == simple_sections(*search_target),
{
    let category = match search_target.target_kind {
        SearchTargetKind::File => SectionCategory::MatchCode,
        _ => SectionCategory::Declaration,
    };
    let location = build_location(&search_target.file_path, search_target.line_start, search_target.line_end);
    let entry = plain_entry(None, search_target.declaration_snippet.clone(), Some(location));
    let mut sections: Vec<TraceSection> = Vec::new();
    sections.push(single_entry_section(category, entry));
    append_enrichment_sections(&mut sections, search_target);
    assert(sections_view(sections@) =~= simple_sections(*search_target));
    sections
}

/// `hit` is the hit of target `i`: its identity, its sections by kind (see `hit_sections`)
/// and its raw target data.
pub open spec fn is_hit_of(hit: SearchHit, ts: Seq<SearchTarget>, callers: Seq<Vec<usize>>, i: usize) -> bool {
    let t = ts[i as int];
    &&& hit.target_id == t.target_id
    &&& hit.target_kind == t.target_kind
    &&& hit.symbol_name == t.symbol_name
    &&& hit.file_path == t.file_path
    &&& hit.language == t.language
    &&& hit.line_start == t.line_start
    &&& hit.line_end == t.line_end
    &&& hit.semantic_role == t.semantic_role
    &&& sections_view(hit.sections@) == hit_sections(ts, callers, i)
    &&& hit.raw_target.signature_text == t.signature_text
    &&& hit.raw_target.return_type_hint == t.return_type_hint
    &&& hit.raw_target.parameter_descriptions@ == t.parameter_descriptions@
    &&& hit.raw_target.incoming_dependencies@ == t.incoming_dependencies@
    &&& hit.raw_target.outgoing_dependencies@ == t.outgoing_dependencies@
    &&& hit.raw_target.flow_steps@ == t.flow_steps@
    &&& hit.raw_target.container_name == t.container_name
    &&& hit.raw_target.parent_symbol_name == t.parent_symbol_name
    &&& hit.raw_target.import_hint == t.import_hint
}

/// The hit for target `target_index`: its identity, its sections by kind (see
/// `hit_sections`) and its raw target data.
pub fn build_search_hit(
    target_index: usize,
    search_targets: &Vec<SearchTarget>,
    callable_indices_by_name: &CallableIndex,
    caller_index: &Vec<Vec<usize>>,
) -> (hit: SearchHit)
    requires
        target_index < search_targets.len(),
        callable_indices_by_name.indexes(search_targets@),
        caller_lists_valid(search_targets@, caller_index@),
    ensures
        is_hit_of(hit, search_targets@, caller_index@, target_index),
{
    let search_target = &search_targets[target_index];
    let sections = match search_target.target_kind {
        SearchTargetKind::LocalBinding => build_local_binding_sections(search_target, callable_indices_by_name, search_targets),
        SearchTargetKind::Function | SearchTargetKind::Method => build_callable_sections(
            target_index,
            search_target,
            search_targets,
            caller_index,
        ),
        _ => build_simple_sections(search_target),
    };
    SearchHit {
        target_id: search_target.target_id.clone(),
        target_kind: search_target.target_kind,
        symbol_name: search_target.symbol_name.clone(),
        file_path: search_target.file_path.clone(),
        language: search_target.language,
        line_start: search_target.line_start,
        line_end: search_target.line_end,
        sections,
        semantic_role: copy_opt_string(&search_target.semantic_role),
        raw_target: SearchRawTarget {
            signature_text: copy_opt_string(&search_target.signature_text),
            return_type_hint: copy_opt_string(&search_target.return_type_hint),
            parameter_descriptions: copy_named_texts(&search_target.parameter_descriptions),
            incoming_dependencies: copy_trace_references(&search_target.incoming_dependencies),
            outgoing_dependencies: copy_trace_references(&search_target.outgoing_dependencies),
            flow_steps: copy_trace_steps(&search_target.flow_steps),
            container_name: copy_opt_string(&search_target.container_name),
            parent_symbol_name: copy_opt_string(&search_target.parent_symbol_name),
            import_hint: copy_opt_string(&search_target.import_hint),
        },
    }
}

} // verus!
