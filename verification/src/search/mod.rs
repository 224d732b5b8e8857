//! Ranking support and hit construction for code search.

pub mod discovery;
pub mod ranking;
pub mod trace;
pub mod validation;

use vstd::prelude::*;

use crate::model::{SearchResults, SearchTarget};
use crate::parser::FileAnalysis;
use self::ranking::{CallableIndex, ScoredSearchTarget};
use self::trace::{build_search_hit, caller_lists_valid, is_hit_of};

verus! {

/// Adds the outcome of analysing one file: its targets and warnings, or, for a file that
/// could not be read, one warning.
pub fn absorb_file_analysis(
    search_targets: &mut Vec<SearchTarget>,
    warning_count: &mut usize,
    file_analysis: Option<FileAnalysis>,
)
    requires
        *old(warning_count) + match file_analysis {
            Some(a) => a.warning_count as int,
            None => 1,
        } <= usize::MAX,
    ensures
        final(search_targets)@ == old(search_targets)@ + match file_analysis {
            Some(a) => a.targets@,
            None => Seq::empty(),
        },
        *final(warning_count) == *old(warning_count) + match file_analysis {
            Some(a) => a.warning_count as int,
            None => 1,
        },
{
    match file_analysis {
        Some(analysis) => {
            let mut targets = analysis.targets;
            *warning_count = *warning_count + analysis.warning_count;
            search_targets.append(&mut targets);
        },
        None => {
            *warning_count = *warning_count + 1;
            assert(search_targets@ =~= old(search_targets)@ + Seq::<SearchTarget>::empty());
        },
    }
}

/// The results of a search: the hits of the first `limit` ranked targets, in the given
/// order, with the counts reported beside them.
pub fn build_search_results(
    ranked_targets: &Vec<ScoredSearchTarget>,
    limit: usize,
    search_targets: &Vec<SearchTarget>,
    callable_indices_by_name: &CallableIndex,
    caller_index: &Vec<Vec<usize>>,
    scanned_file_count: usize,
    matched_target_count: usize,
    warning_count: usize,
) -> (results: SearchResults)
    requires
        forall|k: int| 0 <= k < ranked_targets.len() ==> #[trigger] ranked_targets@[k].target_index < search_targets.len(),
        callable_indices_by_name.indexes(search_targets@),
        caller_lists_valid(search_targets@, caller_index@),
    ensures
        results.results.len() == if ranked_targets.len() < limit {
            ranked_targets.len()
        } else {
            limit
        },
        forall|k: int|
            0 <= k < results.results.len() ==> is_hit_of(
                #[trigger] results.results@[k],
                search_targets@,
                caller_index@,
                ranked_targets@[k].target_index,
            ),
        results.scanned_file_count == scanned_file_count,
        results.matched_target_count == matched_target_count,
        results.warning_count == warning_count,
{
    let mut hits = Vec::new();
    let mut k: usize = 0;
    while k < ranked_targets.len() && k < limit
        invariant
            k <= ranked_targets.len(),
            k <= limit,
            hits.len() == k,
            forall|j: int| 0 <= j < ranked_targets.len() ==> #[trigger] ranked_targets@[j].target_index < search_targets.len(),
            callable_indices_by_name.indexes(search_targets@),
            caller_lists_valid(search_targets@, caller_index@),
            forall|j: int|
                0 <= j < k ==> is_hit_of(
                    #[trigger] hits@[j],
                    search_targets@,
                    caller_index@,
                    ranked_targets@[j].target_index,
                ),
        decreases ranked_targets.len() - k,
    {
        let hit = build_search_hit(
            ranked_targets[k].target_index,
            search_targets,
            callable_indices_by_name,
            caller_index,
        );
        hits.push(hit);
        k = k + 1;
    }
    SearchResults { results: hits, scanned_file_count, matched_target_count, warning_count }
}

} // verus!
