//! Callable resolution, caller indices, query context and result ordering.

use vstd::hash_map::StringHashMap;
use vstd::prelude::*;

use crate::model::{is_callable_kind, SearchTarget, SearchTargetKind};
use crate::paths::{compare_paths, law_path_less_asymmetric, law_path_less_irreflexive,
    law_path_less_total, law_path_less_transitive, path_less};

verus! {

// ---------------------------------------------------------------------------
// Callable lookup by name
// ---------------------------------------------------------------------------

/// Indices below `upto` of the callable targets named `name`, ascending.
pub open spec fn callables_named(ts: Seq<SearchTarget>, name: Seq<char>, upto: int) -> Seq<usize>
    decreases upto,
{
    if upto <= 0 || upto > ts.len() {
        Seq::empty()
    } else {
        let rest = callables_named(ts, name, upto - 1);
        let t = ts[upto - 1];
        if is_callable_kind(t.target_kind) && t.symbol_name@ == name {
            rest.push((upto - 1) as usize)
        } else {
            rest
        }
    }
}

/// The indices of all callable targets named `name`, ascending.
pub open spec fn callable_candidates(ts: Seq<SearchTarget>, name: Seq<char>) -> Seq<usize> {
    callables_named(ts, name, ts.len() as int)
}

proof fn lemma_callables_named(ts: Seq<SearchTarget>, name: Seq<char>, upto: int)
    requires
        0 <= upto <= ts.len() <= usize::MAX,
    ensures
        forall|k: int|
            0 <= k < callables_named(ts, name, upto).len() ==> {
                let i = #[trigger] callables_named(ts, name, upto)[k];
                &&& i < upto
                &&& is_callable_kind(ts[i as int].target_kind)
                &&& ts[i as int].symbol_name@ == name
            },
        forall|a: int, b: int|
            0 <= a < b < callables_named(ts, name, upto).len() ==> callables_named(ts, name, upto)[a]
                < callables_named(ts, name, upto)[b],
    decreases upto,
{
    if upto > 0 {
        lemma_callables_named(ts, name, upto - 1);
        let rest = callables_named(ts, name, upto - 1);
        let all = callables_named(ts, name, upto);
        assert forall|k: int| 0 <= k < all.len() implies {
            let i = #[trigger] all[k];
            &&& i < upto
            &&& is_callable_kind(ts[i as int].target_kind)
            &&& ts[i as int].symbol_name@ == name
        } by {
            if k < rest.len() {
                assert(all[k] == rest[k]);
            }
        }
        assert forall|a: int, b: int| 0 <= a < b < all.len() implies all[a] < all[b] by {
            if b < rest.len() {
                assert(all[a] == rest[a] && all[b] == rest[b]);
            } else {
                assert(all[a] == rest[a]);
                assert(rest[a] < upto - 1);
            }
        }
    }
}

/// Callable targets grouped by symbol name.
pub struct CallableIndex {
    by_name: StringHashMap<Vec<usize>>,
}

impl CallableIndex {
    /// The indices recorded for `name` (empty when the name is absent).
    pub closed spec fn candidates(&self, name: Seq<char>) -> Seq<usize> {
        if self.by_name@.contains_key(name) {
            self.by_name@[name]@
        } else {
            Seq::empty()
        }
    }

    /// The index records, for every name, the callable targets of `ts` with that name.
    pub open spec fn indexes(&self, ts: Seq<SearchTarget>) -> bool {
        forall|name: Seq<char>| #[trigger] self.candidates(name) == callable_candidates(ts, name)
    }

    /// The indices recorded for `name`, ascending.
    pub fn get(&self, name: &str) -> (r: Vec<usize>)
        ensures
            r@ == self.candidates(name@),
    {
        match self.by_name.get(name) {
            Some(list) => copy_indices(list),
            None => Vec::new(),
        }
    }
}

/// A copy of `v`.
pub fn copy_indices(v: &Vec<usize>) -> (r: Vec<usize>)
    ensures
        r@ == v@,
{
    let mut r: Vec<usize> = Vec::new();
    let mut i: usize = 0;
    while i < v.len()
        invariant
            i <= v.len(),
            r@ == v@.take(i as int),
        decreases v.len() - i,
    {
        r.push(v[i]);
        i = i + 1;
        assert(r@ =~= v@.take(i as int));
    }
    assert(v@.take(v.len() as int) =~= v@);
    r
}

/// Groups the callable targets (functions and methods) by symbol name.
pub fn build_callable_indices_by_name(search_targets: &Vec<SearchTarget>) -> (index: CallableIndex)
    ensures
        index.indexes(search_targets@),
{
    let mut by_name: StringHashMap<Vec<usize>> = StringHashMap::new();
    let mut i: usize = 0;
    while i < search_targets.len()
        invariant
            i <= search_targets.len(),
            forall|name: Seq<char>|
                #[trigger] (CallableIndex { by_name }).candidates(name) == callables_named(
                    search_targets@,
                    name,
                    i as int,
                ),
        decreases search_targets.len() - i,
    {
        let ghost before = CallableIndex { by_name };
        let target = &search_targets[i];
        if target.target_kind.is_callable() {
            let name = target.symbol_name.clone();
            let mut list = match by_name.get(name.as_str()) {
                Some(existing) => copy_indices(existing),
                None => Vec::new(),
            };
            list.push(i);
            let ghost key = name@;
            by_name.insert(name, list);
            proof {
                assert forall|n: Seq<char>| #[trigger] (CallableIndex { by_name }).candidates(n)
                    == callables_named(search_targets@, n, i + 1) by {
                    if n == key {
                        assert(before.candidates(n) == callables_named(search_targets@, n, i as int));
                    } else {
                        assert(before.candidates(n) == callables_named(search_targets@, n, i as int));
                    }
                }
            }
        } else {
            proof {
                assert forall|n: Seq<char>| #[trigger] (CallableIndex { by_name }).candidates(n)
                    == callables_named(search_targets@, n, i + 1) by {
                    assert(before.candidates(n) == callables_named(search_targets@, n, i as int));
                }
            }
        }
        i = i + 1;
    }
    CallableIndex { by_name }
}

/// The candidates whose target lies in the file `path`, in order.
pub open spec fn same_file_matches(ts: Seq<SearchTarget>, c: Seq<usize>, path: Seq<char>) -> Seq<usize>
    decreases c.len(),
{
    if c.len() == 0 {
        Seq::empty()
    } else {
        let rest = same_file_matches(ts, c.drop_last(), path);
        if ts[c.last() as int].file_path@ == path {
            rest.push(c.last())
        } else {
            rest
        }
    }
}

/// The callable that a call named `name` in the file `path` refers to: the only callable
/// of that name, or else the only one of that name in the same file.
pub open spec fn resolve_spec(ts: Seq<SearchTarget>, name: Seq<char>, path: Seq<char>) -> Option<usize> {
    let c = callable_candidates(ts, name);
    if c.len() == 0 {
        None
    } else if c.len() == 1 {
        Some(c[0])
    } else {
        let m = same_file_matches(ts, c, path);
        if m.len() == 1 {
            Some(m[0])
        } else {
            None
        }
    }
}

proof fn lemma_same_file_matches_grow(ts: Seq<SearchTarget>, c: Seq<usize>, path: Seq<char>, k: int)
    requires
        0 <= k <= c.len(),
    ensures
        same_file_matches(ts, c, path).len() >= same_file_matches(ts, c.take(k), path).len(),
        same_file_matches(ts, c.take(k), path).len() > 0 ==> same_file_matches(ts, c, path)[0]
            == same_file_matches(ts, c.take(k), path)[0],
    decreases c.len() - k,
{
    if k < c.len() {
        lemma_same_file_matches_grow(ts, c, path, k + 1);
        assert(c.take(k + 1).drop_last() =~= c.take(k));
    } else {
        assert(c.take(k) =~= c);
    }
}

/// A call resolves, if at all, to a callable target that bears the call's name.
pub proof fn law_resolved_call_names_callable(ts: Seq<SearchTarget>, name: Seq<char>, path: Seq<char>)
    requires
        ts.len() <= usize::MAX,
    ensures
        match resolve_spec(ts, name, path) {
            Some(i) => i < ts.len() && is_callable_kind(ts[i as int].target_kind) && ts[i as int].symbol_name@ == name,
            None => true,
        },
{
    lemma_resolve_in_range(ts, name, path);
    lemma_callables_named(ts, name, ts.len() as int);
    let c = callable_candidates(ts, name);
    if c.len() > 1 {
        lemma_same_file_matches_members(ts, c, path);
        let m = same_file_matches(ts, c, path);
        if m.len() == 1 {
            assert(c.contains(m[0]));
        }
    }
}

proof fn lemma_resolve_in_range(ts: Seq<SearchTarget>, name: Seq<char>, path: Seq<char>)
    requires
        ts.len() <= usize::MAX,
    ensures
        match resolve_spec(ts, name, path) {
            Some(i) => i < ts.len() && is_callable_kind(ts[i as int].target_kind),
            None => true,
        },
{
    lemma_callables_named(ts, name, ts.len() as int);
    let c = callable_candidates(ts, name);
    if c.len() > 1 {
        lemma_same_file_matches_members(ts, c, path);
        let m = same_file_matches(ts, c, path);
        if m.len() == 1 {
            assert(c.contains(m[0]));
        }
    }
}

proof fn lemma_same_file_matches_members(ts: Seq<SearchTarget>, c: Seq<usize>, path: Seq<char>)
    ensures
        forall|k: int|
            0 <= k < same_file_matches(ts, c, path).len() ==> c.contains(
                #[trigger] same_file_matches(ts, c, path)[k],
            ),
    decreases c.len(),
{
    if c.len() > 0 {
        lemma_same_file_matches_members(ts, c.drop_last(), path);
        let m = same_file_matches(ts, c, path);
        assert forall|k: int| 0 <= k < m.len() implies c.contains(#[trigger] m[k]) by {
            let r = same_file_matches(ts, c.drop_last(), path);
            if k < r.len() {
                assert(r[k] == m[k]);
                assert(c.drop_last().contains(r[k]));
                let j = choose|j: int| 0 <= j < c.drop_last().len() && c.drop_last()[j] == r[k];
                assert(c[j] == m[k]);
            } else {
                assert(c[c.len() - 1] == m[k]);
            }
        }
    }
}

/// The callable that a call named `call_name` made in `reference_file_path` refers to
/// (see `resolve_spec`).
pub fn resolve_callable_index(
    call_name: &str,
    reference_file_path: &str,
    callable_indices_by_name: &CallableIndex,
    search_targets: &Vec<SearchTarget>,
) -> (r: Option<usize>)
    requires
        callable_indices_by_name.indexes(search_targets@),
    ensures
        r == resolve_spec(search_targets@, call_name@, reference_file_path@),
{
    let candidates = callable_indices_by_name.get(call_name);
    let target_count = search_targets.len();
    proof {
        assert(callable_indices_by_name.candidates(call_name@) == callable_candidates(
            search_targets@,
            call_name@,
        ));
        lemma_callables_named(search_targets@, call_name@, search_targets@.len() as int);
    }
    if candidates.len() == 0 {
        return None;
    }
    if candidates.len() == 1 {
        return Some(candidates[0]);
    }
    let mut same_file_candidate_index: Option<usize> = None;
    let mut k: usize = 0;
    while k < candidates.len()
        invariant
            k <= candidates.len(),
            candidates@ == callable_candidates(search_targets@, call_name@),
            forall|j: int| 0 <= j < candidates.len() ==> #[trigger] candidates@[j] < search_targets.len(),
            ({
                let m = same_file_matches(search_targets@, candidates@.take(k as int), reference_file_path@);
                &&& m.len() <= 1
                &&& same_file_candidate_index == if m.len() == 1 {
                    Some(m[0])
                } else {
                    None::<usize>
                }
            }),
        decreases candidates.len() - k,
    {
        let candidate_index = candidates[k];
        proof {
            assert(candidates@.take(k + 1).drop_last() =~= candidates@.take(k as int));
            assert(candidates@.take(k + 1).last() == candidate_index);
        }
        if compare_paths(search_targets[candidate_index].file_path.as_str(), reference_file_path) == 0 {
            if same_file_candidate_index.is_some() {
                proof {
                    lemma_same_file_matches_grow(
                        search_targets@,
                        candidates@,
                        reference_file_path@,
                        k + 1,
                    );
                }
                return None;
            }
            same_file_candidate_index = Some(candidate_index);
        }
        k = k + 1;
    }
    proof {
        assert(candidates@.take(candidates.len() as int) =~= candidates@);
    }
    same_file_candidate_index
}

} // verus!

verus! {

// ---------------------------------------------------------------------------
// Target order: file path, then first line, then position
// ---------------------------------------------------------------------------

/// Target `a` sorts before target `b`: by file path, then first line, then index.
pub open spec fn target_order_less(ts: Seq<SearchTarget>, a: usize, b: usize) -> bool {
    let pa = ts[a as int].file_path@;
    let pb = ts[b as int].file_path@;
    path_less(pa, pb) || (pa == pb && (ts[a as int].line_start < ts[b as int].line_start || (
    ts[a as int].line_start == ts[b as int].line_start && a < b)))
}

/// `l` is strictly increasing in target order.
pub open spec fn sorted_by_target(ts: Seq<SearchTarget>, l: Seq<usize>) -> bool {
    forall|a: int, b: int| 0 <= a < b < l.len() ==> target_order_less(ts, #[trigger] l[a], #[trigger] l[b])
}

/// Every element of `l` indexes into `ts`.
pub open spec fn indices_in_range(ts: Seq<SearchTarget>, l: Seq<usize>) -> bool {
    forall|k: int| 0 <= k < l.len() ==> #[trigger] l[k] < ts.len()
}

proof fn lemma_target_order(ts: Seq<SearchTarget>, a: usize, b: usize, c: usize)
    ensures
        !target_order_less(ts, a, a),
        target_order_less(ts, a, b) && target_order_less(ts, b, c) ==> target_order_less(ts, a, c),
        a != b ==> target_order_less(ts, a, b) || target_order_less(ts, b, a),
        target_order_less(ts, a, b) ==> !target_order_less(ts, b, a),
{
    let pa = ts[a as int].file_path@;
    let pb = ts[b as int].file_path@;
    let pc = ts[c as int].file_path@;
    law_path_less_irreflexive(pa);
    law_path_less_total(pa, pb);
    if path_less(pa, pb) {
        law_path_less_asymmetric(pa, pb);
    }
    if path_less(pb, pa) {
        law_path_less_asymmetric(pb, pa);
    }
    if path_less(pa, pb) && path_less(pb, pc) {
        law_path_less_transitive(pa, pb, pc);
    }
}

/// Whether target `a` sorts before target `b` (see `target_order_less`).
fn target_order_lt(ts: &Vec<SearchTarget>, a: usize, b: usize) -> (r: bool)
    requires
        a < ts.len(),
        b < ts.len(),
    ensures
        r == target_order_less(ts@, a, b),
{
    let pa = ts[a].file_path.as_str();
    let pb = ts[b].file_path.as_str();
    assert(pa@ == ts@[a as int].file_path@);
    assert(pb@ == ts@[b as int].file_path@);
    let c = compare_paths(pa, pb);
    if c == -1 {
        true
    } else if c == 1 {
        proof {
            law_path_less_asymmetric(ts@[b as int].file_path@, ts@[a as int].file_path@);
            law_path_less_irreflexive(ts@[a as int].file_path@);
        }
        false
    } else {
        proof {
            law_path_less_irreflexive(ts@[a as int].file_path@);
            law_path_less_total(ts@[a as int].file_path@, ts@[b as int].file_path@);
        }
        ts[a].line_start < ts[b].line_start || (ts[a].line_start == ts[b].line_start && a < b)
    }
}

/// `list` with `x` added at its place in target order (unchanged when `x` is present).
fn insert_sorted(ts: &Vec<SearchTarget>, list: &Vec<usize>, x: usize) -> (r: Vec<usize>)
    requires
        sorted_by_target(ts@, list@),
        indices_in_range(ts@, list@),
        x < ts.len(),
    ensures
        sorted_by_target(ts@, r@),
        indices_in_range(ts@, r@),
        forall|y: usize| r@.contains(y) <==> (list@.contains(y) || y == x),
{
    let mut p: usize = 0;
    while p < list.len() && target_order_lt(ts, list[p], x)
        invariant
            p <= list.len(),
            indices_in_range(ts@, list@),
            x < ts.len(),
            forall|j: int| 0 <= j < p ==> target_order_less(ts@, #[trigger] list@[j], x),
        decreases list.len() - p,
    {
        p = p + 1;
    }
    let mut r = copy_indices(list);
    if p < list.len() && list[p] == x {
        proof {
            assert forall|y: usize| r@.contains(y) <==> (list@.contains(y) || y == x) by {
                if y == x {
                    assert(list@[p as int] == x);
                }
            }
        }
        return r;
    }
    proof {
        if p < list.len() {
            lemma_target_order(ts@, list@[p as int], x, x);
            assert(target_order_less(ts@, x, list@[p as int]));
            assert forall|j: int| p <= j < list.len() implies target_order_less(ts@, x, #[trigger] list@[j]) by {
                if j > p {
                    assert(target_order_less(ts@, list@[p as int], list@[j]));
                    lemma_target_order(ts@, x, list@[p as int], list@[j]);
                }
            }
        }
    }
    r.insert(p, x);
    proof {
        let s = list@.insert(p as int, x);
        assert(r@ == s);
        assert forall|a: int, b: int| 0 <= a < b < s.len() implies target_order_less(ts@, #[trigger] s[a], #[trigger] s[b]) by {
            if b < p {
                assert(s[a] == list@[a] && s[b] == list@[b]);
            } else if b == p {
                assert(s[a] == list@[a]);
            } else if a == p {
                assert(s[b] == list@[b - 1]);
            } else if a < p {
                assert(s[a] == list@[a] && s[b] == list@[b - 1]);
                lemma_target_order(ts@, list@[a], x, list@[b - 1]);
            } else {
                assert(s[a] == list@[a - 1] && s[b] == list@[b - 1]);
            }
        }
        assert forall|k: int| 0 <= k < s.len() implies #[trigger] s[k] < ts.len() by {
            if k < p {
                assert(s[k] == list@[k]);
            } else if k > p {
                assert(s[k] == list@[k - 1]);
            }
        }
        assert forall|y: usize| s.contains(y) <==> (list@.contains(y) || y == x) by {
            if s.contains(y) {
                let k = choose|k: int| 0 <= k < s.len() && s[k] == y;
                if k < p {
                    assert(list@[k] == y);
                } else if k > p {
                    assert(list@[k - 1] == y);
                }
            }
            if list@.contains(y) {
                let k = choose|k: int| 0 <= k < list@.len() && list@[k] == y;
                if k < p {
                    assert(s[k] == y);
                } else {
                    assert(s[k + 1] == y);
                }
            }
            if y == x {
                assert(s[p as int] == x);
            }
        }
    }
    r
}

// ---------------------------------------------------------------------------
// Caller index
// ---------------------------------------------------------------------------

/// One of the first `upto` call names of target `caller` resolves to `callee`.
pub open spec fn calls_via(ts: Seq<SearchTarget>, caller: int, callee: usize, upto: int) -> bool {
    exists|k: int|
        0 <= k < upto && k < ts[caller].call_names.len() && #[trigger] resolve_spec(
            ts,
            ts[caller].call_names[k]@,
            ts[caller].file_path@,
        ) == Some(callee)
}

/// Target `caller` is a callable other than `callee` whose calls resolve to `callee`.
pub open spec fn is_caller_of(ts: Seq<SearchTarget>, caller: int, callee: usize) -> bool {
    &&& 0 <= caller < ts.len()
    &&& is_callable_kind(ts[caller].target_kind)
    &&& caller != callee
    &&& calls_via(ts, caller, callee, ts[caller].call_names.len() as int)
}

/// The callers of every target: entry `t` lists, in target order, the callables whose
/// calls resolve to target `t`.
pub fn build_caller_index(search_targets: &Vec<SearchTarget>, callable_indices_by_name: &CallableIndex) -> (caller_index: Vec<Vec<usize>>)
    requires
        callable_indices_by_name.indexes(search_targets@),
    ensures
        caller_index.len() == search_targets.len(),
        forall|t: int|
            0 <= t < caller_index.len() ==> sorted_by_target(search_targets@, #[trigger] caller_index@[t]@)
                && indices_in_range(search_targets@, caller_index@[t]@),
        forall|t: int, y: usize|
            0 <= t < caller_index.len() ==> (#[trigger] caller_index@[t]@.contains(y) <==> is_caller_of(
                search_targets@,
                y as int,
                t as usize,
            )),
        forall|t: int| 0 <= t < caller_index.len() ==> !#[trigger] caller_index@[t]@.contains(t as usize),
{
    let n = search_targets.len();
    let mut caller_index: Vec<Vec<usize>> = Vec::new();
    while caller_index.len() < n
        invariant
            caller_index.len() <= n == search_targets.len(),
            forall|t: int| 0 <= t < caller_index.len() ==> #[trigger] caller_index@[t]@ == Seq::<usize>::empty(),
        decreases n - caller_index.len(),
    {
        caller_index.push(Vec::new());
    }
    let mut i: usize = 0;
    while i < n
        invariant
            i <= n == search_targets.len() == caller_index.len(),
            callable_indices_by_name.indexes(search_targets@),
            forall|t: int|
                0 <= t < n ==> sorted_by_target(search_targets@, #[trigger] caller_index@[t]@)
                    && indices_in_range(search_targets@, caller_index@[t]@),
            forall|t: int, y: usize|
                0 <= t < n ==> (#[trigger] caller_index@[t]@.contains(y) <==> (y < i && is_caller_of(
                    search_targets@,
                    y as int,
                    t as usize,
                ))),
        decreases n - i,
    {
        let caller_target = &search_targets[i];
        if caller_target.target_kind.is_callable() {
            let mut k: usize = 0;
            while k < caller_target.call_names.len()
                invariant
                    i < n == search_targets.len() == caller_index.len(),
                    k <= caller_target.call_names.len(),
                    caller_target == search_targets@[i as int],
                    is_callable_kind(caller_target.target_kind),
                    callable_indices_by_name.indexes(search_targets@),
                    forall|t: int|
                        0 <= t < n ==> sorted_by_target(search_targets@, #[trigger] caller_index@[t]@)
                            && indices_in_range(search_targets@, caller_index@[t]@),
                    forall|t: int, y: usize|
                        0 <= t < n ==> (#[trigger] caller_index@[t]@.contains(y) <==> ((y < i
                            && is_caller_of(search_targets@, y as int, t as usize)) || (y == i && i
                            != t && calls_via(search_targets@, i as int, t as usize, k as int)))),
                decreases caller_target.call_names.len() - k,
            {
                let resolved = resolve_callable_index(
                    caller_target.call_names[k].as_str(),
                    caller_target.file_path.as_str(),
                    callable_indices_by_name,
                    search_targets,
                );
                proof {
                    lemma_resolve_in_range(
                        search_targets@,
                        caller_target.call_names@[k as int]@,
                        caller_target.file_path@,
                    );
                }
                let ghost before = caller_index@;
                match resolved {
                    Some(callee) => {
                        if callee != i {
                            let updated = insert_sorted(search_targets, &caller_index[callee], i);
                            caller_index.set(callee, updated);
                        }
                    },
                    None => {},
                }
                proof {
                    assert forall|t: int, y: usize| 0 <= t < n implies (#[trigger] caller_index@[t]@.contains(y)
                        <==> ((y < i && is_caller_of(search_targets@, y as int, t as usize)) || (y
                        == i && i != t && calls_via(search_targets@, i as int, t as usize, k + 1)))) by {
                        assert(before[t]@.contains(y) <==> ((y < i && is_caller_of(
                            search_targets@,
                            y as int,
                            t as usize,
                        )) || (y == i && i != t && calls_via(search_targets@, i as int, t as usize, k as int))));
                        if y == i && i != t && calls_via(search_targets@, i as int, t as usize, k + 1) {
                            let kk = choose|kk: int|
                                0 <= kk < k + 1 && kk < search_targets@[i as int].call_names.len()
                                    && #[trigger] resolve_spec(
                                    search_targets@,
                                    search_targets@[i as int].call_names[kk]@,
                                    search_targets@[i as int].file_path@,
                                ) == Some(t as usize);
                            if kk < k {
                                assert(calls_via(search_targets@, i as int, t as usize, k as int));
                            }
                        }
                        if y == i && i != t && calls_via(search_targets@, i as int, t as usize, k as int) {
                            let kk = choose|kk: int|
                                0 <= kk < k && kk < search_targets@[i as int].call_names.len()
                                    && #[trigger] resolve_spec(
                                    search_targets@,
                                    search_targets@[i as int].call_names[kk]@,
                                    search_targets@[i as int].file_path@,
                                ) == Some(t as usize);
                            assert(calls_via(search_targets@, i as int, t as usize, k + 1));
                        }
                        if resolved == Some(t as usize) && i != t {
                            assert(calls_via(search_targets@, i as int, t as usize, k + 1));
                        }
                    }
                }
                k = k + 1;
            }
            proof {
                assert forall|t: int, y: usize| 0 <= t < n implies (#[trigger] caller_index@[t]@.contains(y)
                    <==> (y < i + 1 && is_caller_of(search_targets@, y as int, t as usize))) by {
                }
            }
        } else {
            proof {
                assert forall|t: int, y: usize| 0 <= t < n implies (#[trigger] caller_index@[t]@.contains(y)
                    <==> (y < i + 1 && is_caller_of(search_targets@, y as int, t as usize))) by {
                }
            }
        }
        i = i + 1;
    }
    proof {
        assert forall|t: int| 0 <= t < caller_index.len() implies !#[trigger] caller_index@[t]@.contains(
            t as usize,
        ) by {
            law_no_target_calls_itself(search_targets@, t as usize);
        }
    }
    caller_index
}

} // verus!

verus! {

// ---------------------------------------------------------------------------
// Lexicographic rank keys
// ---------------------------------------------------------------------------

/// A rank key: three integers, a file path and a line, compared in that order.
pub type RankKey = (int, int, int, Seq<char>, int);

/// Lexicographic order on rank keys, with paths in path order.
pub open spec fn key_less(x: RankKey, y: RankKey) -> bool {
    x.0 < y.0 || (x.0 == y.0 && (x.1 < y.1 || (x.1 == y.1 && (x.2 < y.2 || (x.2 == y.2 && (
    path_less(x.3, y.3) || (x.3 == y.3 && x.4 < y.4)))))))
}

proof fn lemma_key_less(x: RankKey, y: RankKey, z: RankKey)
    ensures
        !key_less(x, x),
        key_less(x, y) && key_less(y, z) ==> key_less(x, z),
        key_less(x, y) ==> key_less(x, z) || key_less(z, y),
        !key_less(x, y) && !key_less(y, x) ==> x == y,
        key_less(x, y) ==> !key_less(y, x),
{
    law_path_less_irreflexive(x.3);
    law_path_less_total(x.3, y.3);
    law_path_less_total(x.3, z.3);
    law_path_less_total(z.3, y.3);
    if path_less(x.3, y.3) {
        law_path_less_asymmetric(x.3, y.3);
    }
    if path_less(x.3, y.3) && path_less(y.3, z.3) {
        law_path_less_transitive(x.3, y.3, z.3);
    }
    if path_less(x.3, z.3) && path_less(z.3, y.3) {
        law_path_less_transitive(x.3, z.3, y.3);
    }
    if path_less(z.3, x.3) && path_less(x.3, y.3) {
        law_path_less_transitive(z.3, x.3, y.3);
    }
    if path_less(x.3, y.3) && path_less(y.3, z.3) {
        law_path_less_transitive(x.3, y.3, z.3);
    }
    if path_less(y.3, z.3) && path_less(z.3, x.3) {
        law_path_less_transitive(y.3, z.3, x.3);
    }
}

// ---------------------------------------------------------------------------
// Primary caller
// ---------------------------------------------------------------------------

/// The key by which callers of a target in the file `current_path` are preferred:
/// callers in the same file first, then by file path and first line.
pub open spec fn primary_caller_key(ts: Seq<SearchTarget>, current_path: Seq<char>, i: usize) -> RankKey {
    (
        if ts[i as int].file_path@ == current_path {
            0
        } else {
            1
        },
        0,
        0,
        ts[i as int].file_path@,
        ts[i as int].line_start as int,
    )
}

/// Position `k` holds the first of the candidates with the least `primary_caller_key`.
pub open spec fn is_first_min(ts: Seq<SearchTarget>, cur: Seq<char>, cands: Seq<usize>, k: int) -> bool {
    &&& 0 <= k < cands.len()
    &&& forall|j: int|
        0 <= j < k ==> key_less(
            primary_caller_key(ts, cur, cands[k]),
            primary_caller_key(ts, cur, #[trigger] cands[j]),
        )
    &&& forall|j: int|
        k < j < cands.len() ==> !key_less(
            primary_caller_key(ts, cur, #[trigger] cands[j]),
            primary_caller_key(ts, cur, cands[k]),
        )
}

/// The preferred caller among `cands` for a target in the file `cur` (see `is_first_min`).
pub open spec fn primary_caller_spec(ts: Seq<SearchTarget>, cur: Seq<char>, cands: Seq<usize>) -> Option<usize> {
    if cands.len() == 0 {
        None
    } else {
        Some(cands[choose|k: int| is_first_min(ts, cur, cands, k)])
    }
}

proof fn lemma_first_min_unique(ts: Seq<SearchTarget>, cur: Seq<char>, cands: Seq<usize>, k1: int, k2: int)
    requires
        is_first_min(ts, cur, cands, k1),
        is_first_min(ts, cur, cands, k2),
    ensures
        k1 == k2,
{
    if k1 < k2 {
        assert(key_less(primary_caller_key(ts, cur, cands[k2]), primary_caller_key(ts, cur, cands[k1])));
    }
    if k2 < k1 {
        assert(key_less(primary_caller_key(ts, cur, cands[k1]), primary_caller_key(ts, cur, cands[k2])));
    }
}

/// The caller to show first for a target in the file of `current_target`: the first of
/// the candidates with the least `primary_caller_key`, or `None` when there are none.
pub fn select_primary_caller(
    caller_candidates: &Vec<usize>,
    current_target: &SearchTarget,
    search_targets: &Vec<SearchTarget>,
) -> (r: Option<usize>)
    requires
        indices_in_range(search_targets@, caller_candidates@),
    ensures
        caller_candidates.len() == 0 <==> r is None,
        r == primary_caller_spec(search_targets@, current_target.file_path@, caller_candidates@),
        match r {
            Some(c) => exists|k: int|
                0 <= k < caller_candidates.len() && caller_candidates@[k] == c && (forall|j: int|
                    0 <= j < k ==> key_less(
                        primary_caller_key(search_targets@, current_target.file_path@, c),
                        primary_caller_key(search_targets@, current_target.file_path@, #[trigger] caller_candidates@[j]),
                    )) && (forall|j: int|
                    k < j < caller_candidates.len() ==> !key_less(
                        primary_caller_key(search_targets@, current_target.file_path@, #[trigger] caller_candidates@[j]),
                        primary_caller_key(search_targets@, current_target.file_path@, c),
                    )),
            None => true,
        },
{
    if caller_candidates.len() == 0 {
        return None;
    }
    let ghost cur = current_target.file_path@;
    let mut best: usize = 0;
    let mut j: usize = 1;
    while j < caller_candidates.len()
        invariant
            0 <= best < j <= caller_candidates.len(),
            indices_in_range(search_targets@, caller_candidates@),
            cur == current_target.file_path@,
            forall|i: int|
                0 <= i < best ==> key_less(
                    primary_caller_key(search_targets@, cur, caller_candidates@[best as int]),
                    primary_caller_key(search_targets@, cur, #[trigger] caller_candidates@[i]),
                ),
            forall|i: int|
                best < i < j ==> !key_less(
                    primary_caller_key(search_targets@, cur, #[trigger] caller_candidates@[i]),
                    primary_caller_key(search_targets@, cur, caller_candidates@[best as int]),
                ),
        decreases caller_candidates.len() - j,
    {
        if primary_caller_lt(search_targets, current_target, caller_candidates[j], caller_candidates[best]) {
            proof {
                let kj = primary_caller_key(search_targets@, cur, caller_candidates@[j as int]);
                let kb = primary_caller_key(search_targets@, cur, caller_candidates@[best as int]);
                assert forall|i: int| 0 <= i < j implies key_less(kj, primary_caller_key(
                    search_targets@,
                    cur,
                    #[trigger] caller_candidates@[i],
                )) by {
                    let ki = primary_caller_key(search_targets@, cur, caller_candidates@[i]);
                    lemma_key_less(kj, kb, ki);
                    if i == best {
                    } else if i < best {
                    } else {
                        lemma_key_less(kb, ki, kj);
                        lemma_key_less(ki, kb, kj);
                    }
                }
            }
            best = j;
        }
        j = j + 1;
    }
    proof {
        assert(is_first_min(search_targets@, cur, caller_candidates@, best as int));
        let k = choose|k: int| is_first_min(search_targets@, cur, caller_candidates@, k);
        lemma_first_min_unique(search_targets@, cur, caller_candidates@, k, best as int);
    }
    Some(caller_candidates[best])
}

/// Whether caller `a` is preferred to caller `b` (see `primary_caller_key`).
fn primary_caller_lt(ts: &Vec<SearchTarget>, current_target: &SearchTarget, a: usize, b: usize) -> (r: bool)
    requires
        a < ts.len(),
        b < ts.len(),
    ensures
        r == key_less(
            primary_caller_key(ts@, current_target.file_path@, a),
            primary_caller_key(ts@, current_target.file_path@, b),
        ),
{
    let sa = compare_paths(ts[a].file_path.as_str(), current_target.file_path.as_str()) == 0;
    let sb = compare_paths(ts[b].file_path.as_str(), current_target.file_path.as_str()) == 0;
    if sa != sb {
        return sa;
    }
    let c = compare_paths(ts[a].file_path.as_str(), ts[b].file_path.as_str());
    proof {
        law_path_less_irreflexive(ts@[a as int].file_path@);
        law_path_less_total(ts@[a as int].file_path@, ts@[b as int].file_path@);
        if c == 1 {
            law_path_less_asymmetric(ts@[b as int].file_path@, ts@[a as int].file_path@);
        }
    }
    if c == -1 {
        true
    } else if c == 1 {
        false
    } else {
        ts[a].line_start < ts[b].line_start
    }
}

} // verus!

verus! {

// ---------------------------------------------------------------------------
// Query context
// ---------------------------------------------------------------------------

/// Functions, methods and types are the primary kinds of a direct match.
pub open spec fn is_primary_direct_kind_spec(kind: SearchTargetKind) -> bool {
    kind == SearchTargetKind::Function || kind == SearchTargetKind::Method || kind
        == SearchTargetKind::Type
}

/// Whether `kind` is a primary kind of a direct match: function, method or type.
pub fn is_primary_direct_kind(target_kind: SearchTargetKind) -> (r: bool)
    ensures
        r == is_primary_direct_kind_spec(target_kind),
{
    match target_kind {
        SearchTargetKind::Function | SearchTargetKind::Method | SearchTargetKind::Type => true,
        _ => false,
    }
}

/// The priority of a kind (lower first): callables, types, local bindings, files.
pub open spec fn kind_priority_spec(kind: SearchTargetKind) -> int {
    match kind {
        SearchTargetKind::Function | SearchTargetKind::Method => 0,
        SearchTargetKind::Type => 1,
        SearchTargetKind::LocalBinding => 2,
        SearchTargetKind::File => 3,
    }
}

/// The priority of a direct match of this kind (see `kind_priority_spec`).
pub fn direct_kind_priority(target_kind: SearchTargetKind) -> (p: usize)
    ensures
        p == kind_priority_spec(target_kind),
{
    match target_kind {
        SearchTargetKind::Function | SearchTargetKind::Method => 0,
        SearchTargetKind::Type => 1,
        SearchTargetKind::LocalBinding => 2,
        SearchTargetKind::File => 3,
    }
}

/// The priority of a related match of this kind (see `kind_priority_spec`).
pub fn related_kind_priority(target_kind: SearchTargetKind) -> (p: usize)
    ensures
        p == kind_priority_spec(target_kind),
{
    match target_kind {
        SearchTargetKind::Function | SearchTargetKind::Method => 0,
        SearchTargetKind::Type => 1,
        SearchTargetKind::LocalBinding => 2,
        SearchTargetKind::File => 3,
    }
}

/// The target's symbol, as indexed, equals the normalized query.
pub open spec fn is_exact_symbol_match_spec(normalized_query: Seq<char>, t: SearchTarget) -> bool {
    t.symbol_name_search_text@ == normalized_query
}

/// Whether the target's indexed symbol text equals the normalized query.
pub fn is_exact_symbol_match(normalized_query: &String, search_target: &SearchTarget) -> (r: bool)
    ensures
        r == is_exact_symbol_match_spec(normalized_query@, *search_target),
{
    search_target.symbol_name_search_text == *normalized_query
}

/// The bonus, in tenths of a point, that an exact symbol match of this kind earns.
pub open spec fn exact_match_bonus_tenths(kind: SearchTargetKind) -> int {
    match kind {
        SearchTargetKind::Function | SearchTargetKind::Method => 6,
        SearchTargetKind::Type => 5,
        SearchTargetKind::LocalBinding => 4,
        SearchTargetKind::File => 1,
    }
}

/// The parts of a target's score adjustment. The engine adds to the target's relevance
/// score `exact_tenths / 10`, then `1 / 10` when `parent_match` holds.
#[derive(Clone, Copy, Debug)]
pub struct ScoreAdjustment {
    pub exact_tenths: u8,
    pub parent_match: bool,
}

/// The score adjustment of target `t` for the normalized query `q`.
pub open spec fn adjustment_spec(q: Seq<char>, t: SearchTarget) -> ScoreAdjustment {
    ScoreAdjustment {
        exact_tenths: if is_exact_symbol_match_spec(q, t) {
            exact_match_bonus_tenths(t.target_kind) as u8
        } else {
            0
        },
        parent_match: match t.parent_symbol_name_search_text {
            Some(text) => text@ == q,
            None => false,
        },
    }
}

/// The score adjustment of a target: a bonus by kind for an exact symbol match, and one
/// tenth when the indexed name of its parent symbol equals the normalized query.
pub fn score_adjustment(
    normalized_query: &String,
    search_target: &SearchTarget,
    is_exact_symbol_match: bool,
) -> (adjustment: ScoreAdjustment)
    ensures
        adjustment.exact_tenths == if is_exact_symbol_match {
            exact_match_bonus_tenths(search_target.target_kind)
        } else {
            0
        },
        adjustment.parent_match == match search_target.parent_symbol_name_search_text {
            Some(text) => text@ == normalized_query@,
            None => false,
        },
{
    let exact_tenths: u8 = if is_exact_symbol_match {
        match search_target.target_kind {
            SearchTargetKind::Function | SearchTargetKind::Method => 6,
            SearchTargetKind::Type => 5,
            SearchTargetKind::LocalBinding => 4,
            SearchTargetKind::File => 1,
        }
    } else {
        0
    };
    let parent_match = match &search_target.parent_symbol_name_search_text {
        Some(text) => *text == *normalized_query,
        None => false,
    };
    ScoreAdjustment { exact_tenths, parent_match }
}

/// Some target of a primary kind matches the query exactly.
pub open spec fn exact_primary_match_exists(q: Seq<char>, ts: Seq<SearchTarget>) -> bool {
    exists|j: int|
        0 <= j < ts.len() && is_exact_symbol_match_spec(q, #[trigger] ts[j])
            && is_primary_direct_kind_spec(ts[j].target_kind)
}

/// Whether target `t` is a direct match: an exact match of a primary kind, or an exact
/// match of a local binding when no target of a primary kind matches exactly.
pub open spec fn is_direct_match_spec(q: Seq<char>, ts: Seq<SearchTarget>, t: SearchTarget) -> bool {
    match t.target_kind {
        SearchTargetKind::Function | SearchTargetKind::Method | SearchTargetKind::Type => is_exact_symbol_match_spec(q, t),
        SearchTargetKind::LocalBinding => !exact_primary_match_exists(q, ts) && is_exact_symbol_match_spec(q, t),
        SearchTargetKind::File => false,
    }
}

/// Per-target facts that the ranking engine needs, by target index.
pub struct SearchQueryContext {
    pub direct_matches: Vec<bool>,
    pub score_adjustments: Vec<ScoreAdjustment>,
    pub target_kinds: Vec<SearchTargetKind>,
    /// The distinct file paths of the targets, in path order.
    pub unique_paths: Vec<String>,
    /// For each target, the position of its file path in `unique_paths`.
    pub path_ranks: Vec<u64>,
    pub line_starts: Vec<u64>,
}

/// Some element of `l` holds the path `s`.
pub open spec fn holds_path(l: Seq<String>, s: Seq<char>) -> bool {
    exists|k: int| 0 <= k < l.len() && #[trigger] l[k]@ == s
}

/// Some target of `ts` lies in the file `s`.
pub open spec fn some_target_in(ts: Seq<SearchTarget>, s: Seq<char>, upto: int) -> bool {
    exists|j: int| 0 <= j < upto && #[trigger] ts[j].file_path@ == s
}

/// `l` is strictly increasing in path order.
pub open spec fn paths_strictly_sorted(l: Seq<String>) -> bool {
    forall|a: int, b: int| 0 <= a < b < l.len() ==> path_less(#[trigger] l[a]@, #[trigger] l[b]@)
}

/// Inserts `p` into the sorted distinct path list `paths`, unless present.
fn insert_unique_path(paths: &mut Vec<String>, p: &String)
    requires
        paths_strictly_sorted(old(paths)@),
    ensures
        paths_strictly_sorted(final(paths)@),
        forall|s: Seq<char>| #[trigger] holds_path(final(paths)@, s) <==> (holds_path(old(paths)@, s) || s == p@),
{
    let mut k: usize = paths.len();
    while k > 0 && compare_paths(p.as_str(), paths[k - 1].as_str()) == -1
        invariant
            k <= paths.len(),
            paths@ == old(paths)@,
            forall|j: int| k <= j < paths.len() ==> path_less(p@, #[trigger] paths@[j]@),
        decreases k,
    {
        k = k - 1;
    }
    if k > 0 && compare_paths(p.as_str(), paths[k - 1].as_str()) == 0 {
        proof {
            assert forall|s: Seq<char>| #[trigger] holds_path(paths@, s) <==> (holds_path(old(paths)@, s) || s == p@) by {
                if s == p@ {
                    assert(paths@[k - 1]@ == s);
                }
            }
        }
        return;
    }
    proof {
        if k > 0 {
            let q = paths@[k - 1]@;
            law_path_less_total(p@, q);
            if path_less(p@, q) {
                assert(false);
            }
            assert forall|j: int| 0 <= j < k implies path_less(#[trigger] paths@[j]@, p@) by {
                if j < k - 1 {
                    law_path_less_transitive(paths@[j]@, q, p@);
                }
            }
        }
    }
    let ghost before = paths@;
    paths.insert(k, p.clone());
    proof {
        let s = paths@;
        assert forall|a: int, b: int| 0 <= a < b < s.len() implies path_less(#[trigger] s[a]@, #[trigger] s[b]@) by {
            if b < k {
                assert(s[a] == before[a] && s[b] == before[b]);
            } else if b == k {
                assert(s[a] == before[a]);
            } else if a == k {
                assert(s[b] == before[b - 1]);
            } else if a < k {
                assert(s[a] == before[a] && s[b] == before[b - 1]);
                law_path_less_transitive(before[a]@, p@, before[b - 1]@);
            } else {
                assert(s[a] == before[a - 1] && s[b] == before[b - 1]);
            }
        }
        assert forall|t: Seq<char>| #[trigger] holds_path(s, t) <==> (holds_path(before, t) || t == p@) by {
            if holds_path(s, t) {
                let j = choose|j: int| 0 <= j < s.len() && #[trigger] s[j]@ == t;
                if j < k {
                    assert(before[j]@ == t);
                } else if j > k {
                    assert(before[j - 1]@ == t);
                }
            }
            if holds_path(before, t) {
                let j = choose|j: int| 0 <= j < before.len() && #[trigger] before[j]@ == t;
                if j < k {
                    assert(s[j]@ == t);
                } else {
                    assert(s[j + 1]@ == t);
                }
            }
            if t == p@ {
                assert(s[k as int]@ == t);
            }
        }
    }
}

/// The position of `p` in the sorted distinct path list `paths`, which holds it.
fn find_path_rank(paths: &Vec<String>, p: &String) -> (r: usize)
    requires
        paths_strictly_sorted(paths@),
        holds_path(paths@, p@),
    ensures
        r < paths.len(),
        paths@[r as int]@ == p@,
{
    let ghost target = choose|k: int| 0 <= k < paths@.len() && #[trigger] paths@[k]@ == p@;
    let mut lo: usize = 0;
    let mut hi: usize = paths.len();
    while lo + 1 < hi
        invariant
            0 <= lo <= target < hi <= paths.len(),
            paths_strictly_sorted(paths@),
            0 <= target < paths@.len(),
            paths@[target]@ == p@,
        decreases hi - lo,
    {
        let mid = lo + (hi - lo) / 2;
        let c = compare_paths(p.as_str(), paths[mid].as_str());
        if c == -1 {
            proof {
                if target >= mid {
                    if target > mid {
                        law_path_less_asymmetric(paths@[mid as int]@, p@);
                    } else {
                        law_path_less_irreflexive(p@);
                    }
                }
            }
            hi = mid;
        } else {
            proof {
                if target < mid {
                    assert(path_less(p@, paths@[mid as int]@));
                    law_path_less_asymmetric(p@, paths@[mid as int]@);
                    law_path_less_total(p@, paths@[mid as int]@);
                }
            }
            lo = mid;
        }
    }
    lo
}

/// The query context: for every target, whether it is a direct match, its score
/// adjustment, its kind, the rank of its file path among the distinct target paths, and
/// its first line.
pub fn build_query_context(normalized_query: &String, search_targets: &Vec<SearchTarget>) -> (context: SearchQueryContext)
    ensures
        context.direct_matches.len() == search_targets.len(),
        context.score_adjustments.len() == search_targets.len(),
        context.target_kinds.len() == search_targets.len(),
        context.path_ranks.len() == search_targets.len(),
        context.line_starts.len() == search_targets.len(),
        forall|i: int|
            0 <= i < search_targets.len() ==> #[trigger] context.direct_matches@[i] == is_direct_match_spec(
                normalized_query@,
                search_targets@,
                search_targets@[i],
            ),
        forall|i: int|
            0 <= i < search_targets.len() ==> #[trigger] context.score_adjustments@[i] == adjustment_spec(
                normalized_query@,
                search_targets@[i],
            ),
        forall|i: int|
            0 <= i < search_targets.len() ==> #[trigger] context.target_kinds@[i] == search_targets@[i].target_kind,
        forall|i: int|
            0 <= i < search_targets.len() ==> #[trigger] context.path_ranks@[i] < context.unique_paths.len()
                && context.unique_paths@[context.path_ranks@[i] as int]@ == search_targets@[i].file_path@,
        forall|i: int|
            0 <= i < search_targets.len() ==> #[trigger] context.line_starts@[i] == search_targets@[i].line_start,
        paths_strictly_sorted(context.unique_paths@),
        forall|k: int|
            0 <= k < context.unique_paths.len() ==> some_target_in(
                search_targets@,
                #[trigger] context.unique_paths@[k]@,
                search_targets.len() as int,
            ),
{
    let n = search_targets.len();
    let mut exact_symbol_matches: Vec<bool> = Vec::new();
    let mut score_adjustments: Vec<ScoreAdjustment> = Vec::new();
    let mut target_kinds: Vec<SearchTargetKind> = Vec::new();
    let mut line_starts: Vec<u64> = Vec::new();
    let mut exact_primary_match_found = false;
    let mut unique_paths: Vec<String> = Vec::new();
    let mut i: usize = 0;
    while i < n
        invariant
            i <= n == search_targets.len(),
            exact_symbol_matches.len() == i,
            score_adjustments.len() == i,
            target_kinds.len() == i,
            line_starts.len() == i,
            forall|j: int|
                0 <= j < i ==> #[trigger] exact_symbol_matches@[j] == is_exact_symbol_match_spec(
                    normalized_query@,
                    search_targets@[j],
                ),
            forall|j: int|
                0 <= j < i ==> #[trigger] score_adjustments@[j] == adjustment_spec(
                    normalized_query@,
                    search_targets@[j],
                ),
            forall|j: int| 0 <= j < i ==> #[trigger] target_kinds@[j] == search_targets@[j].target_kind,
            forall|j: int| 0 <= j < i ==> #[trigger] line_starts@[j] == search_targets@[j].line_start,
            exact_primary_match_found == exists|j: int|
                0 <= j < i && is_exact_symbol_match_spec(normalized_query@, #[trigger] search_targets@[j])
                    && is_primary_direct_kind_spec(search_targets@[j].target_kind),
            paths_strictly_sorted(unique_paths@),
            forall|s: Seq<char>| #[trigger] holds_path(unique_paths@, s) <==> some_target_in(search_targets@, s, i as int),
        decreases n - i,
    {
        let target = &search_targets[i];
        let is_exact = is_exact_symbol_match(normalized_query, target);
        exact_symbol_matches.push(is_exact);
        if is_exact && is_primary_direct_kind(target.target_kind) {
            exact_primary_match_found = true;
        }
        let adjustment = score_adjustment(normalized_query, target, is_exact);
        assert(adjustment == adjustment_spec(normalized_query@, *target));
        score_adjustments.push(adjustment);
        target_kinds.push(target.target_kind);
        line_starts.push(target.line_start as u64);
        let ghost before_paths = unique_paths@;
        insert_unique_path(&mut unique_paths, &target.file_path);
        proof {
            assert forall|s: Seq<char>| #[trigger] holds_path(unique_paths@, s) <==> some_target_in(search_targets@, s, i + 1) by {
                assert(holds_path(before_paths, s) <==> some_target_in(search_targets@, s, i as int));
                if s == target.file_path@ {
                    assert(search_targets@[i as int].file_path@ == s);
                }
                if some_target_in(search_targets@, s, i + 1) {
                    let j = choose|j: int| 0 <= j < i + 1 && #[trigger] search_targets@[j].file_path@ == s;
                    if j < i {
                        assert(some_target_in(search_targets@, s, i as int));
                    }
                }
            }
            if is_exact && is_primary_direct_kind_spec(target.target_kind) {
                assert(is_exact_symbol_match_spec(normalized_query@, search_targets@[i as int]));
            }
        }
        i = i + 1;
    }
    let mut direct_matches: Vec<bool> = Vec::new();
    let mut path_ranks: Vec<u64> = Vec::new();
    let mut j: usize = 0;
    while j < n
        invariant
            j <= n == search_targets.len() == exact_symbol_matches.len(),
            direct_matches.len() == j,
            path_ranks.len() == j,
            forall|k: int|
                0 <= k < n ==> #[trigger] exact_symbol_matches@[k] == is_exact_symbol_match_spec(
                    normalized_query@,
                    search_targets@[k],
                ),
            exact_primary_match_found == exact_primary_match_exists(normalized_query@, search_targets@),
            paths_strictly_sorted(unique_paths@),
            forall|s: Seq<char>| #[trigger] holds_path(unique_paths@, s) <==> some_target_in(search_targets@, s, n as int),
            forall|k: int|
                0 <= k < j ==> #[trigger] direct_matches@[k] == is_direct_match_spec(
                    normalized_query@,
                    search_targets@,
                    search_targets@[k],
                ),
            forall|k: int|
                0 <= k < j ==> #[trigger] path_ranks@[k] < unique_paths.len()
                    && unique_paths@[path_ranks@[k] as int]@ == search_targets@[k].file_path@,
        decreases n - j,
    {
        let target = &search_targets[j];
        let is_direct = match target.target_kind {
            SearchTargetKind::Function | SearchTargetKind::Method | SearchTargetKind::Type => exact_symbol_matches[j],
            SearchTargetKind::LocalBinding => !exact_primary_match_found && exact_symbol_matches[j],
            SearchTargetKind::File => false,
        };
        direct_matches.push(is_direct);
        proof {
            assert(search_targets@[j as int].file_path@ == target.file_path@);
            assert(some_target_in(search_targets@, target.file_path@, n as int));
            assert(holds_path(unique_paths@, target.file_path@));
        }
        let rank = find_path_rank(&unique_paths, &target.file_path);
        path_ranks.push(rank as u64);
        j = j + 1;
    }
    proof {
        assert forall|k: int| 0 <= k < unique_paths.len() implies some_target_in(
            search_targets@,
            #[trigger] unique_paths@[k]@,
            search_targets.len() as int,
        ) by {
            let s = unique_paths@[k]@;
            assert(holds_path(unique_paths@, s));
            assert(some_target_in(search_targets@, s, n as int));
        }
    }
    SearchQueryContext { direct_matches, score_adjustments, target_kinds, unique_paths, path_ranks, line_starts }
}

} // verus!

verus! {

// ---------------------------------------------------------------------------
// Result order
// ---------------------------------------------------------------------------

/// A ranked target. `score_rank` is the dense rank of its relevance score among the
/// ranked targets: 0 for the highest score, equal scores sharing a rank.
#[derive(Clone, Copy, Debug)]
pub struct ScoredSearchTarget {
    pub target_index: usize,
    pub score_rank: usize,
    pub is_direct_match: bool,
}

/// The key that orders ranked targets. In direct mode: direct matches first, then kind
/// priority, higher score, file path and first line. In explore mode: higher score, then
/// kind priority, file path and first line.
pub open spec fn scored_key(mode: crate::model::SearchMode, ts: Seq<SearchTarget>, e: ScoredSearchTarget) -> RankKey {
    let t = ts[e.target_index as int];
    match mode {
        crate::model::SearchMode::Direct => (
            if e.is_direct_match {
                0
            } else {
                1
            },
            kind_priority_spec(t.target_kind),
            e.score_rank as int,
            t.file_path@,
            t.line_start as int,
        ),
        crate::model::SearchMode::Explore => (
            e.score_rank as int,
            kind_priority_spec(t.target_kind),
            0,
            t.file_path@,
            t.line_start as int,
        ),
    }
}

/// Position `p` of `es` comes before position `q`: by key, ties kept in input order.
pub open spec fn scored_before(
    mode: crate::model::SearchMode,
    ts: Seq<SearchTarget>,
    es: Seq<ScoredSearchTarget>,
    p: usize,
    q: usize,
) -> bool {
    let kp = scored_key(mode, ts, es[p as int]);
    let kq = scored_key(mode, ts, es[q as int]);
    key_less(kp, kq) || (kp == kq && p < q)
}

proof fn lemma_scored_before(
    mode: crate::model::SearchMode,
    ts: Seq<SearchTarget>,
    es: Seq<ScoredSearchTarget>,
    p: usize,
    q: usize,
    r: usize,
)
    ensures
        scored_before(mode, ts, es, p, q) && scored_before(mode, ts, es, q, r) ==> scored_before(
            mode,
            ts,
            es,
            p,
            r,
        ),
        !scored_before(mode, ts, es, p, p),
        scored_before(mode, ts, es, p, q) ==> !scored_before(mode, ts, es, q, p),
{
    let kp = scored_key(mode, ts, es[p as int]);
    let kq = scored_key(mode, ts, es[q as int]);
    let kr = scored_key(mode, ts, es[r as int]);
    lemma_key_less(kp, kq, kr);
    lemma_key_less(kq, kp, kr);
    lemma_key_less(kp, kr, kq);
    lemma_key_less(kq, kr, kp);
}

/// Whether `a` sorts before `b` by `scored_key`.
fn scored_key_lt(
    mode: crate::model::SearchMode,
    ts: &Vec<SearchTarget>,
    a: ScoredSearchTarget,
    b: ScoredSearchTarget,
) -> (r: bool)
    requires
        a.target_index < ts.len(),
        b.target_index < ts.len(),
    ensures
        r == key_less(scored_key(mode, ts@, a), scored_key(mode, ts@, b)),
{
    let ta = &ts[a.target_index];
    let tb = &ts[b.target_index];
    let pa = related_kind_priority(ta.target_kind);
    let pb = related_kind_priority(tb.target_kind);
    let (a0, a1, a2, b0, b1, b2): (usize, usize, usize, usize, usize, usize) = match mode {
        crate::model::SearchMode::Direct => (
            if a.is_direct_match {
                0
            } else {
                1
            },
            pa,
            a.score_rank,
            if b.is_direct_match {
                0
            } else {
                1
            },
            pb,
            b.score_rank,
        ),
        crate::model::SearchMode::Explore => (a.score_rank, pa, 0, b.score_rank, pb, 0),
    };
    if a0 != b0 {
        return a0 < b0;
    }
    if a1 != b1 {
        return a1 < b1;
    }
    if a2 != b2 {
        return a2 < b2;
    }
    let c = compare_paths(ta.file_path.as_str(), tb.file_path.as_str());
    proof {
        law_path_less_irreflexive(ta.file_path@);
        law_path_less_total(ta.file_path@, tb.file_path@);
        if c == 1 {
            law_path_less_asymmetric(tb.file_path@, ta.file_path@);
        }
    }
    if c == -1 {
        true
    } else if c == 1 {
        false
    } else {
        ta.line_start < tb.line_start
    }
}

/// The order in which to report ranked targets: a permutation of the positions of
/// `scored_targets`, sorted by `scored_key` with ties kept in input order.
pub fn order_scored_targets(
    search_mode: crate::model::SearchMode,
    scored_targets: &Vec<ScoredSearchTarget>,
    search_targets: &Vec<SearchTarget>,
) -> (order: Vec<usize>)
    requires
        forall|k: int| 0 <= k < scored_targets.len() ==> #[trigger] scored_targets@[k].target_index < search_targets.len(),
    ensures
        order.len() == scored_targets.len(),
        forall|p: usize| p < scored_targets.len() ==> #[trigger] order@.contains(p),
        forall|k: int| 0 <= k < order.len() ==> #[trigger] order@[k] < scored_targets.len(),
        forall|a: int, b: int|
            0 <= a < b < order.len() ==> scored_before(
                search_mode,
                search_targets@,
                scored_targets@,
                #[trigger] order@[a],
                #[trigger] order@[b],
            ),
{
    let n = scored_targets.len();
    let mut order: Vec<usize> = Vec::new();
    let mut p: usize = 0;
    while p < n
        invariant
            p <= n == scored_targets.len(),
            order.len() == p,
            forall|k: int| 0 <= k < scored_targets.len() ==> #[trigger] scored_targets@[k].target_index < search_targets.len(),
            forall|q: usize| q < p ==> #[trigger] order@.contains(q),
            forall|k: int| 0 <= k < order.len() ==> #[trigger] order@[k] < p,
            forall|a: int, b: int|
                0 <= a < b < order.len() ==> scored_before(
                    search_mode,
                    search_targets@,
                    scored_targets@,
                    #[trigger] order@[a],
                    #[trigger] order@[b],
                ),
        decreases n - p,
    {
        let mut idx: usize = order.len();
        while idx > 0 && scored_key_lt(search_mode, search_targets, scored_targets[p], scored_targets[order[idx - 1]])
            invariant
                idx <= order.len() == p < n == scored_targets.len(),
                forall|k: int| 0 <= k < scored_targets.len() ==> #[trigger] scored_targets@[k].target_index < search_targets.len(),
                forall|k: int| 0 <= k < order.len() ==> #[trigger] order@[k] < p,
                forall|j: int|
                    idx <= j < order.len() ==> key_less(
                        scored_key(search_mode, search_targets@, scored_targets@[p as int]),
                        scored_key(search_mode, search_targets@, scored_targets@[#[trigger] order@[j] as int]),
                    ),
            decreases idx,
        {
            idx = idx - 1;
        }
        let ghost before = order@;
        proof {
            if idx > 0 {
                let q = before[idx - 1];
                let kp = scored_key(search_mode, search_targets@, scored_targets@[p as int]);
                let kq = scored_key(search_mode, search_targets@, scored_targets@[q as int]);
                lemma_key_less(kp, kq, kp);
                assert(scored_before(search_mode, search_targets@, scored_targets@, q, p));
                assert forall|j: int| 0 <= j < idx implies scored_before(
                    search_mode,
                    search_targets@,
                    scored_targets@,
                    #[trigger] before[j],
                    p,
                ) by {
                    if j < idx - 1 {
                        lemma_scored_before(search_mode, search_targets@, scored_targets@, before[j], q, p);
                    }
                }
            }
        }
        order.insert(idx, p);
        proof {
            let s = order@;
            assert(s == before.insert(idx as int, p));
            assert forall|a: int, b: int| 0 <= a < b < s.len() implies scored_before(
                search_mode,
                search_targets@,
                scored_targets@,
                #[trigger] s[a],
                #[trigger] s[b],
            ) by {
                if b < idx {
                    assert(s[a] == before[a] && s[b] == before[b]);
                } else if b == idx {
                    assert(s[a] == before[a]);
                } else if a == idx {
                    assert(s[b] == before[b - 1]);
                } else if a < idx {
                    assert(s[a] == before[a] && s[b] == before[b - 1]);
                    lemma_scored_before(search_mode, search_targets@, scored_targets@, before[a], p, before[b - 1]);
                } else {
                    assert(s[a] == before[a - 1] && s[b] == before[b - 1]);
                }
            }
            assert forall|q: usize| q < p + 1 implies #[trigger] s.contains(q) by {
                if q == p {
                    assert(s[idx as int] == p);
                } else {
                    assert(before.contains(q));
                    let k = choose|k: int| 0 <= k < before.len() && before[k] == q;
                    if k < idx {
                        assert(s[k] == q);
                    } else {
                        assert(s[k + 1] == q);
                    }
                }
            }
            assert forall|k: int| 0 <= k < s.len() implies #[trigger] s[k] < p + 1 by {
                if k < idx {
                    assert(s[k] == before[k]);
                } else if k > idx {
                    assert(s[k] == before[k - 1]);
                }
            }
        }
        p = p + 1;
    }
    order
}

} // verus!

verus! {

/// The ranked targets rearranged by `order`: entry `k` is `scored_targets[order[k]]`.
pub fn apply_order(scored_targets: &Vec<ScoredSearchTarget>, order: &Vec<usize>) -> (ordered: Vec<ScoredSearchTarget>)
    requires
        forall|k: int| 0 <= k < order.len() ==> #[trigger] order@[k] < scored_targets.len(),
    ensures
        ordered.len() == order.len(),
        forall|k: int| 0 <= k < order.len() ==> #[trigger] ordered@[k] == scored_targets@[order@[k] as int],
{
    let mut ordered: Vec<ScoredSearchTarget> = Vec::new();
    let mut k: usize = 0;
    while k < order.len()
        invariant
            k <= order.len(),
            ordered.len() == k,
            forall|j: int| 0 <= j < order.len() ==> #[trigger] order@[j] < scored_targets.len(),
            forall|j: int| 0 <= j < k ==> #[trigger] ordered@[j] == scored_targets@[order@[j] as int],
        decreases order.len() - k,
    {
        ordered.push(scored_targets[order[k]]);
        k = k + 1;
    }
    ordered
}

/// In direct mode every direct match is reported before every other ranked target.
pub proof fn law_direct_matches_first(
    ts: Seq<SearchTarget>,
    es: Seq<ScoredSearchTarget>,
    p: usize,
    q: usize,
)
    requires
        p < es.len(),
        q < es.len(),
        es[p as int].is_direct_match,
        !es[q as int].is_direct_match,
    ensures
        scored_before(crate::model::SearchMode::Direct, ts, es, p, q),
{
}

/// In explore mode a target with a higher score is reported before one with a lower score.
pub proof fn law_explore_orders_by_score(
    ts: Seq<SearchTarget>,
    es: Seq<ScoredSearchTarget>,
    p: usize,
    q: usize,
)
    requires
        p < es.len(),
        q < es.len(),
        es[p as int].score_rank < es[q as int].score_rank,
    ensures
        scored_before(crate::model::SearchMode::Explore, ts, es, p, q),
{
}

/// A function, method or type that matches the normalized query exactly shuts every local
/// binding out of the direct matches; without one, a local binding that matches exactly
/// is a direct match. Every direct match matches exactly, and a file never is one.
pub proof fn law_primary_exact_match_excludes_local_bindings(q: Seq<char>, ts: Seq<SearchTarget>, i: int)
    requires
        0 <= i < ts.len(),
    ensures
        (exists|j: int|
            0 <= j < ts.len() && #[trigger] ts[j].symbol_name_search_text@ == q && (ts[j].target_kind
                is Function || ts[j].target_kind is Method || ts[j].target_kind is Type))
            && ts[i].target_kind is LocalBinding ==> !is_direct_match_spec(q, ts, ts[i]),
        (forall|j: int|
            0 <= j < ts.len() && (ts[j].target_kind is Function || ts[j].target_kind is Method
                || ts[j].target_kind is Type) ==> #[trigger] ts[j].symbol_name_search_text@ != q)
            && ts[i].target_kind is LocalBinding && ts[i].symbol_name_search_text@ == q ==> is_direct_match_spec(
            q,
            ts,
            ts[i],
        ),
        is_direct_match_spec(q, ts, ts[i]) ==> ts[i].symbol_name_search_text@ == q,
        (ts[i].target_kind is Function || ts[i].target_kind is Method || ts[i].target_kind is Type)
            ==> (is_direct_match_spec(q, ts, ts[i]) <==> ts[i].symbol_name_search_text@ == q),
        ts[i].target_kind is File ==> !is_direct_match_spec(q, ts, ts[i]),
{
    if exists|j: int|
        0 <= j < ts.len() && #[trigger] ts[j].symbol_name_search_text@ == q && (ts[j].target_kind
            is Function || ts[j].target_kind is Method || ts[j].target_kind is Type) {
        let j = choose|j: int|
            0 <= j < ts.len() && #[trigger] ts[j].symbol_name_search_text@ == q && (ts[j].target_kind
                is Function || ts[j].target_kind is Method || ts[j].target_kind is Type);
        assert(is_exact_symbol_match_spec(q, ts[j]) && is_primary_direct_kind_spec(ts[j].target_kind));
        assert(exact_primary_match_exists(q, ts));
    }
    if forall|j: int|
        0 <= j < ts.len() && (ts[j].target_kind is Function || ts[j].target_kind is Method
            || ts[j].target_kind is Type) ==> #[trigger] ts[j].symbol_name_search_text@ != q {
        if exact_primary_match_exists(q, ts) {
            let j = choose|j: int|
                0 <= j < ts.len() && is_exact_symbol_match_spec(q, #[trigger] ts[j])
                    && is_primary_direct_kind_spec(ts[j].target_kind);
            assert(ts[j].symbol_name_search_text@ != q);
        }
    }
}

/// No target is its own caller: a callable that calls itself is not among its callers.
pub proof fn law_no_target_calls_itself(ts: Seq<SearchTarget>, t: usize)
    ensures
        !is_caller_of(ts, t as int, t),
{
}

} // verus!
