//! Choosing the files to search among the paths a directory walk found.

use vstd::prelude::*;

use crate::model::{language_of_extension, SupportedLanguage};
use crate::paths::{
    compare_paths, law_path_less_asymmetric, law_path_less_total, law_path_less_transitive, path_extension_spec,
    path_less,
};
use crate::text::strings_view;

verus! {

/// `sorted` with `x` inserted after every path that does not sort after it.
pub open spec fn insert_path(sorted: Seq<Seq<char>>, x: Seq<char>) -> Seq<Seq<char>>
    decreases sorted.len(),
{
    if sorted.len() == 0 {
        seq![x]
    } else if path_less(x, sorted.last()) {
        insert_path(sorted.drop_last(), x).push(sorted.last())
    } else {
        sorted.push(x)
    }
}

/// `paths` stably sorted in path order.
pub open spec fn sort_paths_spec(paths: Seq<Seq<char>>) -> Seq<Seq<char>>
    decreases paths.len(),
{
    if paths.len() == 0 {
        Seq::empty()
    } else {
        insert_path(sort_paths_spec(paths.drop_last()), paths.last())
    }
}

/// The paths of a supported language, in order.
pub open spec fn supported_paths(paths: Seq<Seq<char>>) -> Seq<Seq<char>> {
    paths.filter_map(
        |p: Seq<char>|
            if language_of_extension(path_extension_spec(p)) is Some {
                Some(p)
            } else {
                None
            },
    )
}

/// The files to search: the paths of a supported language, sorted in path order.
pub open spec fn supported_files_spec(paths: Seq<Seq<char>>) -> Seq<Seq<char>> {
    sort_paths_spec(supported_paths(paths))
}

proof fn lemma_insert_path_split(sorted: Seq<Seq<char>>, x: Seq<char>, p: int)
    requires
        0 <= p <= sorted.len(),
        forall|k: int| p <= k < sorted.len() ==> path_less(x, #[trigger] sorted[k]),
        p == 0 || !path_less(x, sorted[p - 1]),
    ensures
        insert_path(sorted, x) == sorted.take(p).push(x) + sorted.skip(p),
    decreases sorted.len(),
{
    if sorted.len() == p {
        if p == 0 {
            assert(sorted.take(p).push(x) + sorted.skip(p) =~= seq![x]);
        } else {
            assert(sorted.take(p) =~= sorted);
            assert(sorted.take(p).push(x) + sorted.skip(p) =~= sorted.push(x));
        }
    } else {
        let d = sorted.drop_last();
        assert forall|k: int| p <= k < d.len() implies path_less(x, #[trigger] d[k]) by {
            assert(d[k] == sorted[k]);
        }
        if p > 0 {
            assert(d[p - 1] == sorted[p - 1]);
        }
        lemma_insert_path_split(d, x, p);
        assert(d.take(p) =~= sorted.take(p));
        assert(d.skip(p).push(sorted.last()) =~= sorted.skip(p));
        assert(sorted.take(p).push(x) + d.skip(p) + seq![sorted.last()] =~= sorted.take(p).push(x)
            + sorted.skip(p));
    }
}

/// The files to search among the paths a walk found (see `supported_files_spec`).
pub fn collect_supported_files(paths: &Vec<String>) -> (files: Vec<String>)
    ensures
        strings_view(files@) == supported_files_spec(strings_view(paths@)),
{
    let ghost all = strings_view(paths@);
    let ghost f = |p: Seq<char>|
        if language_of_extension(path_extension_spec(p)) is Some {
            Some(p)
        } else {
            None
        };
    let mut kept: Vec<String> = Vec::new();
    let mut i: usize = 0;
    while i < paths.len()
        invariant
            i <= paths.len(),
            all == strings_view(paths@),
            f == (|p: Seq<char>|
                if language_of_extension(path_extension_spec(p)) is Some {
                    Some(p)
                } else {
                    None
                }),
            strings_view(kept@) == all.take(i as int).filter_map(f),
        decreases paths.len() - i,
    {
        proof {
            assert(all.take(i + 1).drop_last() =~= all.take(i as int));
            assert(all.take(i + 1).last() == paths@[i as int]@);
        }
        let ghost before = kept@;
        if SupportedLanguage::from_path(paths[i].as_str()).is_some() {
            kept.push(paths[i].clone());
            proof {
                assert(strings_view(kept@) =~= strings_view(before).push(paths@[i as int]@));
            }
        }
        i = i + 1;
    }
    assert(all.take(paths.len() as int) =~= all);
    let ghost kv = strings_view(kept@);
    let mut sorted: Vec<String> = Vec::new();
    let mut k: usize = 0;
    assert(kv.take(0) =~= Seq::<Seq<char>>::empty());
    assert(strings_view(sorted@) =~= Seq::<Seq<char>>::empty());
    while k < kept.len()
        invariant
            k <= kept.len(),
            kv == strings_view(kept@),
            strings_view(sorted@) == sort_paths_spec(kv.take(k as int)),
        decreases kept.len() - k,
    {
        let x = kept[k].clone();
        let ghost before = strings_view(sorted@);
        let mut p: usize = sorted.len();
        while p > 0 && compare_paths(x.as_str(), sorted[p - 1].as_str()) == -1
            invariant
                p <= sorted.len(),
                before == strings_view(sorted@),
                forall|m: int| p <= m < sorted.len() ==> path_less(x@, #[trigger] before[m]),
            decreases p,
        {
            p = p - 1;
        }
        proof {
            if p > 0 {
                assert(before[p - 1] == sorted@[p - 1]@);
            }
            lemma_insert_path_split(before, x@, p as int);
            assert(kv.take(k + 1).drop_last() =~= kv.take(k as int));
            assert(kv.take(k + 1).last() == x@);
        }
        sorted.insert(p, x);
        proof {
            assert(strings_view(sorted@) =~= before.take(p as int).push(x@) + before.skip(p as int));
        }
        k = k + 1;
    }
    assert(kv.take(kept.len() as int) =~= kv);
    sorted
}

/// Path order never puts a later file before an earlier one in a sorted list.
pub open spec fn paths_ordered(s: Seq<Seq<char>>) -> bool {
    forall|i: int, j: int| 0 <= i < j < s.len() ==> !path_less(#[trigger] s[j], #[trigger] s[i])
}

proof fn lemma_insert_path_ordered(sorted: Seq<Seq<char>>, x: Seq<char>)
    requires
        paths_ordered(sorted),
    ensures
        paths_ordered(insert_path(sorted, x)),
        insert_path(sorted, x).to_multiset() =~= sorted.to_multiset().insert(x),
    decreases sorted.len(),
{
    broadcast use vstd::seq_lib::group_to_multiset_ensures;
    if sorted.len() == 0 {
        assert(seq![x].to_multiset() =~= Seq::<Seq<char>>::empty().to_multiset().insert(x)) by {
            assert(seq![x] =~= Seq::<Seq<char>>::empty().push(x));
        }
    } else {
        let d = sorted.drop_last();
        let last = sorted.last();
        assert(sorted =~= d.push(last));
        assert(paths_ordered(d)) by {
            assert forall|i: int, j: int| 0 <= i < j < d.len() implies !path_less(#[trigger] d[j], #[trigger] d[i]) by {
                assert(d[i] == sorted[i] && d[j] == sorted[j]);
            }
        }
        if path_less(x, last) {
            lemma_insert_path_ordered(d, x);
            let r = insert_path(d, x);
            assert forall|i: int, j: int| 0 <= i < j < r.push(last).len() implies !path_less(
                #[trigger] r.push(last)[j],
                #[trigger] r.push(last)[i],
            ) by {
                if j == r.len() {
                    let e = r[i];
                    assert(r.to_multiset().count(e) > 0);
                    assert(d.to_multiset().insert(x).count(e) > 0);
                    if e == x {
                        law_path_less_asymmetric(x, last);
                    } else {
                        assert(d.to_multiset().count(e) > 0);
                        assert(d.contains(e));
                        let q = choose|q: int| 0 <= q < d.len() && d[q] == e;
                        assert(sorted[q] == e);
                        assert(!path_less(sorted[sorted.len() - 1], sorted[q]));
                    }
                }
            }
        } else {
            assert forall|i: int, j: int| 0 <= i < j < sorted.push(x).len() implies !path_less(
                #[trigger] sorted.push(x)[j],
                #[trigger] sorted.push(x)[i],
            ) by {
                if j == sorted.len() {
                    let e = sorted[i];
                    if path_less(x, e) {
                        if i < sorted.len() - 1 {
                            law_path_less_total(e, last);
                            if path_less(e, last) {
                                law_path_less_transitive(x, e, last);
                            } else if path_less(last, e) {
                                assert(!path_less(sorted[sorted.len() - 1], sorted[i]));
                            }
                        }
                    }
                }
            }
        }
    }
}

/// Sorting paths puts them in path order and keeps every path, each as often as before.
pub proof fn law_sorted_paths_ordered(paths: Seq<Seq<char>>)
    ensures
        paths_ordered(sort_paths_spec(paths)),
        sort_paths_spec(paths).to_multiset() =~= paths.to_multiset(),
    decreases paths.len(),
{
    broadcast use vstd::seq_lib::group_to_multiset_ensures;
    if paths.len() > 0 {
        law_sorted_paths_ordered(paths.drop_last());
        lemma_insert_path_ordered(sort_paths_spec(paths.drop_last()), paths.last());
        assert(paths =~= paths.drop_last().push(paths.last()));
    }
}

} // verus!
