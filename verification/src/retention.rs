//! The retention pruner's selection: sort the destination folder's entry
//! names newest first — descending lexicographic order, which for archive
//! names equals newest-first time order — keep the first `keep` names, and
//! hand back the rest as deletion candidates.

use vstd::prelude::*;

use crate::namer::{
    archive_file_name_spec, lemma_name_injective, lemma_name_order_reflects_time, ts_le, Timestamp,
};
use crate::text::{lemma_lex_lt_transitive, lemma_lex_total, lex_le, lex_lt, str_lt};

verus! {

broadcast use vstd::seq_lib::group_to_multiset_ensures;

/// Non-increasing lexicographic order: newest-first for archive names.
pub open spec fn sorted_desc(s: Seq<Seq<char>>) -> bool {
    forall|i: int, j: int| 0 <= i < j < s.len() ==> lex_le(#[trigger] s[j], #[trigger] s[i])
}

/// What pruning leaves to delete out of a newest-first listing `s`: all but
/// the first `keep` names.
pub open spec fn pruned_suffix(s: Seq<Seq<char>>, keep: int) -> Seq<Seq<char>> {
    if keep <= s.len() {
        s.skip(keep)
    } else {
        Seq::empty()
    }
}

/// The position a name takes in a descending-sorted list: past every entry
/// not lexicographically below it.
fn insert_pos(out: &Vec<String>, x: &String) -> (j: usize)
    ensures
        j <= out@.len(),
        forall|k: int| 0 <= k < j ==> !lex_lt(#[trigger] out.deep_view()[k], x@),
        j < out@.len() ==> lex_lt(out.deep_view()[j as int], x@),
{
    let mut j: usize = 0;
    loop
        invariant
            j <= out@.len(),
            forall|k: int| 0 <= k < j ==> !lex_lt(#[trigger] out.deep_view()[k], x@),
        decreases out@.len() - j,
    {
        if j == out.len() {
            return j;
        }
        if str_lt(out[j].as_str(), x.as_str()) {
            return j;
        }
        j = j + 1;
    }
}

/// Sort names in descending lexicographic order; the result is a
/// permutation of the input.
pub fn sort_names_desc(names: &Vec<String>) -> (r: Vec<String>)
    ensures
        sorted_desc(r.deep_view()),
        r.deep_view().to_multiset() == names.deep_view().to_multiset(),
{
    let ghost all = names.deep_view();
    let mut out: Vec<String> = Vec::new();
    let mut i: usize = 0;
    while i < names.len()
        invariant
            all == names.deep_view(),
            all.len() == names@.len(),
            i <= names@.len(),
            sorted_desc(out.deep_view()),
            out.deep_view().to_multiset() == all.take(i as int).to_multiset(),
        decreases names@.len() - i,
    {
        let x = names[i].clone();
        assert(x@ == all[i as int]);
        let ghost before = out.deep_view();
        let j = insert_pos(&out, &x);
        out.insert(j, x);
        proof {
            let now = out.deep_view();
            assert(now =~= before.insert(j as int, x@));
            assert forall|p: int, q: int| 0 <= p < q < now.len() implies lex_le(now[q], now[p]) by {
                let jj = j as int;
                if q < jj {
                    assert(now[p] == before[p] && now[q] == before[q]);
                } else if p > jj {
                    assert(now[p] == before[p - 1] && now[q] == before[q - 1]);
                } else if p < jj && q == jj {
                    assert(now[q] == x@ && now[p] == before[p]);
                    assert(!lex_lt(before[p], x@));
                    lemma_lex_total(x@, before[p]);
                } else if p < jj && q > jj {
                    assert(now[p] == before[p] && now[q] == before[q - 1]);
                } else {
                    // p == jj < q: the displaced tail stays below the new name
                    assert(now[p] == x@ && now[q] == before[q - 1]);
                    assert(lex_lt(before[jj], x@));
                    if q - 1 > jj {
                        assert(lex_le(before[q - 1], before[jj]));
                        if before[q - 1] == before[jj] {
                        } else {
                            lemma_lex_lt_transitive(before[q - 1], before[jj], x@);
                        }
                    }
                }
            }
            assert(all.take(i + 1) =~= all.take(i as int).push(all[i as int]));
        }
        i = i + 1;
    }
    proof {
        assert(all.take(all.len() as int) =~= all);
    }
    out
}

/// Law: a newest-first name sort is a newest-first time sort. When every
/// name is the archive file name of a well-formed timestamp, descending
/// lexicographic order lists strictly later timestamps first, so keeping a
/// sorted listing's first `keep` names keeps the most recent archives.
pub proof fn lemma_sorted_names_are_newest_first(s: Seq<Seq<char>>, ts: Seq<Timestamp>)
    requires
        s.len() == ts.len(),
        forall|k: int| 0 <= k < ts.len() ==> (#[trigger] ts[k]).wf(),
        forall|k: int| 0 <= k < s.len() ==> #[trigger] s[k] == archive_file_name_spec(ts[k]),
        sorted_desc(s),
    ensures
        forall|i: int, j: int| 0 <= i < j < ts.len() ==> ts_le(#[trigger] ts[j], #[trigger] ts[i]),
{
    assert forall|i: int, j: int| 0 <= i < j < ts.len() implies ts_le(ts[j], ts[i]) by {
        assert(lex_le(s[j], s[i]));
        if s[j] == s[i] {
            lemma_name_injective(ts[j], ts[i]);
        } else {
            lemma_name_order_reflects_time(ts[j], ts[i]);
        }
    }
}

/// List the names the pruner must delete: everything but the `keep`
/// lexicographically greatest. With `keep == 0` every name is deleted.
pub fn select_deletions(names: &Vec<String>, keep: usize) -> (r: Vec<String>)
    ensures
        exists|s: Seq<Seq<char>>|
            sorted_desc(s) && s.to_multiset() == names.deep_view().to_multiset()
                && r.deep_view() == pruned_suffix(s, keep as int),
        keep == 0 ==> r.deep_view().to_multiset() == names.deep_view().to_multiset(),
        r@.len() == if keep as int <= names@.len() {
            names@.len() - keep as int
        } else {
            0
        },
{
    let sorted = sort_names_desc(names);
    let ghost sdv = sorted.deep_view();
    proof {
        assert(sdv.to_multiset().len() == names.deep_view().to_multiset().len());
        assert(sdv.len() == names.deep_view().len());
        assert(names.deep_view().len() == names@.len());
    }
    let mut r: Vec<String> = Vec::new();
    let mut i: usize = keep;
    if keep > sorted.len() {
        i = sorted.len();
    }
    let start: usize = i;
    while i < sorted.len()
        invariant
            sdv == sorted.deep_view(),
            sdv.len() == sorted@.len(),
            start <= i <= sorted@.len(),
            r.deep_view() == sdv.subrange(start as int, i as int),
        decreases sorted@.len() - i,
    {
        let x = sorted[i].clone();
        assert(x@ == sdv[i as int]);
        let ghost rb = r.deep_view();
        r.push(x);
        proof {
            assert(r.deep_view() =~= rb.push(sdv[i as int]));
            assert(r.deep_view() =~= sdv.subrange(start as int, i + 1));
        }
        i = i + 1;
    }
    proof {
        assert(r.deep_view() =~= pruned_suffix(sdv, keep as int));
        assert(sorted_desc(sdv) && sdv.to_multiset() == names.deep_view().to_multiset()
            && r.deep_view() == pruned_suffix(sdv, keep as int));
        if keep == 0 {
            assert(pruned_suffix(sdv, 0) =~= sdv);
        }
    }
    r
}

} // verus!
