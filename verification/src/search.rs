//! The search engine's decision logic: which directory entries are accepted
//! for a request, and the accumulation of accepted entries into results and
//! a summary count. Walking the filesystem itself is left to the caller,
//! which hands each visited entry in as a plain value.

use vstd::prelude::*;
use crate::ext_filter::accepts;
use crate::ext_filter::ext_accepts;
use crate::fuzzy::fuzzy_match;
use crate::fuzzy::is_subsequence_of;
use crate::fuzzy::spec_fuzzy_score;
use crate::text::lower;

verus! {

/// A filesystem entry encountered during traversal, as a plain value:
/// its path, whether it is a regular file, its depth below the search root
/// (the root itself has depth zero), its file name, and its extension.
#[derive(Clone, Debug)]
pub struct CandidateEntry {
    pub path: String,
    pub is_file: bool,
    pub depth: usize,
    pub name: String,
    pub extension: Option<String>,
}

/// What to search for: the name pattern, the depth bound, and the optional
/// extension filter (absent: no filtering; present but empty: accept all).
#[derive(Clone, Debug)]
pub struct SearchRequest {
    pub pattern: String,
    pub max_depth: usize,
    pub extensions: Option<Vec<String>>,
}

/// One accepted file: its path and the informational match score.
#[derive(Clone, Debug)]
pub struct MatchResult {
    pub path: String,
    pub score: Option<i64>,
}

/// The running count of accepted files, finalized after traversal.
#[derive(Clone, Copy, Debug, PartialEq, Eq, Structural)]
pub struct SearchSummary {
    pub count: usize,
}

/// An entry is accepted exactly when it is a regular file within the depth
/// bound whose case-folded name contains the case-folded pattern as an
/// ordered subsequence, and whose extension passes the filter.
pub open spec fn entry_matches(e: CandidateEntry, req: SearchRequest) -> bool {
    &&& e.is_file
    &&& e.depth <= req.max_depth
    &&& is_subsequence_of(lower(req.pattern@), lower(e.name@))
    &&& ext_accepts(e.extension.deep_view(), req.extensions.deep_view())
}

/// Evaluates one visited entry against the request: a result exactly when
/// the entry is accepted, carrying the entry's path and the match score.
pub fn evaluate_entry(e: &CandidateEntry, req: &SearchRequest) -> (r: Option<MatchResult>)
    ensures
        r is Some <==> entry_matches(*e, *req),
        r matches Some(m) ==> m.path@ == e.path@ && (m.score matches Some(s) && s as int
            == spec_fuzzy_score(e.name@, req.pattern@)),
{
    if !e.is_file {
        return None;
    }
    if e.depth > req.max_depth {
        return None;
    }
    let score = match fuzzy_match(e.name.as_str(), req.pattern.as_str()) {
        Some(s) => s,
        None => {
            return None;
        },
    };
    let extension = match &e.extension {
        Some(x) => Some(x.as_str()),
        None => None,
    };
    let allowed = match &req.extensions {
        Some(a) => Some(a),
        None => None,
    };
    if accepts(extension, allowed) {
        Some(MatchResult { path: e.path.clone(), score: Some(score) })
    } else {
        None
    }
}

/// The subsequence of entries that the request accepts, in traversal order.
pub open spec fn matched(entries: Seq<CandidateEntry>, req: SearchRequest) -> Seq<CandidateEntry>
    decreases entries.len(),
{
    if entries.len() == 0 {
        Seq::empty()
    } else {
        let rest = matched(entries.drop_last(), req);
        if entry_matches(entries.last(), req) {
            rest.push(entries.last())
        } else {
            rest
        }
    }
}

/// `matched` selects exactly the entries the request accepts, in their
/// traversal order.
pub proof fn lemma_matched_is_filter(entries: Seq<CandidateEntry>, req: SearchRequest)
    ensures
        matched(entries, req) == entries.filter(|e: CandidateEntry| entry_matches(e, req)),
    decreases entries.len(),
{
    reveal(Seq::<CandidateEntry>::filter);
    let pred = |e: CandidateEntry| entry_matches(e, req);
    if entries.len() == 0 {
        assert(entries.filter(pred) =~= Seq::<CandidateEntry>::empty());
    } else {
        lemma_matched_is_filter(entries.drop_last(), req);
        assert(matched(entries.drop_last(), req) == entries.drop_last().filter(pred));
        if pred(entries.last()) {
            assert(entries.filter(pred) == entries.drop_last().filter(pred).push(
                entries.last(),
            ));
        } else {
            assert(entries.filter(pred) == entries.drop_last().filter(pred));
        }
    }
}

/// The results correspond one to one, in order, to the accepted entries:
/// same paths, and each score is the accepted entry's match score.
pub open spec fn results_correspond(
    results: Seq<MatchResult>,
    accepted: Seq<CandidateEntry>,
    req: SearchRequest,
) -> bool {
    &&& results.len() == accepted.len()
    &&& forall|i: int|
        0 <= i < accepted.len() ==> (#[trigger] results[i]).path@ == accepted[i].path@
    &&& forall|i: int|
        0 <= i < accepted.len() ==> match (#[trigger] results[i]).score {
            Some(s) => s as int == spec_fuzzy_score(accepted[i].name@, req.pattern@),
            None => false,
        }
}

/// Runs the whole search over the visited entries, in order: the results
/// are exactly the accepted entries, and the summary counts them.
pub fn run_search(entries: &Vec<CandidateEntry>, req: &SearchRequest) -> (r: (
    Vec<MatchResult>,
    SearchSummary,
))
    ensures
        results_correspond(r.0@, matched(entries@, *req), *req),
        r.1.count == r.0@.len(),
{
    let mut out: Vec<MatchResult> = Vec::new();
    let mut i: usize = 0;
    proof {
        assert(entries@.take(0) =~= Seq::<CandidateEntry>::empty());
    }
    while i < entries.len()
        invariant
            i <= entries@.len(),
            results_correspond(out@, matched(entries@.take(i as int), *req), *req),
        decreases entries@.len() - i,
    {
        proof {
            assert(entries@.take(i as int + 1).drop_last() =~= entries@.take(i as int));
            assert(entries@.take(i as int + 1).last() == entries@[i as int]);
        }
        match evaluate_entry(&entries[i], req) {
            Some(m) => {
                out.push(m);
            },
            None => {},
        }
        i = i + 1;
    }
    proof {
        assert(entries@.take(entries@.len() as int) =~= entries@);
    }
    let count = out.len();
    (out, SearchSummary { count })
}

/// An entry strictly deeper than the request's depth bound is never
/// accepted, whatever its name and extension.
pub proof fn lemma_depth_bound(e: CandidateEntry, req: SearchRequest)
    ensures
        e.depth > req.max_depth ==> !entry_matches(e, req),
{
}

/// Over a whole traversal: every accepted entry lies within the depth bound.
pub proof fn lemma_matched_within_depth(entries: Seq<CandidateEntry>, req: SearchRequest)
    ensures
        forall|i: int|
            0 <= i < matched(entries, req).len() ==> (#[trigger] matched(entries, req)[i]).depth
                <= req.max_depth,
    decreases entries.len(),
{
    if entries.len() > 0 {
        lemma_matched_within_depth(entries.drop_last(), req);
    }
}

/// Searching is deterministic: the same entries and the same request yield
/// the same accepted entries, so an unchanged filesystem gives an unchanged
/// match set.
pub proof fn lemma_search_idempotent(
    entries1: Seq<CandidateEntry>,
    entries2: Seq<CandidateEntry>,
    req: SearchRequest,
)
    requires
        entries1 == entries2,
    ensures
        matched(entries1, req) == matched(entries2, req),
{
}

} // verus!
