//! Approximate name matching: a pattern matches a candidate name when the
//! pattern's characters occur in the name in order (gaps allowed), compared
//! after ASCII case folding. The accompanying score comes from the skim
//! fuzzy matcher and is informational only.

use vstd::prelude::*;
use crate::text::lower;
use crate::text::lower_char_exec;

verus! {

/// `m` lists, in strictly increasing order, positions of `c` at which the
/// characters of `p` appear: the witness that `p` is a subsequence of `c`.
pub open spec fn is_embedding(m: Seq<int>, p: Seq<char>, c: Seq<char>) -> bool {
    &&& m.len() == p.len()
    &&& (forall|i: int| 0 <= i < m.len() ==> 0 <= #[trigger] m[i] < c.len())
    &&& (forall|i: int| 0 < i < m.len() ==> m[i - 1] < #[trigger] m[i])
    &&& (forall|i: int| 0 <= i < m.len() ==> c[#[trigger] m[i]] == p[i])
}

/// `p` can be obtained from `c` by deleting zero or more characters
/// without reordering the rest.
pub open spec fn is_subsequence_of(p: Seq<char>, c: Seq<char>) -> bool {
    exists|m: Seq<int>| is_embedding(m, p, c)
}

/// The greedy two-pointer subsequence test: match the first remaining
/// pattern character against the first remaining candidate character.
pub open spec fn subseq_check(p: Seq<char>, c: Seq<char>) -> bool
    decreases p.len() + c.len(),
{
    if p.len() == 0 {
        true
    } else if c.len() == 0 {
        false
    } else if p[0] == c[0] {
        subseq_check(p.drop_first(), c.drop_first())
    } else {
        subseq_check(p, c.drop_first())
    }
}

proof fn lemma_check_implies_embedding(p: Seq<char>, c: Seq<char>)
    requires
        subseq_check(p, c),
    ensures
        is_subsequence_of(p, c),
    decreases p.len() + c.len(),
{
    if p.len() == 0 {
        assert(is_embedding(Seq::<int>::empty(), p, c));
    } else if c.len() == 0 {
    } else if p[0] == c[0] {
        lemma_check_implies_embedding(p.drop_first(), c.drop_first());
        let m0 = choose|m: Seq<int>| is_embedding(m, p.drop_first(), c.drop_first());
        let m1 = seq![0int] + m0.map_values(|x: int| x + 1);
        assert forall|i: int| 0 <= i < m1.len() implies 0 <= #[trigger] m1[i] < c.len() by {
            if i >= 1 {
                assert(m1[i] == m0[i - 1] + 1);
            }
        }
        assert forall|i: int| 0 < i < m1.len() implies m1[i - 1] < #[trigger] m1[i] by {
            if i == 1 {
                assert(m1[0] == 0);
                assert(m1[1] == m0[0] + 1);
            } else {
                assert(m1[i - 1] == m0[i - 2] + 1);
                assert(m1[i] == m0[i - 1] + 1);
            }
        }
        assert forall|i: int| 0 <= i < m1.len() implies c[#[trigger] m1[i]] == p[i] by {
            if i == 0 {
                assert(c[0] == p[0]);
            } else {
                assert(m1[i] == m0[i - 1] + 1);
                assert(c.drop_first()[m0[i - 1]] == p.drop_first()[i - 1]);
            }
        }
        assert(is_embedding(m1, p, c));
    } else {
        lemma_check_implies_embedding(p, c.drop_first());
        let m0 = choose|m: Seq<int>| is_embedding(m, p, c.drop_first());
        let m1 = m0.map_values(|x: int| x + 1);
        assert forall|i: int| 0 <= i < m1.len() implies c[#[trigger] m1[i]] == p[i] by {
            assert(m1[i] == m0[i] + 1);
            assert(c.drop_first()[m0[i]] == p[i]);
        }
        assert(is_embedding(m1, p, c));
    }
}

proof fn lemma_embedding_implies_check(p: Seq<char>, c: Seq<char>)
    requires
        is_subsequence_of(p, c),
    ensures
        subseq_check(p, c),
    decreases p.len() + c.len(),
{
    let m = choose|m: Seq<int>| is_embedding(m, p, c);
    if p.len() == 0 {
    } else if c.len() == 0 {
        assert(0 <= m[0] < c.len());
        assert(false);
    } else if p[0] == c[0] {
        let m1 = m.subrange(1, m.len() as int).map_values(|x: int| x - 1);
        assert forall|i: int| 0 <= i < m1.len() implies 0 <= #[trigger] m1[i]
            < c.drop_first().len() by {
            assert(m1[i] == m[i + 1] - 1);
            assert(m[i] < m[i + 1]);
            assert(m[i] >= 0);
        }
        assert forall|i: int| 0 < i < m1.len() implies m1[i - 1] < #[trigger] m1[i] by {
            assert(m1[i - 1] == m[i] - 1);
            assert(m1[i] == m[i + 1] - 1);
        }
        assert forall|i: int| 0 <= i < m1.len() implies c.drop_first()[#[trigger] m1[i]]
            == p.drop_first()[i] by {
            assert(m1[i] == m[i + 1] - 1);
            assert(c[m[i + 1]] == p[i + 1]);
        }
        assert(is_embedding(m1, p.drop_first(), c.drop_first()));
        lemma_embedding_implies_check(p.drop_first(), c.drop_first());
    } else {
        assert(c[m[0]] == p[0]);
        assert(m[0] != 0);
        let m1 = m.map_values(|x: int| x - 1);
        assert forall|i: int| 0 <= i < m1.len() implies 0 <= #[trigger] m1[i]
            < c.drop_first().len() by {
            assert(m1[i] == m[i] - 1);
            if i == 0 {
                assert(m[0] >= 1);
            } else {
                assert(m[i - 1] >= 0);
                assert(m[i - 1] < m[i]);
            }
        }
        assert forall|i: int| 0 < i < m1.len() implies m1[i - 1] < #[trigger] m1[i] by {
            assert(m1[i - 1] == m[i - 1] - 1);
            assert(m1[i] == m[i] - 1);
        }
        assert forall|i: int| 0 <= i < m1.len() implies c.drop_first()[#[trigger] m1[i]]
            == p[i] by {
            assert(m1[i] == m[i] - 1);
            assert(m[i] >= 1);
            assert(c[m[i]] == p[i]);
        }
        assert(is_embedding(m1, p, c.drop_first()));
        lemma_embedding_implies_check(p, c.drop_first());
    }
}

/// The greedy two-pointer test decides exactly whether `p` is a
/// subsequence of `c`.
pub proof fn lemma_subseq_check_equiv(p: Seq<char>, c: Seq<char>)
    ensures
        subseq_check(p, c) == is_subsequence_of(p, c),
{
    if subseq_check(p, c) {
        lemma_check_implies_embedding(p, c);
    }
    if is_subsequence_of(p, c) {
        lemma_embedding_implies_check(p, c);
    }
}

/// The empty pattern is a subsequence of every candidate name.
pub proof fn lemma_empty_pattern_matches(name: Seq<char>)
    ensures
        is_subsequence_of(lower(Seq::<char>::empty()), lower(name)),
{
    assert(lower(Seq::<char>::empty()) =~= Seq::<char>::empty());
    assert(is_embedding(Seq::<int>::empty(), lower(Seq::<char>::empty()), lower(name)));
}

/// Whether the case-folded pattern occurs as a subsequence of the
/// case-folded candidate name.
pub fn is_ci_subsequence(pattern: &str, name: &str) -> (r: bool)
    ensures
        r == is_subsequence_of(lower(pattern@), lower(name@)),
{
    let plen = pattern.unicode_len();
    let nlen = name.unicode_len();
    let ghost lp = lower(pattern@);
    let ghost lc = lower(name@);
    let mut pi: usize = 0;
    let mut ni: usize = 0;
    proof {
        assert(lp.skip(0) =~= lp);
        assert(lc.skip(0) =~= lc);
    }
    while pi < plen && ni < nlen
        invariant
            plen == pattern@.len(),
            nlen == name@.len(),
            lp == lower(pattern@),
            lc == lower(name@),
            pi <= plen,
            ni <= nlen,
            subseq_check(lp, lc) == subseq_check(lp.skip(pi as int), lc.skip(ni as int)),
        decreases (plen - pi) + (nlen - ni),
    {
        let pc = lower_char_exec(pattern.get_char(pi));
        let nc = lower_char_exec(name.get_char(ni));
        proof {
            assert(lp.skip(pi as int)[0] == lp[pi as int]);
            assert(lc.skip(ni as int)[0] == lc[ni as int]);
            assert(lc.skip(ni as int).drop_first() =~= lc.skip(ni as int + 1));
        }
        if pc == nc {
            proof {
                assert(lp.skip(pi as int).drop_first() =~= lp.skip(pi as int + 1));
            }
            pi = pi + 1;
            ni = ni + 1;
        } else {
            ni = ni + 1;
        }
    }
    proof {
        if pi == plen {
            assert(lp.skip(pi as int) =~= Seq::<char>::empty());
            assert(subseq_check(lp, lc));
        } else {
            assert(lc.skip(ni as int) =~= Seq::<char>::empty());
            assert(lp.skip(pi as int).len() > 0);
            assert(!subseq_check(lp, lc));
        }
        lemma_subseq_check_equiv(lp, lc);
    }
    pi == plen
}

/// The score that the skim fuzzy matcher, in its default configuration,
/// assigns to this name and pattern; it is a function of the two strings
/// alone, and absent when skim finds no alignment.
pub uninterp spec fn skim_score(name: Seq<char>, pattern: Seq<char>) -> Option<int>;

/// Relies on fuzzy_matcher's SkimMatcherV2::fuzzy_match (default
/// configuration): the result depends on the two strings alone.
#[verifier::external_body]
fn skim_fuzzy_match(name: &str, pattern: &str) -> (r: Option<i64>)
    ensures
        r is Some <==> skim_score(name@, pattern@) is Some,
        r matches Some(s) ==> skim_score(name@, pattern@) == Some(s as int),
{
    let matcher = fuzzy_matcher::skim::SkimMatcherV2::default();
    fuzzy_matcher::FuzzyMatcher::fuzzy_match(&matcher, name, pattern)
}

/// The informational score reported for a match: skim's score where skim
/// finds an alignment, and zero otherwise.
pub open spec fn spec_fuzzy_score(name: Seq<char>, pattern: Seq<char>) -> int {
    match skim_score(name, pattern) {
        Some(v) => v,
        None => 0,
    }
}

/// Approximate match of `pattern` against the file name `name`: some score
/// exactly when the case-folded pattern is an ordered subsequence of the
/// case-folded name, and no score otherwise.
pub fn fuzzy_match(name: &str, pattern: &str) -> (r: Option<i64>)
    ensures
        r is Some <==> is_subsequence_of(lower(pattern@), lower(name@)),
        r matches Some(s) ==> s as int == spec_fuzzy_score(name@, pattern@),
{
    if is_ci_subsequence(pattern, name) {
        match skim_fuzzy_match(name, pattern) {
            Some(s) => Some(s),
            None => Some(0),
        }
    } else {
        None
    }
}

} // verus!
