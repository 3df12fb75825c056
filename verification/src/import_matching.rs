use vstd::prelude::*;
use crate::seqs::{first_idx, is_first, keep, lemma_is_first_unique, lemma_keep_step, lemma_none_first};
use crate::state::{CandidateModel, FolderImportSession, candidates_view};
use crate::text::lowercase;
use std::collections::{HashMap, HashSet};

verus! {

/// Whether a character is alphabetic or numeric in Unicode's sense, as
/// `char::is_alphanumeric` decides it.
pub uninterp spec fn alphanumeric(c: char) -> bool;

/// Calls `char::is_alphanumeric`; the result is named by `alphanumeric`. ASCII letters
/// and digits are alphanumeric, as its documentation says.
#[verifier::external_body]
fn is_alphanumeric(c: char) -> (r: bool)
    ensures
        r == alphanumeric(c),
        ('a' <= c <= 'z') || ('A' <= c <= 'Z') || ('0' <= c <= '9') ==> r,
{
    c.is_alphanumeric()
}

/// The form names are compared in: lowercase, with everything but letters and digits
/// removed.
pub open spec fn normalized_name(s: Seq<char>) -> Seq<char> {
    keep(lowercase(s), |c: char| alphanumeric(c))
}

/// The form names are compared in (see `normalized_name`).
pub fn normalize_name(name: &str) -> (r: String)
    ensures
        r@ == normalized_name(name@),
{
    let lower = crate::text::to_lowercase(name);
    let cs = crate::text::chars_of(lower.as_str());
    let ghost l = lower@;
    let mut out: Vec<char> = Vec::new();
    let mut i: usize = 0;
    while i < cs.len()
        invariant
            i <= cs.len(),
            cs@ == l,
            l == lowercase(name@),
            out@ == keep(l.take(i as int), |c: char| alphanumeric(c)),
        decreases cs.len() - i,
    {
        proof {
            lemma_keep_step(l, |c: char| alphanumeric(c), i as int);
        }
        if is_alphanumeric(cs[i]) {
            out.push(cs[i]);
        }
        i = i + 1;
    }
    assert(l.take(cs.len() as int) =~= l);
    crate::text::string_from_chars(&out)
}

/// Selects the search results whose project name compares equal to `n`.
pub open spec fn name_is(n: Seq<char>) -> spec_fn((Seq<char>, Seq<char>)) -> bool {
    |e: (Seq<char>, Seq<char>)| normalized_name(e.1) == n
}

/// The result picked for a candidate, and whether the pick is an exact match: a single
/// result is picked (exact when its name compares equal to the file's); among several,
/// the first whose name compares equal is picked, exactly; otherwise nothing.
pub open spec fn picked(c: CandidateModel) -> Option<(int, bool)> {
    match c.search_results {
        Some(m) => if m.len() == 1 {
            Some((0, normalized_name(m[0].1) == normalized_name(c.cleaned_name)))
        } else if m.len() > 1 {
            let j = first_idx(m, name_is(normalized_name(c.cleaned_name)));
            if j >= 0 {
                Some((j, true))
            } else {
                None
            }
        } else {
            None
        },
        None => None,
    }
}

/// The position of the result picked for a candidate (meaningful when one is picked).
pub open spec fn pick_index(c: CandidateModel) -> int {
    match picked(c) {
        Some((j, _)) => j,
        None => 0,
    }
}

/// Whether the pick for a candidate is an exact match.
pub open spec fn pick_is_exact(c: CandidateModel) -> bool {
    match picked(c) {
        Some((_, e)) => e,
        None => false,
    }
}

/// The candidates below `i` that get a pick: not picked before, not cleared by hand,
/// and with something to pick.
pub open spec fn gets_pick(sel: Map<usize, usize>, cleared: Set<usize>, cs: Seq<CandidateModel>, i: int, k: usize) -> bool {
    k < i && k < cs.len() && !sel.dom().contains(k) && !cleared.contains(k) && picked(cs[k as int]) is Some
}

/// The picks after the first `i` candidates are gone through.
pub open spec fn picks_after(sel: Map<usize, usize>, cleared: Set<usize>, cs: Seq<CandidateModel>, i: int) -> Map<
    usize,
    usize,
> {
    Map::new(
        |k: usize| sel.dom().contains(k) || gets_pick(sel, cleared, cs, i, k),
        |k: usize|
            if sel.dom().contains(k) {
                sel[k]
            } else {
                pick_index(cs[k as int]) as usize
            },
    )
}

/// The exact matches after the first `i` candidates are gone through.
pub open spec fn exact_after(
    ex: Set<usize>,
    sel: Map<usize, usize>,
    cleared: Set<usize>,
    cs: Seq<CandidateModel>,
    i: int,
) -> Set<usize> {
    ex.union(Set::new(|k: usize| gets_pick(sel, cleared, cs, i, k) && pick_is_exact(cs[k as int])))
}

/// The results of a folder scan the user picks from: for a candidate (by position),
/// the search result picked, the picks known to be exact matches, and the candidates
/// whose pick the user cleared.
#[derive(Debug)]
pub struct MatchSelection {
    pub selected_matches: HashMap<usize, usize>,
    pub exact_matches: HashSet<usize>,
    pub manually_cleared: HashSet<usize>,
}

/// The position of the first result whose name compares equal to `n`.
fn first_with_name(m: &Vec<(crate::lnk::ProjectLnk, String)>, n: &String) -> (r: Option<usize>)
    ensures
        match r {
            Some(j) => first_idx(crate::state::results_view(m@), name_is(n@)) == j as int && j < m@.len(),
            None => first_idx(crate::state::results_view(m@), name_is(n@)) == -1,
        },
{
    let ghost v = crate::state::results_view(m@);
    let ghost f = name_is(n@);
    let mut j: usize = 0;
    while j < m.len()
        invariant
            j <= m.len(),
            v == crate::state::results_view(m@),
            f == name_is(n@),
            forall|x: int| 0 <= x < j ==> !f(v[x]),
        decreases m.len() - j,
    {
        let np = normalize_name(m[j].1.as_str());
        assert(v[j as int].1 == m@[j as int].1@);
        if crate::text::str_eq(np.as_str(), n.as_str()) {
            assert(is_first(v, f, j as int));
            proof {
                lemma_is_first_unique(v, f, j as int);
            }
            return Some(j);
        }
        j = j + 1;
    }
    proof {
        lemma_none_first(v, f);
    }
    None
}

impl MatchSelection {
    /// Nothing picked, nothing cleared.
    pub fn new() -> (r: MatchSelection)
        ensures
            r.selected_matches@ == Map::<usize, usize>::empty(),
            r.exact_matches@ == Set::<usize>::empty(),
            r.manually_cleared@ == Set::<usize>::empty(),
    {
        MatchSelection { selected_matches: HashMap::new(), exact_matches: HashSet::new(), manually_cleared: HashSet::new() }
    }

    /// Picks a search result for each candidate that has none and was not cleared by
    /// hand (see `picked`), and notes the exact matches.
    pub fn auto_select_exact_matches(&mut self, session: &FolderImportSession)
        ensures
            final(self).selected_matches@ == picks_after(
                old(self).selected_matches@,
                old(self).manually_cleared@,
                candidates_view(session.candidates@),
                session.candidates@.len() as int,
            ),
            final(self).exact_matches@ == exact_after(
                old(self).exact_matches@,
                old(self).selected_matches@,
                old(self).manually_cleared@,
                candidates_view(session.candidates@),
                session.candidates@.len() as int,
            ),
            final(self).manually_cleared@ == old(self).manually_cleared@,
    {
        let ghost sel0 = self.selected_matches@;
        let ghost ex0 = self.exact_matches@;
        let ghost cl = self.manually_cleared@;
        let ghost cs = candidates_view(session.candidates@);
        let n = session.candidates.len();
        let mut i: usize = 0;
        proof {
            assert(picks_after(sel0, cl, cs, 0) =~= sel0);
            assert(exact_after(ex0, sel0, cl, cs, 0) =~= ex0);
        }
        while i < n
            invariant
                i <= n,
                n == session.candidates@.len(),
                cs == candidates_view(session.candidates@),
                self.manually_cleared@ == cl,
                self.selected_matches@ == picks_after(sel0, cl, cs, i as int),
                self.exact_matches@ == exact_after(ex0, sel0, cl, cs, i as int),
            decreases n - i,
        {
            let ghost before_sel = self.selected_matches@;
            let ghost before_ex = self.exact_matches@;
            let c = &session.candidates[i];
            assert(cs[i as int] == c@);
            let taken = self.selected_matches.contains_key(&i);
            let cleared = self.manually_cleared.contains(&i);
            assert(taken == sel0.dom().contains(i)) by {
                assert(!gets_pick(sel0, cl, cs, i as int, i));
            }
            if !taken && !cleared {
                match &c.search_results {
                    Some(m) => {
                        let nf = normalize_name(c.cleaned_name.as_str());
                        if m.len() == 1 {
                            let np = normalize_name(m[0].1.as_str());
                            assert(crate::state::results_view(m@)[0].1 == m@[0].1@);
                            self.selected_matches.insert(i, 0);
                            if crate::text::str_eq(nf.as_str(), np.as_str()) {
                                self.exact_matches.insert(i);
                            }
                        } else if m.len() > 1 {
                            match first_with_name(m, &nf) {
                                Some(j) => {
                                    self.selected_matches.insert(i, j);
                                    self.exact_matches.insert(i);
                                },
                                None => {},
                            }
                        }
                    },
                    None => {},
                }
            }
            assert(self.selected_matches@ =~= picks_after(sel0, cl, cs, i + 1));
            assert(self.exact_matches@ =~= exact_after(ex0, sel0, cl, cs, i + 1));
            i = i + 1;
        }
    }
}

} // verus!
