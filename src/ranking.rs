//! Grouping matching pairs by their second word and ranking the words.
use crate::chars::chars_of;
use crate::laws::lemma_probabilities_sum_to_one;
use crate::pattern::{pattern_matches, PatternView, WordPattern};
use crate::store::{BigramRepo, Entry};
use vstd::prelude::*;

verus! {

/// A candidate next word and the summed count of the pairs that chose it.
/// Its probability is `weight / total` of the ranking that holds it.
pub struct Prediction {
    pub word: String,
    pub weight: u128,
}

/// A candidate word as mathematical values.
pub struct Weighted {
    pub word: Seq<char>,
    pub weight: nat,
}

impl View for Prediction {
    type V = Weighted;

    open spec fn view(&self) -> Weighted {
        Weighted { word: self.word@, weight: self.weight as nat }
    }
}

/// Candidate words, most likely first, and the total count they share.
pub struct Ranking {
    pub total: u128,
    pub predictions: Vec<Prediction>,
}

/// The predictions as mathematical values.
pub open spec fn weighted_of(v: Seq<Prediction>) -> Seq<Weighted> {
    v.map_values(|p: Prediction| p@)
}

/// Whether a stored pair is selected by the two patterns.
pub open spec fn entry_matches(e: Entry, pf: PatternView, ps: PatternView) -> bool {
    pattern_matches(pf, e.first) && pattern_matches(ps, e.second)
}

/// The summed count of the pairs selected by the two patterns.
pub open spec fn total_of(s: Seq<Entry>, pf: PatternView, ps: PatternView) -> nat
    decreases s.len(),
{
    if s.len() == 0 {
        0
    } else {
        total_of(s.drop_last(), pf, ps) + if entry_matches(s.last(), pf, ps) {
            s.last().count
        } else {
            0
        }
    }
}

/// The position of word `w` in `g`, searching from `i` on.
pub open spec fn word_from(g: Seq<Weighted>, w: Seq<char>, i: int) -> Option<int>
    decreases g.len() - i,
{
    if i < 0 || i >= g.len() {
        None
    } else if g[i].word == w {
        Some(i)
    } else {
        word_from(g, w, i + 1)
    }
}

/// `g` with `c` added to the weight of word `w`, which is added at the end
/// when absent.
pub open spec fn add_weight(g: Seq<Weighted>, w: Seq<char>, c: nat) -> Seq<Weighted> {
    match word_from(g, w, 0) {
        Some(k) => g.update(k, Weighted { word: w, weight: g[k].weight + c }),
        None => g.push(Weighted { word: w, weight: c }),
    }
}

/// The selected pairs grouped by second word, each group with its summed
/// count, in the order the words were first met.
pub open spec fn groups_of(s: Seq<Entry>, pf: PatternView, ps: PatternView) -> Seq<Weighted>
    decreases s.len(),
{
    if s.len() == 0 {
        Seq::empty()
    } else {
        let g = groups_of(s.drop_last(), pf, ps);
        if entry_matches(s.last(), pf, ps) {
            add_weight(g, s.last().second, s.last().count)
        } else {
            g
        }
    }
}

/// The first position from `k` on whose weight is below `c`, or the length.
pub open spec fn below_from(r: Seq<Weighted>, c: nat, k: int) -> int
    decreases r.len() - k,
{
    if k < 0 || k >= r.len() {
        r.len() as int
    } else if r[k].weight < c {
        k
    } else {
        below_from(r, c, k + 1)
    }
}

/// `g` ordered by weight, heaviest first; equal weights keep their order.
pub open spec fn sort_desc(g: Seq<Weighted>) -> Seq<Weighted>
    decreases g.len(),
{
    if g.len() == 0 {
        Seq::empty()
    } else {
        let r = sort_desc(g.drop_last());
        r.insert(below_from(r, g.last().weight, 0), g.last())
    }
}

/// The ranked candidate words for two patterns.
pub open spec fn ranked_of(s: Seq<Entry>, pf: PatternView, ps: PatternView) -> Seq<Weighted> {
    sort_desc(groups_of(s, pf, ps))
}

/// Where to insert weight `c` into `r`, which keeps heavier-or-equal weights first.
fn insert_position(r: &Vec<Prediction>, c: u128) -> (k: usize)
    ensures
        k == below_from(weighted_of(r@), c as nat, 0),
        k <= r@.len(),
{
    let ghost rv = weighted_of(r@);
    let mut k: usize = 0;
    while k < r.len()
        invariant
            rv == weighted_of(r@),
            0 <= k <= r@.len(),
            below_from(rv, c as nat, 0) == below_from(rv, c as nat, k as int),
        decreases r@.len() - k,
    {
        if r[k].weight < c {
            return k;
        }
        k += 1;
    }
    k
}

/// The groups ordered by weight, heaviest first; equal weights keep their order.
fn rank_groups(g: &Vec<Prediction>) -> (r: Vec<Prediction>)
    ensures
        weighted_of(r@) == sort_desc(weighted_of(g@)),
{
    let ghost gv = weighted_of(g@);
    let mut r: Vec<Prediction> = Vec::new();
    let mut i: usize = 0;
    while i < g.len()
        invariant
            gv == weighted_of(g@),
            0 <= i <= g@.len(),
            weighted_of(r@) == sort_desc(gv.subrange(0, i as int)),
        decreases g@.len() - i,
    {
        let item = g[i].copy();
        let k = insert_position(&r, item.weight);
        let ghost before = r@;
        r.insert(k, item);
        assert(gv.subrange(0, i + 1).drop_last() =~= gv.subrange(0, i as int));
        assert(weighted_of(r@) =~= weighted_of(before).insert(k as int, gv[i as int]));
        i += 1;
    }
    assert(gv.subrange(0, gv.len() as int) =~= gv);
    r
}

/// The position of word `w` among the predictions.
fn word_position(g: &Vec<Prediction>, w: &String) -> (r: Option<usize>)
    ensures
        r matches Some(k) ==> word_from(weighted_of(g@), w@, 0) == Some(k as int) && k < g@.len(),
        r is None ==> word_from(weighted_of(g@), w@, 0) is None,
{
    let ghost gv = weighted_of(g@);
    let mut k: usize = 0;
    while k < g.len()
        invariant
            gv == weighted_of(g@),
            0 <= k <= g@.len(),
            word_from(gv, w@, 0) == word_from(gv, w@, k as int),
        decreases g@.len() - k,
    {
        if g[k].word == *w {
            return Some(k);
        }
        k += 1;
    }
    None
}

impl BigramRepo {
    /// The candidate second words of the pairs whose first word is selected
    /// by `first` and whose second word is selected by `second`: each with
    /// the summed count of its pairs, heaviest first, with the summed count
    /// of all selected pairs as the total.
    pub fn match_and_rank(&self, first: &WordPattern, second: &WordPattern) -> (r: Ranking)
        requires
            self.wf(),
        ensures
            r.total == total_of(self@, first@, second@),
            weighted_of(r.predictions@) == ranked_of(self@, first@, second@),
            r.total == 0 <==> r.predictions@.len() == 0,
    {
        let ghost s = self@;
        let mut total: u128 = 0;
        let mut groups: Vec<Prediction> = Vec::new();
        let mut i: usize = 0;
        while i < self.len()
            invariant
                s == self@,
                0 <= i <= s.len(),
                total == total_of(s.subrange(0, i as int), first@, second@),
                weighted_of(groups@) == groups_of(s.subrange(0, i as int), first@, second@),
                total <= i * 0xffff_ffff_ffff_ffffu128,
                forall|k: int| 0 <= k < groups@.len() ==> #[trigger] groups@[k].weight <= total,
            decreases s.len() - i,
        {
            let rec = self.get(i);
            let a = chars_of(rec.first.as_str());
            let b = chars_of(rec.second.as_str());
            assert(s.subrange(0, i + 1).drop_last() =~= s.subrange(0, i as int));
            assert(s.subrange(0, i + 1).last() == s[i as int]);
            if first.matches(&a) && second.matches(&b) {
                let c = rec.count as u128;
                assert((i + 1) * 0xffff_ffff_ffff_ffffu128 <= u128::MAX) by (nonlinear_arith)
                    requires
                        i < 0x1_0000_0000_0000_0000int,
                ;
                assert(total + c <= (i + 1) * 0xffff_ffff_ffff_ffffu128) by (nonlinear_arith)
                    requires
                        total <= i * 0xffff_ffff_ffff_ffffu128,
                        c <= 0xffff_ffff_ffff_ffffu128,
                ;
                total = total + c;
                let ghost before = groups@;
                match word_position(&groups, &rec.second) {
                    Some(k) => {
                        let w = groups[k].weight + c;
                        groups.set(k, Prediction { word: rec.second.clone(), weight: w });
                        assert(weighted_of(groups@) =~= weighted_of(before).update(
                            k as int,
                            Weighted { word: rec.second@, weight: (before[k as int].weight + c) as nat },
                        ));
                    },
                    None => {
                        groups.push(Prediction { word: rec.second.clone(), weight: c });
                        assert(weighted_of(groups@) =~= weighted_of(before).push(
                            Weighted { word: rec.second@, weight: c as nat },
                        ));
                    },
                }
            } else {
                assert(i * 0xffff_ffff_ffff_ffffu128 <= (i + 1) * 0xffff_ffff_ffff_ffffu128)
                    by (nonlinear_arith);
            }
            i += 1;
        }
        assert(s.subrange(0, s.len() as int) =~= s);
        proof {
            lemma_probabilities_sum_to_one(s, first@, second@);
        }
        Ranking { total, predictions: rank_groups(&groups) }
    }
}

impl Prediction {
    /// A copy of this prediction.
    pub fn copy(&self) -> (r: Prediction)
        ensures
            r@ == self@,
    {
        Prediction { word: self.word.clone(), weight: self.weight }
    }
}

} // verus!
