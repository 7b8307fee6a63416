//! The prediction engine: learning pairs from text and suggesting the next word.
use crate::chars::chars_of;
use crate::layout::rows_of;
use crate::pattern::{fuzzy_classes, fuzzy_prefix, layout_rows, PatternView, WordPattern};
use crate::ranking::{ranked_of, total_of, weighted_of, Ranking, Weighted};
use crate::store::{bump_overflows, bumped, BigramRepo, Entry, StoreError};
use crate::text::{ends_with_space, normalize, strings_of, tokens_of, trailing_space};
use vstd::prelude::*;

verus! {

/// A text to learn pairs from.
pub struct ProcessTextRequest {
    pub text: String,
}

/// A partly typed text and the name of the layout it is typed on.
pub struct PredictRequest {
    pub text: String,
    pub layout: String,
}

/// The pattern for the word before the one being typed: that word exactly,
/// or any word when there is none.
pub open spec fn first_pattern(w: Option<Seq<char>>) -> PatternView {
    match w {
        Some(w) => PatternView::Exact(w),
        None => PatternView::Any,
    }
}

/// The pattern for the word being typed: its characters, each widened to
/// its neighbours on the layout, as a prefix; or any word when there is none.
pub open spec fn second_pattern(rows: Seq<Seq<char>>, w: Option<Seq<char>>) -> PatternView {
    match w {
        Some(w) => PatternView::Prefix(fuzzy_classes(rows, w)),
        None => PatternView::Any,
    }
}

/// The total and the ranked words for a context.
pub open spec fn rank_for(
    s: Seq<Entry>,
    rows: Seq<Seq<char>>,
    prev: Option<Seq<char>>,
    cur: Option<Seq<char>>,
) -> (nat, Seq<Weighted>) {
    let pf = first_pattern(prev);
    let ps = second_pattern(rows, cur);
    (total_of(s, pf, ps), ranked_of(s, pf, ps))
}

/// The prediction for a context: with the previous word as context, unless
/// that yields nothing, in which case without it.
pub open spec fn predict_for(
    s: Seq<Entry>,
    rows: Seq<Seq<char>>,
    prev: Option<Seq<char>>,
    cur: Option<Seq<char>>,
) -> (nat, Seq<Weighted>) {
    let r = rank_for(s, rows, prev, cur);
    if r.1.len() == 0 && prev is Some {
        rank_for(s, rows, None, cur)
    } else {
        r
    }
}

/// The context of a list of words: the word before the one being typed and
/// the one being typed. After a trailing space the last word is finished
/// and nothing is being typed yet.
pub open spec fn context_of(words: Seq<Seq<char>>, finished: bool) -> (
    Option<Seq<char>>,
    Option<Seq<char>>,
) {
    let n = words.len();
    if finished {
        (if n >= 1 { Some(words[n - 1]) } else { None }, None)
    } else {
        (
            if n >= 2 { Some(words[n - 2]) } else { None },
            if n >= 1 { Some(words[n - 1]) } else { None },
        )
    }
}

/// The view of an optional string.
pub open spec fn opt_chars(o: Option<&str>) -> Option<Seq<char>> {
    match o {
        Some(s) => Some(s@),
        None => None,
    }
}

/// The view of an optional word.
pub open spec fn opt_word(o: Option<&String>) -> Option<Seq<char>> {
    match o {
        Some(s) => Some(s@),
        None => None,
    }
}

/// The ranking of a prediction as mathematical values.
pub open spec fn ranking_view(r: Ranking) -> (nat, Seq<Weighted>) {
    (r.total as nat, weighted_of(r.predictions@))
}

/// The entries after feeding the first `k` adjacent pairs of `words` to the
/// store, and whether some pair was refused; after a refusal nothing more
/// is fed.
pub open spec fn fed(s: Seq<Entry>, words: Seq<Seq<char>>, k: nat) -> (Seq<Entry>, bool)
    decreases k,
{
    if k == 0 {
        (s, false)
    } else {
        let (t, failed) = fed(s, words, (k - 1) as nat);
        let a = words[k - 1];
        let b = words[k as int];
        if failed {
            (t, true)
        } else if bump_overflows(t, a, b) {
            (t, true)
        } else {
            (bumped(t, a, b), false)
        }
    }
}

/// The number of adjacent pairs in a list of words.
pub open spec fn pair_count(words: Seq<Seq<char>>) -> nat {
    if words.len() >= 1 {
        (words.len() - 1) as nat
    } else {
        0
    }
}

impl BigramRepo {
    /// Records every adjacent pair of normalized words, in order, and
    /// returns how many were recorded. A refused pair stops the work; pairs
    /// recorded before it stay.
    pub fn ingest_words(&mut self, words: &Vec<String>) -> (r: Result<usize, StoreError>)
        requires
            old(self).wf(),
        ensures
            final(self).wf(),
            final(self)@ == fed(old(self)@, strings_of(words@), pair_count(strings_of(words@))).0,
            fed(old(self)@, strings_of(words@), pair_count(strings_of(words@))).1 <==> r is Err,
            r matches Ok(n) ==> n == pair_count(strings_of(words@)),
    {
        let ghost ws = strings_of(words@);
        let ghost s0 = self@;
        let n = words.len();
        if n < 2 {
            return Ok(0);
        }
        let mut i: usize = 0;
        while i + 1 < n
            invariant
                ws == strings_of(words@),
                s0 == old(self)@,
                n == words@.len(),
                n >= 2,
                0 <= i <= n - 1,
                self.wf(),
                (self@, false) == fed(s0, ws, i as nat),
            decreases n - i,
        {
            let ghost before = self@;
            match self.upsert(words[i].as_str(), words[i + 1].as_str()) {
                Ok(()) => {},
                Err(e) => {
                    proof {
                        assert(fed(s0, ws, (i + 1) as nat) == (before, true));
                        lemma_fed_stays_failed(s0, ws, (i + 1) as nat, (n - 1) as nat);
                    }
                    return Err(e);
                },
            }
            i += 1;
        }
        Ok(i)
    }

    /// Learns the pairs of adjacent words of a text.
    pub fn ingest(&mut self, text: &str) -> (r: Result<usize, StoreError>)
        requires
            old(self).wf(),
        ensures
            final(self).wf(),
            final(self)@ == fed(old(self)@, tokens_of(text@), pair_count(tokens_of(text@))).0,
            fed(old(self)@, tokens_of(text@), pair_count(tokens_of(text@))).1 <==> r is Err,
            r matches Ok(n) ==> n == pair_count(tokens_of(text@)),
    {
        let words = normalize(text);
        self.ingest_words(&words)
    }

    /// The candidate words after `first` (when given) that begin like
    /// `second` (when given), allowing each typed character to be any key of
    /// its column group on the layout.
    pub fn find_predictions(&self, first: Option<&str>, second: Option<&str>, keys: &Vec<String>) -> (r: Ranking)
        requires
            self.wf(),
        ensures
            ranking_view(r) == rank_for(self@, rows_of(keys@), opt_chars(first), opt_chars(second)),
    {
        let rows = layout_rows(keys);
        let pf = match first {
            Some(w) => WordPattern::Exact(chars_of(w)),
            None => WordPattern::Any,
        };
        let ps = match second {
            Some(w) => WordPattern::Prefix(fuzzy_prefix(&rows, &chars_of(w))),
            None => WordPattern::Any,
        };
        assert(pf@ == first_pattern(opt_chars(first)));
        assert(ps@ == second_pattern(rows_of(keys@), opt_chars(second)));
        self.match_and_rank(&pf, &ps)
    }

    /// The next-word prediction for normalized words, `finished` telling
    /// whether the text ended in a space.
    pub fn predict_words(&self, words: &Vec<String>, finished: bool, keys: &Vec<String>) -> (r: Ranking)
        requires
            self.wf(),
        ensures
            ({
                let ctx = context_of(strings_of(words@), finished);
                ranking_view(r) == predict_for(self@, rows_of(keys@), ctx.0, ctx.1)
            }),
    {
        let ghost ws = strings_of(words@);
        let n = words.len();
        let (prev, cur): (Option<&String>, Option<&String>) = if finished {
            (if n >= 1 { Some(&words[n - 1]) } else { None }, None)
        } else {
            (if n >= 2 { Some(&words[n - 2]) } else { None }, if n >= 1 { Some(&words[n - 1]) } else { None })
        };
        assert((opt_word(prev), opt_word(cur)) == context_of(ws, finished));
        let prev_str: Option<&str> = match prev {
            Some(w) => Some(w.as_str()),
            None => None,
        };
        let cur_str: Option<&str> = match cur {
            Some(w) => Some(w.as_str()),
            None => None,
        };
        assert(opt_chars(prev_str) == opt_word(prev));
        assert(opt_chars(cur_str) == opt_word(cur));
        let r = self.find_predictions(prev_str, cur_str, keys);
        if r.predictions.len() == 0 && prev_str.is_some() {
            self.find_predictions(None, cur_str, keys)
        } else {
            r
        }
    }

    /// The next-word prediction for a partly typed text on a layout.
    pub fn predict(&self, text: &str, keys: &Vec<String>) -> (r: Ranking)
        requires
            self.wf(),
        ensures
            ({
                let ctx = context_of(tokens_of(text@), ends_with_space(text@));
                ranking_view(r) == predict_for(self@, rows_of(keys@), ctx.0, ctx.1)
            }),
    {
        let finished = trailing_space(text);
        let words = normalize(text);
        self.predict_words(&words, finished, keys)
    }
}

/// Once feeding has failed, feeding more pairs changes nothing.
pub proof fn lemma_fed_stays_failed(s: Seq<Entry>, words: Seq<Seq<char>>, k: nat, m: nat)
    requires
        k <= m,
        fed(s, words, k).1,
    ensures
        fed(s, words, m) == fed(s, words, k),
    decreases m - k,
{
    if k < m {
        lemma_fed_stays_failed(s, words, k, (m - 1) as nat);
    }
}

} // verus!
