//! Properties of the store, the ranking and the patterns, proved over the
//! spec functions that the operations' contracts use.
use crate::engine::{predict_for, second_pattern};
use crate::layout::well_formed_rows;
use crate::pattern::{
    class_of, clip, column_from, column_of, letter_class, pos_from, slice_rows, PatternView,
};
use crate::ranking::{
    add_weight, below_from, entry_matches, groups_of, ranked_of, sort_desc, total_of, word_from,
    Weighted,
};
use crate::store::{
    bumped, count_of, find_from, find_pair, is_pair, lemma_find_none, lemma_find_some,
    well_formed, Entry,
};
use vstd::prelude::*;

verus! {

/// A pair held at position `i` of a well-formed store is found there.
proof fn lemma_find_unique(s: Seq<Entry>, a: Seq<char>, b: Seq<char>, i: int, k: int)
    requires
        well_formed(s),
        0 <= k <= i < s.len(),
        is_pair(s[i], a, b),
    ensures
        find_from(s, a, b, k) == Some(i),
    decreases i - k,
{
    if k < i {
        assert(!is_pair(s[k], s[i].first, s[i].second));
        lemma_find_unique(s, a, b, i, k + 1);
    }
}

/// A pair held nowhere from `k` on is not found.
proof fn lemma_find_absent(s: Seq<Entry>, a: Seq<char>, b: Seq<char>, k: int)
    requires
        0 <= k,
        forall|j: int| k <= j < s.len() ==> !is_pair(#[trigger] s[j], a, b),
    ensures
        find_from(s, a, b, k) is None,
    decreases s.len() - k,
{
    if k < s.len() {
        lemma_find_absent(s, a, b, k + 1);
    }
}

/// The count of a pair is the count of the record that holds it, or zero.
proof fn lemma_count(s: Seq<Entry>, a: Seq<char>, b: Seq<char>)
    requires
        well_formed(s),
    ensures
        forall|i: int| 0 <= i < s.len() && is_pair(#[trigger] s[i], a, b) ==> count_of(s, a, b) == s[i].count,
        (forall|i: int| 0 <= i < s.len() ==> !is_pair(#[trigger] s[i], a, b)) ==> count_of(s, a, b) == 0,
{
    assert forall|i: int| 0 <= i < s.len() && is_pair(#[trigger] s[i], a, b) implies count_of(s, a, b) == s[i].count by {
        lemma_find_unique(s, a, b, i, 0);
    }
    if forall|i: int| 0 <= i < s.len() ==> !is_pair(#[trigger] s[i], a, b) {
        lemma_find_absent(s, a, b, 0);
    }
}

/// One more sighting of `(a, b)` keeps the store well formed, raises the
/// count of `(a, b)` by one and leaves every other pair's count alone.
pub proof fn lemma_upsert_counts(s: Seq<Entry>, a: Seq<char>, b: Seq<char>)
    requires
        well_formed(s),
    ensures
        well_formed(bumped(s, a, b)),
        count_of(bumped(s, a, b), a, b) == count_of(s, a, b) + 1,
        forall|c: Seq<char>, d: Seq<char>|
            !(c == a && d == b) ==> #[trigger] count_of(bumped(s, a, b), c, d) == count_of(s, c, d),
{
    let t = bumped(s, a, b);
    match find_pair(s, a, b) {
        Some(i) => {
            lemma_find_some(s, a, b, 0);
            assert forall|k: int| 0 <= k < t.len() implies #[trigger] t[k].first == s[k].first
                && t[k].second == s[k].second && t[k].count >= s[k].count by {}
        },
        None => {
            lemma_find_none(s, a, b, 0);
            assert forall|k: int| 0 <= k < s.len() implies #[trigger] t[k] == s[k] by {}
        },
    }
    assert(well_formed(t));
    lemma_count(s, a, b);
    lemma_count(t, a, b);
    assert forall|c: Seq<char>, d: Seq<char>|
        !(c == a && d == b) implies #[trigger] count_of(t, c, d) == count_of(s, c, d) by {
        lemma_count(s, c, d);
        lemma_count(t, c, d);
        if exists|j: int| 0 <= j < s.len() && is_pair(#[trigger] s[j], c, d) {
            let j = choose|j: int| 0 <= j < s.len() && is_pair(#[trigger] s[j], c, d);
            assert(is_pair(t[j], c, d));
        } else {
            assert forall|j: int| 0 <= j < t.len() implies !is_pair(#[trigger] t[j], c, d) by {
                if j < s.len() {
                    assert(!is_pair(s[j], c, d));
                }
            }
        }
    }
    if exists|j: int| 0 <= j < s.len() && is_pair(#[trigger] s[j], a, b) {
        let j = choose|j: int| 0 <= j < s.len() && is_pair(#[trigger] s[j], a, b);
        assert(is_pair(t[j], a, b));
    } else {
        assert(is_pair(t[s.len() as int], a, b));
    }
}

/// The entries after `n` sightings of `(a, b)`.
pub open spec fn bumped_times(s: Seq<Entry>, a: Seq<char>, b: Seq<char>, n: nat) -> Seq<Entry>
    decreases n,
{
    if n == 0 {
        s
    } else {
        bumped(bumped_times(s, a, b, (n - 1) as nat), a, b)
    }
}

/// Recording the same pair `n` times, starting from a store without it,
/// leaves exactly one record of the pair, with count `n`.
pub proof fn lemma_upsert_repeated(s: Seq<Entry>, a: Seq<char>, b: Seq<char>, n: nat)
    requires
        well_formed(s),
        count_of(s, a, b) == 0,
        n >= 1,
    ensures
        well_formed(bumped_times(s, a, b, n)),
        count_of(bumped_times(s, a, b, n), a, b) == n,
        exists|i: int|
            0 <= i < bumped_times(s, a, b, n).len() && is_pair(
                #[trigger] bumped_times(s, a, b, n)[i],
                a,
                b,
            ) && bumped_times(s, a, b, n)[i].count == n,
        forall|i: int, j: int|
            0 <= i < bumped_times(s, a, b, n).len() && 0 <= j < bumped_times(s, a, b, n).len()
                && is_pair(#[trigger] bumped_times(s, a, b, n)[i], a, b) && is_pair(
                #[trigger] bumped_times(s, a, b, n)[j],
                a,
                b,
            ) ==> i == j,
{
    lemma_counts_after(s, a, b, n);
    let t = bumped_times(s, a, b, n);
    lemma_find_some_pair(t, a, b);
}

proof fn lemma_counts_after(s: Seq<Entry>, a: Seq<char>, b: Seq<char>, n: nat)
    requires
        well_formed(s),
    ensures
        well_formed(bumped_times(s, a, b, n)),
        count_of(bumped_times(s, a, b, n), a, b) == count_of(s, a, b) + n,
    decreases n,
{
    if n > 0 {
        lemma_counts_after(s, a, b, (n - 1) as nat);
        lemma_upsert_counts(bumped_times(s, a, b, (n - 1) as nat), a, b);
    }
}

/// In a well-formed store, a pair with a positive count is held by exactly one record.
proof fn lemma_find_some_pair(t: Seq<Entry>, a: Seq<char>, b: Seq<char>)
    requires
        well_formed(t),
        count_of(t, a, b) > 0,
    ensures
        exists|i: int| 0 <= i < t.len() && is_pair(#[trigger] t[i], a, b) && t[i].count == count_of(t, a, b),
        forall|i: int, j: int|
            0 <= i < t.len() && 0 <= j < t.len() && is_pair(#[trigger] t[i], a, b) && is_pair(#[trigger] t[j], a, b) ==> i == j,
{
    lemma_find_some(t, a, b, 0);
    let i = find_pair(t, a, b)->0;
    assert(is_pair(t[i], a, b));
    assert forall|x: int, y: int|
        0 <= x < t.len() && 0 <= y < t.len() && is_pair(#[trigger] t[x], a, b) && is_pair(#[trigger] t[y], a, b) implies x == y by {
        if x != y {
            assert(!is_pair(t[x], t[y].first, t[y].second));
        }
    }
}

/// Recording `(a, b)` and then `(b, a)`, for two different words, gives
/// two different records, each counted once more than before.
pub proof fn lemma_order_matters(s: Seq<Entry>, a: Seq<char>, b: Seq<char>)
    requires
        well_formed(s),
        a != b,
    ensures
        ({
            let t = bumped(bumped(s, a, b), b, a);
            &&& count_of(t, a, b) == count_of(s, a, b) + 1
            &&& count_of(t, b, a) == count_of(s, b, a) + 1
            &&& exists|i: int, j: int|
                0 <= i < t.len() && 0 <= j < t.len() && i != j && is_pair(#[trigger] t[i], a, b)
                    && is_pair(#[trigger] t[j], b, a)
        }),
{
    let m = bumped(s, a, b);
    lemma_upsert_counts(s, a, b);
    lemma_upsert_counts(m, b, a);
    let t = bumped(m, b, a);
    assert(count_of(t, a, b) == count_of(m, a, b));
    lemma_find_some_pair(t, a, b);
    lemma_find_some_pair(t, b, a);
    let i = choose|i: int| 0 <= i < t.len() && is_pair(#[trigger] t[i], a, b) && t[i].count == count_of(t, a, b);
    let j = choose|j: int| 0 <= j < t.len() && is_pair(#[trigger] t[j], b, a) && t[j].count == count_of(t, b, a);
    assert(i != j);
}

/// The summed weight of a list of candidate words.
pub open spec fn weight_sum(g: Seq<Weighted>) -> nat
    decreases g.len(),
{
    if g.len() == 0 {
        0
    } else {
        weight_sum(g.drop_last()) + g.last().weight
    }
}

proof fn lemma_sum_update(g: Seq<Weighted>, k: int, x: Weighted)
    requires
        0 <= k < g.len(),
    ensures
        weight_sum(g.update(k, x)) + g[k].weight == weight_sum(g) + x.weight,
    decreases g.len(),
{
    let u = g.update(k, x);
    if k < g.len() - 1 {
        assert(u.drop_last() =~= g.drop_last().update(k, x));
        lemma_sum_update(g.drop_last(), k, x);
    } else {
        assert(u.drop_last() =~= g.drop_last());
    }
}

proof fn lemma_sum_insert(g: Seq<Weighted>, k: int, x: Weighted)
    requires
        0 <= k <= g.len(),
    ensures
        weight_sum(g.insert(k, x)) == weight_sum(g) + x.weight,
    decreases g.len(),
{
    let u = g.insert(k, x);
    if k < g.len() {
        assert(u.drop_last() =~= g.drop_last().insert(k, x));
        lemma_sum_insert(g.drop_last(), k, x);
    } else {
        assert(u.drop_last() =~= g);
    }
}

proof fn lemma_word_from_bounds(g: Seq<Weighted>, w: Seq<char>, i: int)
    requires
        0 <= i,
        word_from(g, w, i) is Some,
    ensures
        i <= word_from(g, w, i)->0 < g.len(),
    decreases g.len() - i,
{
    if i < g.len() && g[i].word != w {
        lemma_word_from_bounds(g, w, i + 1);
    }
}

proof fn lemma_below_bounds(r: Seq<Weighted>, c: nat, k: int)
    requires
        0 <= k,
    ensures
        0 <= below_from(r, c, k) <= r.len(),
    decreases r.len() - k,
{
    if k < r.len() && r[k].weight >= c {
        lemma_below_bounds(r, c, k + 1);
    }
}

proof fn lemma_sum_add(g: Seq<Weighted>, w: Seq<char>, c: nat)
    ensures
        weight_sum(add_weight(g, w, c)) == weight_sum(g) + c,
{
    match word_from(g, w, 0) {
        Some(k) => {
            lemma_word_from_bounds(g, w, 0);
            lemma_sum_update(g, k, Weighted { word: w, weight: g[k].weight + c });
        },
        None => {
            assert(g.push(Weighted { word: w, weight: c }).drop_last() =~= g);
        },
    }
}

proof fn lemma_sum_groups(s: Seq<Entry>, pf: PatternView, ps: PatternView)
    ensures
        weight_sum(groups_of(s, pf, ps)) == total_of(s, pf, ps),
    decreases s.len(),
{
    if s.len() > 0 {
        lemma_sum_groups(s.drop_last(), pf, ps);
        if entry_matches(s.last(), pf, ps) {
            lemma_sum_add(groups_of(s.drop_last(), pf, ps), s.last().second, s.last().count);
        }
    }
}

proof fn lemma_sum_sorted(g: Seq<Weighted>)
    ensures
        weight_sum(sort_desc(g)) == weight_sum(g),
        sort_desc(g).len() == g.len(),
    decreases g.len(),
{
    if g.len() > 0 {
        lemma_sum_sorted(g.drop_last());
        let r = sort_desc(g.drop_last());
        lemma_below_bounds(r, g.last().weight, 0);
        lemma_sum_insert(r, below_from(r, g.last().weight, 0), g.last());
    }
}

proof fn lemma_groups_positive(s: Seq<Entry>, pf: PatternView, ps: PatternView)
    requires
        well_formed(s),
    ensures
        groups_of(s, pf, ps).len() > 0 ==> total_of(s, pf, ps) > 0,
    decreases s.len(),
{
    if s.len() > 0 {
        let t = s.drop_last();
        assert(well_formed(t)) by {
            assert forall|i: int| 0 <= i < t.len() implies #[trigger] t[i] == s[i] by {}
        }
        lemma_groups_positive(t, pf, ps);
        assert(s.last() == s[s.len() - 1]);
    }
}

/// The weights of the ranked words add up to the total, and the ranking is
/// empty exactly when the total is zero; so the probabilities
/// `weight / total` of a non-empty ranking add up to one.
pub proof fn lemma_probabilities_sum_to_one(s: Seq<Entry>, pf: PatternView, ps: PatternView)
    requires
        well_formed(s),
    ensures
        weight_sum(ranked_of(s, pf, ps)) == total_of(s, pf, ps),
        ranked_of(s, pf, ps).len() == 0 <==> total_of(s, pf, ps) == 0,
{
    lemma_sum_groups(s, pf, ps);
    lemma_sum_sorted(groups_of(s, pf, ps));
    lemma_groups_positive(s, pf, ps);
    if groups_of(s, pf, ps).len() == 0 {
        assert(weight_sum(groups_of(s, pf, ps)) == 0);
    }
}

proof fn lemma_no_match_no_groups(s: Seq<Entry>, prev: Seq<char>, ps: PatternView)
    requires
        forall|i: int| 0 <= i < s.len() ==> #[trigger] s[i].first != prev,
    ensures
        groups_of(s, PatternView::Exact(prev), ps).len() == 0,
    decreases s.len(),
{
    if s.len() > 0 {
        let t = s.drop_last();
        assert forall|i: int| 0 <= i < t.len() implies #[trigger] t[i].first != prev by {
            assert(t[i] == s[i]);
        }
        lemma_no_match_no_groups(t, prev, ps);
        assert(s.last() == s[s.len() - 1]);
    }
}

/// When no stored pair starts with the previous word, predicting with it
/// gives the same result as predicting without it.
pub proof fn lemma_fallback(s: Seq<Entry>, rows: Seq<Seq<char>>, prev: Seq<char>, cur: Option<Seq<char>>)
    requires
        forall|i: int| 0 <= i < s.len() ==> #[trigger] s[i].first != prev,
    ensures
        predict_for(s, rows, Some(prev), cur) == predict_for(s, rows, None, cur),
{
    lemma_no_match_no_groups(s, prev, second_pattern(rows, cur));
}

proof fn lemma_pos_bounds(row: Seq<char>, ch: char, i: int)
    requires
        0 <= i,
        pos_from(row, ch, i) is Some,
    ensures
        0 <= pos_from(row, ch, i)->0 < row.len(),
    decreases row.len() - i,
{
    if i < row.len() && row[i] != ch {
        lemma_pos_bounds(row, ch, i + 1);
    }
}

proof fn lemma_column_bounds(rows: Seq<Seq<char>>, ch: char, r: int)
    requires
        0 <= r,
        well_formed_rows(rows),
        column_from(rows, ch, r) is Some,
    ensures
        0 <= column_from(rows, ch, r)->0 < 10,
    decreases rows.len() - r,
{
    if r < rows.len() {
        if pos_from(rows[r], ch, 0) is Some {
            lemma_pos_bounds(rows[r], ch, 0);
        } else {
            lemma_column_bounds(rows, ch, r + 1);
        }
    }
}

/// On a well-formed layout, a character outside the home-reach columns 3
/// to 6 is widened to its own column only: the keys of that column in the
/// three rows, and no key of a neighbouring column. Where that column holds
/// nothing but the character, the character alone is accepted.
pub proof fn lemma_edge_column_alone(rows: Seq<Seq<char>>, ch: char)
    requires
        well_formed_rows(rows),
        column_of(rows, ch) is Some,
        !(3 <= column_of(rows, ch)->0 <= 6),
    ensures
        ({
            let c = column_of(rows, ch)->0;
            &&& class_of(rows, ch) == Some(seq![rows[0][c], rows[1][c], rows[2][c]])
            &&& (rows[0][c] == ch && rows[1][c] == ch && rows[2][c] == ch) ==> forall|x: char|
                #[trigger] letter_class(rows, ch).contains(x) <==> x == ch
        }),
{
    let c = column_of(rows, ch)->0;
    lemma_column_bounds(rows, ch, 0);
    assert(rows[0].len() == 10 && rows[1].len() == 10 && rows[2].len() == 10);
    assert(clip(rows[0], c, c + 1) =~= seq![rows[0][c]]);
    assert(clip(rows[1], c, c + 1) =~= seq![rows[1][c]]);
    assert(clip(rows[2], c, c + 1) =~= seq![rows[2][c]]);
    reveal_with_fuel(slice_rows, 4);
    assert(slice_rows(rows, c, c + 1, 3) =~= seq![rows[0][c], rows[1][c], rows[2][c]]);
    let cls = seq![rows[0][c], rows[1][c], rows[2][c]];
    assert forall|x: char| #[trigger] cls.contains(x) implies x == rows[0][c] || x == rows[1][c]
        || x == rows[2][c] by {
        let k = choose|k: int| 0 <= k < cls.len() && cls[k] == x;
    }
    assert(cls[0] == rows[0][c]);
}

} // verus!
