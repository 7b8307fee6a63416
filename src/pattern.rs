//! Fuzzy matching patterns derived from the physical arrangement of keys.
//!
//! A character is replaced by the class of characters that sit in its
//! column (or in its column group) across all rows of the layout. Columns 3
//! and 4 form one group, columns 5 and 6 another; every other column stands
//! alone.
use crate::chars::{chars_of, contains_char, push_all, push_char, same_chars};
use crate::layout::rows_of;
use vstd::prelude::*;

verus! {

/// The first position at or after `i` where `ch` occurs in `row`.
pub open spec fn pos_from(row: Seq<char>, ch: char, i: int) -> Option<int>
    decreases row.len() - i,
{
    if i < 0 || i >= row.len() {
        None
    } else if row[i] == ch {
        Some(i)
    } else {
        pos_from(row, ch, i + 1)
    }
}

/// The column of `ch` in the first row, from row `r` on, that holds it.
pub open spec fn column_from(rows: Seq<Seq<char>>, ch: char, r: int) -> Option<int>
    decreases rows.len() - r,
{
    if r < 0 || r >= rows.len() {
        None
    } else {
        match pos_from(rows[r], ch, 0) {
            Some(c) => Some(c),
            None => column_from(rows, ch, r + 1),
        }
    }
}

/// The column of `ch` in the layout: rows are scanned in order, the first hit wins.
pub open spec fn column_of(rows: Seq<Seq<char>>, ch: char) -> Option<int> {
    column_from(rows, ch, 0)
}

/// The first column of the group that column `c` belongs to.
pub open spec fn group_start(c: int) -> int {
    if c == 3 || c == 4 {
        3
    } else if c == 5 || c == 6 {
        5
    } else {
        c
    }
}

/// One past the last column of the group that column `c` belongs to.
pub open spec fn group_end(c: int) -> int {
    if c == 3 || c == 4 {
        5
    } else if c == 5 || c == 6 {
        7
    } else {
        c + 1
    }
}

/// The keys of `row` in columns `lo .. hi`, as far as the row reaches.
pub open spec fn clip(row: Seq<char>, lo: int, hi: int) -> Seq<char> {
    let a = if lo < row.len() { lo } else { row.len() as int };
    let b = if hi < row.len() { hi } else { row.len() as int };
    if a <= b { row.subrange(a, b) } else { Seq::empty() }
}

/// The keys in columns `lo .. hi` of the first `n` rows, row after row.
pub open spec fn slice_rows(rows: Seq<Seq<char>>, lo: int, hi: int, n: int) -> Seq<char>
    decreases n,
{
    if n <= 0 {
        Seq::empty()
    } else {
        slice_rows(rows, lo, hi, n - 1) + clip(rows[n - 1], lo, hi)
    }
}

/// The characters that `ch` may have been mistyped for, or `None` when the
/// layout does not hold `ch`.
pub open spec fn class_of(rows: Seq<Seq<char>>, ch: char) -> Option<Seq<char>> {
    match column_of(rows, ch) {
        Some(c) => Some(slice_rows(rows, group_start(c), group_end(c), rows.len() as int)),
        None => None,
    }
}

/// The characters accepted in place of `ch`: its class, or `ch` alone.
pub open spec fn letter_class(rows: Seq<Seq<char>>, ch: char) -> Seq<char> {
    match class_of(rows, ch) {
        Some(cls) => cls,
        None => seq![ch],
    }
}

/// The pattern text for one character: a bracketed class, or the character itself.
pub open spec fn letter_regex(rows: Seq<Seq<char>>, ch: char) -> Seq<char> {
    match class_of(rows, ch) {
        Some(cls) => seq!['['] + cls + seq![']'],
        None => seq![ch],
    }
}

/// The pattern text for a word: the patterns of its characters, one after another.
pub open spec fn regex_of(rows: Seq<Seq<char>>, text: Seq<char>) -> Seq<char>
    decreases text.len(),
{
    if text.len() == 0 {
        Seq::empty()
    } else {
        regex_of(rows, text.drop_last()) + letter_regex(rows, text.last())
    }
}

/// The view of a list of character vectors.
pub open spec fn seqs_of(v: Seq<Vec<char>>) -> Seq<Seq<char>> {
    v.map_values(|x: Vec<char>| x@)
}

/// The rows of a layout as character vectors.
pub fn layout_rows(keys: &Vec<String>) -> (r: Vec<Vec<char>>)
    ensures
        seqs_of(r@) == rows_of(keys@),
{
    let mut r: Vec<Vec<char>> = Vec::new();
    let mut i: usize = 0;
    while i < keys.len()
        invariant
            0 <= i <= keys@.len(),
            seqs_of(r@) == rows_of(keys@).subrange(0, i as int),
        decreases keys@.len() - i,
    {
        let row = chars_of(keys[i].as_str());
        assert(row@ == keys@[i as int]@);
        let ghost before = r@;
        r.push(row);
        assert(seqs_of(r@) =~= seqs_of(before).push(keys@[i as int]@));
        assert(rows_of(keys@).subrange(0, i + 1) =~= rows_of(keys@).subrange(0, i as int).push(
            keys@[i as int]@,
        ));
        i += 1;
    }
    assert(seqs_of(r@) =~= rows_of(keys@));
    r
}

/// The column of `ch` in the layout.
fn find_column(rows: &Vec<Vec<char>>, ch: char) -> (r: Option<usize>)
    ensures
        r matches Some(c) ==> column_of(seqs_of(rows@), ch) == Some(c as int),
        r is None ==> column_of(seqs_of(rows@), ch) is None,
        r matches Some(c) ==> c < usize::MAX,
{
    let ghost rs = seqs_of(rows@);
    let mut k: usize = 0;
    while k < rows.len()
        invariant
            rs == seqs_of(rows@),
            0 <= k <= rows@.len(),
            column_from(rs, ch, 0) == column_from(rs, ch, k as int),
        decreases rows@.len() - k,
    {
        let row = &rows[k];
        assert(row@ == rs[k as int]);
        let mut i: usize = 0;
        while i < row.len()
            invariant
                rs == seqs_of(rows@),
                0 <= k < rows@.len(),
                row@ == rs[k as int],
                column_from(rs, ch, 0) == column_from(rs, ch, k as int),
                0 <= i <= row@.len(),
                pos_from(row@, ch, 0) == pos_from(row@, ch, i as int),
            decreases row@.len() - i,
        {
            if row[i] == ch {
                assert(column_from(rs, ch, k as int) == Some(i as int));
                return Some(i);
            }
            i += 1;
        }
        assert(column_from(rs, ch, k as int) == column_from(rs, ch, k + 1));
        k += 1;
    }
    assert(column_from(rs, ch, k as int) is None);
    None
}

/// Appends the keys of `row` in columns `lo .. hi` to `out`.
fn push_clip(out: &mut Vec<char>, row: &Vec<char>, lo: usize, hi: usize)
    ensures
        final(out)@ == old(out)@ + clip(row@, lo as int, hi as int),
{
    let a = if lo < row.len() { lo } else { row.len() };
    let b = if hi < row.len() { hi } else { row.len() };
    let mut i: usize = a;
    while i < b
        invariant
            a <= row@.len(),
            b <= row@.len(),
            a <= i,
            i <= b || a > b,
            a <= b ==> out@ == old(out)@ + row@.subrange(a as int, i as int),
            a > b ==> out@ == old(out)@,
        decreases b - i,
    {
        out.push(row[i]);
        assert(row@.subrange(a as int, i + 1) =~= row@.subrange(a as int, i as int).push(
            row@[i as int],
        ));
        i += 1;
    }
    assert(a <= b ==> row@.subrange(a as int, b as int) =~= clip(row@, lo as int, hi as int));
    assert(a > b ==> clip(row@, lo as int, hi as int) =~= Seq::<char>::empty());
}

/// The characters that `ch` may have been mistyped for, or `None` when the
/// layout does not hold it.
pub fn key_class(rows: &Vec<Vec<char>>, ch: char) -> (r: Option<Vec<char>>)
    ensures
        match class_of(seqs_of(rows@), ch) {
            Some(cls) => r is Some && r->0@ == cls,
            None => r is None,
        },
{
    let ghost rs = seqs_of(rows@);
    match find_column(rows, ch) {
        None => None,
        Some(c) => {
            let lo: usize = if c == 3 || c == 4 {
                3
            } else if c == 5 || c == 6 {
                5
            } else {
                c
            };
            let hi: usize = if c == 3 || c == 4 {
                5
            } else if c == 5 || c == 6 {
                7
            } else {
                c + 1
            };
            let mut out: Vec<char> = Vec::new();
            let mut k: usize = 0;
            while k < rows.len()
                invariant
                    rs == seqs_of(rows@),
                    0 <= k <= rows@.len(),
                    out@ == slice_rows(rs, lo as int, hi as int, k as int),
                    lo == group_start(c as int),
                    hi == group_end(c as int),
                    column_of(rs, ch) == Some(c as int),
                decreases rows@.len() - k,
            {
                push_clip(&mut out, &rows[k], lo, hi);
                k += 1;
            }
            Some(out)
        },
    }
}

/// The pattern text that accepts, character by character, what may have
/// been typed for `text` on the layout with the given rows: each character
/// found on the layout becomes its bracketed class, any other stays itself.
pub fn get_regex(text: &str, keys: Vec<String>) -> (r: String)
    ensures
        r@ == regex_of(rows_of(keys@), text@),
{
    let rows = layout_rows(&keys);
    let ghost rs = rows_of(keys@);
    let t = chars_of(text);
    let mut r = String::new();
    let mut i: usize = 0;
    while i < t.len()
        invariant
            rs == seqs_of(rows@),
            t@ == text@,
            0 <= i <= t@.len(),
            r@ == regex_of(rs, t@.subrange(0, i as int)),
        decreases t@.len() - i,
    {
        let ch = t[i];
        let ghost before = r@;
        match key_class(&rows, ch) {
            Some(cls) => {
                push_char(&mut r, '[');
                push_all(&mut r, &cls);
                push_char(&mut r, ']');
                assert(r@ =~= before + (seq!['['] + cls@ + seq![']']));
            },
            None => {
                push_char(&mut r, ch);
            },
        }
        assert(t@.subrange(0, i + 1).drop_last() =~= t@.subrange(0, i as int));
        i += 1;
    }
    assert(t@.subrange(0, t@.len() as int) =~= text@);
    r
}

/// Whether `w` starts with characters drawn, position by position, from `classes`.
pub open spec fn prefix_matches(classes: Seq<Seq<char>>, w: Seq<char>) -> bool {
    &&& classes.len() <= w.len()
    &&& forall|i: int| 0 <= i < classes.len() ==> #[trigger] classes[i].contains(w[i])
}

/// What a word must look like to be selected.
pub enum WordPattern {
    /// Every word.
    Any,
    /// Exactly this word.
    Exact(Vec<char>),
    /// Words whose leading characters come, one by one, from these classes.
    Prefix(Vec<Vec<char>>),
}

/// A word pattern as mathematical values.
pub enum PatternView {
    Any,
    Exact(Seq<char>),
    Prefix(Seq<Seq<char>>),
}

impl View for WordPattern {
    type V = PatternView;

    open spec fn view(&self) -> PatternView {
        match self {
            WordPattern::Any => PatternView::Any,
            WordPattern::Exact(v) => PatternView::Exact(v@),
            WordPattern::Prefix(cs) => PatternView::Prefix(seqs_of(cs@)),
        }
    }
}

/// Whether `w` is selected by `p`.
pub open spec fn pattern_matches(p: PatternView, w: Seq<char>) -> bool {
    match p {
        PatternView::Any => true,
        PatternView::Exact(v) => w == v,
        PatternView::Prefix(cs) => prefix_matches(cs, w),
    }
}

impl WordPattern {
    /// Whether `w` is selected by this pattern.
    pub fn matches(&self, w: &Vec<char>) -> (r: bool)
        ensures
            r == pattern_matches(self@, w@),
    {
        match self {
            WordPattern::Any => true,
            WordPattern::Exact(v) => same_chars(w, v),
            WordPattern::Prefix(cs) => {
                if cs.len() > w.len() {
                    return false;
                }
                let ghost cv = seqs_of(cs@);
                let mut i: usize = 0;
                while i < cs.len()
                    invariant
                        cv == seqs_of(cs@),
                        pattern_matches(self@, w@) == prefix_matches(cv, w@),
                        cs@.len() <= w@.len(),
                        0 <= i <= cs@.len(),
                        forall|j: int| 0 <= j < i ==> #[trigger] cv[j].contains(w@[j]),
                    decreases cs@.len() - i,
                {
                    if !contains_char(&cs[i], w[i]) {
                        assert(!cv[i as int].contains(w@[i as int]));
                            return false;
                    }
                    i += 1;
                }
                assert(prefix_matches(cv, w@));
                true
            },
        }
    }
}

/// The classes for a partly typed word: one class per character typed.
pub open spec fn fuzzy_classes(rows: Seq<Seq<char>>, word: Seq<char>) -> Seq<Seq<char>> {
    word.map_values(|c: char| letter_class(rows, c))
}

/// The pattern for a partly typed word on a layout.
pub fn fuzzy_prefix(rows: &Vec<Vec<char>>, word: &Vec<char>) -> (r: Vec<Vec<char>>)
    ensures
        seqs_of(r@) == fuzzy_classes(seqs_of(rows@), word@),
{
    let ghost rs = seqs_of(rows@);
    let mut r: Vec<Vec<char>> = Vec::new();
    let mut i: usize = 0;
    while i < word.len()
        invariant
            rs == seqs_of(rows@),
            0 <= i <= word@.len(),
            seqs_of(r@) == fuzzy_classes(rs, word@.subrange(0, i as int)),
        decreases word@.len() - i,
    {
        let ch = word[i];
        let cls = match key_class(rows, ch) {
            Some(cls) => cls,
            None => vec![ch],
        };
        assert(cls@ == letter_class(rs, ch));
        let ghost before = r@;
        r.push(cls);
        assert(seqs_of(r@) =~= seqs_of(before).push(cls@));
        assert(fuzzy_classes(rs, word@.subrange(0, i + 1)) =~= fuzzy_classes(
            rs,
            word@.subrange(0, i as int),
        ).push(letter_class(rs, ch)));
        i += 1;
    }
    assert(word@.subrange(0, word@.len() as int) =~= word@);
    r
}

} // verus!
