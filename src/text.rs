//! Turning free text into a list of lowercase, folded words.
use crate::chars::{chars_of, string_of};
use vstd::prelude::*;

verus! {

/// Whether `char::is_alphabetic` holds of `c`.
pub uninterp spec fn alphabetic(c: char) -> bool;

/// Whether `char::is_whitespace` holds of `c`.
pub uninterp spec fn whitespace(c: char) -> bool;

/// What `str::to_lowercase` makes of `s`.
pub uninterp spec fn lowercase(s: Seq<char>) -> Seq<char>;

/// What `unidecode::unidecode` makes of `s`.
pub uninterp spec fn transliterated(s: Seq<char>) -> Seq<char>;

/// Relies on char::is_alphabetic; its answer depends on the character alone.
#[verifier::external_body]
fn is_letter(c: char) -> (r: bool)
    ensures
        r == alphabetic(c),
{
    c.is_alphabetic()
}

/// Relies on char::is_whitespace; its answer depends on the character alone.
#[verifier::external_body]
fn is_space(c: char) -> (r: bool)
    ensures
        r == whitespace(c),
{
    c.is_whitespace()
}

/// Relies on str::to_lowercase; the result depends on the characters alone.
#[verifier::external_body]
fn to_lower(s: &str) -> (r: String)
    ensures
        r@ == lowercase(s@),
{
    s.to_lowercase()
}

/// Relies on unidecode::unidecode: the ASCII transliteration of the text,
/// which depends on the characters alone.
#[verifier::external_body]
fn transliterate(s: &str) -> (r: String)
    ensures
        r@ == transliterated(s@),
{
    unidecode::unidecode(s)
}

/// The letters and white space of `s`, in order; everything else is dropped.
pub open spec fn kept(s: Seq<char>) -> Seq<char>
    decreases s.len(),
{
    if s.len() == 0 {
        s
    } else if alphabetic(s.last()) || whitespace(s.last()) {
        kept(s.drop_last()).push(s.last())
    } else {
        kept(s.drop_last())
    }
}

/// Splitting `s` on white space, read from the left: the words completed so
/// far and the word being read.
pub open spec fn split_state(s: Seq<char>) -> (Seq<Seq<char>>, Seq<char>)
    decreases s.len(),
{
    if s.len() == 0 {
        (Seq::empty(), Seq::empty())
    } else {
        let (ws, cur) = split_state(s.drop_last());
        if whitespace(s.last()) {
            if cur.len() > 0 {
                (ws.push(cur), Seq::empty())
            } else {
                (ws, Seq::empty())
            }
        } else {
            (ws, cur.push(s.last()))
        }
    }
}

/// The maximal runs of characters other than white space in `s`.
pub open spec fn words_of(s: Seq<char>) -> Seq<Seq<char>> {
    let (ws, cur) = split_state(s);
    if cur.len() > 0 {
        ws.push(cur)
    } else {
        ws
    }
}

/// The sentinel that stands for `ñ` while the rest of a word is folded.
pub open spec fn masked(c: char) -> char {
    if c == 'ñ' {
        '.'
    } else {
        c
    }
}

/// The sentinel turned back into `ñ`.
pub open spec fn unmasked(c: char) -> char {
    if c == '.' {
        'ñ'
    } else {
        c
    }
}

/// A word folded to plain letters, except that `ñ` is kept.
pub open spec fn fold_word(w: Seq<char>) -> Seq<char> {
    transliterated(w.map_values(|c: char| masked(c))).map_values(|c: char| unmasked(c))
}

/// The words of a text: letters and white space kept, lowercased, split on
/// white space, and each word folded.
pub open spec fn tokens_of(text: Seq<char>) -> Seq<Seq<char>> {
    words_of(lowercase(kept(text))).map_values(|w: Seq<char>| fold_word(w))
}

/// The view of a list of strings.
pub open spec fn strings_of(v: Seq<String>) -> Seq<Seq<char>> {
    v.map_values(|s: String| s@)
}

/// Whether the text ends in a space, which marks its last word as finished.
pub open spec fn ends_with_space(text: Seq<char>) -> bool {
    text.len() > 0 && text.last() == ' '
}

fn keep_letters(t: &Vec<char>) -> (r: Vec<char>)
    ensures
        r@ == kept(t@),
{
    let mut r: Vec<char> = Vec::new();
    let mut i: usize = 0;
    while i < t.len()
        invariant
            0 <= i <= t@.len(),
            r@ == kept(t@.subrange(0, i as int)),
        decreases t@.len() - i,
    {
        let c = t[i];
        assert(t@.subrange(0, i + 1).drop_last() =~= t@.subrange(0, i as int));
        if is_letter(c) || is_space(c) {
            r.push(c);
        }
        i += 1;
    }
    assert(t@.subrange(0, t@.len() as int) =~= t@);
    r
}

fn split_words(t: &Vec<char>) -> (r: Vec<Vec<char>>)
    ensures
        r@.map_values(|w: Vec<char>| w@) == words_of(t@),
{
    let mut ws: Vec<Vec<char>> = Vec::new();
    let mut cur: Vec<char> = Vec::new();
    let mut i: usize = 0;
    while i < t.len()
        invariant
            0 <= i <= t@.len(),
            (ws@.map_values(|w: Vec<char>| w@), cur@) == split_state(t@.subrange(0, i as int)),
        decreases t@.len() - i,
    {
        let c = t[i];
        assert(t@.subrange(0, i + 1).drop_last() =~= t@.subrange(0, i as int));
        if is_space(c) {
            if cur.len() > 0 {
                let ghost before = ws@;
                let done = cur;
                cur = Vec::new();
                ws.push(done);
                assert(ws@.map_values(|w: Vec<char>| w@) =~= before.map_values(
                    |w: Vec<char>| w@,
                ).push(done@));
            } else {
                cur = Vec::new();
            }
        } else {
            cur.push(c);
        }
        i += 1;
    }
    assert(t@.subrange(0, t@.len() as int) =~= t@);
    if cur.len() > 0 {
        let ghost before = ws@;
        ws.push(cur);
        assert(ws@.map_values(|w: Vec<char>| w@) =~= before.map_values(|w: Vec<char>| w@).push(
            cur@,
        ));
    }
    ws
}

/// The word with every `ñ` replaced by the sentinel, or back, as `restore` says.
fn swap_sentinel(w: &Vec<char>, restore: bool) -> (r: Vec<char>)
    ensures
        restore ==> r@ == w@.map_values(|c: char| unmasked(c)),
        !restore ==> r@ == w@.map_values(|c: char| masked(c)),
{
    let mut r: Vec<char> = Vec::new();
    let mut i: usize = 0;
    while i < w.len()
        invariant
            0 <= i <= w@.len(),
            r@.len() == i,
            forall|j: int|
                0 <= j < i ==> #[trigger] r@[j] == if restore {
                    unmasked(w@[j])
                } else {
                    masked(w@[j])
                },
        decreases w@.len() - i,
    {
        let c = w[i];
        let d = if restore {
            if c == '.' {
                'ñ'
            } else {
                c
            }
        } else {
            if c == 'ñ' {
                '.'
            } else {
                c
            }
        };
        r.push(d);
        i += 1;
    }
    assert(restore ==> r@ =~= w@.map_values(|c: char| unmasked(c)));
    assert(!restore ==> r@ =~= w@.map_values(|c: char| masked(c)));
    r
}

/// Folds accented letters of a word to plain ones, keeping `ñ`.
pub fn fold(word: &str) -> (r: String)
    ensures
        r@ == fold_word(word@),
{
    let w = chars_of(word);
    let hidden = string_of(&swap_sentinel(&w, false));
    let plain = transliterate(hidden.as_str());
    let back = swap_sentinel(&chars_of(plain.as_str()), true);
    string_of(&back)
}

/// The words of a text, lowercased and folded.
pub fn normalize(text: &str) -> (r: Vec<String>)
    ensures
        strings_of(r@) == tokens_of(text@),
{
    let letters = string_of(&keep_letters(&chars_of(text)));
    let lower = to_lower(letters.as_str());
    let words = split_words(&chars_of(lower.as_str()));
    let ghost ws = words@.map_values(|w: Vec<char>| w@);
    let mut r: Vec<String> = Vec::new();
    let mut i: usize = 0;
    while i < words.len()
        invariant
            ws == words@.map_values(|w: Vec<char>| w@),
            ws == words_of(lowercase(kept(text@))),
            0 <= i <= words@.len(),
            strings_of(r@) == ws.subrange(0, i as int).map_values(|w: Seq<char>| fold_word(w)),
        decreases words@.len() - i,
    {
        let s = string_of(&words[i]);
        let f = fold(s.as_str());
        let ghost before = r@;
        r.push(f);
        assert(strings_of(r@) =~= strings_of(before).push(fold_word(ws[i as int])));
        assert(ws.subrange(0, i + 1).map_values(|w: Seq<char>| fold_word(w)) =~= ws.subrange(
            0,
            i as int,
        ).map_values(|w: Seq<char>| fold_word(w)).push(fold_word(ws[i as int])));
        i += 1;
    }
    assert(ws.subrange(0, ws.len() as int) =~= ws);
    r
}

/// Whether the text ends in a space.
pub fn trailing_space(text: &str) -> (r: bool)
    ensures
        r == ends_with_space(text@),
{
    let n = text.unicode_len();
    n > 0 && text.get_char(n - 1) == ' '
}

} // verus!
