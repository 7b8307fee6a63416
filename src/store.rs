//! The bigram store: counts of ordered word pairs.
use vstd::prelude::*;

verus! {

/// An observed ordered word pair and how often it was seen.
pub struct BigramModel {
    pub first: String,
    pub second: String,
    pub count: u64,
}

/// A stored pair as mathematical values.
pub struct Entry {
    pub first: Seq<char>,
    pub second: Seq<char>,
    pub count: nat,
}

impl View for BigramModel {
    type V = Entry;

    open spec fn view(&self) -> Entry {
        Entry { first: self.first@, second: self.second@, count: self.count as nat }
    }
}

impl BigramModel {
    /// A copy of this record.
    pub fn copy(&self) -> (r: BigramModel)
        ensures
            r@ == self@,
    {
        BigramModel { first: self.first.clone(), second: self.second.clone(), count: self.count }
    }
}

/// Why the store refused a change.
#[derive(Debug, Clone, Copy, PartialEq, Eq, Structural)]
pub enum StoreError {
    /// The pair's count is already as large as it can be.
    CountOverflow,
}

/// The entries as mathematical values.
pub open spec fn entries_of(v: Seq<BigramModel>) -> Seq<Entry> {
    v.map_values(|b: BigramModel| b@)
}

/// Whether entry `e` is the record of the pair `(a, b)`.
pub open spec fn is_pair(e: Entry, a: Seq<char>, b: Seq<char>) -> bool {
    e.first == a && e.second == b
}

/// Each pair is stored at most once, and every count is at least one.
pub open spec fn well_formed(s: Seq<Entry>) -> bool {
    &&& forall|i: int, j: int|
        0 <= i < s.len() && 0 <= j < s.len() && i != j ==> !is_pair(
            #[trigger] s[i],
            s[j].first,
            #[trigger] s[j].second,
        )
    &&& forall|i: int| 0 <= i < s.len() ==> #[trigger] s[i].count >= 1
}

/// The position of the pair `(a, b)` in `s`, searching from `i` on.
pub open spec fn find_from(s: Seq<Entry>, a: Seq<char>, b: Seq<char>, i: int) -> Option<int>
    decreases s.len() - i,
{
    if i < 0 || i >= s.len() {
        None
    } else if is_pair(s[i], a, b) {
        Some(i)
    } else {
        find_from(s, a, b, i + 1)
    }
}

/// The position of the pair `(a, b)` in `s`.
pub open spec fn find_pair(s: Seq<Entry>, a: Seq<char>, b: Seq<char>) -> Option<int> {
    find_from(s, a, b, 0)
}

/// How often the pair `(a, b)` was seen.
pub open spec fn count_of(s: Seq<Entry>, a: Seq<char>, b: Seq<char>) -> nat {
    match find_pair(s, a, b) {
        Some(i) => s[i].count,
        None => 0,
    }
}

/// The entries after one more sighting of `(a, b)`: its count goes up by
/// one, or it is added, at the end, with count one.
pub open spec fn bumped(s: Seq<Entry>, a: Seq<char>, b: Seq<char>) -> Seq<Entry> {
    match find_pair(s, a, b) {
        Some(i) => s.update(i, Entry { count: s[i].count + 1, ..s[i] }),
        None => s.push(Entry { first: a, second: b, count: 1 }),
    }
}

/// Whether one more sighting of `(a, b)` would overflow its count.
pub open spec fn bump_overflows(s: Seq<Entry>, a: Seq<char>, b: Seq<char>) -> bool {
    count_of(s, a, b) >= u64::MAX
}

/// An in-memory bigram store.
pub struct BigramRepo {
    records: Vec<BigramModel>,
}

impl View for BigramRepo {
    type V = Seq<Entry>;

    closed spec fn view(&self) -> Seq<Entry> {
        entries_of(self.records@)
    }
}

impl BigramRepo {
    /// The store's invariant.
    pub open spec fn wf(&self) -> bool {
        well_formed(self@)
    }

    /// An empty store.
    pub fn init() -> (r: BigramRepo)
        ensures
            r.wf(),
            r@ == Seq::<Entry>::empty(),
    {
        let r = BigramRepo { records: Vec::new() };
        assert(r@ =~= Seq::<Entry>::empty());
        r
    }

    /// The number of stored pairs.
    pub fn len(&self) -> (r: usize)
        ensures
            r == self@.len(),
    {
        self.records.len()
    }

    /// The stored record at position `i`.
    pub fn get(&self, i: usize) -> (r: &BigramModel)
        requires
            i < self@.len(),
        ensures
            r@ == self@[i as int],
    {
        &self.records[i]
    }

    /// The stored records ordered by count, largest first (equal counts in
    /// the order the pairs were first stored), skipping `offset` records
    /// (none by default) and holding at most `limit` (ten by default).
    pub fn find_all(&self, limit: Option<usize>, offset: Option<usize>) -> (r: Vec<BigramModel>)
        ensures
            entries_of(r@) == page_of(
                self@,
                match limit {
                    Some(l) => l as nat,
                    None => DEFAULT_LIMIT as nat,
                },
                match offset {
                    Some(o) => o as nat,
                    None => 0,
                },
            ),
    {
        let limit: usize = match limit {
            Some(l) => l,
            None => DEFAULT_LIMIT,
        };
        let offset: usize = match offset {
            Some(o) => o,
            None => 0,
        };
        let ghost s = self@;
        let mut sorted: Vec<BigramModel> = Vec::new();
        let mut i: usize = 0;
        while i < self.records.len()
            invariant
                s == self@,
                0 <= i <= s.len(),
                entries_of(sorted@) == by_count(s.subrange(0, i as int)),
            decreases s.len() - i,
        {
            let item = self.records[i].copy();
            let k = count_position(&sorted, item.count);
            let ghost before = sorted@;
            assert(item@ == s[i as int]);
            sorted.insert(k, item);
            assert(s.subrange(0, i + 1).drop_last() =~= s.subrange(0, i as int));
            assert(entries_of(sorted@) =~= entries_of(before).insert(k as int, s[i as int]));
            i += 1;
        }
        assert(s.subrange(0, s.len() as int) =~= s);
        let lo: usize = if offset < sorted.len() { offset } else { sorted.len() };
        let hi: usize = if limit < sorted.len() - lo { lo + limit } else { sorted.len() };
        let mut r: Vec<BigramModel> = Vec::new();
        let mut j: usize = lo;
        while j < hi
            invariant
                lo <= j <= hi <= sorted@.len(),
                entries_of(r@) == entries_of(sorted@).subrange(lo as int, j as int),
            decreases hi - j,
        {
            let ghost before = r@;
            let item = sorted[j].copy();
            r.push(item);
            assert(entries_of(r@) =~= entries_of(before).push(entries_of(sorted@)[j as int]));
            assert(entries_of(r@) =~= entries_of(sorted@).subrange(lo as int, j + 1));
            j += 1;
        }
        r
    }

    fn find(&self, a: &String, b: &String) -> (r: Option<usize>)
        ensures
            r matches Some(i) ==> find_pair(self@, a@, b@) == Some(i as int) && i < self@.len(),
            r is None ==> find_pair(self@, a@, b@) is None,
    {
        let ghost s = self@;
        let mut i: usize = 0;
        while i < self.records.len()
            invariant
                s == self@,
                0 <= i <= s.len(),
                find_from(s, a@, b@, 0) == find_from(s, a@, b@, i as int),
            decreases s.len() - i,
        {
            let rec = &self.records[i];
            assert(rec@ == s[i as int]);
            if rec.first == *a && rec.second == *b {
                return Some(i);
            }
            i += 1;
        }
        None
    }

    /// Records one more sighting of the ordered pair `(first, second)`: its
    /// count goes up by one, or it is stored with count one.
    pub fn upsert(&mut self, first: &str, second: &str) -> (r: Result<(), StoreError>)
        requires
            old(self).wf(),
        ensures
            final(self).wf(),
            bump_overflows(old(self)@, first@, second@) ==> r == Err::<(), StoreError>(
                StoreError::CountOverflow,
            ) && final(self)@ == old(self)@,
            !bump_overflows(old(self)@, first@, second@) ==> r is Ok && final(self)@ == bumped(
                old(self)@,
                first@,
                second@,
            ),
    {
        let a = String::from_str(first);
        let b = String::from_str(second);
        let ghost s = self@;
        match self.find(&a, &b) {
            Some(i) => {
                let c = self.records[i].count;
                assert(count_of(s, first@, second@) == c);
                if c == u64::MAX {
                    return Err(StoreError::CountOverflow);
                }
                let rec = BigramModel {
                    first: self.records[i].first.clone(),
                    second: self.records[i].second.clone(),
                    count: c + 1,
                };
                self.records.set(i, rec);
                assert(self@ =~= bumped(s, first@, second@));
                assert forall|k: int| 0 <= k < self@.len() implies #[trigger] self@[k].first == s[k].first
                    && self@[k].second == s[k].second && self@[k].count >= 1 by {}
            },
            None => {
                self.records.push(BigramModel { first: a, second: b, count: 1 });
                assert(self@ =~= bumped(s, first@, second@));
                assert forall|i: int, j: int|
                    0 <= i < self@.len() && 0 <= j < self@.len() && i != j implies !is_pair(
                    #[trigger] self@[i],
                    self@[j].first,
                    #[trigger] self@[j].second,
                ) by {
                    lemma_find_none(s, first@, second@, 0);
                }
            },
        }
        Ok(())
    }
}

/// The first position from `k` on whose count is below `c`, or the length.
pub open spec fn count_below_from(r: Seq<Entry>, c: nat, k: int) -> int
    decreases r.len() - k,
{
    if k < 0 || k >= r.len() {
        r.len() as int
    } else if r[k].count < c {
        k
    } else {
        count_below_from(r, c, k + 1)
    }
}

/// `s` ordered by count, largest first; equal counts keep their order.
pub open spec fn by_count(s: Seq<Entry>) -> Seq<Entry>
    decreases s.len(),
{
    if s.len() == 0 {
        Seq::empty()
    } else {
        let r = by_count(s.drop_last());
        r.insert(count_below_from(r, s.last().count, 0), s.last())
    }
}

/// The page of `by_count(s)` that skips `offset` records and holds at most `limit`.
pub open spec fn page_of(s: Seq<Entry>, limit: nat, offset: nat) -> Seq<Entry> {
    let r = by_count(s);
    let lo = if offset < r.len() { offset as int } else { r.len() as int };
    let hi = if lo + limit < r.len() { lo + limit } else { r.len() as int };
    r.subrange(lo, hi)
}

/// The page size used when none is given.
pub const DEFAULT_LIMIT: usize = 10;

/// Where to insert count `c` into `r`, which keeps larger-or-equal counts first.
fn count_position(r: &Vec<BigramModel>, c: u64) -> (k: usize)
    ensures
        k == count_below_from(entries_of(r@), c as nat, 0),
        k <= r@.len(),
{
    let ghost rv = entries_of(r@);
    let mut k: usize = 0;
    while k < r.len()
        invariant
            rv == entries_of(r@),
            0 <= k <= r@.len(),
            count_below_from(rv, c as nat, 0) == count_below_from(rv, c as nat, k as int),
        decreases r@.len() - k,
    {
        if r[k].count < c {
            return k;
        }
        k += 1;
    }
    k
}

/// When no position from `i` on holds the pair, none does.
pub proof fn lemma_find_none(s: Seq<Entry>, a: Seq<char>, b: Seq<char>, i: int)
    requires
        0 <= i,
        find_from(s, a, b, i) is None,
    ensures
        forall|k: int| i <= k < s.len() ==> !is_pair(#[trigger] s[k], a, b),
    decreases s.len() - i,
{
    if i < s.len() {
        lemma_find_none(s, a, b, i + 1);
    }
}

/// A found position holds the pair.
pub proof fn lemma_find_some(s: Seq<Entry>, a: Seq<char>, b: Seq<char>, i: int)
    requires
        0 <= i,
        find_from(s, a, b, i) is Some,
    ensures
        i <= find_from(s, a, b, i)->0 < s.len(),
        is_pair(s[find_from(s, a, b, i)->0], a, b),
    decreases s.len() - i,
{
    if i < s.len() && !is_pair(s[i], a, b) {
        lemma_find_some(s, a, b, i + 1);
    }
}

} // verus!
