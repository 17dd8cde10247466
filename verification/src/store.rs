//! The in-memory hash store: an ordered, duplicate-free vector of
//! [`HashPair`] values, kept sorted ascending at all times so that
//! lookups and insertions can use binary search.

use vstd::prelude::*;

use crate::codec::{pair_of_text, text_of, to_text_line, valid_hash_text, FormatError};
use crate::pair::{pair_lt, HashPair};

verus! {

/// The hash pairs a sequence of text lines denotes, line by line.
pub open spec fn parsed_pairs(lines: Seq<String>) -> Seq<HashPair> {
    lines.map_values(|l: String| pair_of_text(l@))
}

/// Whether every line of a file is a valid hash line.
pub open spec fn all_lines_valid(lines: Seq<String>) -> bool {
    forall|i: int| 0 <= i < lines.len() ==> valid_hash_text(#[trigger] lines[i]@)
}

/// Strictly ascending: sorted, and free of duplicates.
pub open spec fn sorted(s: Seq<HashPair>) -> bool {
    forall|i: int, j: int| 0 <= i < j < s.len() ==> pair_lt(s[i], s[j])
}

/// The subset of `pairs` that a run of insert-if-absent over a store
/// already holding `present` newly inserts, in arrival order: the
/// first occurrence of each pair not yet present.
pub open spec fn inserted_seq(present: Set<HashPair>, pairs: Seq<HashPair>) -> Seq<HashPair>
    decreases pairs.len(),
{
    if pairs.len() == 0 {
        Seq::empty()
    } else if present.contains(pairs[0]) {
        inserted_seq(present, pairs.drop_first())
    } else {
        seq![pairs[0]] + inserted_seq(present.insert(pairs[0]), pairs.drop_first())
    }
}

/// Appending one element to a sequence adds it to the sequence's set.
proof fn lemma_push_to_set(s: Seq<HashPair>, x: HashPair)
    ensures
        s.push(x).to_set() =~= s.to_set().insert(x),
{
    assert forall|y: HashPair| s.push(x).to_set().contains(y) implies s.to_set().insert(
        x,
    ).contains(y) by {
        let k = choose|k: int| 0 <= k < s.push(x).len() && s.push(x)[k] == y;
        if k < s.len() {
            assert(s[k] == y);
        }
    }
    assert forall|y: HashPair| s.to_set().insert(x).contains(y) implies s.push(x).to_set().contains(
        y,
    ) by {
        if y == x {
            assert(s.push(x)[s.len() as int] == y);
        } else {
            let k = choose|k: int| 0 <= k < s.len() && s[k] == y;
            assert(s.push(x)[k] == y);
        }
    }
}

/// What a run of insert-if-absent newly inserts: nothing already
/// present, nothing twice, and as a set exactly the batch minus what
/// was present.
pub proof fn lemma_inserted_seq_props(present: Set<HashPair>, pairs: Seq<HashPair>)
    ensures
        inserted_seq(present, pairs).no_duplicates(),
        inserted_seq(present, pairs).to_set() =~= pairs.to_set().difference(present),
        forall|i: int|
            0 <= i < inserted_seq(present, pairs).len() ==> !present.contains(
                #[trigger] inserted_seq(present, pairs)[i],
            ),
    decreases pairs.len(),
{
    if pairs.len() == 0 {
    } else {
        let h = pairs[0];
        let rest = pairs.drop_first();
        assert(pairs.to_set() =~= rest.to_set().insert(h)) by {
            assert(pairs =~= seq![h] + rest);
            assert forall|y: HashPair| pairs.to_set().contains(y) implies rest.to_set().insert(
                h,
            ).contains(y) by {
                let k = choose|k: int| 0 <= k < pairs.len() && pairs[k] == y;
                if k > 0 {
                    assert(rest[k - 1] == y);
                }
            }
            assert forall|y: HashPair| rest.to_set().insert(h).contains(y) implies pairs.to_set().contains(
                y,
            ) by {
                if y == h {
                    assert(pairs[0] == y);
                } else {
                    let k = choose|k: int| 0 <= k < rest.len() && rest[k] == y;
                    assert(pairs[k + 1] == y);
                }
            }
        }
        if present.contains(h) {
            lemma_inserted_seq_props(present, rest);
            assert(rest.to_set().difference(present) =~= pairs.to_set().difference(present));
        } else {
            lemma_inserted_seq_props(present.insert(h), rest);
            let tail = inserted_seq(present.insert(h), rest);
            let whole = inserted_seq(present, pairs);
            assert(whole == seq![h] + tail);
            assert(!tail.to_set().contains(h));
            assert(whole.no_duplicates()) by {
                assert forall|i: int, j: int| 0 <= i < j < whole.len() implies whole[i] != whole[j] by {
                    if i == 0 {
                        assert(whole[j] == tail[j - 1]);
                        assert(tail.to_set().contains(tail[j - 1]));
                    } else {
                        assert(whole[i] == tail[i - 1] && whole[j] == tail[j - 1]);
                    }
                }
            }
            assert(whole.to_set() =~= tail.to_set().insert(h)) by {
                assert forall|y: HashPair| whole.to_set().contains(y) implies tail.to_set().insert(
                    h,
                ).contains(y) by {
                    let k = choose|k: int| 0 <= k < whole.len() && whole[k] == y;
                    if k > 0 {
                        assert(tail[k - 1] == y);
                    }
                }
                assert forall|y: HashPair| tail.to_set().insert(h).contains(y) implies whole.to_set().contains(
                    y,
                ) by {
                    if y == h {
                        assert(whole[0] == y);
                    } else {
                        let k = choose|k: int| 0 <= k < tail.len() && tail[k] == y;
                        assert(whole[k + 1] == y);
                    }
                }
            }
            assert(whole.to_set() =~= pairs.to_set().difference(present));
        }
    }
}

/// The sorted, duplicate-free collection of hash pairs.
pub struct HashStore {
    items: Vec<HashPair>,
}

impl View for HashStore {
    type V = Seq<HashPair>;

    closed spec fn view(&self) -> Seq<HashPair> {
        self.items@
    }
}

impl HashStore {
    /// The store invariant: the backing sequence is strictly ascending.
    pub open spec fn well_formed(&self) -> bool {
        sorted(self@)
    }

    /// An empty store.
    pub fn new() -> (r: HashStore)
        ensures
            r.well_formed(),
            r@ =~= Seq::<HashPair>::empty(),
    {
        HashStore { items: Vec::new() }
    }

    /// An empty store with room reserved for `capacity` elements.
    pub fn with_capacity(capacity: usize) -> (r: HashStore)
        ensures
            r.well_formed(),
            r@ =~= Seq::<HashPair>::empty(),
    {
        HashStore { items: Vec::with_capacity(capacity) }
    }

    /// How many hash pairs the store holds.
    pub fn len(&self) -> (r: usize)
        ensures
            r == self@.len(),
    {
        self.items.len()
    }

    /// The pair at a given position of the ascending sequence.
    pub fn get(&self, i: usize) -> (r: HashPair)
        requires
            i < self@.len(),
        ensures
            r == self@[i as int],
    {
        self.items[i]
    }

    /// Binary search: the position of `h` if present, otherwise the
    /// position where `h` would have to be inserted to keep the store
    /// sorted.
    pub fn search(&self, h: &HashPair) -> (r: Result<usize, usize>)
        requires
            self.well_formed(),
        ensures
            match r {
                Ok(i) => i < self@.len() && self@[i as int] == *h,
                Err(i) => {
                    &&& i <= self@.len()
                    &&& !self@.contains(*h)
                    &&& forall|k: int| 0 <= k < i ==> pair_lt(self@[k], *h)
                    &&& forall|k: int| i <= k < self@.len() ==> pair_lt(*h, self@[k])
                },
            },
    {
        let mut lo: usize = 0;
        let mut hi: usize = self.items.len();
        while lo < hi
            invariant
                lo <= hi <= self@.len(),
                self.well_formed(),
                forall|k: int| 0 <= k < lo ==> pair_lt(self@[k], *h),
                forall|k: int| hi <= k < self@.len() ==> pair_lt(*h, self@[k]),
            decreases hi - lo,
        {
            let mid = lo + (hi - lo) / 2;
            let m = self.items[mid];
            if m.lt(h) {
                proof {
                    assert forall|k: int| 0 <= k < mid + 1 implies pair_lt(self@[k], *h) by {
                        if k < mid {
                            assert(pair_lt(self@[k], self@[mid as int]));
                        }
                    }
                }
                lo = mid + 1;
            } else if h.lt(&m) {
                proof {
                    assert forall|k: int| mid <= k < self@.len() implies pair_lt(*h, self@[k]) by {
                        if k > mid {
                            assert(pair_lt(self@[mid as int], self@[k]));
                        }
                    }
                }
                hi = mid;
            } else {
                assert(self@[mid as int] == *h);
                return Ok(mid);
            }
        }
        proof {
            if self@.contains(*h) {
                let k = choose|k: int| 0 <= k < self@.len() && self@[k] == *h;
                assert(!pair_lt(self@[k], *h) && !pair_lt(*h, self@[k]));
            }
        }
        Err(lo)
    }

    /// Whether the store holds `h`.
    pub fn contains(&self, h: &HashPair) -> (r: bool)
        requires
            self.well_formed(),
        ensures
            r == self@.contains(*h),
    {
        match self.search(h) {
            Ok(_) => true,
            Err(_) => false,
        }
    }

    /// Inserts `h` unless it is already present, keeping the store
    /// sorted and duplicate-free. Returns true exactly when `h` was
    /// newly inserted.
    pub fn insert_if_absent(&mut self, h: HashPair) -> (r: bool)
        requires
            old(self).well_formed(),
        ensures
            final(self).well_formed(),
            r == !old(self)@.contains(h),
            final(self)@.to_set() =~= old(self)@.to_set().insert(h),
            final(self)@.contains(h),
            r ==> final(self)@.len() == old(self)@.len() + 1,
            !r ==> final(self)@ == old(self)@,
    {
        match self.search(&h) {
            Ok(i) => {
                proof {
                    assert(old(self)@.contains(h));
                    assert(old(self)@.to_set().contains(h));
                }
                false
            },
            Err(i) => {
                self.items.insert(i, h);
                proof {
                    let pre = old(self)@;
                    let post = self@;
                    assert forall|a: int, b: int| 0 <= a < b < post.len() implies pair_lt(
                        post[a],
                        post[b],
                    ) by {
                        if a < i && b == i {
                            assert(pair_lt(pre[a], h));
                        } else if a == i && b > i {
                            assert(pair_lt(h, pre[b - 1]));
                        } else if a < i && b > i {
                            assert(pair_lt(pre[a], pre[b - 1]));
                        } else if a > i && b > i {
                            assert(pair_lt(pre[a - 1], pre[b - 1]));
                        }
                    }
                    assert(post.to_set() =~= pre.to_set().insert(h)) by {
                        assert forall|x: HashPair| post.to_set().contains(x) implies pre.to_set().insert(
                            h,
                        ).contains(x) by {
                            let k = choose|k: int| 0 <= k < post.len() && post[k] == x;
                            if k < i {
                                assert(pre[k] == x);
                            } else if k > i {
                                assert(pre[k - 1] == x);
                            }
                        }
                        assert forall|x: HashPair| pre.to_set().insert(h).contains(x) implies post.to_set().contains(
                            x,
                        ) by {
                            if x == h {
                                assert(post[i as int] == x);
                            } else {
                                let k = choose|k: int| 0 <= k < pre.len() && pre[k] == x;
                                if k < i {
                                    assert(post[k] == x);
                                } else {
                                    assert(post[k + 1] == x);
                                }
                            }
                        }
                    }
                    assert(self@[i as int] == h);
                }
                true
            },
        }
    }

    /// Applies [`HashStore::insert_if_absent`] to each pair in the
    /// given order and returns exactly the subset that was newly
    /// inserted, in arrival order.
    pub fn bulk_update(&mut self, pairs: &Vec<HashPair>) -> (inserted: Vec<HashPair>)
        requires
            old(self).well_formed(),
        ensures
            final(self).well_formed(),
            final(self)@.to_set() =~= old(self)@.to_set().union(pairs@.to_set()),
            inserted@ == inserted_seq(old(self)@.to_set(), pairs@),
    {
        let ghost start_set = old(self)@.to_set();
        let mut inserted: Vec<HashPair> = Vec::new();
        proof {
            assert(pairs@.skip(0) =~= pairs@);
            assert(Seq::<HashPair>::empty() + inserted_seq(start_set, pairs@) =~= inserted_seq(
                start_set,
                pairs@,
            ));
        }
        let mut i: usize = 0;
        while i < pairs.len()
            invariant
                i <= pairs@.len(),
                self.well_formed(),
                self@.to_set() =~= start_set.union(pairs@.take(i as int).to_set()),
                inserted_seq(start_set, pairs@) =~= inserted@ + inserted_seq(
                    self@.to_set(),
                    pairs@.skip(i as int),
                ),
            decreases pairs@.len() - i,
        {
            let h = pairs[i];
            let ghost pre_set = self@.to_set();
            let ghost suffix = pairs@.skip(i as int);
            let fresh = self.insert_if_absent(h);
            proof {
                assert(suffix[0] == h);
                assert(suffix.drop_first() =~= pairs@.skip(i as int + 1));
                assert(pairs@.take(i as int + 1).to_set() =~= pairs@.take(
                    i as int,
                ).to_set().insert(h)) by {
                    assert(pairs@.take(i as int + 1) =~= pairs@.take(i as int).push(h));
                    lemma_push_to_set(pairs@.take(i as int), h);
                }
                if fresh {
                    assert(inserted_seq(pre_set, suffix) == seq![h] + inserted_seq(
                        pre_set.insert(h),
                        suffix.drop_first(),
                    ));
                } else {
                    assert(pre_set.insert(h) =~= pre_set);
                    assert(inserted_seq(pre_set, suffix) == inserted_seq(
                        pre_set,
                        suffix.drop_first(),
                    ));
                }
            }
            if fresh {
                inserted.push(h);
            }
            i += 1;
        }
        proof {
            assert(pairs@.take(pairs@.len() as int) =~= pairs@);
            assert(pairs@.skip(pairs@.len() as int) =~= Seq::<HashPair>::empty());
            assert(inserted_seq(self@.to_set(), Seq::<HashPair>::empty()) =~= Seq::<
                HashPair,
            >::empty());
            assert(inserted@ =~= inserted@ + Seq::<HashPair>::empty());
        }
        inserted
    }

    /// Builds a store from the text lines of a hash file. Every line
    /// must be a valid 32-character hexadecimal hash line; one bad
    /// line fails the whole load. The result holds exactly the parsed
    /// pairs, sorted and without duplicates.
    pub fn load_from_text(lines: &Vec<String>) -> (r: Result<HashStore, FormatError>)
        ensures
            r is Ok <==> all_lines_valid(lines@),
            r is Ok ==> r->Ok_0.well_formed(),
            r is Ok ==> r->Ok_0@.to_set() =~= parsed_pairs(lines@).to_set(),
    {
        let mut st = HashStore::with_capacity(lines.len());
        let mut i: usize = 0;
        while i < lines.len()
            invariant
                i <= lines@.len(),
                st.well_formed(),
                forall|k: int| 0 <= k < i ==> valid_hash_text(#[trigger] lines@[k]@),
                st@.to_set() =~= parsed_pairs(lines@.take(i as int)).to_set(),
            decreases lines@.len() - i,
        {
            let h = match crate::codec::parse_text_line(lines[i].as_str()) {
                Ok(h) => h,
                Err(e) => {
                    proof {
                        assert(!valid_hash_text(lines@[i as int]@));
                    }
                    return Err(e);
                },
            };
            st.insert_if_absent(h);
            proof {
                let pre = parsed_pairs(lines@.take(i as int));
                let post = parsed_pairs(lines@.take(i as int + 1));
                assert(post =~= pre.push(h)) by {
                    assert(lines@.take(i as int + 1) =~= lines@.take(i as int).push(
                        lines@[i as int],
                    ));
                }
                lemma_push_to_set(pre, h);
            }
            i += 1;
        }
        proof {
            assert(lines@.take(lines@.len() as int) =~= lines@);
        }
        Ok(st)
    }

    /// Renders every element in ascending order as a canonical text
    /// line, ready to be written out as the new hash file.
    pub fn persist_to_text(&self) -> (r: Vec<String>)
        ensures
            r@.len() == self@.len(),
            forall|i: int| 0 <= i < self@.len() ==> (#[trigger] r@[i])@ == text_of(self@[i]),
    {
        let mut r: Vec<String> = Vec::new();
        let mut i: usize = 0;
        while i < self.items.len()
            invariant
                i <= self@.len(),
                r@.len() == i,
                forall|k: int| 0 <= k < i ==> (#[trigger] r@[k])@ == text_of(self@[k]),
            decreases self@.len() - i,
        {
            r.push(to_text_line(&self.items[i]));
            i += 1;
        }
        r
    }

    /// A copy of the ascending sequence as a plain vector.
    pub fn as_vec(&self) -> (r: Vec<HashPair>)
        ensures
            r@ == self@,
    {
        let mut out: Vec<HashPair> = Vec::new();
        let mut i: usize = 0;
        while i < self.items.len()
            invariant
                i <= self@.len(),
                out@ =~= self@.take(i as int),
            decreases self@.len() - i,
        {
            out.push(self.items[i]);
            i += 1;
        }
        proof {
            assert(out@ =~= self@);
        }
        out
    }
}

/// After an insertion reported as new, the store holds the pair, so a
/// lookup finds it and a second insertion of the same pair reports it
/// as already present.
pub proof fn lemma_insert_then_present(pre: Seq<HashPair>, post: Seq<HashPair>, h: HashPair)
    requires
        post.to_set() == pre.to_set().insert(h),
    ensures
        post.contains(h),
{
    assert(post.to_set().contains(h));
}

/// Two strictly ascending sequences over the same set of pairs are the
/// same sequence: the sorted, duplicate-free form of a set is unique.
pub proof fn lemma_sorted_unique(s1: Seq<HashPair>, s2: Seq<HashPair>)
    requires
        sorted(s1),
        sorted(s2),
        s1.to_set() == s2.to_set(),
    ensures
        s1 =~= s2,
    decreases s1.len(),
{
    if s1.len() == 0 {
        if s2.len() > 0 {
            assert(s2.to_set().contains(s2[0]));
            assert(s1.to_set().contains(s2[0]));
        }
    } else {
        assert(s1.to_set().contains(s1[0]));
        assert(s2.to_set().contains(s1[0]));
        if s2.len() == 0 {
            assert(false);
        }
        // The head of each sequence is the unique minimum of the set.
        assert(s2.to_set().contains(s2[0]));
        assert(s1.to_set().contains(s2[0]));
        let k1 = choose|k: int| 0 <= k < s1.len() && s1[k] == s2[0];
        let k2 = choose|k: int| 0 <= k < s2.len() && s2[k] == s1[0];
        if s1[0] != s2[0] {
            assert(k1 > 0 ==> pair_lt(s1[0], s1[k1]));
            assert(k2 > 0 ==> pair_lt(s2[0], s2[k2]));
            assert(k1 > 0 && k2 > 0);
            assert(pair_lt(s1[0], s2[0]) && pair_lt(s2[0], s1[0]));
        }
        assert(s1[0] == s2[0]);
        let t1 = s1.drop_first();
        let t2 = s2.drop_first();
        assert(sorted(t1)) by {
            assert(forall|i: int, j: int|
                0 <= i < j < t1.len() ==> pair_lt(#[trigger] t1[i], #[trigger] t1[j]) && t1[i]
                    == s1[i + 1] && t1[j] == s1[j + 1]);
        }
        assert(sorted(t2));
        assert(t1.to_set() =~= s1.to_set().remove(s1[0])) by {
            lemma_head_not_in_tail(s1);
        }
        assert(t2.to_set() =~= s2.to_set().remove(s2[0])) by {
            lemma_head_not_in_tail(s2);
        }
        lemma_sorted_unique(t1, t2);
        assert(s1 =~= seq![s1[0]] + t1);
        assert(s2 =~= seq![s2[0]] + t2);
    }
}

/// The ascending, duplicate-free rearrangement of a batch of pairs:
/// what a journal entry records. A batch without duplicates keeps its
/// length.
pub fn sort_pairs(pairs: &Vec<HashPair>) -> (r: Vec<HashPair>)
    ensures
        sorted(r@),
        r@.to_set() =~= pairs@.to_set(),
        pairs@.no_duplicates() ==> r@.len() == pairs@.len(),
{
    let mut st = HashStore::new();
    let mut i: usize = 0;
    while i < pairs.len()
        invariant
            i <= pairs@.len(),
            st.well_formed(),
            st@.to_set() =~= pairs@.take(i as int).to_set(),
        decreases pairs@.len() - i,
    {
        let h = pairs[i];
        st.insert_if_absent(h);
        proof {
            assert(pairs@.take(i as int + 1) =~= pairs@.take(i as int).push(h));
            lemma_push_to_set(pairs@.take(i as int), h);
        }
        i += 1;
    }
    proof {
        assert(pairs@.take(pairs@.len() as int) =~= pairs@);
    }
    let r = st.as_vec();
    proof {
        lemma_sorted_no_duplicates(r@);
        r@.unique_seq_to_set();
        if pairs@.no_duplicates() {
            pairs@.unique_seq_to_set();
        }
    }
    r
}

/// What an update journals: the ascending rearrangement of the newly
/// inserted subset holds exactly the batch's hashes that were not
/// already present — no duplicates, one line per new hash.
pub proof fn lemma_journal_records_exactly_the_new(
    present: Set<HashPair>,
    batch: Seq<HashPair>,
    journal: Seq<HashPair>,
)
    requires
        sorted(journal),
        journal.to_set() == inserted_seq(present, batch).to_set(),
    ensures
        journal.to_set() == batch.to_set().difference(present),
        journal.no_duplicates(),
        journal.len() == batch.to_set().difference(present).len(),
{
    lemma_inserted_seq_props(present, batch);
    lemma_sorted_no_duplicates(journal);
    journal.unique_seq_to_set();
    assert(journal.to_set() =~= batch.to_set().difference(present));
}

/// A store kept strictly ascending is in particular duplicate-free.
pub proof fn lemma_sorted_no_duplicates(s: Seq<HashPair>)
    requires
        sorted(s),
    ensures
        s.no_duplicates(),
{
    assert forall|a: int, b: int|
        0 <= a < s.len() && 0 <= b < s.len() && a != b implies s[a] != s[b] by {
        if a < b {
            assert(pair_lt(s[a], s[b]));
        } else {
            assert(pair_lt(s[b], s[a]));
        }
    }
}

/// In a strictly ascending sequence the head recurs nowhere, so the
/// tail's set is the whole set without the head.
proof fn lemma_head_not_in_tail(s: Seq<HashPair>)
    requires
        sorted(s),
        s.len() > 0,
    ensures
        s.drop_first().to_set() =~= s.to_set().remove(s[0]),
{
    let t = s.drop_first();
    assert forall|x: HashPair| t.to_set().contains(x) implies s.to_set().remove(s[0]).contains(x) by {
        let k = choose|k: int| 0 <= k < t.len() && t[k] == x;
        assert(s[k + 1] == x);
        assert(pair_lt(s[0], s[k + 1]));
    }
    assert forall|x: HashPair| s.to_set().remove(s[0]).contains(x) implies t.to_set().contains(x) by {
        let k = choose|k: int| 0 <= k < s.len() && s[k] == x;
        assert(k != 0);
        assert(t[k - 1] == x);
    }
}

} // verus!
