//! Model of the price store: one latest-quote slot per pair and one bounded,
//! newest-first history list per pair, addressed by keys derived from the
//! pair identifier.

use vstd::prelude::*;
use vstd::string::StringExecFns;
use crate::HISTORY_BOUND;

verus! {

/// Key of the Latest-Price Record: the pair identifier itself.
pub open spec fn spec_latest_key(pair: Seq<char>) -> Seq<char> {
    pair
}

/// Key of the History List: `"history:"` followed by the pair identifier.
pub open spec fn spec_history_key(pair: Seq<char>) -> Seq<char> {
    "history:"@ + pair
}

/// Store key under which the latest quote for `pair` is kept.
pub fn latest_key(pair: &str) -> (r: String)
    ensures
        r@ == spec_latest_key(pair@),
{
    pair.to_owned()
}

/// Store key under which the history list for `pair` is kept.
pub fn history_key(pair: &str) -> (r: String)
    ensures
        r@ == spec_history_key(pair@),
{
    let mut r = String::from_str("history:");
    r.append(pair);
    r
}

/// History retention: the newest `HISTORY_BOUND` entries survive, anything
/// older is evicted.
pub open spec fn spec_trim(entries: Seq<Seq<char>>) -> Seq<Seq<char>> {
    if entries.len() <= HISTORY_BOUND {
        entries
    } else {
        entries.take(HISTORY_BOUND as int)
    }
}

/// One page of a history list: entries from `offset` on, at most `count` of
/// them, in stored (newest-first) order.  An offset at or past the end gives
/// the empty page, which is the termination signal for paginated readers.
pub open spec fn spec_page(entries: Seq<Seq<char>>, offset: int, count: int) -> Seq<Seq<char>> {
    if offset >= entries.len() || offset < 0 || count < 0 {
        Seq::empty()
    } else if offset + count >= entries.len() {
        entries.subrange(offset, entries.len() as int)
    } else {
        entries.subrange(offset, offset + count)
    }
}

/// However long a pair's history was before, one insert-then-trim leaves
/// the new entry at the head and never more than `HISTORY_BOUND` entries:
/// repeated pushes converge to a fixed-size window with the oldest entries
/// evicted.
pub proof fn lemma_push_bounded(entries: Seq<Seq<char>>, e: Seq<char>)
    ensures
        spec_trim(seq![e] + entries).len() <= HISTORY_BOUND,
        spec_trim(seq![e] + entries)[0] == e,
        forall|j: int|
            0 <= j < spec_trim(seq![e] + entries).len() - 1 ==> spec_trim(seq![e] + entries)[j
                + 1] == entries[j],
{
}

/// An element-by-element copy of a history list, so the model can read a
/// list out of the map, rework it and write it back.
fn clone_entries(v: &Vec<String>) -> (r: Vec<String>)
    ensures
        r.deep_view() == v.deep_view(),
{
    let mut r: Vec<String> = Vec::new();
    let n = v.len();
    let mut i: usize = 0;
    while i < n
        invariant
            i <= n,
            n == v@.len(),
            r@.len() == i,
            forall|j: int| 0 <= j < i ==> #[trigger] r@[j]@ == v@[j]@,
        decreases n - i,
    {
        let e = v[i].clone();
        r.push(e);
        i += 1;
    }
    proof {
        assert forall|j: int| 0 <= j < v@.len() implies r.deep_view()[j] == v.deep_view()[j] by {
            assert(r@[j]@ == v@[j]@);
        }
        assert(r.deep_view() =~~= v.deep_view());
    }
    r
}

/// In-memory model of the key-value store: a latest-quote slot and a history
/// list per pair.  The two are independent projections of the same incoming
/// quote stream; nothing couples them transactionally.
pub struct PriceStore {
    latest: vstd::hash_map::StringHashMap<String>,
    history: vstd::hash_map::StringHashMap<Vec<String>>,
}

impl PriceStore {
    /// The serialized latest quote stored for `pair`, if any.
    pub closed spec fn spec_latest(self, pair: Seq<char>) -> Option<Seq<char>> {
        if self.latest@.contains_key(pair) {
            Some(self.latest@[pair]@)
        } else {
            None
        }
    }

    /// The serialized history entries stored for `pair`, newest first;
    /// empty if the pair has never been written.
    pub closed spec fn spec_history(self, pair: Seq<char>) -> Seq<Seq<char>> {
        if self.history@.contains_key(pair) {
            self.history@[pair].deep_view()
        } else {
            Seq::empty()
        }
    }

    /// A store with no records at all.
    pub fn new() -> (r: Self)
        ensures
            forall|p: Seq<char>| r.spec_latest(p) is None,
            forall|p: Seq<char>| r.spec_history(p) == Seq::<Seq<char>>::empty(),
    {
        PriceStore {
            latest: vstd::hash_map::StringHashMap::new(),
            history: vstd::hash_map::StringHashMap::new(),
        }
    }

    /// Overwrite the Latest-Price Record for `pair`.  Every other pair's
    /// record and every history list are untouched.
    pub fn set_latest(&mut self, pair: &str, value: String)
        ensures
            final(self).spec_latest(pair@) == Some(value@),
            forall|q: Seq<char>| q != pair@ ==>
                final(self).spec_latest(q) == old(self).spec_latest(q),
            forall|q: Seq<char>| final(self).spec_history(q) == old(self).spec_history(q),
    {
        self.latest.insert(pair.to_owned(), value);
    }

    /// Insert a serialized quote at the head of `pair`'s history list and
    /// trim the list to `HISTORY_BOUND` entries, evicting the oldest.  The
    /// resulting list never exceeds the bound, whatever length the list had
    /// before; every other pair and every latest-quote slot are untouched.
    pub fn push_history(&mut self, pair: &str, value: String)
        ensures
            final(self).spec_history(pair@) == spec_trim(
                seq![value@] + old(self).spec_history(pair@),
            ),
            final(self).spec_history(pair@).len() <= HISTORY_BOUND,
            final(self).spec_history(pair@).len() >= 1,
            final(self).spec_history(pair@)[0] == value@,
            forall|q: Seq<char>| q != pair@ ==>
                final(self).spec_history(q) == old(self).spec_history(q),
            forall|q: Seq<char>| final(self).spec_latest(q) == old(self).spec_latest(q),
    {
        let ghost prior = self.spec_history(pair@);
        let mut entries: Vec<String> = match self.history.get(pair) {
            Some(v) => clone_entries(v),
            None => Vec::new(),
        };
        proof {
            assert(entries.deep_view() =~~= prior);
        }
        entries.insert(0, value);
        proof {
            assert(entries.deep_view() =~~= seq![value@] + prior);
        }
        entries.truncate(HISTORY_BOUND);
        proof {
            if (seq![value@] + prior).len() > HISTORY_BOUND {
                assert(entries.deep_view() =~~= (seq![value@] + prior).take(HISTORY_BOUND as int));
            } else {
                assert(entries.deep_view() =~~= seq![value@] + prior);
            }
        }
        self.history.insert(pair.to_owned(), entries);
    }

    /// Replace `pair`'s history list wholesale, without trimming.  This
    /// models a list written by something other than `push_history` — an
    /// external writer, or growth left behind by a failed trim — which a
    /// reader must tolerate.
    pub fn seed_history(&mut self, pair: &str, entries: Vec<String>)
        ensures
            final(self).spec_history(pair@) == entries.deep_view(),
            forall|q: Seq<char>| q != pair@ ==>
                final(self).spec_history(q) == old(self).spec_history(q),
            forall|q: Seq<char>| final(self).spec_latest(q) == old(self).spec_latest(q),
    {
        self.history.insert(pair.to_owned(), entries);
    }

    /// One page of `pair`'s history list: entries `offset .. offset + count`
    /// in stored (newest-first) order, cut off at the end of the list.  An
    /// offset at or past the end yields the empty page.
    pub fn read_history_page(&self, pair: &str, offset: usize, count: usize) -> (r: Vec<String>)
        ensures
            r.deep_view() == spec_page(self.spec_history(pair@), offset as int, count as int),
            offset >= self.spec_history(pair@).len() ==> r@.len() == 0,
            r@.len() == r.deep_view().len(),
            self.spec_history(pair@).len() <= usize::MAX,
    {
        let entries = match self.history.get(pair) {
            Some(v) => v,
            None => {
                let r: Vec<String> = Vec::new();
                proof {
                    assert(r.deep_view() =~~= spec_page(
                        self.spec_history(pair@),
                        offset as int,
                        count as int,
                    ));
                }
                return r;
            },
        };
        let n = entries.len();
        if offset >= n {
            let r: Vec<String> = Vec::new();
            proof {
                assert(r.deep_view() =~~= spec_page(
                    self.spec_history(pair@),
                    offset as int,
                    count as int,
                ));
            }
            return r;
        }
        let end = if count > n - offset {
            n
        } else {
            offset + count
        };
        let mut r: Vec<String> = Vec::new();
        let mut i: usize = offset;
        while i < end
            invariant
                offset <= i <= end <= entries@.len(),
                n == entries@.len(),
                r@.len() == i - offset,
                forall|j: int| 0 <= j < i - offset ==> #[trigger] r@[j]@ == entries@[offset + j]@,
            decreases end - i,
        {
            let e = entries[i].clone();
            r.push(e);
            i += 1;
        }
        proof {
            let page = spec_page(self.spec_history(pair@), offset as int, count as int);
            assert(entries.deep_view() == self.spec_history(pair@));
            assert(page.len() == end - offset);
            assert forall|j: int| 0 <= j < r@.len() implies r.deep_view()[j] == page[j] by {
                assert(r@[j]@ == entries@[offset + j]@);
                assert(page[j] == entries.deep_view()[offset + j]);
            }
            assert(r.deep_view() =~~= page);
        }
        r
    }

    /// The Latest-Price Record for `pair`, if one has been stored.
    pub fn get_latest(&self, pair: &str) -> (r: Option<String>)
        ensures
            match r {
                Some(v) => self.spec_latest(pair@) == Some(v@),
                None => self.spec_latest(pair@) is None,
            },
    {
        match self.latest.get(pair) {
            Some(v) => Some(v.clone()),
            None => None,
        }
    }
}

} // verus!
