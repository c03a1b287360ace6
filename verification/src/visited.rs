//! The record of every title that a crawl has queued for expansion.

use crate::text::titles_of;
use std::collections::HashMap;
use vstd::prelude::*;
use vstd::wrapping::u64_specs::wrapping_mul;
use vstd::utf8::encode_utf8;

verus! {

broadcast use vstd::std_specs::hash::group_hash_axioms;

/// Where the hash of a title starts.
pub const HASH_SEED: u64 = 0xcbf2_9ce4_8422_2325;

/// What the hash of a title is multiplied by for each byte.
pub const HASH_FACTOR: u64 = 0x0000_0100_0000_01b3;

/// The hash that has taken in one byte more.
pub open spec fn mixed(state: u64, byte: u8) -> u64 {
    wrapping_mul(state ^ (byte as u64), HASH_FACTOR)
}

/// The hash of a run of bytes.
pub open spec fn hash_of_bytes(bytes: Seq<u8>) -> u64
    decreases bytes.len(),
{
    if bytes.len() == 0 {
        HASH_SEED
    } else {
        mixed(hash_of_bytes(bytes.drop_last()), bytes.last())
    }
}

/// The hash of a title: that of its bytes.
pub open spec fn hash_of(title: Seq<char>) -> u64 {
    hash_of_bytes(encode_utf8(title))
}

/// Computes the hash of `title`.
pub fn hash_title(title: &str) -> (hash: u64)
    ensures
        hash == hash_of(title@),
{
    let bytes = title.as_bytes();
    let mut hash: u64 = HASH_SEED;
    let mut i: usize = 0;
    assert(bytes@.take(0) =~= Seq::<u8>::empty());
    while i < bytes.len()
        invariant
            i <= bytes.len(),
            bytes@ == encode_utf8(title@),
            hash == hash_of_bytes(bytes@.take(i as int)),
        decreases bytes.len() - i,
    {
        assert(bytes@.take(i + 1).drop_last() == bytes@.take(i as int));
        hash = (hash ^ (bytes[i] as u64)).wrapping_mul(HASH_FACTOR);
        i = i + 1;
    }
    assert(bytes@.take(bytes.len() as int) == bytes@);
    hash
}

/// A set of titles that only grows. Its view lists the titles in the order
/// in which they were recorded.
///
/// Beside the list the set keeps, for each hash, the places of the titles
/// that have it, so that a title is looked for among the few that share its
/// hash.
pub struct VisitedSet {
    titles: Vec<String>,
    places: HashMap<u64, Vec<usize>>,
}

impl View for VisitedSet {
    type V = Seq<Seq<char>>;

    closed spec fn view(&self) -> Seq<Seq<char>> {
        titles_of(self.titles@)
    }
}

impl VisitedSet {
    /// Every title is listed under its hash, and nothing is listed that is
    /// not there.
    spec fn indexed(&self) -> bool {
        &&& forall|i: int|
            0 <= i < self.titles.len() ==> self.places@.contains_key(
                hash_of(#[trigger] self.titles[i]@),
            ) && self.places@[hash_of(self.titles[i]@)]@.contains(i as usize)
        &&& forall|hash: u64, at: int|
            self.places@.contains_key(hash) && 0 <= at < self.places@[hash].len()
                ==> #[trigger] self.places@[hash][at] < self.titles.len()
    }

    /// No title is recorded twice, and the places are in order.
    pub closed spec fn wf(&self) -> bool {
        self@.no_duplicates() && self.indexed()
    }

    /// A set that is in order holds no title twice.
    pub proof fn lemma_wf(&self)
        requires
            self.wf(),
        ensures
            self@.no_duplicates(),
    {
    }

    /// The empty set.
    pub fn new() -> (set: VisitedSet)
        ensures
            set@ == Seq::<Seq<char>>::empty(),
            set.wf(),
    {
        let set = VisitedSet { titles: Vec::new(), places: HashMap::new() };
        assert(set@ =~= Seq::<Seq<char>>::empty());
        set
    }

    /// The number of titles recorded.
    pub fn len(&self) -> (count: usize)
        ensures
            count == self@.len(),
    {
        self.titles.len()
    }

    /// Whether `title` has been recorded.
    pub fn contains(&self, title: &String) -> (found: bool)
        requires
            self.wf(),
        ensures
            found == self@.contains(title@),
    {
        let hash = hash_title(title.as_str());
        match self.places.get(&hash) {
            None => {
                assert(!self@.contains(title@)) by {
                    if self@.contains(title@) {
                        let i = choose|i: int| 0 <= i < self@.len() && self@[i] == title@;
                        assert(self.titles[i]@ == title@);
                    }
                }
                false
            },
            Some(sharing) => {
                let mut at: usize = 0;
                while at < sharing.len()
                    invariant
                        at <= sharing.len(),
                        self.wf(),
                        self.places@.contains_key(hash),
                        *sharing == self.places@[hash],
                        forall|earlier: int|
                            0 <= earlier < at ==> self@[sharing[earlier] as int] != title@,
                    decreases sharing.len() - at,
                {
                    let place = sharing[at];
                    assert(place < self.titles.len());
                    if self.titles[place] == *title {
                        assert(self@[place as int] == title@);
                        return true;
                    }
                    at = at + 1;
                }
                assert(!self@.contains(title@)) by {
                    if self@.contains(title@) {
                        let i = choose|i: int| 0 <= i < self@.len() && self@[i] == title@;
                        assert(self.titles[i]@ == title@);
                        assert(sharing@.contains(i as usize));
                        let found = choose|found: int|
                            0 <= found < sharing@.len() && sharing@[found] == i as usize;
                        assert(self@[sharing[found] as int] != title@);
                    }
                }
                false
            },
        }
    }

    /// Records `title` unless it is there already, and says whether it was
    /// new. The test and the insertion are one step.
    pub fn insert(&mut self, title: &String) -> (fresh: bool)
        requires
            old(self).wf(),
        ensures
            final(self).wf(),
            fresh == !old(self)@.contains(title@),
            final(self)@ == if fresh {
                old(self)@.push(title@)
            } else {
                old(self)@
            },
    {
        if self.contains(title) {
            return false;
        }
        let hash = hash_title(title.as_str());
        let place = self.titles.len();
        let ghost before = self.places@;
        let mut sharing = match self.places.remove(&hash) {
            Some(sharing) => sharing,
            None => Vec::new(),
        };
        let ghost old_sharing = sharing@;
        assert(before.contains_key(hash) ==> old_sharing == before[hash]@);
        assert(!before.contains_key(hash) ==> old_sharing.len() == 0);
        sharing.push(place);
        self.places.insert(hash, sharing);
        self.titles.push(title.clone());
        proof {
            assert(self@ =~= old(self)@.push(title@));
            assert(self.places@ =~= before.insert(hash, sharing));
            assert(sharing@ == old_sharing.push(place));
            assert forall|i: int| 0 <= i < self.titles.len() implies self.places@.contains_key(
                hash_of(#[trigger] self.titles[i]@),
            ) && self.places@[hash_of(self.titles[i]@)]@.contains(i as usize) by {
                if i < place {
                    assert(self.titles[i] == old(self).titles[i]);
                    let key = hash_of(old(self).titles[i]@);
                    assert(before.contains_key(key) && before[key]@.contains(i as usize));
                    if key == hash {
                        let at = choose|at: int|
                            0 <= at < old_sharing.len() && old_sharing[at] == i as usize;
                        assert(sharing@[at] == i as usize);
                    }
                } else {
                    assert(self.titles[i]@ == title@);
                    assert(sharing@[sharing@.len() - 1] == place);
                }
            }
            assert forall|key: u64, at: int|
                self.places@.contains_key(key) && 0 <= at < self.places@[key].len()
                    implies #[trigger] self.places@[key][at] < self.titles.len() by {
                if key == hash {
                    if at < old_sharing.len() {
                        assert(sharing@[at] == old_sharing[at]);
                        assert(before[hash][at] < place);
                    }
                } else {
                    assert(before[key][at] < place);
                }
            }
        }
        true
    }
}

} // verus!
