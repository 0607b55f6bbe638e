//! Surrogate keys for distinct texts, in the order in which they were first
//! seen.

use vstd::hash_map::StringHashMap;
use vstd::prelude::*;

verus! {

/// `keys` with `key` added at the end, unless it is there already.
pub open spec fn with_key<A>(keys: Seq<A>, key: A) -> Seq<A> {
    if keys.contains(key) {
        keys
    } else {
        keys.push(key)
    }
}

/// The values of `xs` without repeats, each at the place of its first
/// occurrence.
pub open spec fn distinct<A>(xs: Seq<A>) -> Seq<A>
    decreases xs.len(),
{
    if xs.len() == 0 {
        Seq::empty()
    } else {
        with_key(distinct(xs.drop_last()), xs.last())
    }
}

/// The surrogate key of `key`: its place in `keys`, counted from 1.
pub open spec fn key_id<A>(keys: Seq<A>, key: A) -> Option<nat> {
    if keys.contains(key) {
        Some((keys.index_of(key) + 1) as nat)
    } else {
        None
    }
}

/// Reading one more value extends the distinct values by at most that value.
pub proof fn lemma_distinct_push<A>(xs: Seq<A>, x: A)
    ensures
        distinct(xs.push(x)) == with_key(distinct(xs), x),
{
    assert(xs.push(x).drop_last() =~= xs);
}

/// `distinct` keeps every value, adds none, and repeats none.
pub proof fn lemma_distinct_properties<A>(xs: Seq<A>)
    ensures
        distinct(xs).no_duplicates(),
        distinct(xs).len() <= xs.len(),
        forall|x: A| #[trigger] distinct(xs).contains(x) <==> xs.contains(x),
    decreases xs.len(),
{
    if xs.len() > 0 {
        let before = xs.drop_last();
        let last = xs.last();
        lemma_distinct_properties(before);
        assert forall|x: A| #[trigger] distinct(xs).contains(x) <==> xs.contains(x) by {
            if xs.contains(x) {
                let i = choose|i: int| 0 <= i < xs.len() && xs[i] == x;
                if i < xs.len() - 1 {
                    assert(before[i] == x);
                    assert(before.contains(x));
                    assert(distinct(before).contains(x));
                    let j = choose|j: int| 0 <= j < distinct(before).len() && distinct(before)[j] == x;
                    assert(distinct(xs)[j] == x);
                } else {
                    if !distinct(before).contains(x) {
                        assert(distinct(xs)[distinct(before).len() as int] == x);
                    }
                }
            }
            if distinct(xs).contains(x) {
                let j = choose|j: int| 0 <= j < distinct(xs).len() && distinct(xs)[j] == x;
                if j < distinct(before).len() {
                    assert(distinct(before)[j] == x);
                    assert(distinct(before).contains(x));
                    let i = choose|i: int| 0 <= i < before.len() && before[i] == x;
                    assert(xs[i] == x);
                } else {
                    assert(xs[xs.len() - 1] == x);
                }
            }
        }
    }
}

/// In a sequence without repeats, a value has one place only.
pub proof fn lemma_key_id_at<A>(keys: Seq<A>, i: int)
    requires
        keys.no_duplicates(),
        0 <= i < keys.len(),
    ensures
        key_id(keys, keys[i]) == Some((i + 1) as nat),
{
    assert(keys.contains(keys[i]));
}

/// A key that has been assigned keeps its surrogate key when further keys
/// are added.
pub proof fn lemma_key_id_stable<A>(keys: Seq<A>, key: A, later: A)
    requires
        keys.no_duplicates(),
        keys.contains(key),
    ensures
        key_id(with_key(keys, later), key) == key_id(keys, key),
{
    let i = keys.index_of(key);
    let grown = with_key(keys, later);
    assert(grown[i] == key);
    assert(grown.contains(key));
    let j = grown.index_of(key);
    if j != i {
        if j < keys.len() {
            assert(keys[j] == key);
        } else {
            assert(later == key);
            assert(keys.contains(later));
        }
    }
}

/// Assigns to each distinct text a surrogate key: 1 to the first text seen,
/// 2 to the next new one, and so on.
pub struct KeyTable {
    ids: StringHashMap<u64>,
    count: u64,
    keys: Ghost<Seq<Seq<char>>>,
}

impl KeyTable {
    /// The texts that have a key, in the order in which they got it.
    pub closed spec fn keys(&self) -> Seq<Seq<char>> {
        self.keys@
    }

    /// The table's invariant: the map holds exactly the keys, each with its
    /// place, and no text has two keys.
    pub closed spec fn wf(&self) -> bool {
        &&& self.keys@.no_duplicates()
        &&& self.count as nat == self.keys@.len()
        &&& forall|k: Seq<char>| #[trigger] self.ids@.contains_key(k) <==> self.keys@.contains(k)
        &&& forall|i: int|
            0 <= i < self.keys@.len() ==> self.ids@[#[trigger] self.keys@[i]] == i + 1
    }

    /// What a well-formed table guarantees to its users.
    pub proof fn lemma_wf(&self)
        requires
            self.wf(),
        ensures
            self.keys().no_duplicates(),
            self.keys().len() <= u64::MAX,
    {
    }

    /// A table without keys.
    pub fn new() -> (table: KeyTable)
        ensures
            table.wf(),
            table.keys() == Seq::<Seq<char>>::empty(),
    {
        KeyTable { ids: StringHashMap::new(), count: 0, keys: Ghost(Seq::empty()) }
    }

    /// The number of keys assigned so far.
    pub fn len(&self) -> (n: u64)
        requires
            self.wf(),
        ensures
            n as nat == self.keys().len(),
    {
        self.count
    }

    /// The key of `key`, if it has one.
    pub fn get(&self, key: &str) -> (id: Option<u64>)
        requires
            self.wf(),
        ensures
            match id {
                Some(n) => key_id(self.keys(), key@) == Some(n as nat),
                None => key_id(self.keys(), key@).is_none(),
            },
    {
        match self.ids.get(key) {
            Some(id) => {
                proof {
                    let i = self.keys@.index_of(key@);
                    assert(self.keys@[i] == key@);
                }
                Some(*id)
            },
            None => None,
        }
    }

    /// Returns the key of `key`, assigning the next free one if it has none.
    /// The flag says whether the key is new.
    pub fn intern(&mut self, key: &str) -> (res: (u64, bool))
        requires
            old(self).wf(),
            old(self).keys().len() < u64::MAX,
        ensures
            final(self).wf(),
            final(self).keys() == with_key(old(self).keys(), key@),
            key_id(final(self).keys(), key@) == Some(res.0 as nat),
            res.1 == !old(self).keys().contains(key@),
    {
        match self.get(key) {
            Some(id) => (id, false),
            None => {
                let id = self.count + 1;
                let ghost before = self.keys@;
                let ghost ids_before = self.ids@;
                self.ids.insert(key.to_owned(), id);
                self.count = id;
                self.keys = Ghost(before.push(key@));
                proof {
                    let after = self.keys@;
                    assert(after[before.len() as int] == key@);
                    assert forall|k: Seq<char>| #[trigger]
                        self.ids@.contains_key(k) <==> after.contains(k) by {
                        if after.contains(k) {
                            let i = choose|i: int| 0 <= i < after.len() && after[i] == k;
                            if i < before.len() {
                                assert(before[i] == k);
                                assert(before.contains(k));
                            }
                        }
                        if before.contains(k) {
                            let i = choose|i: int| 0 <= i < before.len() && before[i] == k;
                            assert(after[i] == k);
                        }
                    }
                    assert forall|i: int| 0 <= i < after.len() implies self.ids@[#[trigger] after[i]]
                        == i + 1 by {
                        if i < before.len() {
                            assert(before[i] == after[i]);
                            assert(before.contains(before[i]));
                        }
                    }
                    assert(after.no_duplicates()) by {
                        assert forall|i: int, j: int|
                            0 <= i < after.len() && 0 <= j < after.len() && i != j implies after[i]
                            != after[j] by {
                            if i < before.len() {
                                assert(before.contains(before[i]));
                            }
                            if j < before.len() {
                                assert(before.contains(before[j]));
                            }
                        }
                    }
                    lemma_key_id_at(after, before.len() as int);
                }
                (id, true)
            },
        }
    }
}

} // verus!
