//! The key-value mapping: unique string keys associated with string values,
//! unordered and growable. Backed by a pair of parallel vectors with unique
//! keys, so every operation is verified against a mathematical `Map` view.
//! Direct indexed read of an absent key is a fatal runtime fault, so that
//! read carries a precondition; `get` is the non-faulting alternative.

use vstd::prelude::*;

verus! {

/// A mapping from unique string keys to string values, such as book titles
/// to reviews.
pub struct ReviewMap {
    keys: Vec<String>,
    vals: Vec<String>,
}

/// No key occurs twice.
spec fn unique_keys(keys: Seq<Seq<char>>) -> bool {
    forall|i: int, j: int| 0 <= i < j < keys.len() ==> keys[i] != keys[j]
}

/// The map described by two parallel sequences: each key paired with the
/// value at the same position.
spec fn kv_map(keys: Seq<Seq<char>>, vals: Seq<Seq<char>>) -> Map<Seq<char>, Seq<char>>
    decreases keys.len(),
{
    if keys.len() == 0 || vals.len() == 0 {
        Map::empty()
    } else {
        kv_map(keys.drop_last(), vals.drop_last()).insert(keys.last(), vals.last())
    }
}

/// A key is in the map exactly when it occurs among the keys.
proof fn lemma_kv_map_dom(keys: Seq<Seq<char>>, vals: Seq<Seq<char>>)
    requires
        keys.len() == vals.len(),
    ensures
        forall|k: Seq<char>| #[trigger] kv_map(keys, vals).contains_key(k) <==> keys.contains(k),
    decreases keys.len(),
{
    if keys.len() > 0 {
        lemma_kv_map_dom(keys.drop_last(), vals.drop_last());
        assert forall|k: Seq<char>|
            #[trigger] kv_map(keys, vals).contains_key(k) <==> keys.contains(k) by {
            let rec = kv_map(keys.drop_last(), vals.drop_last());
            assert(kv_map(keys, vals) == rec.insert(keys.last(), vals.last()));
            if kv_map(keys, vals).contains_key(k) {
                if k == keys.last() {
                    assert(keys[keys.len() - 1] == k);
                } else {
                    assert(rec.contains_key(k));
                    assert(keys.drop_last().contains(k));
                    let i = choose|i: int|
                        0 <= i < keys.drop_last().len() && keys.drop_last()[i] == k;
                    assert(keys[i] == k);
                }
            }
            if keys.contains(k) {
                let i = choose|i: int| 0 <= i < keys.len() && keys[i] == k;
                if i < keys.len() - 1 {
                    assert(keys.drop_last()[i] == k);
                    assert(keys.drop_last().contains(k));
                    assert(rec.contains_key(k));
                }
            }
        }
    }
}

/// With unique keys, the map sends each key to the value at its position.
proof fn lemma_kv_map_index(keys: Seq<Seq<char>>, vals: Seq<Seq<char>>, i: int)
    requires
        keys.len() == vals.len(),
        unique_keys(keys),
        0 <= i < keys.len(),
    ensures
        kv_map(keys, vals).contains_key(keys[i]),
        kv_map(keys, vals)[keys[i]] == vals[i],
    decreases keys.len(),
{
    if i < keys.len() - 1 {
        assert(unique_keys(keys.drop_last()));
        lemma_kv_map_index(keys.drop_last(), vals.drop_last(), i);
        assert(keys[i] != keys.last());
    }
}

/// With unique keys, the map has exactly one entry per key.
proof fn lemma_kv_map_card(keys: Seq<Seq<char>>, vals: Seq<Seq<char>>)
    requires
        keys.len() == vals.len(),
        unique_keys(keys),
    ensures
        kv_map(keys, vals).dom().finite(),
        kv_map(keys, vals).dom().len() == keys.len(),
    decreases keys.len(),
{
    if keys.len() == 0 {
        assert(kv_map(keys, vals).dom() =~= Set::<Seq<char>>::empty());
    } else {
        assert(unique_keys(keys.drop_last()));
        lemma_kv_map_card(keys.drop_last(), vals.drop_last());
        lemma_kv_map_dom(keys.drop_last(), vals.drop_last());
        assert(!keys.drop_last().contains(keys.last())) by {
            if keys.drop_last().contains(keys.last()) {
                let i = choose|i: int|
                    0 <= i < keys.drop_last().len() && keys.drop_last()[i] == keys.last();
                assert(keys[i] == keys[keys.len() - 1]);
            }
        }
    }
}

/// Updating the value at a key's position is inserting at that key.
proof fn lemma_kv_map_update(keys: Seq<Seq<char>>, vals: Seq<Seq<char>>, i: int, v: Seq<char>)
    requires
        keys.len() == vals.len(),
        unique_keys(keys),
        0 <= i < keys.len(),
    ensures
        kv_map(keys, vals.update(i, v)) == kv_map(keys, vals).insert(keys[i], v),
    decreases keys.len(),
{
    let vu = vals.update(i, v);
    if i == keys.len() - 1 {
        assert(vu.drop_last() =~= vals.drop_last());
        assert(vu.last() == v);
        assert(kv_map(keys, vu) =~= kv_map(keys, vals).insert(keys[i], v));
    } else {
        assert(vu.drop_last() =~= vals.drop_last().update(i, v));
        assert(vu.last() == vals.last());
        assert(unique_keys(keys.drop_last()));
        lemma_kv_map_update(keys.drop_last(), vals.drop_last(), i, v);
        assert(keys[i] != keys.last());
        lemma_kv_map_index(keys.drop_last(), vals.drop_last(), i);
        assert(kv_map(keys, vu) =~= kv_map(keys, vals).insert(keys[i], v));
    }
}

/// Removing the entry at a key's position is removing that key.
proof fn lemma_kv_map_remove(keys: Seq<Seq<char>>, vals: Seq<Seq<char>>, i: int)
    requires
        keys.len() == vals.len(),
        unique_keys(keys),
        0 <= i < keys.len(),
    ensures
        unique_keys(keys.remove(i)),
        kv_map(keys.remove(i), vals.remove(i)) == kv_map(keys, vals).remove(keys[i]),
{
    let kr = keys.remove(i);
    let vr = vals.remove(i);
    assert(forall|j: int| 0 <= j < i ==> kr[j] == keys[j] && vr[j] == vals[j]);
    assert(forall|j: int| i <= j < kr.len() ==> kr[j] == keys[j + 1] && vr[j] == vals[j + 1]);
    assert(unique_keys(kr));
    lemma_kv_map_dom(keys, vals);
    lemma_kv_map_dom(kr, vr);
    assert forall|j: int| 0 <= j < kr.len() implies #[trigger] kv_map(kr, vr)[kr[j]] == vr[j] by {
        lemma_kv_map_index(kr, vr, j);
    }
    assert forall|j: int| 0 <= j < keys.len() implies #[trigger] kv_map(keys, vals)[keys[j]]
        == vals[j] by {
        lemma_kv_map_index(keys, vals, j);
    }
    assert forall|k: Seq<char>| #[trigger] kr.contains(k) implies keys.contains(k) && k != keys[i] by {
        let j = choose|j: int| 0 <= j < kr.len() && kr[j] == k;
        if j < i {
            assert(keys[j] == k);
        } else {
            assert(keys[j + 1] == k);
        }
    }
    assert forall|k: Seq<char>| keys.contains(k) && k != keys[i] implies #[trigger] kr.contains(
        k,
    ) by {
        let j = choose|j: int| 0 <= j < keys.len() && keys[j] == k;
        if j < i {
            assert(kr[j] == k);
        } else {
            assert(kr[j - 1] == k);
        }
    }
    assert forall|k: Seq<char>| #[trigger] kv_map(kr, vr).contains_key(k) implies kv_map(kr, vr)[k]
        == kv_map(keys, vals)[k] by {
        let j = choose|j: int| 0 <= j < kr.len() && kr[j] == k;
        assert(kv_map(kr, vr)[k] == vr[j]);
        if j < i {
            assert(kv_map(keys, vals)[keys[j]] == vals[j]);
        } else {
            assert(kv_map(keys, vals)[keys[j + 1]] == vals[j + 1]);
        }
    }
    assert(kv_map(kr, vr) =~= kv_map(keys, vals).remove(keys[i]));
}

impl ReviewMap {
    /// The contents of the keys, in storage order.
    closed spec fn key_views(&self) -> Seq<Seq<char>> {
        self.keys@.map_values(|k: String| k@)
    }

    /// The contents of the values, in storage order.
    closed spec fn val_views(&self) -> Seq<Seq<char>> {
        self.vals@.map_values(|v: String| v@)
    }

    /// Well-formedness: one value per key, and no key occurs twice.
    pub closed spec fn wf(&self) -> bool {
        &&& self.keys@.len() == self.vals@.len()
        &&& unique_keys(self.key_views())
    }

    /// The mapping as a mathematical `Map` from key contents to value
    /// contents.
    pub closed spec fn view(&self) -> Map<Seq<char>, Seq<char>> {
        kv_map(self.key_views(), self.val_views())
    }

    /// Construct an empty mapping.
    pub fn new() -> (r: ReviewMap)
        ensures
            r.wf(),
            r@ == Map::<Seq<char>, Seq<char>>::empty(),
    {
        ReviewMap { keys: Vec::new(), vals: Vec::new() }
    }

    /// The position of a key among the stored keys, if it is present.
    fn find(&self, key: &String) -> (r: Option<usize>)
        ensures
            match r {
                Some(i) => i < self.keys@.len() && self.keys@[i as int]@ == key@,
                None => forall|i: int| 0 <= i < self.keys@.len() ==> self.keys@[i]@ != key@,
            },
    {
        let mut i: usize = 0;
        while i < self.keys.len()
            invariant
                i <= self.keys@.len(),
                forall|j: int| 0 <= j < i ==> self.keys@[j]@ != key@,
            decreases self.keys@.len() - i,
        {
            if self.keys[i] == *key {
                return Some(i);
            }
            i = i + 1;
        }
        None
    }

    /// The number of entries.
    pub fn len(&self) -> (r: usize)
        requires
            self.wf(),
        ensures
            r == self@.dom().len(),
    {
        proof {
            lemma_kv_map_card(self.key_views(), self.val_views());
        }
        self.keys.len()
    }

    /// Whether a key is present. No side effect, never faults.
    pub fn contains(&self, key: &String) -> (r: bool)
        requires
            self.wf(),
        ensures
            r == self@.contains_key(key@),
    {
        proof {
            lemma_kv_map_dom(self.key_views(), self.val_views());
        }
        match self.find(key) {
            Some(i) => {
                proof {
                    assert(self.key_views()[i as int] == key@);
                    assert(self.key_views().contains(key@));
                }
                true
            },
            None => {
                proof {
                    if self.key_views().contains(key@) {
                        let j = choose|j: int|
                            0 <= j < self.key_views().len() && self.key_views()[j] == key@;
                        assert(self.keys@[j]@ == key@);
                    }
                }
                false
            },
        }
    }

    /// Associate a value with a key, overwriting any value the key had.
    pub fn insert(&mut self, key: String, val: String)
        requires
            old(self).wf(),
        ensures
            final(self).wf(),
            final(self)@ == old(self)@.insert(key@, val@),
    {
        let ghost kq = self.key_views();
        let ghost vq = self.val_views();
        match self.find(&key) {
            Some(i) => {
                self.vals.set(i, val);
                proof {
                    assert(self.val_views() =~= vq.update(i as int, val@));
                    lemma_kv_map_update(kq, vq, i as int, val@);
                    assert(kq[i as int] == key@);
                }
            },
            None => {
                self.keys.push(key);
                self.vals.push(val);
                proof {
                    assert(self.key_views() =~= kq.push(key@));
                    assert(self.val_views() =~= vq.push(val@));
                    assert(self.key_views().drop_last() =~= kq);
                    assert(self.val_views().drop_last() =~= vq);
                    assert(unique_keys(self.key_views())) by {
                        assert(forall|j: int| 0 <= j < kq.len() ==> kq[j] != key@);
                    }
                }
            },
        }
    }

    /// Whether a value is associated with the key; the non-faulting lookup.
    pub fn get<'a>(&'a self, key: &String) -> (r: Option<&'a String>)
        requires
            self.wf(),
        ensures
            match r {
                Some(v) => self@.contains_key(key@) && v@ == self@[key@],
                None => !self@.contains_key(key@),
            },
    {
        proof {
            lemma_kv_map_dom(self.key_views(), self.val_views());
        }
        match self.find(key) {
            Some(i) => {
                proof {
                    lemma_kv_map_index(self.key_views(), self.val_views(), i as int);
                    assert(self.key_views()[i as int] == key@);
                }
                Some(&self.vals[i])
            },
            None => {
                proof {
                    if self.key_views().contains(key@) {
                        let j = choose|j: int|
                            0 <= j < self.key_views().len() && self.key_views()[j] == key@;
                        assert(self.keys@[j]@ == key@);
                    }
                }
                None
            },
        }
    }

    /// Direct indexed read by key. An absent key is a fatal runtime fault,
    /// so the precondition admits only present keys; for any other key use
    /// `get`.
    pub fn read<'a>(&'a self, key: &String) -> (r: &'a String)
        requires
            self.wf(),
            self@.contains_key(key@),
        ensures
            r@ == self@[key@],
    {
        proof {
            lemma_kv_map_dom(self.key_views(), self.val_views());
        }
        match self.find(key) {
            Some(i) => {
                proof {
                    lemma_kv_map_index(self.key_views(), self.val_views(), i as int);
                    assert(self.key_views()[i as int] == key@);
                }
                &self.vals[i]
            },
            None => {
                proof {
                    let j = choose|j: int|
                        0 <= j < self.key_views().len() && self.key_views()[j] == key@;
                    assert(self.keys@[j]@ == key@);
                }
                vstd::pervasive::unreached()
            },
        }
    }

    /// Delete the entry for a key if present; a no-op if the key is absent.
    pub fn remove(&mut self, key: &String)
        requires
            old(self).wf(),
        ensures
            final(self).wf(),
            final(self)@ == old(self)@.remove(key@),
    {
        let ghost kq = self.key_views();
        let ghost vq = self.val_views();
        match self.find(key) {
            Some(i) => {
                self.keys.remove(i);
                self.vals.remove(i);
                proof {
                    assert(self.key_views() =~= kq.remove(i as int));
                    assert(self.val_views() =~= vq.remove(i as int));
                    lemma_kv_map_remove(kq, vq, i as int);
                    assert(kq[i as int] == key@);
                }
            },
            None => {
                proof {
                    lemma_kv_map_dom(kq, vq);
                    if kq.contains(key@) {
                        let j = choose|j: int| 0 <= j < kq.len() && kq[j] == key@;
                        assert(self.keys@[j]@ == key@);
                    }
                    assert(self@.remove(key@) =~= self@);
                }
            },
        }
    }
}

} // verus!
