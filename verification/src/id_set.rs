//! A set of region ids that keeps insertion order.
//!
//! Selection, marquee hits and selection-change reports are all sets of
//! region ids. The ids are kept in a vector without repetitions, so the
//! set can be walked in a fixed order (drag callbacks fire in that order)
//! and its membership is decided by plain string equality.

use vstd::prelude::*;

verus! {

/// A finite set of region ids, kept in insertion order.
#[derive(Debug)]
pub struct IdSet {
    ids: Vec<String>,
}

impl IdSet {
    /// The ids in iteration order, as character sequences.
    pub closed spec fn keys(&self) -> Seq<Seq<char>> {
        self.ids@.map_values(|s: String| s@)
    }

    /// No id occurs twice.
    #[verifier::type_invariant]
    closed spec fn no_repeats(&self) -> bool {
        self.keys().no_duplicates()
    }
}

/// `base` followed by the entries of `extra` that are not already present,
/// in `extra`'s order.
pub open spec fn appended(base: Seq<Seq<char>>, extra: Seq<Seq<char>>) -> Seq<Seq<char>>
    decreases extra.len(),
{
    if extra.len() == 0 {
        base
    } else {
        let head = appended(base, extra.drop_last());
        if head.contains(extra.last()) {
            head
        } else {
            head.push(extra.last())
        }
    }
}

/// `appended(base, extra)` starts with `base` unchanged, and each entry
/// after it comes from `extra` and is not in `base`.
pub proof fn lemma_appended_extends(base: Seq<Seq<char>>, extra: Seq<Seq<char>>)
    ensures
        appended(base, extra).len() >= base.len(),
        appended(base, extra).take(base.len() as int) == base,
        forall|k: int|
            base.len() <= k < appended(base, extra).len() ==> extra.contains(
                #[trigger] appended(base, extra)[k],
            ) && !base.contains(appended(base, extra)[k]),
    decreases extra.len(),
{
    if extra.len() > 0 {
        let prev = extra.drop_last();
        lemma_appended_extends(base, prev);
        let head = appended(base, prev);
        let cur = appended(base, extra);
        assert forall|k: int| base.len() <= k < cur.len() implies extra.contains(#[trigger] cur[k])
            && !base.contains(cur[k]) by {
            if k < head.len() {
                assert(cur[k] == head[k]);
                assert(prev.contains(head[k]));
                let j = choose|j: int| 0 <= j < prev.len() && prev[j] == head[k];
                assert(extra[j] == prev[j]);
            } else {
                assert(cur[k] == extra.last());
                assert(extra[extra.len() - 1] == extra.last());
                if base.contains(extra.last()) {
                    let j = choose|j: int| 0 <= j < base.len() && base[j] == extra.last();
                    assert(head.take(base.len() as int)[j] == head[j]);
                    assert(head.contains(extra.last()));
                }
            }
        }
        assert(cur.take(base.len() as int) =~= head.take(base.len() as int));
    } else {
        assert(base.take(base.len() as int) =~= base);
    }
}

impl View for IdSet {
    type V = Set<Seq<char>>;

    open spec fn view(&self) -> Set<Seq<char>> {
        self.keys().to_set()
    }
}

impl Clone for IdSet {
    fn clone(&self) -> (res: Self)
        ensures
            res@ == self@,
            res.keys() == self.keys(),
    {
        proof {
            use_type_invariant(self);
        }
        let mut ids: Vec<String> = Vec::new();
        let n = self.ids.len();
        let mut i: usize = 0;
        while i < n
            invariant
                n == self.ids.len(),
                i <= n,
                ids@.map_values(|s: String| s@) == self.keys().take(i as int),
            decreases n - i,
        {
            let s = self.ids[i].clone();
            let ghost before = ids@;
            ids.push(s);
            proof {
                before.lemma_push_map_commute(|s: String| s@, s);
                assert(ids@.map_values(|s: String| s@) =~= self.keys().take(i + 1));
            }
            i = i + 1;
        }
        assert(self.keys().take(n as int) =~= self.keys());
        IdSet { ids }
    }
}

impl IdSet {
    /// An empty set.
    pub fn new() -> (res: Self)
        ensures
            res@ == Set::<Seq<char>>::empty(),
            res.keys() == Seq::<Seq<char>>::empty(),
    {
        let res = IdSet { ids: Vec::new() };
        assert(res.keys() =~= Seq::<Seq<char>>::empty());
        assert(res@ =~= Set::<Seq<char>>::empty());
        res
    }

    /// Number of ids in the set.
    pub fn len(&self) -> (res: usize)
        ensures
            res == self@.len(),
            res == self.keys().len(),
    {
        proof {
            use_type_invariant(self);
            self.keys().unique_seq_to_set();
        }
        self.ids.len()
    }

    /// Whether the set holds no id.
    pub fn is_empty(&self) -> (res: bool)
        ensures
            res <==> self@ == Set::<Seq<char>>::empty(),
            res <==> self.keys().len() == 0,
    {
        proof {
            if self.keys().len() > 0 {
                assert(self@.contains(self.keys()[0]));
            } else {
                assert(self@ =~= Set::<Seq<char>>::empty());
            }
        }
        self.ids.len() == 0
    }

    /// The id at position `i` of the iteration order.
    pub fn get(&self, i: usize) -> (res: &String)
        requires
            i < self.keys().len(),
        ensures
            res@ == self.keys()[i as int],
    {
        &self.ids[i]
    }

    /// Position of `id` in the iteration order, if it is present.
    fn position(&self, id: &String) -> (res: Option<usize>)
        ensures
            match res {
                Some(i) => i < self.keys().len() && self.keys()[i as int] == id@,
                None => !self.keys().contains(id@),
            },
    {
        let n = self.ids.len();
        let mut i: usize = 0;
        while i < n
            invariant
                n == self.ids.len(),
                i <= n,
                forall|j: int| 0 <= j < i ==> self.keys()[j] != id@,
            decreases n - i,
        {
            if self.ids[i] == *id {
                return Some(i);
            }
            i = i + 1;
        }
        None
    }

    /// Whether `id` is in the set.
    pub fn contains(&self, id: &str) -> (res: bool)
        ensures
            res == self@.contains(id@),
    {
        let key = id.to_owned();
        match self.position(&key) {
            Some(_) => true,
            None => false,
        }
    }

    /// Adds `id`; returns whether it was absent before. A new id goes to
    /// the end of the iteration order.
    pub fn insert(&mut self, id: String) -> (res: bool)
        ensures
            res == !old(self)@.contains(id@),
            final(self)@ == old(self)@.insert(id@),
            res ==> final(self).keys() == old(self).keys().push(id@),
            !res ==> final(self).keys() == old(self).keys(),
    {
        proof {
            use_type_invariant(&*self);
        }
        match self.position(&id) {
            Some(_) => {
                assert(self@ =~= self@.insert(id@));
                false
            },
            None => {
                let ghost old_keys = self.keys();
                let mut ids: Vec<String> = Vec::new();
                std::mem::swap(&mut ids, &mut self.ids);
                ids.push(id);
                proof {
                    let ghost pushed = id;
                    self.ids@.lemma_push_map_commute(|s: String| s@, pushed);
                    assert(ids@.map_values(|s: String| s@) =~= old_keys.push(id@));
                    old_keys.lemma_push_to_set_commute(id@);
                }
                self.ids = ids;
                assert(self.keys() =~= old_keys.push(id@));
                assert(self@ =~= old_keys.to_set().insert(id@));
                true
            },
        }
    }

    /// Removes `id`; returns whether it was present. The other ids keep
    /// their order.
    pub fn remove(&mut self, id: &str) -> (res: bool)
        ensures
            res == old(self)@.contains(id@),
            final(self)@ == old(self)@.remove(id@),
    {
        proof {
            use_type_invariant(&*self);
        }
        let key = id.to_owned();
        match self.position(&key) {
            Some(i) => {
                let ghost old_keys = self.keys();
                let mut ids: Vec<String> = Vec::new();
                std::mem::swap(&mut ids, &mut self.ids);
                ids.remove(i);
                proof {
                    assert(ids@.map_values(|s: String| s@) =~= old_keys.remove(i as int));
                    old_keys.remove_ensures(i as int);
                }
                self.ids = ids;
                assert(self.keys() =~= old_keys.remove(i as int));
                assert forall|k: Seq<char>| #[trigger] self@.contains(k) == old_keys.to_set().remove(id@).contains(k) by {
                    if old_keys.contains(k) && k != id@ {
                        let j = choose|j: int| 0 <= j < old_keys.len() && old_keys[j] == k;
                        assert(j != i);
                        if j < i {
                            assert(self.keys()[j] == k);
                        } else {
                            assert(self.keys()[j - 1] == k);
                        }
                    }
                    if self.keys().contains(k) {
                        let j = choose|j: int| 0 <= j < self.keys().len() && self.keys()[j] == k;
                        if j < i {
                            assert(old_keys[j] == k);
                        } else {
                            assert(old_keys[j + 1] == k);
                        }
                    }
                }
                assert(self@ =~= old_keys.to_set().remove(id@));
                true
            },
            None => {
                assert(self@ =~= self@.remove(id@));
                false
            },
        }
    }

    /// Removes every id.
    pub fn clear(&mut self)
        ensures
            final(self)@ == Set::<Seq<char>>::empty(),
            final(self).keys() == Seq::<Seq<char>>::empty(),
    {
        self.ids = Vec::new();
        assert(self.keys() =~= Seq::<Seq<char>>::empty());
        assert(self@ =~= Set::<Seq<char>>::empty());
    }

    /// Adds every id of `other` that is not yet present, in `other`'s order.
    pub fn extend(&mut self, other: &IdSet)
        ensures
            final(self)@ == old(self)@.union(other@),
            final(self).keys() == appended(old(self).keys(), other.keys()),
            final(self).keys().take(old(self).keys().len() as int) == old(self).keys(),
    {
        let n = other.len();
        let mut i: usize = 0;
        while i < n
            invariant
                n == other.keys().len(),
                i <= n,
                self@ == old(self)@.union(other.keys().take(i as int).to_set()),
                self.keys() == appended(old(self).keys(), other.keys().take(i as int)),
            decreases n - i,
        {
            let id = other.get(i).clone();
            proof {
                assert(other.keys().take(i + 1).drop_last() =~= other.keys().take(i as int));
            }
            self.insert(id);
            assert(other.keys().take(i + 1) =~= other.keys().take(i as int).push(other.keys()[i as int]));
            proof {
                other.keys().take(i as int).lemma_push_to_set_commute(other.keys()[i as int]);
            }
            assert(self@ =~= old(self)@.union(other.keys().take(i + 1).to_set()));
            i = i + 1;
        }
        assert(other.keys().take(n as int) =~= other.keys());
        proof {
            lemma_appended_extends(old(self).keys(), other.keys());
        }
    }

    /// The ids of `self` that are not in `other`, in `self`'s order.
    pub fn difference(&self, other: &IdSet) -> (res: IdSet)
        ensures
            res@ == self@.difference(other@),
    {
        let mut res = IdSet::new();
        let n = self.len();
        let mut i: usize = 0;
        while i < n
            invariant
                n == self.keys().len(),
                i <= n,
                res@ == self.keys().take(i as int).to_set().difference(other@),
            decreases n - i,
        {
            let id = self.get(i);
            if !other.contains(id.as_str()) {
                res.insert(id.clone());
            }
            assert(self.keys().take(i + 1) =~= self.keys().take(i as int).push(self.keys()[i as int]));
            proof {
                self.keys().take(i as int).lemma_push_to_set_commute(self.keys()[i as int]);
            }
            assert(res@ =~= self.keys().take(i + 1).to_set().difference(other@));
            i = i + 1;
        }
        assert(self.keys().take(n as int) =~= self.keys());
        res
    }
}

} // verus!
