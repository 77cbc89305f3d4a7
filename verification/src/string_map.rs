//! A small map from text to text.
use vstd::prelude::*;

verus! {

/// A map from text to text, for the few parameters of a definition.
#[derive(Debug)]
pub struct StringMap {
    entries: Vec<(String, String)>,
}

/// The entry of `key` among `entries`, if there is one.
spec fn position_of(entries: Seq<(String, String)>, key: Seq<char>) -> int {
    choose|i: int| 0 <= i < entries.len() && (#[trigger] entries[i]).0@ == key
}

/// Some entry has that key.
spec fn has_key(entries: Seq<(String, String)>, key: Seq<char>) -> bool {
    exists|i: int| 0 <= i < entries.len() && (#[trigger] entries[i]).0@ == key
}

/// No key comes twice.
spec fn distinct_keys(entries: Seq<(String, String)>) -> bool {
    forall|i: int, j: int|
        0 <= i < j < entries.len() ==> (#[trigger] entries[i]).0@ != (#[trigger] entries[j]).0@
}

impl View for StringMap {
    type V = Map<Seq<char>, Seq<char>>;

    closed spec fn view(&self) -> Map<Seq<char>, Seq<char>> {
        Map::new(
            |key: Seq<char>| has_key(self.entries@, key),
            |key: Seq<char>| self.entries@[position_of(self.entries@, key)].1@,
        )
    }
}

impl StringMap {
    #[verifier::type_invariant]
    spec fn distinct(&self) -> bool {
        distinct_keys(self.entries@)
    }

    /// An entry is what the map holds under its key.
    proof fn lemma_entry(&self, i: int)
        requires
            distinct_keys(self.entries@),
            0 <= i < self.entries@.len(),
        ensures
            self@.contains_key(self.entries@[i].0@),
            self@[self.entries@[i].0@] == self.entries@[i].1@,
    {
        let key = self.entries@[i].0@;
        assert(has_key(self.entries@, key));
        let p = position_of(self.entries@, key);
        assert(p == i) by {
            if p < i {
                assert(self.entries@[p].0@ != self.entries@[i].0@);
            } else if i < p {
                assert(self.entries@[i].0@ != self.entries@[p].0@);
            }
        }
    }

    /// The map without entries.
    pub fn new() -> (r: Self)
        ensures
            r@ == Map::<Seq<char>, Seq<char>>::empty(),
    {
        let r = StringMap { entries: Vec::new() };
        assert(r@ =~= Map::<Seq<char>, Seq<char>>::empty());
        r
    }

    /// What the map holds under `key`.
    pub fn get(&self, key: &str) -> (r: Option<&String>)
        ensures
            match r {
                Some(v) => self@.contains_key(key@) && v@ == self@[key@],
                None => !self@.contains_key(key@),
            },
    {
        proof {
            use_type_invariant(self);
        }
        let wanted = key.to_owned();
        let mut i: usize = 0;
        while i < self.entries.len()
            invariant
                i <= self.entries@.len(),
                wanted@ == key@,
                distinct_keys(self.entries@),
                forall|j: int| 0 <= j < i ==> (#[trigger] self.entries@[j]).0@ != key@,
            decreases self.entries@.len() - i,
        {
            if self.entries[i].0 == wanted {
                proof {
                    self.lemma_entry(i as int);
                }
                return Some(&self.entries[i].1);
            }
            i = i + 1;
        }
        None
    }

    /// Holds `value` under `key`, in place of what was held there.
    pub fn insert(&mut self, key: String, value: String)
        ensures
            final(self)@ == old(self)@.insert(key@, value@),
    {
        proof {
            use_type_invariant(&*self);
        }
        let ghost before = self@;
        let ghost old_entries = self.entries@;
        let ghost old_self = *self;
        let mut entries: Vec<(String, String)> = Vec::new();
        std::mem::swap(&mut entries, &mut self.entries);
        let mut i: usize = 0;
        while i < entries.len()
            invariant
                i <= entries@.len(),
                entries@ == old_entries,
                forall|j: int| 0 <= j < i ==> (#[trigger] entries@[j]).0@ != key@,
            ensures
                i < entries@.len() ==> entries@[i as int].0@ == key@,
            decreases entries@.len() - i,
        {
            if entries[i].0 == key {
                break;
            }
            i = i + 1;
        }
        if i < entries.len() {
            entries.set(i, (key, value));
        } else {
            entries.push((key, value));
        }
        let ghost now = entries@;
        proof {
            assert forall|a: int, b: int| 0 <= a < b < now.len() implies (#[trigger] now[a]).0@ != (
            #[trigger] now[b]).0@ by {
                if a != i && a < old_entries.len() {
                    assert(now[a] == old_entries[a]);
                }
                if b != i && b < old_entries.len() {
                    assert(now[b] == old_entries[b]);
                }
                if i < old_entries.len() {
                    assert(old_entries[i as int].0@ == key@);
                }
            }
        }
        self.entries = entries;
        proof {
            assert forall|k: Seq<char>| #[trigger] self@.dom().contains(k) == before.insert(
                key@,
                value@,
            ).dom().contains(k) by {
                if has_key(old_entries, k) && k != key@ {
                    let p = position_of(old_entries, k);
                    assert(now[p] == old_entries[p]);
                    assert(has_key(now, k));
                }
                if has_key(now, k) && k != key@ {
                    let p = position_of(now, k);
                    assert(now[p] == old_entries[p]);
                    assert(has_key(old_entries, k));
                }
                assert(now[i as int].0@ == key@);
                assert(has_key(now, key@));
            }
            assert forall|k: Seq<char>| #[trigger] self@.contains_key(k) implies self@[k]
                == before.insert(key@, value@)[k] by {
                let p = position_of(now, k);
                self.lemma_entry(p);
                if k != key@ {
                    assert(now[p] == old_entries[p]);
                    old_self.lemma_entry(p);
                } else {
                    self.lemma_entry(i as int);
                }
            }
            assert(self@ =~= before.insert(key@, value@));
        }
    }

    /// The number of entries.
    pub fn len(&self) -> (n: usize)
        ensures
            n == self@.dom().len(),
            self@.dom().finite(),
    {
        proof {
            use_type_invariant(self);
            self.lemma_size(self.entries@.len());
            assert(self@.dom() =~= self.keys(self.entries@.len()));
        }
        self.entries.len()
    }

    /// The keys of the first `n` entries.
    spec fn keys(&self, n: nat) -> Set<Seq<char>> {
        Set::new(
            |key: Seq<char>|
                exists|i: int| 0 <= i < n && (#[trigger] self.entries@[i]).0@ == key,
        )
    }

    /// There are as many keys as entries.
    proof fn lemma_size(&self, n: nat)
        requires
            distinct_keys(self.entries@),
            n <= self.entries@.len(),
        ensures
            self.keys(n).finite(),
            self.keys(n).len() == n,
        decreases n,
    {
        if n == 0 {
            assert(self.keys(0) =~= Set::empty());
        } else {
            let m = (n - 1) as nat;
            self.lemma_size(m);
            let key = self.entries@[m as int].0@;
            assert(!self.keys(m).contains(key));
            assert(self.keys(n) =~= self.keys(m).insert(key)) by {
                assert forall|k: Seq<char>| self.keys(n).contains(k) == self.keys(m).insert(
                    key,
                ).contains(k) by {
                    assert(self.entries@[m as int].0@ == key);
                }
            }
        }
    }
}

impl Clone for StringMap {
    fn clone(&self) -> (r: Self)
        ensures
            r@ == self@,
    {
        proof {
            use_type_invariant(self);
        }
        let mut entries: Vec<(String, String)> = Vec::with_capacity(self.entries.len());
        let mut i: usize = 0;
        while i < self.entries.len()
            invariant
                i <= self.entries@.len(),
                entries@ == self.entries@.take(i as int),
            decreases self.entries@.len() - i,
        {
            entries.push((self.entries[i].0.clone(), self.entries[i].1.clone()));
            assert(entries@ =~= self.entries@.take(i + 1));
            i = i + 1;
        }
        assert(self.entries@.take(self.entries@.len() as int) =~= self.entries@);
        StringMap { entries }
    }
}

impl PartialEq for StringMap {
    fn eq(&self, other: &Self) -> (r: bool) {
        proof {
            use_type_invariant(self);
        }
        let n: usize = self.len();
        let m: usize = other.len();
        if n != m {
            return false;
        }
        let mut i: usize = 0;
        while i < self.entries.len()
            invariant
                i <= self.entries@.len(),
                distinct_keys(self.entries@),
                forall|j: int|
                    0 <= j < i ==> other@.contains_key((#[trigger] self.entries@[j]).0@)
                        && other@[self.entries@[j].0@] == self.entries@[j].1@,
            decreases self.entries@.len() - i,
        {
            proof {
                self.lemma_entry(i as int);
            }
            match other.get(self.entries[i].0.as_str()) {
                Some(v) => {
                    if *v != self.entries[i].1 {
                        return false;
                    }
                },
                None => {
                    return false;
                },
            }
            i = i + 1;
        }
        proof {
            assert forall|k: Seq<char>| #[trigger] self@.contains_key(k) implies other@.contains_key(k)
                && other@[k] == self@[k] by {
                let p = position_of(self.entries@, k);
                self.lemma_entry(p);
            }
            assert(self@.dom().subset_of(other@.dom()));
            vstd::set_lib::lemma_subset_equality(self@.dom(), other@.dom());
            assert(self@ =~= other@);
        }
        true
    }
}

impl vstd::std_specs::cmp::PartialEqSpecImpl for StringMap {
    open spec fn obeys_eq_spec() -> bool {
        true
    }

    open spec fn eq_spec(&self, other: &Self) -> bool {
        self@ == other@
    }
}

impl Eq for StringMap {

}

} // verus!
