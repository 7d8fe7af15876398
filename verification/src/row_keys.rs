//! Keys that name the rows of a plan, and sets of them.

use vstd::prelude::*;

use crate::text::same_text;

verus! {

/// The key of a row: the path on the side it acts on. Keys of the two sides never
/// collide, even where the paths are equal.
#[derive(Debug, PartialEq, Eq)]
pub enum RowKey {
    /// A row that acts on a file of the source.
    Source(String),
    /// A row that has a target side only.
    Target(String),
}

/// A key's contents.
pub enum KeyModel {
    Source(Seq<char>),
    Target(Seq<char>),
}

impl View for RowKey {
    type V = KeyModel;

    open spec fn view(&self) -> KeyModel {
        match self {
            RowKey::Source(s) => KeyModel::Source(s@),
            RowKey::Target(s) => KeyModel::Target(s@),
        }
    }
}

impl Clone for RowKey {
    fn clone(&self) -> (r: Self)
        ensures
            r@ == self@,
    {
        match self {
            RowKey::Source(s) => RowKey::Source(s.clone()),
            RowKey::Target(s) => RowKey::Target(s.clone()),
        }
    }
}

impl RowKey {
    /// Whether two keys name the same row.
    pub fn same(&self, other: &RowKey) -> (r: bool)
        ensures
            r == (self@ == other@),
    {
        match (self, other) {
            (RowKey::Source(a), RowKey::Source(b)) => same_text(a.as_str(), b.as_str()),
            (RowKey::Target(a), RowKey::Target(b)) => same_text(a.as_str(), b.as_str()),
            _ => false,
        }
    }

    /// The path that the key holds.
    pub fn path(&self) -> (r: &str)
        ensures
            r@ == match self@ {
                KeyModel::Source(s) => s,
                KeyModel::Target(s) => s,
            },
    {
        match self {
            RowKey::Source(s) => s.as_str(),
            RowKey::Target(s) => s.as_str(),
        }
    }
}

/// The contents of each key of a list.
pub open spec fn key_models(keys: Seq<RowKey>) -> Seq<KeyModel> {
    Seq::new(keys.len(), |i: int| keys[i]@)
}

/// A set of row keys.
#[derive(Debug)]
pub struct KeySet {
    pub keys: Vec<RowKey>,
}

impl View for KeySet {
    type V = Set<KeyModel>;

    open spec fn view(&self) -> Set<KeyModel> {
        key_models(self.keys@).to_set()
    }
}

impl KeySet {
    /// No key is held twice.
    pub open spec fn wf(&self) -> bool {
        key_models(self.keys@).no_duplicates()
    }

    /// The empty set.
    pub fn new() -> (r: Self)
        ensures
            r.wf(),
            r@ == Set::<KeyModel>::empty(),
    {
        let r = KeySet { keys: Vec::new() };
        assert(r@ =~= Set::<KeyModel>::empty());
        r
    }

    /// The same set again.
    pub fn copy(&self) -> (r: Self)
        ensures
            r@ == self@,
            self.wf() ==> r.wf(),
    {
        let mut keys: Vec<RowKey> = Vec::new();
        let mut i: usize = 0;
        while i < self.keys.len()
            invariant
                i <= self.keys@.len(),
                key_models(keys@) == key_models(self.keys@).take(i as int),
            decreases self.keys@.len() - i,
        {
            let ghost was = keys@;
            keys.push(self.keys[i].clone());
            assert(key_models(keys@) =~= key_models(was).push(self.keys@[i as int]@));
            i += 1;
            assert(key_models(keys@) =~= key_models(self.keys@).take(i as int));
        }
        assert(key_models(keys@) =~= key_models(self.keys@));
        KeySet { keys }
    }

    /// Whether a key is in the set.
    pub fn has(&self, key: &RowKey) -> (r: bool)
        ensures
            r == self@.contains(key@),
    {
        let mut i: usize = 0;
        while i < self.keys.len()
            invariant
                i <= self.keys@.len(),
                forall|j: int| 0 <= j < i ==> (#[trigger] self.keys@[j])@ != key@,
            decreases self.keys@.len() - i,
        {
            if self.keys[i].same(key) {
                assert(key_models(self.keys@)[i as int] == key@);
                return true;
            }
            i += 1;
        }
        proof {
            if key_models(self.keys@).contains(key@) {
                let j = key_models(self.keys@).index_of(key@);
                assert(self.keys@[j]@ == key@);
            }
        }
        false
    }

    /// How many keys the set holds.
    pub fn len(&self) -> (r: usize)
        requires
            self.wf(),
        ensures
            r == self@.len(),
    {
        proof {
            key_models(self.keys@).unique_seq_to_set();
        }
        self.keys.len()
    }

    /// Whether the set is empty.
    pub fn is_empty(&self) -> (r: bool)
        ensures
            r == (self@ == Set::<KeyModel>::empty()),
    {
        proof {
            if self.keys@.len() == 0 {
                assert(self@ =~= Set::<KeyModel>::empty());
            } else {
                assert(key_models(self.keys@).contains(key_models(self.keys@)[0]));
                assert(self@.contains(key_models(self.keys@)[0]));
            }
        }
        self.keys.len() == 0
    }

    /// Adds a key.
    pub fn insert(&mut self, key: RowKey)
        ensures
            final(self)@ == old(self)@.insert(key@),
            old(self).wf() ==> final(self).wf(),
    {
        let ghost before = key_models(self.keys@);
        let ghost set = self@;
        if self.has(&key) {
            assert(set =~= set.insert(key@));
            return;
        }
        self.keys.push(key);
        proof {
            let now = key_models(self.keys@);
            assert(now =~= before.push(key@));
            assert forall|x: KeyModel| #[trigger] now.to_set().contains(x)
                <==> set.insert(key@).contains(x) by {
                lemma_push_contains(before, key@, x);
            }
            assert(now.to_set() =~= set.insert(key@));
            if before.no_duplicates() {
                assert forall|i: int, j: int|
                    0 <= i < now.len() && 0 <= j < now.len() && i != j implies now[i] != now[j] by {
                    if i == before.len() || j == before.len() {
                        assert(forall|k: int|
                            0 <= k < before.len() ==> before.contains(#[trigger] before[k]));
                    }
                }
            }
        }
    }

    /// Takes a key out.
    pub fn remove(&mut self, key: &RowKey)
        ensures
            final(self)@ == old(self)@.remove(key@),
            old(self).wf() ==> final(self).wf(),
    {
        let ghost before = key_models(self.keys@);
        let ghost set = self@;
        let ghost unique = self.wf();
        let mut kept: Vec<RowKey> = Vec::new();
        let mut i: usize = 0;
        while i < self.keys.len()
            invariant
                i <= self.keys@.len(),
                before == key_models(self.keys@),
                forall|x: KeyModel| #[trigger]
                    key_models(kept@).contains(x) <==> before.take(i as int).contains(x) && x
                        != key@,
                unique ==> key_models(kept@).no_duplicates(),
                unique ==> before.no_duplicates(),
            decreases self.keys@.len() - i,
        {
            let ghost part = key_models(kept@);
            let ghost x = before[i as int];
            proof {
                assert(before.take(i + 1) =~= before.take(i as int).push(x));
                assert forall|y: KeyModel| #[trigger] before.take(i + 1).contains(y)
                    <==> before.take(i as int).contains(y) || y == x by {
                    lemma_push_contains(before.take(i as int), x, y);
                }
            }
            if !self.keys[i].same(key) {
                kept.push(self.keys[i].clone());
                proof {
                    assert(key_models(kept@) =~= part.push(x));
                    assert forall|y: KeyModel| #[trigger] part.push(x).contains(y)
                        <==> part.contains(y) || y == x by {
                        lemma_push_contains(part, x, y);
                    }
                    if unique {
                        assert(!part.contains(x)) by {
                            if before.take(i as int).contains(x) {
                                let k = before.take(i as int).index_of(x);
                                assert(before[k] == before[i as int]);
                            }
                        }
                        let now = part.push(x);
                        assert forall|a: int, b: int|
                            0 <= a < now.len() && 0 <= b < now.len() && a != b implies now[a]
                            != now[b] by {
                            if a == part.len() || b == part.len() {
                                assert(forall|k: int|
                                    0 <= k < part.len() ==> part.contains(#[trigger] part[k]));
                            }
                        }
                    }
                }
            }
            i += 1;
        }
        proof {
            assert(before.take(i as int) =~= before);
            assert forall|x: KeyModel| #[trigger] key_models(kept@).to_set().contains(x)
                <==> set.remove(key@).contains(x) by {
                assert(key_models(kept@).contains(x) <==> before.contains(x) && x != key@);
            }
            assert(key_models(kept@).to_set() =~= set.remove(key@));
        }
        self.keys = kept;
    }

    /// Takes a key out if it is in, adds it if it is not.
    pub fn toggle(&mut self, key: RowKey)
        ensures
            final(self)@ == toggled(old(self)@, key@),
            old(self).wf() ==> final(self).wf(),
    {
        if self.has(&key) {
            self.remove(&key);
        } else {
            self.insert(key);
        }
    }
}

proof fn lemma_push_contains(s: Seq<KeyModel>, x: KeyModel, y: KeyModel)
    ensures
        s.push(x).contains(y) <==> s.contains(y) || y == x,
{
    let t = s.push(x);
    if s.contains(y) {
        assert(t[s.index_of(y)] == y);
    }
    if y == x {
        assert(t[s.len() as int] == y);
    }
    if t.contains(y) {
        let k = t.index_of(y);
        if k < s.len() {
            assert(s[k] == y);
        }
    }
}

/// Toggling a key twice leaves the set as it was.
pub proof fn law_toggling_twice_undoes_it(set: Set<KeyModel>, key: KeyModel)
    ensures
        toggled(toggled(set, key), key) == set,
{
    assert(toggled(toggled(set, key), key) =~= set);
}

/// A set after one key was toggled.
pub open spec fn toggled(set: Set<KeyModel>, key: KeyModel) -> Set<KeyModel> {
    if set.contains(key) {
        set.remove(key)
    } else {
        set.insert(key)
    }
}

/// Toggling takes a key in where it was not and out where it was, and leaves every
/// other key.
pub proof fn law_toggling_changes_one_key(set: Set<KeyModel>, key: KeyModel, other: KeyModel)
    ensures
        toggled(set, key).contains(key) == !set.contains(key),
        other != key ==> toggled(set, key).contains(other) == set.contains(other),
{
}

} // verus!
