use vstd::prelude::*;

use std::any::TypeId;

verus! {

/// `std::any::TypeId`: an opaque identifier of a type.
#[verifier::external_type_specification]
#[verifier::external_body]
pub struct ExTypeId(TypeId);

/// Calls `<TypeId as PartialEq>::eq`. std documents a `TypeId` as the globally unique
/// identifier of a type, so two of them compare equal exactly when they are the same value;
/// the contract claims that.
#[verifier::external_body]
fn type_id_eq(a: &TypeId, b: &TypeId) -> (r: bool)
    ensures
        r == (*a == *b),
{
    *a == *b
}

/// The map that a list of (key, value) entries describes.
pub open spec fn entries_map<S>(entries: Seq<(TypeId, S)>) -> Map<TypeId, S>
    decreases entries.len(),
{
    if entries.len() == 0 {
        Map::empty()
    } else {
        entries_map(entries.drop_last()).insert(entries.last().0, entries.last().1)
    }
}

/// No key has two entries.
pub open spec fn distinct_type_keys<S>(entries: Seq<(TypeId, S)>) -> bool {
    forall|i: int, j: int|
        0 <= i < j < entries.len() ==> #[trigger] entries[i].0 != #[trigger] entries[j].0
}

pub proof fn lemma_entries_map<S>(entries: Seq<(TypeId, S)>)
    requires
        distinct_type_keys(entries),
    ensures
        forall|k: TypeId|
            #[trigger] entries_map(entries).dom().contains(k) <==> exists|i: int|
                0 <= i < entries.len() && entries[i].0 == k,
        forall|i: int|
            0 <= i < entries.len() ==> #[trigger] entries_map(entries)[entries[i].0] == entries[i].1,
    decreases entries.len(),
{
    if entries.len() > 0 {
        let p = entries.drop_last();
        assert(distinct_type_keys(p)) by {
            assert forall|i: int, j: int| 0 <= i < j < p.len() implies #[trigger] p[i].0
                != #[trigger] p[j].0 by {
                assert(entries[i] == p[i] && entries[j] == p[j]);
            }
        }
        lemma_entries_map(p);
        assert forall|k: TypeId| #[trigger] entries_map(entries).dom().contains(k) <==> exists|i: int|
            0 <= i < entries.len() && entries[i].0 == k by {
            if entries_map(entries).dom().contains(k) && k != entries.last().0 {
                assert(entries_map(p).dom().contains(k));
                let i = choose|i: int| 0 <= i < p.len() && p[i].0 == k;
                assert(entries[i] == p[i]);
            }
            if exists|i: int| 0 <= i < entries.len() && entries[i].0 == k {
                let i = choose|i: int| 0 <= i < entries.len() && entries[i].0 == k;
                if i < p.len() {
                    assert(entries[i] == p[i]);
                    assert(entries_map(p).dom().contains(k));
                }
            }
        }
        assert forall|i: int| 0 <= i < entries.len() implies #[trigger] entries_map(entries)[entries[i].0]
            == entries[i].1 by {
            if i < p.len() {
                assert(entries[i] == p[i]);
                assert(entries[i].0 != entries[entries.len() - 1].0);
                assert(entries_map(p)[p[i].0] == p[i].1);
            }
        }
    }
}

/// A map from type identifiers to values, each type registered at most once.
pub struct TypeMap<S> {
    entries: Vec<(TypeId, S)>,
}

impl<S> View for TypeMap<S> {
    type V = Map<TypeId, S>;

    closed spec fn view(&self) -> Map<TypeId, S> {
        entries_map(self.entries@)
    }
}

impl<S> TypeMap<S> {
    /// The entries are keyed by distinct types.
    pub closed spec fn wf(&self) -> bool {
        distinct_type_keys(self.entries@)
    }

    pub fn new() -> (m: Self)
        ensures
            m.wf(),
            m@ == Map::<TypeId, S>::empty(),
    {
        Self { entries: Vec::new() }
    }

    /// The index of the entry for `key`, if any.
    fn find(&self, key: &TypeId) -> (r: Option<usize>)
        requires
            self.wf(),
        ensures
            match r {
                Some(i) => i < self.entries@.len() && self.entries@[i as int].0 == *key,
                None => !self@.dom().contains(*key),
            },
    {
        proof {
            lemma_entries_map(self.entries@);
        }
        let n = self.entries.len();
        let mut i: usize = 0;
        while i < n
            invariant
                n == self.entries@.len(),
                i <= n,
                distinct_type_keys(self.entries@),
                forall|k: int| 0 <= k < i ==> self.entries@[k].0 != *key,
            decreases n - i,
        {
            if type_id_eq(&self.entries[i].0, key) {
                return Some(i);
            }
            i = i + 1;
        }
        proof {
            lemma_entries_map(self.entries@);
        }
        None
    }

    pub fn contains_key(&self, key: &TypeId) -> (b: bool)
        requires
            self.wf(),
        ensures
            b == self@.dom().contains(*key),
    {
        proof {
            lemma_entries_map(self.entries@);
        }
        match self.find(key) {
            Some(i) => {
                assert(self.entries@[i as int].0 == *key);
                true
            },
            None => false,
        }
    }

    /// Adds `value` under `key`, which must not be present yet.
    pub fn insert(&mut self, key: TypeId, value: S)
        requires
            old(self).wf(),
            !old(self)@.dom().contains(key),
        ensures
            final(self).wf(),
            final(self)@ == old(self)@.insert(key, value),
    {
        proof {
            lemma_entries_map(self.entries@);
        }
        let ghost before = self.entries@;
        self.entries.push((key, value));
        assert(self.entries@.drop_last() =~= before);
        assert(distinct_type_keys(self.entries@)) by {
            assert forall|i: int, j: int| 0 <= i < j < self.entries@.len() implies #[trigger] self.entries@[i].0
                != #[trigger] self.entries@[j].0 by {
                if j == before.len() {
                    assert(before[i] == self.entries@[i]);
                } else {
                    assert(before[i] == self.entries@[i] && before[j] == self.entries@[j]);
                }
            }
        }
    }

    /// The value under `key`, which must be present.
    pub fn get(&self, key: &TypeId) -> (v: &S)
        requires
            self.wf(),
            self@.dom().contains(*key),
        ensures
            *v == self@[*key],
    {
        proof {
            lemma_entries_map(self.entries@);
        }
        match self.find(key) {
            Some(i) => &self.entries[i].1,
            None => {
                assert(false);
                &self.entries[0].1
            },
        }
    }
}

} // verus!
