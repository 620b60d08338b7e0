use vstd::prelude::*;

use crate::ecs::entity::Entity;

verus! {

pub type NetworkId = u32;

/// The map from tracked entities to their neighbour sets that a list of entries describes.
pub open spec fn edges_map(entries: Seq<(Entity, Vec<Entity>)>) -> Map<Entity, Set<Entity>>
    decreases entries.len(),
{
    if entries.len() == 0 {
        Map::empty()
    } else {
        edges_map(entries.drop_last()).insert(entries.last().0, entries.last().1@.to_set())
    }
}

/// No entity has two entries.
pub open spec fn distinct_keys(entries: Seq<(Entity, Vec<Entity>)>) -> bool {
    forall|i: int, j: int|
        0 <= i < j < entries.len() ==> #[trigger] entries[i].0 != #[trigger] entries[j].0
}

pub proof fn lemma_edges_map(entries: Seq<(Entity, Vec<Entity>)>)
    requires
        distinct_keys(entries),
    ensures
        forall|e: Entity|
            #[trigger] edges_map(entries).dom().contains(e) <==> exists|i: int|
                0 <= i < entries.len() && entries[i].0 == e,
        forall|i: int|
            0 <= i < entries.len() ==> #[trigger] edges_map(entries)[entries[i].0]
                == entries[i].1@.to_set(),
    decreases entries.len(),
{
    if entries.len() > 0 {
        let p = entries.drop_last();
        assert(distinct_keys(p)) by {
            assert forall|i: int, j: int| 0 <= i < j < p.len() implies #[trigger] p[i].0
                != #[trigger] p[j].0 by {
                assert(entries[i] == p[i] && entries[j] == p[j]);
            }
        }
        lemma_edges_map(p);
        assert forall|e: Entity| #[trigger] edges_map(entries).dom().contains(e) <==> exists|i: int|
            0 <= i < entries.len() && entries[i].0 == e by {
            if edges_map(entries).dom().contains(e) && e != entries.last().0 {
                assert(edges_map(p).dom().contains(e));
                let i = choose|i: int| 0 <= i < p.len() && p[i].0 == e;
                assert(entries[i] == p[i]);
            }
            if exists|i: int| 0 <= i < entries.len() && entries[i].0 == e {
                let i = choose|i: int| 0 <= i < entries.len() && entries[i].0 == e;
                if i < p.len() {
                    assert(entries[i] == p[i]);
                    assert(edges_map(p).dom().contains(e));
                }
            }
        }
        assert forall|i: int| 0 <= i < entries.len() implies #[trigger] edges_map(entries)[entries[i].0]
            == entries[i].1@.to_set() by {
            if i < p.len() {
                assert(entries[i] == p[i]);
                assert(entries[i].0 != entries[entries.len() - 1].0);
                assert(edges_map(p)[p[i].0] == p[i].1@.to_set());
            }
        }
    }
}

/// The distinct entities of `v`, in order of first occurrence.
fn distinct_entities(v: &Vec<Entity>) -> (r: Vec<Entity>)
    ensures
        r@.no_duplicates(),
        forall|e: Entity| #[trigger] r@.contains(e) <==> v@.contains(e),
{
    let mut r: Vec<Entity> = Vec::new();
    let n = v.len();
    let mut i: usize = 0;
    while i < n
        invariant
            n == v@.len(),
            i <= n,
            r@.no_duplicates(),
            forall|e: Entity| #[trigger] r@.contains(e) <==> v@.take(i as int).contains(e),
        decreases n - i,
    {
        let e = v[i];
        let mut found = false;
        let m = r.len();
        let mut j: usize = 0;
        while j < m
            invariant
                m == r@.len(),
                j <= m,
                found <==> exists|k: int| 0 <= k < j && r@[k] == e,
            decreases m - j,
        {
            if r[j] == e {
                found = true;
            }
            j = j + 1;
        }
        let ghost prev = r@;
        if !found {
            r.push(e);
            assert forall|x: int, y: int| 0 <= x < r@.len() && 0 <= y < r@.len() && x != y implies r@[x]
                != r@[y] by {
                if x == prev.len() {
                    assert(r@[y] == prev[y]);
                } else if y == prev.len() {
                    assert(r@[x] == prev[x]);
                } else {
                    assert(r@[x] == prev[x] && r@[y] == prev[y]);
                }
            }
        }
        assert forall|x: Entity| #[trigger] r@.contains(x) <==> v@.take(i + 1).contains(x) by {
            let t0 = v@.take(i as int);
            let t1 = v@.take(i + 1);
            if t1.contains(x) {
                let k = choose|k: int| 0 <= k < t1.len() && t1[k] == x;
                if k < i {
                    assert(t0[k] == x);
                    assert(t0.contains(x));
                    assert(prev.contains(x));
                    let k4 = choose|k4: int| 0 <= k4 < prev.len() && prev[k4] == x;
                    assert(r@[k4] == x);
                } else {
                    assert(x == e);
                    if found {
                        let k2 = choose|k2: int| 0 <= k2 < m && prev[k2] == e;
                        assert(r@[k2] == e);
                    } else {
                        assert(r@[prev.len() as int] == e);
                    }
                }
            }
            if r@.contains(x) {
                let k = choose|k: int| 0 <= k < r@.len() && r@[k] == x;
                if k < prev.len() {
                    assert(prev[k] == x);
                    assert(prev.contains(x));
                    let k3 = choose|k3: int| 0 <= k3 < t0.len() && t0[k3] == x;
                    assert(t1[k3] == x);
                } else {
                    assert(t1[i as int] == x);
                }
            }
        }
        i = i + 1;
    }
    assert(v@.take(n as int) =~= v@);
    r
}

/// The links between logistics network nodes: for each tracked entity, the set of
/// entities within range of it when it was tracked.
pub struct Networks {
    edges: Vec<(Entity, Vec<Entity>)>,
}

impl View for Networks {
    type V = Map<Entity, Set<Entity>>;

    closed spec fn view(&self) -> Map<Entity, Set<Entity>> {
        edges_map(self.edges@)
    }
}

impl Networks {
    /// The entries are keyed by distinct entities.
    pub closed spec fn wf(&self) -> bool {
        &&& distinct_keys(self.edges@)
        &&& forall|i: int| 0 <= i < self.edges@.len() ==> (#[trigger] self.edges@[i]).1@.no_duplicates()
    }

    pub fn new() -> (n: Self)
        ensures
            n.wf(),
            n@ == Map::<Entity, Set<Entity>>::empty(),
    {
        Self { edges: Vec::new() }
    }

    /// Whether `ent` is tracked.
    pub fn is_tracked(&self, ent: Entity) -> (b: bool)
        requires
            self.wf(),
        ensures
            b == self@.dom().contains(ent),
    {
        proof {
            lemma_edges_map(self.edges@);
        }
        let n = self.edges.len();
        let mut i: usize = 0;
        while i < n
            invariant
                n == self.edges@.len(),
                i <= n,
                distinct_keys(self.edges@),
                forall|k: int| 0 <= k < i ==> self.edges@[k].0 != ent,
            decreases n - i,
        {
            if self.edges[i].0 == ent {
                proof {
                    lemma_edges_map(self.edges@);
                    assert(self.edges@[i as int].0 == ent);
                }
                return true;
            }
            i = i + 1;
        }
        false
    }

    /// Tracks `ent`, linked to the entities `in_range` of it (each once); `ent` must not be
    /// tracked yet.
    pub fn track_entity(&mut self, ent: Entity, in_range: Vec<Entity>)
        requires
            old(self).wf(),
            !old(self)@.dom().contains(ent),
        ensures
            final(self).wf(),
            final(self)@ == old(self)@.insert(ent, in_range@.to_set()),
    {
        proof {
            lemma_edges_map(self.edges@);
        }
        let edges = distinct_entities(&in_range);
        assert(edges@.to_set() =~= in_range@.to_set());
        let ghost before = self.edges@;
        self.edges.push((ent, edges));
        assert(self.edges@.drop_last() =~= before);
        assert(distinct_keys(self.edges@)) by {
            assert forall|i: int, j: int| 0 <= i < j < self.edges@.len() implies #[trigger] self.edges@[i].0
                != #[trigger] self.edges@[j].0 by {
                if j == before.len() {
                    assert(before[i] == self.edges@[i]);
                } else {
                    assert(before[i] == self.edges@[i] && before[j] == self.edges@[j]);
                }
            }
        }
        assert forall|i: int| 0 <= i < self.edges@.len() implies (#[trigger] self.edges@[i]).1@.no_duplicates() by {
            if i < before.len() {
                assert(before[i] == self.edges@[i]);
            }
        }
    }

    /// Every link as a (tracked entity, entity in its range) pair.
    pub fn edge_pairs(&self) -> (pairs: Vec<(Entity, Entity)>)
        requires
            self.wf(),
        ensures
            forall|a: Entity, b: Entity|
                #[trigger] pairs@.contains((a, b)) <==> (self@.dom().contains(a) && self@[a].contains(b)),
            pairs@.no_duplicates(),
    {
        proof {
            lemma_edges_map(self.edges@);
        }
        let mut pairs: Vec<(Entity, Entity)> = Vec::new();
        let n = self.edges.len();
        let mut i: usize = 0;
        while i < n
            invariant
                n == self.edges@.len(),
                i <= n,
                distinct_keys(self.edges@),
                forall|k: int| 0 <= k < n ==> (#[trigger] self.edges@[k]).1@.no_duplicates(),
                pairs@.no_duplicates(),
                forall|a: Entity, b: Entity|
                    #[trigger] pairs@.contains((a, b)) <==> exists|k: int|
                        0 <= k < i && self.edges@[k].0 == a && self.edges@[k].1@.contains(b),
            decreases n - i,
        {
            let ghost before = pairs@;
            let left = self.edges[i].0;
            let others = &self.edges[i].1;
            let m = others.len();
            assert(others@.no_duplicates()) by {
                assert(self.edges@[i as int].1@.no_duplicates());
            }
            assert forall|b: Entity| !before.contains((left, b)) by {
                if before.contains((left, b)) {
                    let k = choose|k: int|
                        0 <= k < i && self.edges@[k].0 == left && self.edges@[k].1@.contains(b);
                    assert(self.edges@[k].0 != self.edges@[i as int].0);
                }
            }
            let mut j: usize = 0;
            while j < m
                invariant
                    m == others@.len(),
                    j <= m,
                    others@.no_duplicates(),
                    pairs@.no_duplicates(),
                    forall|b: Entity| !before.contains((left, b)),
                    pairs@.len() >= before.len(),
                    pairs@.subrange(0, before.len() as int) == before,
                    forall|a: Entity, b: Entity|
                        #[trigger] pairs@.contains((a, b)) <==> (before.contains((a, b)) || (a == left
                            && others@.take(j as int).contains(b))),
                decreases m - j,
            {
                let ghost prev = pairs@;
                assert(!prev.contains((left, others@[j as int]))) by {
                    if others@.take(j as int).contains(others@[j as int]) {
                        let k = choose|k: int| 0 <= k < j && #[trigger] others@.take(j as int)[k] == others@[j as int];
                        assert(others@[k] == others@[j as int]);
                    }
                }
                pairs.push((left, others[j]));
                assert forall|x: int, y: int| 0 <= x < pairs@.len() && 0 <= y < pairs@.len() && x != y implies pairs@[x]
                    != pairs@[y] by {
                    if x == prev.len() {
                        assert(prev.contains(pairs@[y]) ==> true);
                        assert(pairs@[y] == prev[y]);
                    } else if y == prev.len() {
                        assert(pairs@[x] == prev[x]);
                    } else {
                        assert(pairs@[x] == prev[x] && pairs@[y] == prev[y]);
                    }
                }
                assert forall|a: Entity, b: Entity|
                    #[trigger] pairs@.contains((a, b)) <==> (prev.contains((a, b)) || (a == left
                        && b == others@[j as int])) by {
                    if pairs@.contains((a, b)) {
                        let k = choose|k: int| 0 <= k < pairs@.len() && pairs@[k] == (a, b);
                        if k < prev.len() {
                            assert(prev[k] == (a, b));
                        }
                    }
                    if prev.contains((a, b)) {
                        let k = choose|k: int| 0 <= k < prev.len() && prev[k] == (a, b);
                        assert(pairs@[k] == (a, b));
                    }
                    if a == left && b == others@[j as int] {
                        assert(pairs@[prev.len() as int] == (a, b));
                    }
                }
                let ghost s0 = others@.take(j as int);
                let ghost s1 = others@.take(j + 1);
                assert forall|b: Entity| s1.contains(b) <==> (s0.contains(b) || b == others@[j as int]) by {
                    if s1.contains(b) {
                        let k = choose|k: int| 0 <= k < s1.len() && #[trigger] s1[k] == b;
                        if k < j {
                            assert(s0[k] == b);
                        }
                    }
                    if s0.contains(b) {
                        let k = choose|k: int| 0 <= k < s0.len() && #[trigger] s0[k] == b;
                        assert(s1[k] == b);
                    }
                    if b == others@[j as int] {
                        assert(s1[j as int] == b);
                    }
                }
                assert(pairs@.subrange(0, before.len() as int) =~= before);
                j = j + 1;
            }
            assert(others@.take(m as int) =~= others@);
            assert forall|a: Entity, b: Entity|
                #[trigger] pairs@.contains((a, b)) <==> exists|k: int|
                    0 <= k < i + 1 && self.edges@[k].0 == a && self.edges@[k].1@.contains(b) by {
                if pairs@.contains((a, b)) && !before.contains((a, b)) {
                    assert(self.edges@[i as int].0 == a && self.edges@[i as int].1@.contains(b));
                }
            }
            i = i + 1;
        }
        assert forall|a: Entity, b: Entity|
            #[trigger] pairs@.contains((a, b)) <==> (self@.dom().contains(a) && self@[a].contains(b)) by {
            if pairs@.contains((a, b)) {
                let k = choose|k: int|
                    0 <= k < n && self.edges@[k].0 == a && self.edges@[k].1@.contains(b);
                assert(self@[a] == self.edges@[k].1@.to_set());
            }
            if self@.dom().contains(a) && self@[a].contains(b) {
                let k = choose|k: int| 0 <= k < n && self.edges@[k].0 == a;
                assert(self@[a] == self.edges@[k].1@.to_set());
                assert(self.edges@[k].1@.contains(b));
            }
        }
        pairs
    }
}

} // verus!
