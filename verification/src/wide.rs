use vstd::prelude::*;

verus! {

/// A map keyed by UTF-16 texts, kept as a list of pairs with distinct keys.
pub struct WideMap<V> {
    entries: Vec<(Vec<u16>, V)>,
}

/// The map of a list of pairs: a later pair wins over an earlier one.
pub open spec fn map_of<V>(e: Seq<(Vec<u16>, V)>) -> Map<Seq<u16>, V>
    decreases e.len(),
{
    if e.len() == 0 {
        Map::empty()
    } else {
        map_of(e.drop_last()).insert(e.last().0@, e.last().1)
    }
}

/// The keys of the list are distinct.
pub open spec fn distinct_keys<V>(e: Seq<(Vec<u16>, V)>) -> bool {
    forall|i: int, j: int| 0 <= i < j < e.len() ==> (#[trigger] e[i]).0@ != (#[trigger] e[j]).0@
}

/// With distinct keys, a key is in the map of the pairs exactly when a pair
/// holds it, and it maps to that pair's value.
pub proof fn lemma_map_of<V>(e: Seq<(Vec<u16>, V)>, k: Seq<u16>)
    requires
        distinct_keys(e),
    ensures
        map_of(e).contains_key(k) <==> exists|i: int| 0 <= i < e.len() && (#[trigger] e[i]).0@ == k,
        forall|i: int| 0 <= i < e.len() && (#[trigger] e[i]).0@ == k ==> map_of(e)[k] == e[i].1,
    decreases e.len(),
{
    if e.len() > 0 {
        let p = e.drop_last();
        assert(distinct_keys(p)) by {
            assert forall|i: int, j: int| 0 <= i < j < p.len() implies (#[trigger] p[i]).0@ != (#[trigger] p[j]).0@ by {
                assert(p[i] == e[i] && p[j] == e[j]);
            }
        }
        lemma_map_of(p, k);
        if map_of(e).contains_key(k) {
            if k == e.last().0@ {
                assert(e[e.len() - 1].0@ == k);
            } else {
                let i = choose|i: int| 0 <= i < p.len() && (#[trigger] p[i]).0@ == k;
                assert(e[i] == p[i]);
            }
        }
        if exists|i: int| 0 <= i < e.len() && (#[trigger] e[i]).0@ == k {
            let i = choose|i: int| 0 <= i < e.len() && (#[trigger] e[i]).0@ == k;
            if i < e.len() - 1 {
                assert(p[i] == e[i]);
            }
        }
        assert forall|i: int| 0 <= i < e.len() && (#[trigger] e[i]).0@ == k implies map_of(e)[k] == e[i].1 by {
            if i < e.len() - 1 {
                assert(p[i] == e[i]);
                assert(e[i].0@ != e[e.len() - 1].0@);
            }
        }
    }
}

proof fn lemma_set_step<V>(e0: Seq<(Vec<u16>, V)>, e1: Seq<(Vec<u16>, V)>, i: int, k: Seq<u16>, v: V, q: Seq<u16>)
    requires
        distinct_keys(e0),
        distinct_keys(e1),
        0 <= i < e0.len(),
        e0[i].0@ == k,
        e1.len() == e0.len(),
        e1[e1.len() - 1].0@ == k,
        e1[e1.len() - 1].1 == v,
        forall|b: int| 0 <= b < e1.len() - 1 ==> #[trigger] e1[b] == e0[if b < i { b } else { b + 1 }],
    ensures
        map_of(e1).contains_key(q) == map_of(e0).insert(k, v).contains_key(q),
        map_of(e1).contains_key(q) ==> map_of(e1)[q] == map_of(e0).insert(k, v)[q],
{
    lemma_map_of(e1, q);
    lemma_map_of(e0, q);
    if q == k {
        assert(e1[e1.len() - 1].0@ == q);
    } else {
        if map_of(e0).contains_key(q) {
            let a = choose|a: int| 0 <= a < e0.len() && (#[trigger] e0[a]).0@ == q;
            assert(a != i);
            let b = if a < i { a } else { a - 1 };
            assert(e1[b] == e0[a]);
        }
        if map_of(e1).contains_key(q) {
            let b = choose|b: int| 0 <= b < e1.len() && (#[trigger] e1[b]).0@ == q;
            assert(b != e1.len() - 1);
            assert(e1[b] == e0[if b < i { b } else { b + 1 }]);
        }
    }
}

/// Whether `k` is the text `letters[from..to]`.
fn key_is(k: &Vec<u16>, letters: &[u16], from: usize, to: usize) -> (r: bool)
    requires
        from <= to <= letters@.len(),
    ensures
        r == (k@ == letters@.subrange(from as int, to as int)),
{
    if k.len() != to - from {
        return false;
    }
    let mut i: usize = 0;
    while i < k.len()
        invariant
            0 <= i <= k@.len(),
            k@.len() == to - from,
            from <= to <= letters@.len(),
            forall|j: int| 0 <= j < i ==> k@[j] == letters@[from + j],
        decreases k@.len() - i,
    {
        if k[i] != letters[from + i] {
            assert(k@[i as int] != letters@.subrange(from as int, to as int)[i as int]);
            return false;
        }
        i = i + 1;
    }
    assert(k@ =~= letters@.subrange(from as int, to as int));
    true
}

impl<V> View for WideMap<V> {
    type V = Map<Seq<u16>, V>;

    closed spec fn view(&self) -> Map<Seq<u16>, V> {
        map_of(self.entries@)
    }
}

impl<V> WideMap<V> {
    /// The keys are distinct.
    pub closed spec fn wf(&self) -> bool {
        distinct_keys(self.entries@)
    }

    /// The pairs of the map, in the order they were added.
    pub closed spec fn pairs(&self) -> Seq<(Vec<u16>, V)> {
        self.entries@
    }

    /// The map is that of its pairs, which are well formed when their keys
    /// are distinct.
    pub proof fn lemma_pairs(&self)
        ensures
            self@ == map_of(self.pairs()),
            self.wf() == distinct_keys(self.pairs()),
    {
    }

    /// The number of pairs.
    pub fn len(&self) -> (r: usize)
        ensures
            r == self.pairs().len(),
    {
        self.entries.len()
    }

    /// The `i`-th pair.
    pub fn pair(&self, i: usize) -> (r: (&Vec<u16>, &V))
        requires
            i < self.pairs().len(),
        ensures
            *r.0 == self.pairs()[i as int].0,
            *r.1 == self.pairs()[i as int].1,
    {
        (&self.entries[i].0, &self.entries[i].1)
    }

    /// The empty map.
    pub fn new() -> (r: WideMap<V>)
        ensures
            r.wf(),
            r@ == Map::<Seq<u16>, V>::empty(),
    {
        WideMap { entries: Vec::new() }
    }

    /// Where the key `letters[from..to]` stands in the list.
    fn position(&self, letters: &[u16], from: usize, to: usize) -> (r: Option<usize>)
        requires
            self.wf(),
            from <= to <= letters@.len(),
        ensures
            match r {
                Some(i) => i < self.entries@.len() && self.entries@[i as int].0@ == letters@.subrange(
                    from as int,
                    to as int,
                ),
                None => forall|i: int| 0 <= i < self.entries@.len() ==> (#[trigger] self.entries@[i]).0@
                    != letters@.subrange(from as int, to as int),
            },
    {
        let mut i: usize = 0;
        while i < self.entries.len()
            invariant
                0 <= i <= self.entries@.len(),
                from <= to <= letters@.len(),
                forall|j: int| 0 <= j < i ==> (#[trigger] self.entries@[j]).0@ != letters@.subrange(
                    from as int,
                    to as int,
                ),
            decreases self.entries@.len() - i,
        {
            if key_is(&self.entries[i].0, letters, from, to) {
                return Some(i);
            }
            i = i + 1;
        }
        None
    }

    /// The value of the key `letters[from..to]`.
    pub fn get(&self, letters: &[u16], from: usize, to: usize) -> (r: Option<&V>)
        requires
            self.wf(),
            from <= to <= letters@.len(),
        ensures
            match r {
                Some(v) => self@.contains_key(letters@.subrange(from as int, to as int)) && self@[letters@.subrange(
                    from as int,
                    to as int,
                )] == *v,
                None => !self@.contains_key(letters@.subrange(from as int, to as int)),
            },
    {
        let ghost k = letters@.subrange(from as int, to as int);
        proof {
            lemma_map_of(self.entries@, k);
        }
        match self.position(letters, from, to) {
            Some(i) => Some(&self.entries[i].1),
            None => None,
        }
    }

    /// Sets the value of the key `letters[from..to]`.
    pub fn set(&mut self, letters: &[u16], from: usize, to: usize, v: V)
        requires
            old(self).wf(),
            from <= to <= letters@.len(),
        ensures
            final(self).wf(),
            final(self)@ == old(self)@.insert(letters@.subrange(from as int, to as int), v),
    {
        let ghost k = letters@.subrange(from as int, to as int);
        let ghost e0 = self.entries@;
        match self.position(letters, from, to) {
            Some(i) => {
                let mut key: Vec<u16> = Vec::new();
                let mut j = from;
                while j < to
                    invariant
                        from <= j <= to <= letters@.len(),
                        key@ == letters@.subrange(from as int, j as int),
                    decreases to - j,
                {
                    key.push(letters[j]);
                    proof {
                        assert(letters@.subrange(from as int, j + 1) =~= letters@.subrange(from as int, j as int).push(
                            letters@[j as int],
                        ));
                    }
                    j = j + 1;
                }
                let _old = self.entries.remove(i);
                self.entries.push((key, v));
                proof {
                    let e1 = self.entries@;
                    assert(e1 =~= e0.remove(i as int).push((key, v)));
                    assert forall|b: int| 0 <= b < e1.len() - 1 implies #[trigger] e1[b] == e0[if b < i { b } else { b + 1 }] by {
                    }
                    assert(distinct_keys(e1)) by {
                        assert forall|a: int, b: int| 0 <= a < b < e1.len() implies (#[trigger] e1[a]).0@
                            != (#[trigger] e1[b]).0@ by {
                            if b == e1.len() - 1 {
                                let ia = if a < i { a } else { a + 1 };
                                assert(e1[a] == e0[ia]);
                                assert(e0[ia].0@ != e0[i as int].0@);
                            } else {
                                let ia = if a < i { a } else { a + 1 };
                                let ib = if b < i { b } else { b + 1 };
                                assert(e1[a] == e0[ia]);
                                assert(e1[b] == e0[ib]);
                            }
                        }
                    }
                    assert forall|q: Seq<u16>| #![auto] map_of(e1).contains_key(q) == map_of(e0).insert(k, v).contains_key(q)
                        && (map_of(e1).contains_key(q) ==> map_of(e1)[q] == map_of(e0).insert(k, v)[q]) by {
                        lemma_set_step(e0, e1, i as int, k, v, q);
                    }
                    assert(map_of(e1).dom() =~= map_of(e0).insert(k, v).dom()) by {
                        assert forall|q: Seq<u16>| #[trigger] map_of(e1).dom().contains(q) == map_of(e0).insert(k, v).dom().contains(q) by {
                            lemma_set_step(e0, e1, i as int, k, v, q);
                        }
                    }
                    assert forall|q: Seq<u16>| #[trigger] map_of(e1).dom().contains(q) implies map_of(e1)[q] == map_of(e0).insert(k, v)[q] by {
                        lemma_set_step(e0, e1, i as int, k, v, q);
                    }
                    assert(map_of(e1) =~= map_of(e0).insert(k, v));
                }
            },
            None => {
                let mut key: Vec<u16> = Vec::new();
                let mut j = from;
                while j < to
                    invariant
                        from <= j <= to <= letters@.len(),
                        key@ == letters@.subrange(from as int, j as int),
                    decreases to - j,
                {
                    key.push(letters[j]);
                    proof {
                        assert(letters@.subrange(from as int, j + 1) =~= letters@.subrange(from as int, j as int).push(
                            letters@[j as int],
                        ));
                    }
                    j = j + 1;
                }
                self.entries.push((key, v));
                proof {
                    let e1 = self.entries@;
                    assert(e1.drop_last() =~= e0);
                    assert(distinct_keys(e1)) by {
                        assert forall|a: int, b: int| 0 <= a < b < e1.len() implies (#[trigger] e1[a]).0@
                            != (#[trigger] e1[b]).0@ by {
                            assert(e1[a] == e0[a] || a == e1.len() - 1);
                            if b < e1.len() - 1 {
                                assert(e1[b] == e0[b]);
                            }
                        }
                    }
                }
            },
        }
    }
}


/// A copy of a list of code units.
pub fn copy_units(v: &Vec<u16>) -> (r: Vec<u16>)
    ensures
        r@ == v@,
{
    let mut r: Vec<u16> = Vec::new();
    let mut k: usize = 0;
    while k < v.len()
        invariant
            0 <= k <= v@.len(),
            r@ == v@.take(k as int),
        decreases v@.len() - k,
    {
        r.push(v[k]);
        proof {
            assert(v@.take(k + 1) =~= v@.take(k as int).push(v@[k as int]));
        }
        k = k + 1;
    }
    proof {
        assert(v@.take(v@.len() as int) =~= v@);
    }
    r
}

/// Appends the code units of `w` to `v`.
pub fn extend_units(v: &mut Vec<u16>, w: &Vec<u16>)
    ensures
        final(v)@ == old(v)@ + w@,
{
    let mut k: usize = 0;
    while k < w.len()
        invariant
            0 <= k <= w@.len(),
            v@ == old(v)@ + w@.take(k as int),
        decreases w@.len() - k,
    {
        v.push(w[k]);
        proof {
            assert(w@.take(k + 1) =~= w@.take(k as int).push(w@[k as int]));
        }
        k = k + 1;
    }
    proof {
        assert(w@.take(w@.len() as int) =~= w@);
    }
}

} // verus!
