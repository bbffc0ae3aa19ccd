//! A key to value mapping of text fields in which a later insertion under a key
//! replaces the earlier value, and keys stay in the order they first arrived.

use vstd::prelude::*;

verus! {

/// The mapping that inserting each `(ks[i], vs[i])` in turn produces.
pub open spec fn pairs_map(ks: Seq<Seq<char>>, vs: Seq<Seq<char>>) -> Map<Seq<char>, Seq<char>>
    decreases ks.len(),
{
    if ks.len() == 0 || vs.len() == 0 {
        Map::empty()
    } else {
        pairs_map(ks.drop_last(), vs.drop_last()).insert(ks.last(), vs.last())
    }
}

/// No key occurs twice.
pub open spec fn distinct(ks: Seq<Seq<char>>) -> bool {
    forall|i: int, j: int| 0 <= i < j < ks.len() ==> ks[i] != ks[j]
}

proof fn lemma_pairs_map_lookup(ks: Seq<Seq<char>>, vs: Seq<Seq<char>>, k: Seq<char>)
    requires
        ks.len() == vs.len(),
        distinct(ks),
    ensures
        pairs_map(ks, vs).contains_key(k) <==> ks.contains(k),
        forall|j: int|
            0 <= j < ks.len() && ks[j] == k ==> pairs_map(ks, vs)[k] == #[trigger] vs[j],
        pairs_map(ks, vs).dom().finite(),
        pairs_map(ks, vs).dom().len() == ks.len(),
    decreases ks.len(),
{
    if ks.len() > 0 {
        let (pk, pv) = (ks.drop_last(), vs.drop_last());
        lemma_pairs_map_lookup(pk, pv, k);
        lemma_pairs_map_lookup(pk, pv, ks.last());
        assert(!pk.contains(ks.last()));
        if ks.contains(k) && k != ks.last() {
            let j = choose|j: int| 0 <= j < ks.len() && ks[j] == k;
            assert(pk[j] == k);
        }
        if pk.contains(k) {
            let j = choose|j: int| 0 <= j < pk.len() && pk[j] == k;
            assert(ks[j] == k);
        }
        assert forall|j: int|
            0 <= j < ks.len() && ks[j] == k implies pairs_map(ks, vs)[k] == #[trigger] vs[j] by {
            if j < ks.len() - 1 {
                assert(pk[j] == k);
                assert(pv[j] == vs[j]);
            }
        }
    }
}

proof fn lemma_pairs_map_update(ks: Seq<Seq<char>>, vs: Seq<Seq<char>>, j: int, v: Seq<char>)
    requires
        ks.len() == vs.len(),
        distinct(ks),
        0 <= j < ks.len(),
    ensures
        pairs_map(ks, vs.update(j, v)) =~= pairs_map(ks, vs).insert(ks[j], v),
    decreases ks.len(),
{
    let (pk, pv) = (ks.drop_last(), vs.drop_last());
    if j == ks.len() - 1 {
        assert(vs.update(j, v).drop_last() =~= pv);
    } else {
        assert(vs.update(j, v).drop_last() =~= pv.update(j, v));
        lemma_pairs_map_update(pk, pv, j, v);
    }
}

/// The fields of one log line.
#[derive(Debug, Clone, PartialEq)]
pub struct FieldMap {
    keys: Vec<String>,
    values: Vec<String>,
}

impl View for FieldMap {
    type V = Map<Seq<char>, Seq<char>>;

    closed spec fn view(&self) -> Map<Seq<char>, Seq<char>> {
        pairs_map(self.key_views(), self.value_views())
    }
}

impl FieldMap {
    pub closed spec fn key_views(&self) -> Seq<Seq<char>> {
        self.keys@.map_values(|k: String| k@)
    }

    pub closed spec fn value_views(&self) -> Seq<Seq<char>> {
        self.values@.map_values(|v: String| v@)
    }

    /// Keys and values pair up one for one, and no key occurs twice.
    pub closed spec fn wf(&self) -> bool {
        &&& self.keys.len() == self.values.len()
        &&& distinct(self.key_views())
    }

    /// The number of fields.
    pub closed spec fn spec_len(&self) -> nat {
        self.keys.len() as nat
    }

    pub proof fn lemma_len(&self)
        requires
            self.wf(),
        ensures
            self@.dom().finite(),
            self@.dom().len() == self.spec_len(),
    {
        lemma_pairs_map_lookup(self.key_views(), self.value_views(), Seq::empty());
    }

    pub fn new() -> (r: FieldMap)
        ensures
            r.wf(),
            r@ == Map::<Seq<char>, Seq<char>>::empty(),
    {
        let r = FieldMap { keys: Vec::new(), values: Vec::new() };
        proof {
            assert(r.key_views().len() == 0);
        }
        r
    }

    /// Where `key` is held, if anywhere.
    fn find(&self, key: &String) -> (r: Option<usize>)
        requires
            self.wf(),
        ensures
            match r {
                Some(j) => j < self.keys.len() && self.key_views()[j as int] == key@,
                None => !self.key_views().contains(key@),
            },
    {
        let mut i: usize = 0;
        while i < self.keys.len()
            invariant
                self.wf(),
                i <= self.keys.len(),
                forall|j: int| 0 <= j < i ==> self.key_views()[j] != key@,
            decreases self.keys.len() - i,
        {
            if self.keys[i] == *key {
                return Some(i);
            }
            i = i + 1;
        }
        None
    }

    /// Sets `key` to `value`, replacing what it held before.
    pub fn insert(&mut self, key: String, value: String)
        requires
            old(self).wf(),
        ensures
            final(self).wf(),
            final(self)@ == old(self)@.insert(key@, value@),
    {
        let ghost (ks, vs) = (self.key_views(), self.value_views());
        match self.find(&key) {
            Some(j) => {
                self.values.set(j, value);
                proof {
                    assert(self.key_views() =~= ks);
                    assert(self.value_views() =~= vs.update(j as int, value@));
                    lemma_pairs_map_update(ks, vs, j as int, value@);
                }
            },
            None => {
                self.keys.push(key);
                self.values.push(value);
                proof {
                    assert(self.key_views() =~= ks.push(key@));
                    assert(self.value_views() =~= vs.push(value@));
                    assert(self.key_views().drop_last() =~= ks);
                    assert(self.value_views().drop_last() =~= vs);
                    assert forall|a: int, b: int| 0 <= a < b < self.key_views().len() implies
                        self.key_views()[a] != self.key_views()[b] by {
                        if b == ks.len() {
                            assert(ks[a] == self.key_views()[a]);
                        }
                    }
                }
            },
        }
    }

    /// The value held under `key`.
    pub fn get(&self, key: &str) -> (r: Option<&String>)
        requires
            self.wf(),
        ensures
            match r {
                Some(v) => self@.contains_key(key@) && v@ == self@[key@],
                None => !self@.contains_key(key@),
            },
    {
        let k = key.to_owned();
        proof {
            lemma_pairs_map_lookup(self.key_views(), self.value_views(), key@);
        }
        match self.find(&k) {
            Some(j) => {
                assert(self.value_views()[j as int] == self.values[j as int]@);
                Some(&self.values[j])
            },
            None => None,
        }
    }

    /// The number of fields.
    pub fn len(&self) -> (r: usize)
        requires
            self.wf(),
        ensures
            r == self@.dom().len(),
    {
        proof {
            self.lemma_len();
        }
        self.keys.len()
    }

    /// The field at position `i`, in the order in which keys first arrived.
    pub fn entry(&self, i: usize) -> (r: (&String, &String))
        requires
            self.wf(),
            i < self@.dom().len(),
        ensures
            self@.contains_key(r.0@),
            self@[r.0@] == r.1@,
    {
        proof {
            self.lemma_len();
            lemma_pairs_map_lookup(self.key_views(), self.value_views(), self.keys[i as int]@);
            assert(self.key_views()[i as int] == self.keys[i as int]@);
            assert(self.value_views()[i as int] == self.values[i as int]@);
        }
        (&self.keys[i], &self.values[i])
    }
}

} // verus!
