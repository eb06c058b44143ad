use vstd::prelude::*;

use crate::record::{Record, RecordView};
use crate::replay::{record_views, replay_spec};

verus! {

/// The map that a list of keys and a list of values stand for, later pairs overriding earlier ones.
pub open spec fn map_of(ks: Seq<Seq<char>>, vs: Seq<Seq<char>>) -> Map<Seq<char>, Seq<char>>
    decreases ks.len(),
{
    if ks.len() == 0 || vs.len() == 0 {
        Map::empty()
    } else {
        map_of(ks.drop_last(), vs.drop_last()).insert(ks.last(), vs.last())
    }
}

pub proof fn lemma_map_of_contains(ks: Seq<Seq<char>>, vs: Seq<Seq<char>>, k: Seq<char>)
    requires
        ks.len() == vs.len(),
    ensures
        map_of(ks, vs).contains_key(k) <==> ks.contains(k),
    decreases ks.len(),
{
    if ks.len() > 0 {
        lemma_map_of_contains(ks.drop_last(), vs.drop_last(), k);
        if ks.drop_last().contains(k) {
            let j = choose|j: int| 0 <= j < ks.len() - 1 && ks.drop_last()[j] == k;
            assert(ks[j] == k);
        }
        if ks.contains(k) && k != ks.last() {
            let j = choose|j: int| 0 <= j < ks.len() && ks[j] == k;
            assert(ks.drop_last()[j] == k);
        }
    }
}

pub proof fn lemma_map_of_index(ks: Seq<Seq<char>>, vs: Seq<Seq<char>>, i: int)
    requires
        ks.len() == vs.len(),
        ks.no_duplicates(),
        0 <= i < ks.len(),
    ensures
        map_of(ks, vs).contains_key(ks[i]),
        map_of(ks, vs)[ks[i]] == vs[i],
    decreases ks.len(),
{
    if i < ks.len() - 1 {
        assert(ks.drop_last().no_duplicates());
        lemma_map_of_index(ks.drop_last(), vs.drop_last(), i);
    }
}

pub proof fn lemma_map_of_remove(ks: Seq<Seq<char>>, vs: Seq<Seq<char>>, i: int)
    requires
        ks.len() == vs.len(),
        ks.no_duplicates(),
        0 <= i < ks.len(),
    ensures
        map_of(ks.remove(i), vs.remove(i)) == map_of(ks, vs).remove(ks[i]),
    decreases ks.len(),
{
    let n = ks.len();
    if i == n - 1 {
        assert(ks.remove(i) =~= ks.drop_last());
        assert(vs.remove(i) =~= vs.drop_last());
        lemma_map_of_contains(ks.drop_last(), vs.drop_last(), ks[i]);
        if ks.drop_last().contains(ks[i]) {
            let j = choose|j: int| 0 <= j < n - 1 && ks.drop_last()[j] == ks[i];
            assert(ks[j] == ks[i]);
        }
        assert(map_of(ks.drop_last(), vs.drop_last()) =~= map_of(ks, vs).remove(ks[i]));
    } else {
        assert(ks.drop_last().no_duplicates());
        lemma_map_of_remove(ks.drop_last(), vs.drop_last(), i);
        assert(ks.remove(i).drop_last() =~= ks.drop_last().remove(i));
        assert(vs.remove(i).drop_last() =~= vs.drop_last().remove(i));
        assert(ks.remove(i).last() == ks.last());
        assert(vs.remove(i).last() == vs.last());
        assert(ks[i] != ks.last());
        assert(map_of(ks.remove(i), vs.remove(i)) =~= map_of(ks, vs).remove(ks[i]));
    }
}

/// Whether two strings hold the same characters.
pub fn str_eq(a: &str, b: &str) -> (r: bool)
    ensures
        r == (a@ == b@),
{
    let n = a.unicode_len();
    if n != b.unicode_len() {
        return false;
    }
    let mut i: usize = 0;
    while i < n
        invariant
            n == a@.len(),
            n == b@.len(),
            i <= n,
            forall|j: int| 0 <= j < i ==> a@[j] == b@[j],
        decreases n - i,
    {
        if a.get_char(i) != b.get_char(i) {
            return false;
        }
        i = i + 1;
    }
    assert(a@ =~= b@);
    true
}

pub open spec fn string_views(v: Seq<String>) -> Seq<Seq<char>> {
    v.map_values(|s: String| s@)
}

/// The key directory: the live keys, each once, with their current values, in the order in
/// which they were last written.
pub struct KeyDir {
    keys: Vec<String>,
    values: Vec<String>,
}

impl View for KeyDir {
    type V = Map<Seq<char>, Seq<char>>;

    closed spec fn view(&self) -> Map<Seq<char>, Seq<char>> {
        map_of(string_views(self.keys@), string_views(self.values@))
    }
}

impl KeyDir {
    /// Keys and values pair up, and no key stands twice.
    pub closed spec fn wf(&self) -> bool {
        self.keys.len() == self.values.len() && string_views(self.keys@).no_duplicates()
    }

    pub fn new() -> (d: KeyDir)
        ensures
            d.wf(),
            d@ == Map::<Seq<char>, Seq<char>>::empty(),
    {
        let d = KeyDir { keys: Vec::new(), values: Vec::new() };
        assert(d@ =~= Map::<Seq<char>, Seq<char>>::empty());
        d
    }

    /// The number of live keys.
    pub fn len(&self) -> (n: usize)
        requires
            self.wf(),
        ensures
            n == self@.len(),
    {
        proof {
            self.lemma_dom();
        }
        self.keys.len()
    }

    proof fn lemma_dom(&self)
        requires
            self.wf(),
        ensures
            self@.dom() == string_views(self.keys@).to_set(),
            self@.len() == self.keys.len(),
    {
        let ks = string_views(self.keys@);
        let vs = string_views(self.values@);
        assert forall|k: Seq<char>| self@.contains_key(k) <==> ks.to_set().contains(k) by {
            lemma_map_of_contains(ks, vs, k);
        }
        assert(self@.dom() =~= ks.to_set());
        ks.unique_seq_to_set();
    }

    fn find(&self, key: &str) -> (r: Option<usize>)
        requires
            self.wf(),
        ensures
            match r {
                Some(i) => i < self.keys.len() && self.keys@[i as int]@ == key@,
                None => !self@.contains_key(key@),
            },
    {
        let mut i: usize = 0;
        while i < self.keys.len()
            invariant
                self.wf(),
                i <= self.keys.len(),
                forall|j: int| 0 <= j < i ==> self.keys@[j]@ != key@,
            decreases self.keys.len() - i,
        {
            if str_eq(self.keys[i].as_str(), key) {
                return Some(i);
            }
            i = i + 1;
        }
        proof {
            let ks = string_views(self.keys@);
            lemma_map_of_contains(ks, string_views(self.values@), key@);
            if ks.contains(key@) {
                let j = choose|j: int| 0 <= j < ks.len() && ks[j] == key@;
                assert(self.keys@[j]@ == key@);
            }
        }
        None
    }

    /// The current value of a key, if it is live.
    pub fn get(&self, key: &str) -> (r: Option<String>)
        requires
            self.wf(),
        ensures
            match r {
                Some(v) => self@.contains_key(key@) && self@[key@] == v@,
                None => !self@.contains_key(key@),
            },
    {
        match self.find(key) {
            Some(i) => {
                proof {
                    lemma_map_of_index(string_views(self.keys@), string_views(self.values@), i as int);
                }
                Some(self.values[i].clone())
            },
            None => None,
        }
    }

    /// Takes a key out of the directory; says whether it was live.
    pub fn remove(&mut self, key: &str) -> (found: bool)
        requires
            old(self).wf(),
        ensures
            final(self).wf(),
            found == old(self)@.contains_key(key@),
            final(self)@ == old(self)@.remove(key@),
    {
        match self.find(key) {
            Some(i) => {
                let ghost ks = string_views(self.keys@);
                let ghost vs = string_views(self.values@);
                proof {
                    lemma_map_of_index(ks, vs, i as int);
                    lemma_map_of_remove(ks, vs, i as int);
                }
                self.keys.remove(i);
                self.values.remove(i);
                proof {
                    assert(string_views(self.keys@) =~= ks.remove(i as int));
                    assert(string_views(self.values@) =~= vs.remove(i as int));
                    assert forall|a: int, b: int|
                        0 <= a < b < self.keys.len() implies string_views(self.keys@)[a]
                            != string_views(self.keys@)[b] by {
                        let a0 = if a < i { a } else { a + 1 };
                        let b0 = if b < i { b } else { b + 1 };
                        assert(ks[a0] != ks[b0]);
                    }
                }
                true
            },
            None => {
                assert(self@.remove(key@) =~= self@);
                false
            },
        }
    }

    /// Sets a key to a value, over whatever it held.
    pub fn insert(&mut self, key: String, value: String)
        requires
            old(self).wf(),
        ensures
            final(self).wf(),
            final(self)@ == old(self)@.insert(key@, value@),
    {
        self.remove(key.as_str());
        let ghost ks = string_views(self.keys@);
        let ghost vs = string_views(self.values@);
        proof {
            lemma_map_of_contains(ks, vs, key@);
        }
        self.keys.push(key);
        self.values.push(value);
        proof {
            assert(string_views(self.keys@) =~= ks.push(key@));
            assert(string_views(self.values@) =~= vs.push(value@));
            assert(string_views(self.keys@).drop_last() =~= ks);
            assert(string_views(self.values@).drop_last() =~= vs);
            assert forall|a: int, b: int|
                0 <= a < b < self.keys.len() implies string_views(self.keys@)[a]
                    != string_views(self.keys@)[b] by {
                if b == ks.len() {
                    assert(ks.contains(ks[a]));
                }
            }
            assert(self@ =~= old(self)@.remove(key@).insert(key@, value@));
            assert(self@ =~= old(self)@.insert(key@, value@));
        }
    }

    /// One `Set` record for each live key, in directory order.
    pub fn to_records(&self) -> (rs: Vec<Record>)
        requires
            self.wf(),
        ensures
            is_compacted(record_views(rs@)),
            replay_spec(record_views(rs@)) == self@,
    {
        let ghost ks = string_views(self.keys@);
        let ghost vs = string_views(self.values@);
        let mut rs: Vec<Record> = Vec::new();
        let mut i: usize = 0;
        while i < self.keys.len()
            invariant
                self.wf(),
                ks == string_views(self.keys@),
                vs == string_views(self.values@),
                i <= self.keys.len(),
                rs.len() == i,
                forall|j: int| 0 <= j < i ==> record_views(rs@)[j] == RecordView::Put(ks[j], vs[j]),
                replay_spec(record_views(rs@)) == map_of(ks.take(i as int), vs.take(i as int)),
            decreases self.keys.len() - i,
        {
            let ghost before = record_views(rs@);
            rs.push(Record::Put { key: self.keys[i].clone(), value: self.values[i].clone() });
            proof {
                assert(record_views(rs@).drop_last() =~= before);
                assert(record_views(rs@)[i as int] == RecordView::Put(ks[i as int], vs[i as int]));
                assert forall|j: int| 0 <= j < i + 1 implies record_views(rs@)[j] == RecordView::Put(
                    ks[j],
                    vs[j],
                ) by {
                    if j < i {
                        assert(record_views(rs@)[j] == before[j]);
                    }
                }
                assert(ks.take(i + 1).drop_last() =~= ks.take(i as int));
                assert(vs.take(i + 1).drop_last() =~= vs.take(i as int));
            }
            i = i + 1;
        }
        proof {
            assert(ks.take(i as int) =~= ks);
            assert(vs.take(i as int) =~= vs);
            let r = record_views(rs@);
            assert forall|a: int, b: int| 0 <= a < b < r.len() implies r[a].key() != r[b].key() by {
                assert(ks[a] != ks[b]);
            }
        }
        rs
    }
}

/// A compacted log: only `Set` records, at most one per key.
pub open spec fn is_compacted(rs: Seq<RecordView>) -> bool {
    &&& forall|i: int| 0 <= i < rs.len() ==> rs[i] is Put
    &&& forall|a: int, b: int| 0 <= a < b < rs.len() ==> rs[a].key() != rs[b].key()
}

} // verus!
