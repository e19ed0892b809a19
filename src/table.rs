//! Tables of records keyed by name, where a later insertion under a name
//! replaces the earlier record.
use vstd::prelude::*;

verus! {

/// Position of the last occurrence of `k` in `s`.
pub open spec fn key_position(s: Seq<Seq<char>>, k: Seq<char>) -> Option<int>
    decreases s.len(),
{
    if s.len() == 0 {
        None
    } else if s.last() == k {
        Some(s.len() - 1)
    } else {
        key_position(s.drop_last(), k)
    }
}

pub proof fn lemma_key_position(s: Seq<Seq<char>>, k: Seq<char>)
    ensures
        key_position(s, k) is Some <==> s.contains(k),
        key_position(s, k) matches Some(i) ==> 0 <= i < s.len() && s[i] == k,
        s.no_duplicates() ==> forall|j: int| 0 <= j < s.len() && s[j] == k ==> key_position(s, k) == Some(j),
    decreases s.len(),
{
    if s.len() > 0 {
        let t = s.drop_last();
        lemma_key_position(t, k);
        if s.last() != k {
            if s.contains(k) {
                let j = choose|j: int| 0 <= j < s.len() && s[j] == k;
                assert(t[j] == k);
            }
            if t.contains(k) {
                let j = choose|j: int| 0 <= j < t.len() && t[j] == k;
                assert(s[j] == k);
            }
        }
        if s.no_duplicates() {
            assert(t.no_duplicates());
            assert forall|j: int| 0 <= j < s.len() && s[j] == k implies key_position(s, k) == Some(j) by {
                if j < s.len() - 1 {
                    assert(t[j] == s[j]);
                }
            }
        }
    }
}

/// Strings as character sequences.
pub open spec fn names_view(v: Seq<String>) -> Seq<Seq<char>> {
    v.map_values(|s: String| s@)
}

/// Whether `name` is among `names`.
pub fn contains_name(names: &Vec<String>, name: &String) -> (r: bool)
    ensures
        r == names_view(names@).contains(name@),
{
    let mut i: usize = 0;
    while i < names.len()
        invariant
            i <= names@.len(),
            forall|j: int| 0 <= j < i ==> names_view(names@)[j] != name@,
        decreases names@.len() - i,
    {
        if names[i] == *name {
            assert(names_view(names@)[i as int] == name@);
            return true;
        }
        i = i + 1;
    }
    false
}

/// `m` with each `(name, record)` of `s` inserted in order, a later record
/// replacing an earlier one under the same name.
pub open spec fn insert_all<V>(m: Map<Seq<char>, V>, s: Seq<(Seq<char>, V)>) -> Map<Seq<char>, V>
    decreases s.len(),
{
    if s.len() == 0 {
        m
    } else {
        insert_all(m, s.drop_last()).insert(s.last().0, s.last().1)
    }
}

/// A record that carries its own name.
pub trait Named: View + Sized {
    spec fn key(v: Self::V) -> Seq<char>;

    fn name(&self) -> (r: &String)
        ensures
            r@ == Self::key(self@),
    ;
}

/// Each record of `s` paired with its name.
pub open spec fn keyed<T: Named>(s: Seq<T>) -> Seq<(Seq<char>, T::V)> {
    s.map_values(|r: T| (T::key(r@), r@))
}

/// Records keyed by name, in order of first insertion.
pub struct Table<T> {
    pub names: Vec<String>,
    pub records: Vec<T>,
}

impl<T: View> Table<T> {
    /// The names, as character sequences.
    pub open spec fn keys(&self) -> Seq<Seq<char>> {
        names_view(self.names@)
    }

    /// One record for each name, and no name twice.
    pub open spec fn wf(&self) -> bool {
        &&& self.names@.len() == self.records@.len()
        &&& self.keys().no_duplicates()
    }

    /// The record stored under `k`.
    pub open spec fn record(&self, k: Seq<char>) -> T::V {
        self.records@[key_position(self.keys(), k)->0]@
    }

    pub proof fn lemma_view(&self)
        requires
            self.wf(),
        ensures
            self@.dom() == self.keys().to_set(),
            self@.dom().finite(),
            self@.dom().len() == self.keys().len(),
            forall|i: int|
                0 <= i < self.keys().len() ==> #[trigger] self@[self.keys()[i]] == self.records@[i]@,
            forall|k: Seq<char>|
                #[trigger] self@.contains_key(k) ==> exists|i: int|
                    0 <= i < self.keys().len() && self.keys()[i] == k,
    {
        assert(self@.dom() =~= self.keys().to_set());
        self.keys().unique_seq_to_set();
        assert forall|i: int| 0 <= i < self.keys().len() implies #[trigger] self@[self.keys()[i]]
            == self.records@[i]@ by {
            lemma_key_position(self.keys(), self.keys()[i]);
        }
        assert forall|k: Seq<char>| #[trigger] self@.contains_key(k) implies exists|i: int|
            0 <= i < self.keys().len() && self.keys()[i] == k by {
            lemma_key_position(self.keys(), k);
        }
    }

    /// Replacing the record at position `i` replaces what the table holds
    /// under the name at that position.
    pub proof fn lemma_replace_record(before: Self, after: Self, i: int, v: T)
        requires
            before.wf(),
            0 <= i < before.records@.len(),
            after.names@ == before.names@,
            after.records@ == before.records@.update(i, v),
        ensures
            after.wf(),
            after@ == before@.insert(before.keys()[i], v@),
    {
        let k = before.keys()[i];
        assert(after.keys() =~= before.keys());
        lemma_key_position(before.keys(), k);
        assert forall|q: Seq<char>| #[trigger] after@.contains_key(q) implies after@[q]
            == before@.insert(k, v@)[q] by {
            lemma_key_position(before.keys(), q);
        }
        assert(after@ =~= before@.insert(k, v@));
    }

    pub fn new() -> (r: Self)
        ensures
            r.wf(),
            r@ == Map::<Seq<char>, T::V>::empty(),
            r.names@.len() == 0,
    {
        let r = Table { names: Vec::new(), records: Vec::new() };
        assert(r@ =~= Map::<Seq<char>, T::V>::empty());
        r
    }

    pub fn len(&self) -> (r: usize)
        ensures
            r == self.names@.len(),
    {
        self.names.len()
    }

    /// Position of `name` among the names.
    pub fn find(&self, name: &String) -> (r: Option<usize>)
        requires
            self.wf(),
        ensures
            match r {
                Some(i) => i < self.names@.len() && self.keys()[i as int] == name@,
                None => !self@.contains_key(name@),
            },
    {
        let mut i: usize = 0;
        while i < self.names.len()
            invariant
                self.wf(),
                i <= self.names@.len(),
                forall|j: int| 0 <= j < i ==> self.keys()[j] != name@,
            decreases self.names@.len() - i,
        {
            if self.names[i] == *name {
                return Some(i);
            }
            i = i + 1;
        }
        proof {
            lemma_key_position(self.keys(), name@);
        }
        None
    }

    /// Stores `record` under `name`, replacing a record already stored there.
    pub fn insert(&mut self, name: String, record: T)
        requires
            old(self).wf(),
        ensures
            final(self).wf(),
            final(self)@ == old(self)@.insert(name@, record@),
    {
        let ghost k = name@;
        let ghost v = record@;
        let ghost before = *self;
        match self.find(&name) {
            Some(i) => {
                self.records.set(i, record);
                proof {
                    Self::lemma_replace_record(before, *self, i as int, record);
                }
            },
            None => {
                self.names.push(name);
                self.records.push(record);
                proof {
                    let ks = before.keys();
                    assert(self.keys() =~= ks.push(k));
                    lemma_key_position(ks, k);
                    assert(self.keys().no_duplicates());
                    assert forall|q: Seq<char>| #[trigger] self@.contains_key(q) implies self@[q]
                        == before@.insert(k, v)[q] by {
                        lemma_key_position(ks, q);
                        lemma_key_position(self.keys(), q);
                        if q != k {
                            let j = key_position(ks, q)->0;
                            assert(self.records@[j] == before.records@[j]);
                        }
                    }
                    assert forall|q: Seq<char>| #[trigger] before@.insert(k, v).contains_key(q)
                        implies self@.contains_key(q) by {
                        lemma_key_position(ks, q);
                        if q != k {
                            let j = key_position(ks, q)->0;
                            assert(self.keys()[j] == q);
                        }
                        assert(self.keys()[ks.len() as int] == k);
                    }
                    assert(self@ =~= before@.insert(k, v));
                }
            },
        }
    }
}

impl<T: View> View for Table<T> {
    type V = Map<Seq<char>, T::V>;

    open spec fn view(&self) -> Map<Seq<char>, T::V> {
        Map::new(|k: Seq<char>| self.keys().contains(k), |k: Seq<char>| self.record(k))
    }
}

impl<T: Named> Table<T> {
    /// Inserts each of `records` under its own name, in order.
    pub fn insert_all(&mut self, records: Vec<T>)
        requires
            old(self).wf(),
        ensures
            final(self).wf(),
            final(self)@ == insert_all(old(self)@, keyed(records@)),
    {
        let ghost all = records@;
        let n = records.len();
        let mut rest = records;
        let mut done: usize = 0;
        while rest.len() > 0
            invariant
                self.wf(),
                done + rest@.len() == all.len(),
                all.len() == n,
                rest@ == all.subrange(done as int, all.len() as int),
                self@ == insert_all(old(self)@, keyed(all.subrange(0, done as int))),
            decreases rest@.len(),
        {
            let r = rest.remove(0);
            let name = r.name().clone();
            self.insert(name, r);
            proof {
                let s = keyed(all.subrange(0, done + 1));
                assert(s.drop_last() =~= keyed(all.subrange(0, done as int)));
                assert(s.last() == (T::key(all[done as int]@), all[done as int]@));
                assert(rest@ =~= all.subrange(done + 1, all.len() as int));
            }
            done = done + 1;
        }
        assert(all.subrange(0, done as int) =~= all);
    }
}

} // verus!
