//! Small verified maps used for the environment and the solver's side
//! tables.  Each is an association list with unique keys whose model is a
//! mathematical `Map`; insertion order is never observable through the
//! contracts.

use vstd::prelude::*;

verus! {

// ---------------------------------------------------------------------------
// String-keyed map.
// ---------------------------------------------------------------------------

/// A map from names to values, used for the environment's bindings and for
/// the substitution tables of matching and instantiation.
#[derive(Debug)]
pub struct NameMap<V> {
    entries: Vec<(String, V)>,
}

/// The map an entry list denotes, later entries winning.
pub open spec fn name_entries_map<V>(s: Seq<(String, V)>) -> Map<Seq<char>, V>
    decreases s.len(),
{
    if s.len() == 0 {
        Map::empty()
    } else {
        name_entries_map(s.drop_last()).insert(s.last().0@, s.last().1)
    }
}

pub proof fn lemma_name_entries_not_found<V>(s: Seq<(String, V)>, k: Seq<char>)
    requires
        forall|i: int| 0 <= i < s.len() ==> (#[trigger] s[i]).0@ != k,
    ensures
        !name_entries_map(s).contains_key(k),
    decreases s.len(),
{
    if s.len() > 0 {
        lemma_name_entries_not_found(s.drop_last(), k);
    }
}

pub proof fn lemma_name_entries_found<V>(s: Seq<(String, V)>, k: Seq<char>, i: int)
    requires
        forall|p: int, q: int|
            0 <= p < q < s.len() ==> (#[trigger] s[p]).0@ != (#[trigger] s[q]).0@,
        0 <= i < s.len(),
        s[i].0@ == k,
    ensures
        name_entries_map(s).contains_key(k),
        name_entries_map(s)[k] == s[i].1,
    decreases s.len(),
{
    if i == s.len() - 1 {
    } else {
        assert(s.drop_last()[i] == s[i]);
        lemma_name_entries_found(s.drop_last(), k, i);
        assert(s.last().0@ != k);
    }
}

pub proof fn lemma_name_entries_remove_at<V>(s: Seq<(String, V)>, i: int)
    requires
        forall|p: int, q: int|
            0 <= p < q < s.len() ==> (#[trigger] s[p]).0@ != (#[trigger] s[q]).0@,
        0 <= i < s.len(),
    ensures
        name_entries_map(s.remove(i)) == name_entries_map(s).remove(s[i].0@),
    decreases s.len(),
{
    let k = s[i].0@;
    if i == s.len() - 1 {
        assert(s.remove(i) =~= s.drop_last());
        assert(forall|j: int|
            0 <= j < s.drop_last().len() ==> (#[trigger] s.drop_last()[j]).0@ != k);
        lemma_name_entries_not_found(s.drop_last(), k);
        assert(name_entries_map(s.drop_last()) =~= name_entries_map(s).remove(k));
    } else {
        let s2 = s.remove(i);
        assert(s2.drop_last() =~= s.drop_last().remove(i));
        assert(s2.last() == s.last());
        assert(forall|j: int| 0 <= j < s.drop_last().len() ==> s.drop_last()[j] == s[j]);
        lemma_name_entries_remove_at(s.drop_last(), i);
        assert(name_entries_map(s2) == name_entries_map(s.drop_last()).remove(k).insert(
            s.last().0@,
            s.last().1,
        ));
        assert(s.last().0@ != k);
        assert(name_entries_map(s.drop_last()).remove(k).insert(s.last().0@, s.last().1)
            =~= name_entries_map(s.drop_last()).insert(s.last().0@, s.last().1).remove(k));
    }
}

impl<V> NameMap<V> {
    /// Keys are pairwise distinct.
    pub closed spec fn wf(self) -> bool {
        forall|p: int, q: int|
            0 <= p < q < self.entries@.len() ==> (#[trigger] self.entries@[p]).0@ != (
            #[trigger] self.entries@[q]).0@
    }

    pub closed spec fn view(self) -> Map<Seq<char>, V> {
        name_entries_map(self.entries@)
    }

    pub fn new() -> (r: Self)
        ensures
            r.wf(),
            r@ == Map::<Seq<char>, V>::empty(),
    {
        NameMap { entries: Vec::new() }
    }

    /// The position of the key in the entry list, if present.
    fn find(&self, k: &String) -> (r: Option<usize>)
        requires
            self.wf(),
        ensures
            match r {
                Some(i) => i < self.entries@.len() && self.entries@[i as int].0@ == k@
                    && self@.contains_key(k@) && self@[k@] == self.entries@[i as int].1,
                None => !self@.contains_key(k@),
            },
    {
        let mut i: usize = 0;
        while i < self.entries.len()
            invariant
                self.wf(),
                i <= self.entries@.len(),
                forall|j: int| 0 <= j < i ==> (#[trigger] self.entries@[j]).0@ != k@,
            decreases self.entries@.len() - i,
        {
            if self.entries[i].0 == *k {
                proof {
                    lemma_name_entries_found(self.entries@, k@, i as int);
                }
                return Some(i);
            }
            i = i + 1;
        }
        proof {
            lemma_name_entries_not_found(self.entries@, k@);
        }
        None
    }

    pub fn contains_key(&self, k: &String) -> (r: bool)
        requires
            self.wf(),
        ensures
            r == self@.contains_key(k@),
    {
        self.find(k).is_some()
    }

    pub fn get<'a>(&'a self, k: &String) -> (r: Option<&'a V>)
        requires
            self.wf(),
        ensures
            match r {
                Some(v) => self@.contains_key(k@) && *v == self@[k@],
                None => !self@.contains_key(k@),
            },
    {
        match self.find(k) {
            Some(i) => Some(&self.entries[i].1),
            None => None,
        }
    }

    pub fn remove(&mut self, k: &String)
        requires
            old(self).wf(),
        ensures
            final(self).wf(),
            final(self)@ == old(self)@.remove(k@),
    {
        match self.find(k) {
            Some(i) => {
                proof {
                    lemma_name_entries_remove_at(self.entries@, i as int);
                }
                self.entries.remove(i);
            },
            None => {
                proof {
                    assert(old(self)@.remove(k@) =~= old(self)@);
                }
            },
        }
    }

    pub fn insert(&mut self, k: String, v: V)
        requires
            old(self).wf(),
        ensures
            final(self).wf(),
            final(self)@ == old(self)@.insert(k@, v),
    {
        self.remove(&k);
        proof {
            assert forall|j: int|
                0 <= j < self.entries@.len() implies (#[trigger] self.entries@[j]).0@ != k@ by {
                if self.entries@[j].0@ == k@ {
                    lemma_name_entries_found(self.entries@, k@, j);
                }
            }
        }
        let ghost pre = self.entries@;
        self.entries.push((k, v));
        proof {
            assert(self.entries@.drop_last() =~= pre);
            assert(forall|j: int| 0 <= j < pre.len() ==> self.entries@[j] == pre[j]);
            assert(self@ =~= old(self)@.insert(k@, v));
        }
    }
}

// ---------------------------------------------------------------------------
// Integer-keyed map.
// ---------------------------------------------------------------------------

/// A map from numeric identifiers (unification variables, markers) to
/// values.  Entries can be read back in insertion order, which keeps every
/// consumer deterministic.
#[derive(Debug)]
pub struct IntMap<V> {
    entries: Vec<(usize, V)>,
}

/// The map an entry list denotes, later entries winning.
pub open spec fn int_entries_map<V>(s: Seq<(usize, V)>) -> Map<nat, V>
    decreases s.len(),
{
    if s.len() == 0 {
        Map::empty()
    } else {
        int_entries_map(s.drop_last()).insert(s.last().0 as nat, s.last().1)
    }
}

pub proof fn lemma_int_entries_not_found<V>(s: Seq<(usize, V)>, k: nat)
    requires
        forall|i: int| 0 <= i < s.len() ==> (#[trigger] s[i]).0 as nat != k,
    ensures
        !int_entries_map(s).contains_key(k),
    decreases s.len(),
{
    if s.len() > 0 {
        lemma_int_entries_not_found(s.drop_last(), k);
    }
}

pub proof fn lemma_int_entries_found<V>(s: Seq<(usize, V)>, k: nat, i: int)
    requires
        forall|p: int, q: int| 0 <= p < q < s.len() ==> (#[trigger] s[p]).0 != (#[trigger] s[q]).0,
        0 <= i < s.len(),
        s[i].0 as nat == k,
    ensures
        int_entries_map(s).contains_key(k),
        int_entries_map(s)[k] == s[i].1,
    decreases s.len(),
{
    if i == s.len() - 1 {
    } else {
        assert(s.drop_last()[i] == s[i]);
        lemma_int_entries_found(s.drop_last(), k, i);
        assert(s.last().0 as nat != k);
    }
}

pub proof fn lemma_int_entries_remove_at<V>(s: Seq<(usize, V)>, i: int)
    requires
        forall|p: int, q: int| 0 <= p < q < s.len() ==> (#[trigger] s[p]).0 != (#[trigger] s[q]).0,
        0 <= i < s.len(),
    ensures
        int_entries_map(s.remove(i)) == int_entries_map(s).remove(s[i].0 as nat),
    decreases s.len(),
{
    let k = s[i].0 as nat;
    if i == s.len() - 1 {
        assert(s.remove(i) =~= s.drop_last());
        lemma_int_entries_not_found(s.drop_last(), k);
        assert(int_entries_map(s.drop_last()) =~= int_entries_map(s).remove(k));
    } else {
        let s2 = s.remove(i);
        assert(s2.drop_last() =~= s.drop_last().remove(i));
        assert(s2.last() == s.last());
        assert(forall|j: int| 0 <= j < s.drop_last().len() ==> s.drop_last()[j] == s[j]);
        lemma_int_entries_remove_at(s.drop_last(), i);
        assert(int_entries_map(s2) == int_entries_map(s.drop_last()).remove(k).insert(
            s.last().0 as nat,
            s.last().1,
        ));
        assert(s.last().0 as nat != k);
        assert(int_entries_map(s.drop_last()).remove(k).insert(s.last().0 as nat, s.last().1)
            =~= int_entries_map(s.drop_last()).insert(s.last().0 as nat, s.last().1).remove(k));
    }
}

impl<V> IntMap<V> {
    /// Keys are pairwise distinct.
    pub closed spec fn wf(self) -> bool {
        forall|p: int, q: int|
            0 <= p < q < self.entries@.len() ==> (#[trigger] self.entries@[p]).0 != (
            #[trigger] self.entries@[q]).0
    }

    pub closed spec fn view(self) -> Map<nat, V> {
        int_entries_map(self.entries@)
    }

    /// The entries in insertion order, for reporting.
    pub closed spec fn entries_view(self) -> Seq<(usize, V)> {
        self.entries@
    }

    pub fn new() -> (r: Self)
        ensures
            r.wf(),
            r@ == Map::<nat, V>::empty(),
    {
        IntMap { entries: Vec::new() }
    }

    fn find(&self, k: usize) -> (r: Option<usize>)
        requires
            self.wf(),
        ensures
            match r {
                Some(i) => i < self.entries@.len() && self.entries@[i as int].0 == k
                    && self@.contains_key(k as nat) && self@[k as nat] == self.entries@[i as int].1,
                None => !self@.contains_key(k as nat),
            },
    {
        let mut i: usize = 0;
        while i < self.entries.len()
            invariant
                self.wf(),
                i <= self.entries@.len(),
                forall|j: int| 0 <= j < i ==> (#[trigger] self.entries@[j]).0 != k,
            decreases self.entries@.len() - i,
        {
            if self.entries[i].0 == k {
                proof {
                    lemma_int_entries_found(self.entries@, k as nat, i as int);
                }
                return Some(i);
            }
            i = i + 1;
        }
        proof {
            lemma_int_entries_not_found(self.entries@, k as nat);
        }
        None
    }

    pub fn contains_key(&self, k: usize) -> (r: bool)
        requires
            self.wf(),
        ensures
            r == self@.contains_key(k as nat),
    {
        self.find(k).is_some()
    }

    pub fn get<'a>(&'a self, k: usize) -> (r: Option<&'a V>)
        requires
            self.wf(),
        ensures
            match r {
                Some(v) => self@.contains_key(k as nat) && *v == self@[k as nat],
                None => !self@.contains_key(k as nat),
            },
    {
        match self.find(k) {
            Some(i) => Some(&self.entries[i].1),
            None => None,
        }
    }

    fn remove_key(&mut self, k: usize)
        requires
            old(self).wf(),
        ensures
            final(self).wf(),
            final(self)@ == old(self)@.remove(k as nat),
    {
        match self.find(k) {
            Some(i) => {
                proof {
                    lemma_int_entries_remove_at(self.entries@, i as int);
                }
                self.entries.remove(i);
            },
            None => {
                proof {
                    assert(old(self)@.remove(k as nat) =~= old(self)@);
                }
            },
        }
    }

    pub fn insert(&mut self, k: usize, v: V)
        requires
            old(self).wf(),
        ensures
            final(self).wf(),
            final(self)@ == old(self)@.insert(k as nat, v),
    {
        self.remove_key(k);
        proof {
            assert forall|j: int|
                0 <= j < self.entries@.len() implies (#[trigger] self.entries@[j]).0 != k by {
                if self.entries@[j].0 == k {
                    lemma_int_entries_found(self.entries@, k as nat, j);
                }
            }
        }
        let ghost pre = self.entries@;
        self.entries.push((k, v));
        proof {
            assert(self.entries@.drop_last() =~= pre);
            assert(forall|j: int| 0 <= j < pre.len() ==> self.entries@[j] == pre[j]);
            assert(self@ =~= old(self)@.insert(k as nat, v));
        }
    }

    /// Read access to the entries in insertion order.
    pub fn entries(&self) -> (r: &Vec<(usize, V)>)
        ensures
            r@ == self.entries_view(),
    {
        &self.entries
    }
}

// ---------------------------------------------------------------------------
// Substitution map keyed by (name, rank).
// ---------------------------------------------------------------------------

/// A substitution from bound type variables, keyed by name and binder rank,
/// to arena positions of replacement types.
pub struct RankMap {
    entries: Vec<(String, usize, crate::ty::TypeId)>,
}

/// The map an entry list denotes, later entries winning; values are the
/// arena positions of the replacements.
pub open spec fn rank_entries_map(s: Seq<(String, usize, crate::ty::TypeId)>) -> Map<
    (Seq<char>, nat),
    nat,
>
    decreases s.len(),
{
    if s.len() == 0 {
        Map::empty()
    } else {
        rank_entries_map(s.drop_last()).insert(
            (s.last().0@, s.last().1 as nat),
            s.last().2@,
        )
    }
}

pub proof fn lemma_rank_entries_not_found(
    s: Seq<(String, usize, crate::ty::TypeId)>,
    k: (Seq<char>, nat),
)
    requires
        forall|i: int|
            0 <= i < s.len() ==> ((#[trigger] s[i]).0@, s[i].1 as nat) != k,
    ensures
        !rank_entries_map(s).contains_key(k),
    decreases s.len(),
{
    if s.len() > 0 {
        lemma_rank_entries_not_found(s.drop_last(), k);
    }
}

pub proof fn lemma_rank_entries_found(
    s: Seq<(String, usize, crate::ty::TypeId)>,
    k: (Seq<char>, nat),
    i: int,
)
    requires
        forall|p: int, q: int|
            0 <= p < q < s.len() ==> ((#[trigger] s[p]).0@, s[p].1 as nat) != ((
            #[trigger] s[q]).0@, s[q].1 as nat),
        0 <= i < s.len(),
        (s[i].0@, s[i].1 as nat) == k,
    ensures
        rank_entries_map(s).contains_key(k),
        rank_entries_map(s)[k] == s[i].2@,
    decreases s.len(),
{
    if i == s.len() - 1 {
    } else {
        assert(s.drop_last()[i] == s[i]);
        lemma_rank_entries_found(s.drop_last(), k, i);
        assert((s.last().0@, s.last().1 as nat) != k);
    }
}

impl RankMap {
    /// Keys are pairwise distinct.
    pub closed spec fn wf(self) -> bool {
        forall|p: int, q: int|
            0 <= p < q < self.entries@.len() ==> ((#[trigger] self.entries@[p]).0@,
            self.entries@[p].1 as nat) != ((#[trigger] self.entries@[q]).0@,
            self.entries@[q].1 as nat)
    }

    pub closed spec fn view(self) -> Map<(Seq<char>, nat), nat> {
        rank_entries_map(self.entries@)
    }

    pub fn new() -> (r: Self)
        ensures
            r.wf(),
            r@ == Map::<(Seq<char>, nat), nat>::empty(),
    {
        RankMap { entries: Vec::new() }
    }

    fn find(&self, name: &String, rank: usize) -> (r: Option<usize>)
        requires
            self.wf(),
        ensures
            match r {
                Some(i) => i < self.entries@.len() && self.entries@[i as int].0@ == name@
                    && self.entries@[i as int].1 == rank && self@.contains_key(
                    (name@, rank as nat),
                ) && self@[(name@, rank as nat)] == self.entries@[i as int].2@,
                None => !self@.contains_key((name@, rank as nat)),
            },
    {
        let mut i: usize = 0;
        while i < self.entries.len()
            invariant
                self.wf(),
                i <= self.entries@.len(),
                forall|j: int|
                    0 <= j < i ==> ((#[trigger] self.entries@[j]).0@, self.entries@[j].1 as nat)
                        != (name@, rank as nat),
            decreases self.entries@.len() - i,
        {
            if self.entries[i].1 == rank && self.entries[i].0 == *name {
                proof {
                    lemma_rank_entries_found(self.entries@, (name@, rank as nat), i as int);
                }
                return Some(i);
            }
            i = i + 1;
        }
        proof {
            lemma_rank_entries_not_found(self.entries@, (name@, rank as nat));
        }
        None
    }

    pub fn get(&self, name: &String, rank: usize) -> (r: Option<crate::ty::TypeId>)
        requires
            self.wf(),
        ensures
            match r {
                Some(id) => self@.contains_key((name@, rank as nat)) && id@ == self@[
                    (name@, rank as nat)
                ],
                None => !self@.contains_key((name@, rank as nat)),
            },
    {
        match self.find(name, rank) {
            Some(i) => Some(self.entries[i].2),
            None => None,
        }
    }

    fn remove_key(&mut self, name: &String, rank: usize)
        requires
            old(self).wf(),
        ensures
            final(self).wf(),
            final(self)@ == old(self)@.remove((name@, rank as nat)),
    {
        match self.find(name, rank) {
            Some(i) => {
                proof {
                    lemma_rank_remove(self.entries@, i as int);
                }
                self.entries.remove(i);
            },
            None => {
                proof {
                    assert(old(self)@.remove((name@, rank as nat)) =~= old(self)@);
                }
            },
        }
    }

    pub fn insert(&mut self, name: String, rank: usize, id: crate::ty::TypeId)
        requires
            old(self).wf(),
        ensures
            final(self).wf(),
            final(self)@ == old(self)@.insert((name@, rank as nat), id@),
    {
        self.remove_key(&name, rank);
        proof {
            assert forall|j: int|
                0 <= j < self.entries@.len() implies ((#[trigger] self.entries@[j]).0@,
            self.entries@[j].1 as nat) != (name@, rank as nat) by {
                if (self.entries@[j].0@, self.entries@[j].1 as nat) == (name@, rank as nat) {
                    lemma_rank_entries_found(self.entries@, (name@, rank as nat), j);
                }
            }
        }
        let ghost pre = self.entries@;
        self.entries.push((name, rank, id));
        proof {
            assert(self.entries@.drop_last() =~= pre);
            assert(forall|j: int| 0 <= j < pre.len() ==> self.entries@[j] == pre[j]);
            assert(self@ =~= old(self)@.insert((name@, rank as nat), id@));
        }
    }
}

proof fn lemma_rank_remove(s: Seq<(String, usize, crate::ty::TypeId)>, i: int)
    requires
        forall|p: int, q: int|
            0 <= p < q < s.len() ==> ((#[trigger] s[p]).0@, s[p].1 as nat) != ((#[trigger] s[q]).0@,
            s[q].1 as nat),
        0 <= i < s.len(),
    ensures
        rank_entries_map(s.remove(i)) == rank_entries_map(s).remove((s[i].0@, s[i].1 as nat)),
    decreases s.len(),
{
    let k = (s[i].0@, s[i].1 as nat);
    if i == s.len() - 1 {
        assert(s.remove(i) =~= s.drop_last());
        lemma_rank_entries_not_found(s.drop_last(), k);
        assert(rank_entries_map(s.drop_last()) =~= rank_entries_map(s).remove(k));
    } else {
        let s2 = s.remove(i);
        assert(s2.drop_last() =~= s.drop_last().remove(i));
        assert(s2.last() == s.last());
        assert(forall|j: int| 0 <= j < s.drop_last().len() ==> s.drop_last()[j] == s[j]);
        lemma_rank_remove(s.drop_last(), i);
        assert((s.last().0@, s.last().1 as nat) != k);
        assert(rank_entries_map(s.drop_last()).remove(k).insert(
            (s.last().0@, s.last().1 as nat),
            s.last().2@,
        ) =~= rank_entries_map(s.drop_last()).insert(
            (s.last().0@, s.last().1 as nat),
            s.last().2@,
        ).remove(k));
    }
}

} // verus!
