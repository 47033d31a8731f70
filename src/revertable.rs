//! A key/value store with nested checkpoints.
//!
//! Every write made while a checkpoint is live records the value it replaced in an
//! undo log. `commit` forgets the innermost checkpoint, `revert` replays the undo log
//! back to it. Both cost time in proportion to the writes made since that checkpoint.
use vstd::prelude::*;

verus! {

/// A value that a store can hold: it has a mathematical model, and a copy of it keeps
/// that model.
pub trait StoreValue: Sized {
    type Model;

    spec fn model(&self) -> Self::Model;

    fn duplicate(&self) -> (r: Self)
        ensures
            r.model() == self.model(),
    ;
}

/// A value that can key a store: two keys are the same exactly when their models are.
pub trait StoreKey: StoreValue {
    fn same_key(&self, other: &Self) -> (r: bool)
        ensures
            r == (self.model() == other.model()),
    ;
}

impl StoreValue for Vec<u8> {
    type Model = Seq<u8>;

    open spec fn model(&self) -> Seq<u8> {
        self@
    }

    fn duplicate(&self) -> (r: Self) {
        let mut out: Vec<u8> = Vec::new();
        let mut i: usize = 0;
        while i < self.len()
            invariant
                i <= self@.len(),
                out@ == self@.subrange(0, i as int),
            decreases self@.len() - i,
        {
            out.push(self[i]);
            i = i + 1;
            assert(out@ =~= self@.subrange(0, i as int));
        }
        assert(out@ =~= self@);
        out
    }
}

impl StoreKey for Vec<u8> {
    fn same_key(&self, other: &Self) -> (r: bool) {
        if self.len() != other.len() {
            return false;
        }
        let mut i: usize = 0;
        while i < self.len()
            invariant
                i <= self@.len(),
                self@.len() == other@.len(),
                self@.subrange(0, i as int) == other@.subrange(0, i as int),
            decreases self@.len() - i,
        {
            if self[i] != other[i] {
                assert(self@[i as int] != other@[i as int]);
                return false;
            }
            assert(self@.subrange(0, i + 1) =~= self@.subrange(0, i as int).push(self@[i as int]));
            assert(other@.subrange(0, i + 1) =~= other@.subrange(0, i as int).push(other@[i as int]));
            i = i + 1;
        }
        assert(self@ =~= self@.subrange(0, i as int));
        assert(other@ =~= other@.subrange(0, i as int));
        true
    }
}

impl StoreValue for String {
    type Model = Seq<char>;

    open spec fn model(&self) -> Seq<char> {
        self@
    }

    fn duplicate(&self) -> (r: Self) {
        self.clone()
    }
}

impl StoreKey for String {
    fn same_key(&self, other: &Self) -> (r: bool) {
        *self == *other
    }
}

impl StoreValue for u128 {
    type Model = u128;

    open spec fn model(&self) -> u128 {
        *self
    }

    fn duplicate(&self) -> (r: Self) {
        *self
    }
}

impl<A: StoreValue, B: StoreValue> StoreValue for (A, B) {
    type Model = (A::Model, B::Model);

    open spec fn model(&self) -> (A::Model, B::Model) {
        (self.0.model(), self.1.model())
    }

    fn duplicate(&self) -> (r: Self) {
        (self.0.duplicate(), self.1.duplicate())
    }
}

impl<A: StoreKey, B: StoreKey> StoreKey for (A, B) {
    fn same_key(&self, other: &Self) -> (r: bool) {
        self.0.same_key(&other.0) && self.1.same_key(&other.1)
    }
}

/// The model of an optional value.
pub open spec fn opt_model<V: StoreValue>(v: Option<V>) -> Option<V::Model> {
    match v {
        Some(x) => Some(x.model()),
        None => None,
    }
}

/// What a store maps `k` to, as an option.
pub open spec fn lookup<K, V>(m: Map<K, V>, k: K) -> Option<V> {
    if m.contains_key(k) {
        Some(m[k])
    } else {
        None
    }
}

/// Puts `v` under `k`, or takes `k` out when `v` is `None`.
pub open spec fn overwrite<K, V>(m: Map<K, V>, k: K, v: Option<V>) -> Map<K, V> {
    match v {
        Some(x) => m.insert(k, x),
        None => m.remove(k),
    }
}

/// Undoes, from the newest record down to position `mark`, the writes that `log`
/// recorded; each record holds a key and the value that the key had before.
pub open spec fn rollback<K, V>(m: Map<K, V>, log: Seq<(K, Option<V>)>, mark: int) -> Map<K, V>
    decreases log.len(),
{
    if log.len() == 0 || log.len() <= mark {
        m
    } else {
        rollback(overwrite(m, log.last().0, log.last().1), log.drop_last(), mark)
    }
}

/// Writing a key and recording its previous value leaves every rollback target as it was.
pub proof fn lemma_journaled_write<K, V>(
    m: Map<K, V>,
    log: Seq<(K, Option<V>)>,
    k: K,
    v: Option<V>,
    mark: int,
)
    requires
        mark <= log.len(),
    ensures
        rollback(overwrite(m, k, v), log.push((k, lookup(m, k))), mark) == rollback(m, log, mark),
{
    let m2 = overwrite(m, k, v);
    let log2 = log.push((k, lookup(m, k)));
    assert(log2.drop_last() =~= log);
    assert(overwrite(m2, k, lookup(m, k)) =~= m);
}

/// `entries` lists each key of `contents` exactly once, with its value.
pub closed spec fn entries_match<K: StoreValue, V: StoreValue>(
    entries: Seq<(K, V)>,
    contents: Map<K::Model, V::Model>,
) -> bool {
    &&& forall|i: int|
        0 <= i < entries.len() ==> {
            &&& #[trigger] contents.contains_key(entries[i].0.model())
            &&& contents[entries[i].0.model()] == entries[i].1.model()
        }
    &&& forall|k: K::Model|
        #[trigger] contents.contains_key(k) ==> exists|i: int|
            0 <= i < entries.len() && entries[i].0.model() == k
    &&& forall|i: int, j: int|
        0 <= i < j < entries.len() ==> entries[i].0.model() != entries[j].0.model()
}

/// A key/value store with a stack of live checkpoints.
pub struct Revertable<K: StoreKey, V: StoreValue> {
    entries: Vec<(K, V)>,
    log: Vec<(K, Option<V>)>,
    marks: Vec<usize>,
    contents: Ghost<Map<K::Model, V::Model>>,
}

impl<K: StoreKey, V: StoreValue> View for Revertable<K, V> {
    type V = Map<K::Model, V::Model>;

    closed spec fn view(&self) -> Map<K::Model, V::Model> {
        self.contents@
    }
}

impl<K: StoreKey, V: StoreValue> Revertable<K, V> {
    closed spec fn log_model(&self) -> Seq<(K::Model, Option<V::Model>)> {
        self.log@.map_values(|e: (K, Option<V>)| (e.0.model(), opt_model(e.1)))
    }

    closed spec fn entries_match(&self) -> bool {
        entries_match(self.entries@, self.contents@)
    }

    closed spec fn marks_ok(&self) -> bool {
        &&& forall|i: int|
            0 <= i < self.marks@.len() ==> #[trigger] self.marks@[i] <= self.log@.len()
        &&& forall|i: int, j: int|
            0 <= i <= j < self.marks@.len() ==> self.marks@[i] <= self.marks@[j]
        &&& self.marks@.len() == 0 ==> self.log@.len() == 0
        &&& self.marks@.len() > 0 ==> self.marks@[0] == 0
    }

    /// The store's internal invariant.
    pub closed spec fn wf(&self) -> bool {
        self.entries_match() && self.marks_ok()
    }

    /// How many checkpoints are live.
    pub closed spec fn depth(&self) -> nat {
        self.marks@.len()
    }

    /// The contents that each live checkpoint captured, oldest first.
    pub closed spec fn saved(&self) -> Seq<Map<K::Model, V::Model>> {
        Seq::new(
            self.marks@.len(),
            |i: int| rollback(self@, self.log_model(), self.marks@[i] as int),
        )
    }

    /// There is one saved snapshot per live checkpoint.
    pub proof fn lemma_saved_len(&self)
        ensures
            self.saved().len() == self.depth(),
    {
    }

    /// An empty store with no checkpoint.
    pub fn new() -> (r: Self)
        ensures
            r.wf(),
            r@ == Map::<K::Model, V::Model>::empty(),
            r.depth() == 0,
            r.saved() == Seq::<Map<K::Model, V::Model>>::empty(),
    {
        let r = Revertable {
            entries: Vec::new(),
            log: Vec::new(),
            marks: Vec::new(),
            contents: Ghost(Map::empty()),
        };
        assert(r.saved() =~= Seq::<Map<K::Model, V::Model>>::empty());
        r
    }

    /// An empty store that already holds `depth` checkpoints, each of them empty: the
    /// store of something created while checkpoints were live elsewhere.
    pub fn new_at_depth(depth: usize) -> (r: Self)
        ensures
            r.wf(),
            r@ == Map::<K::Model, V::Model>::empty(),
            r.depth() == depth,
            r.saved() == Seq::new(depth as nat, |i: int| Map::<K::Model, V::Model>::empty()),
    {
        let mut marks: Vec<usize> = Vec::new();
        let mut i: usize = 0;
        while i < depth
            invariant
                i <= depth,
                marks@.len() == i,
                forall|j: int| 0 <= j < i ==> marks@[j] == 0,
            decreases depth - i,
        {
            marks.push(0);
            i = i + 1;
        }
        let r = Revertable {
            entries: Vec::new(),
            log: Vec::new(),
            marks,
            contents: Ghost(Map::empty()),
        };
        assert(r.saved() =~= Seq::new(depth as nat, |i: int| Map::<K::Model, V::Model>::empty()));
        r
    }

    /// The value stored under `k`, if any.
    pub fn get(&self, k: &K) -> (r: Option<&V>)
        requires
            self.wf(),
        ensures
            match r {
                Some(v) => self@.contains_key(k.model()) && v.model() == self@[k.model()],
                None => !self@.contains_key(k.model()),
            },
    {
        match self.find(k) {
            Some(i) => {
                assert(self.contents@.contains_key(self.entries@[i as int].0.model()));
                Some(&self.entries[i].1)
            },
            None => None,
        }
    }

    /// The keys of the store, each once.
    pub fn keys(&self) -> (r: Vec<K>)
        requires
            self.wf(),
        ensures
            forall|j: int| 0 <= j < r@.len() ==> #[trigger] self@.contains_key(r@[j].model()),
            forall|k: K::Model| #[trigger]
                self@.contains_key(k) ==> exists|j: int| 0 <= j < r@.len() && r@[j].model() == k,
            forall|a: int, b: int| 0 <= a < b < r@.len() ==> r@[a].model() != r@[b].model(),
    {
        let mut out: Vec<K> = Vec::new();
        let mut i: usize = 0;
        while i < self.entries.len()
            invariant
                self.wf(),
                i <= self.entries@.len(),
                out@.len() == i,
                forall|j: int| 0 <= j < i ==> (#[trigger] out@[j]).model() == self.entries@[j].0.model(),
            decreases self.entries@.len() - i,
        {
            out.push(self.entries[i].0.duplicate());
            i = i + 1;
        }
        assert forall|j: int| 0 <= j < out@.len() implies #[trigger] self@.contains_key(out@[j].model()) by {
            assert(self.contents@.contains_key(self.entries@[j].0.model()));
        }
        assert forall|k: K::Model| #[trigger] self@.contains_key(k) implies exists|j: int| 0 <= j < out@.len() && out@[j].model() == k by {
            let j = choose|j: int| 0 <= j < self.entries@.len() && self.entries@[j].0.model() == k;
            assert(out@[j].model() == k);
        }
        out
    }

    /// Puts `v` under `k` (or removes `k` when `v` is `None`) without recording anything.
    fn write_entry(&mut self, k: K, v: Option<V>)
        requires
            old(self).entries_match(),
        ensures
            final(self).entries_match(),
            final(self)@ == overwrite(old(self)@, k.model(), opt_model(v)),
            final(self).log == old(self).log,
            final(self).marks == old(self).marks,
    {
        let ghost km = k.model();
        let found = self.find(&k);
        match v {
            Some(val) => {
                let ghost vm = val.model();
                match found {
                    Some(i) => {
                        self.entries.set(i, (k, val));
                    },
                    None => {
                        self.entries.push((k, val));
                    },
                }
                self.contents = Ghost(self.contents@.insert(km, vm));
                assert forall|kk: K::Model| #[trigger] self.contents@.contains_key(kk) implies exists|
                    j: int,
                | 0 <= j < self.entries@.len() && self.entries@[j].0.model() == kk by {
                    if kk == km {
                        match found {
                            Some(i) => assert(self.entries@[i as int].0.model() == kk),
                            None => assert(self.entries@[self.entries@.len() - 1].0.model() == kk),
                        }
                    } else {
                        assert(old(self).contents@.contains_key(kk));
                        let j = choose|j: int|
                            0 <= j < old(self).entries@.len() && old(self).entries@[j].0.model()
                                == kk;
                        assert(self.entries@[j].0.model() == kk);
                    }
                }
            },
            None => {
                match found {
                    Some(i) => {
                        self.entries.remove(i);
                        self.contents = Ghost(self.contents@.remove(km));
                        assert forall|kk: K::Model| #[trigger]
                            self.contents@.contains_key(kk) implies exists|j: int|
                            0 <= j < self.entries@.len() && self.entries@[j].0.model() == kk by {
                            assert(old(self).contents@.contains_key(kk));
                            let j = choose|j: int|
                                0 <= j < old(self).entries@.len() && old(self).entries@[j].0.model()
                                    == kk;
                            assert(j != i);
                            if j < i {
                                assert(self.entries@[j].0.model() == kk);
                            } else {
                                assert(self.entries@[j - 1].0.model() == kk);
                            }
                        }
                        assert forall|a: int|
                            0 <= a < self.entries@.len() implies #[trigger] self.contents@.contains_key(
                            self.entries@[a].0.model(),
                        ) && self.contents@[self.entries@[a].0.model()]
                            == self.entries@[a].1.model() by {
                            assert(old(self).entries@[i as int].0.model() == km);
                            if a < i {
                                assert(self.entries@[a] == old(self).entries@[a]);
                                assert(old(self).entries@[a].0.model() != old(self).entries@[i as int].0.model());
                                assert(old(self).contents@.contains_key(
                                    old(self).entries@[a].0.model(),
                                ));
                            } else {
                                assert(self.entries@[a] == old(self).entries@[a + 1]);
                                assert(old(self).entries@[i as int].0.model() != old(self).entries@[a + 1].0.model());
                                assert(old(self).contents@.contains_key(
                                    old(self).entries@[a + 1].0.model(),
                                ));
                            }
                        }
                    },
                    None => {
                        assert(self.contents@ =~= self.contents@.remove(km));
                    },
                }
            },
        }
    }

    fn find(&self, k: &K) -> (r: Option<usize>)
        requires
            self.entries_match(),
        ensures
            match r {
                Some(i) => i < self.entries@.len() && self.entries@[i as int].0.model()
                    == k.model(),
                None => !self@.contains_key(k.model()),
            },
    {
        let mut i: usize = 0;
        while i < self.entries.len()
            invariant
                self.entries_match(),
                i <= self.entries@.len(),
                forall|j: int| 0 <= j < i ==> self.entries@[j].0.model() != k.model(),
            decreases self.entries@.len() - i,
        {
            if self.entries[i].0.same_key(k) {
                return Some(i);
            }
            i = i + 1;
        }
        None
    }

    proof fn lemma_log_push(&self, other: &Self, e: (K, Option<V>))
        requires
            other.log@ == self.log@.push(e),
        ensures
            other.log_model() == self.log_model().push((e.0.model(), opt_model(e.1))),
    {
        assert(other.log_model() =~= self.log_model().push((e.0.model(), opt_model(e.1))));
    }

    /// Puts `v` under `k` (or removes `k` when `v` is `None`), recording the value that it
    /// replaces when a checkpoint is live.
    fn put(&mut self, k: K, v: Option<V>)
        requires
            old(self).wf(),
        ensures
            final(self).wf(),
            final(self)@ == overwrite(old(self)@, k.model(), opt_model(v)),
            final(self).depth() == old(self).depth(),
            final(self).saved() == old(self).saved(),
    {
        if self.marks.len() > 0 {
            let found = self.find(&k);
            let prev: Option<V> = match found {
                Some(i) => Some(self.entries[i].1.duplicate()),
                None => None,
            };
            assert(opt_model(prev) == lookup(self@, k.model()));
            let ghost before = *self;
            let rec = (k.duplicate(), prev);
            self.log.push(rec);
            proof {
                before.lemma_log_push(self, rec);
            }
            self.write_entry(k, v);
            proof {
                assert forall|i: int| 0 <= i < self.marks@.len() implies #[trigger] self.marks@[i]
                    <= self.log@.len() by {
                    assert(before.marks@[i] <= before.log@.len());
                }
                assert forall|i: int| 0 <= i < self.saved().len() implies self.saved()[i]
                    == before.saved()[i] by {
                    assert(before.marks@[i] <= before.log@.len());
                    lemma_journaled_write(
                        before@,
                        before.log_model(),
                        rec.0.model(),
                        opt_model(v),
                        before.marks@[i] as int,
                    );
                }
                assert(self.saved() =~= before.saved());
            }
        } else {
            self.write_entry(k, v);
            assert(self.saved() =~= Seq::<Map<K::Model, V::Model>>::empty());
        }
    }

    /// Stores `v` under `k`.
    pub fn set(&mut self, k: K, v: V)
        requires
            old(self).wf(),
        ensures
            final(self).wf(),
            final(self)@ == old(self)@.insert(k.model(), v.model()),
            final(self).depth() == old(self).depth(),
            final(self).saved() == old(self).saved(),
    {
        self.put(k, Some(v));
    }

    /// Removes `k` from the store.
    pub fn remove(&mut self, k: K)
        requires
            old(self).wf(),
        ensures
            final(self).wf(),
            final(self)@ == old(self)@.remove(k.model()),
            final(self).depth() == old(self).depth(),
            final(self).saved() == old(self).saved(),
    {
        self.put(k, None);
    }

    /// Opens a checkpoint on the current contents.
    pub fn checkpoint(&mut self)
        requires
            old(self).wf(),
        ensures
            final(self).wf(),
            final(self)@ == old(self)@,
            final(self).depth() == old(self).depth() + 1,
            final(self).saved() == old(self).saved().push(old(self)@),
    {
        let ghost before = *self;
        let n = self.log.len();
        self.marks.push(n);
        assert forall|i: int, j: int| 0 <= i <= j < self.marks@.len() implies self.marks@[i]
            <= self.marks@[j] by {
            if j == self.marks@.len() - 1 {
                assert(self.marks@[i] <= self.log@.len());
            } else {
                assert(before.marks@[i] <= before.marks@[j]);
            }
        }
        assert(rollback(self@, self.log_model(), n as int) == self@);
        assert(self.saved() =~= before.saved().push(before@));
    }

    /// Makes the writes since the innermost checkpoint part of the enclosing one, and
    /// closes it.
    pub fn commit(&mut self)
        requires
            old(self).wf(),
            old(self).depth() > 0,
        ensures
            final(self).wf(),
            final(self)@ == old(self)@,
            final(self).depth() == old(self).depth() - 1,
            final(self).saved() == old(self).saved().drop_last(),
    {
        let ghost before = *self;
        self.marks.pop();
        if self.marks.len() == 0 {
            self.log.clear();
        }
        assert(self.saved() =~= before.saved().drop_last());
    }

    /// Restores the contents that the innermost checkpoint captured, and closes it.
    pub fn revert(&mut self)
        requires
            old(self).wf(),
            old(self).depth() > 0,
        ensures
            final(self).wf(),
            final(self)@ == old(self).saved().last(),
            final(self).depth() == old(self).depth() - 1,
            final(self).saved() == old(self).saved().drop_last(),
    {
        let ghost before = *self;
        let top = self.marks[self.marks.len() - 1];
        while self.log.len() > top
            invariant
                self.entries_match(),
                self.marks == before.marks,
                top == self.marks@.last(),
                before.marks_ok(),
                self.marks@.len() > 0,
                top <= self.log@.len() <= before.log@.len(),
                self.log@ == before.log@.subrange(0, self.log@.len() as int),
                forall|i: int|
                    0 <= i < self.marks@.len() ==> rollback(
                        self@,
                        self.log_model(),
                        #[trigger] self.marks@[i] as int,
                    ) == before.saved()[i],
            decreases self.log@.len(),
        {
            let ghost prev = *self;
            let rec = self.log.pop().unwrap();
            assert(prev.log_model().drop_last() =~= self.log_model());
            assert(prev.log_model().last() == (rec.0.model(), opt_model(rec.1)));
            self.write_entry(rec.0, rec.1);
            assert(self.log@ =~= before.log@.subrange(0, self.log@.len() as int));
            assert forall|i: int| 0 <= i < self.marks@.len() implies rollback(
                self@,
                self.log_model(),
                #[trigger] self.marks@[i] as int,
            ) == before.saved()[i] by {
                assert(self.marks@[i] <= top);
            }
        }
        assert(rollback(self@, self.log_model(), top as int) == self@);
        self.marks.pop();
        proof {
            assert forall|i: int| 0 <= i < self.marks@.len() implies #[trigger] self.marks@[i]
                <= self.log@.len() by {
                assert(before.marks@[i] <= before.marks@[before.marks@.len() - 1]);
            }
            if self.marks@.len() == 0 {
                assert(before.marks@[0] == 0);
            }
            assert(self.marks_ok());
        }
        assert(self.saved() =~= before.saved().drop_last());
    }
}

} // verus!
