use vstd::prelude::*;

verus! {

/// A back-reference held by a market or order row: the row's own key and the
/// id of the user it points at. It never holds a copy of the balance.
pub struct Link {
    pub key: u64,
    pub user_id: String,
}

/// The rows of one referencing table, reduced to their back-references.
/// Keys are unique; the table is seen as a map from key to user id.
pub struct LinkTable {
    rows: Vec<Link>,
    owners: Ghost<Map<u64, Seq<char>>>,
}

impl View for LinkTable {
    type V = Map<u64, Seq<char>>;

    closed spec fn view(&self) -> Map<u64, Seq<char>> {
        self.owners@
    }
}

impl LinkTable {
    /// The rows agree with the map: keys unique, each row in the map, each
    /// key of the map held by a row.
    pub closed spec fn wf(&self) -> bool {
        &&& forall|i: int, j: int|
            0 <= i < self.rows@.len() && 0 <= j < self.rows@.len() && i != j
                ==> self.rows@[i].key != self.rows@[j].key
        &&& forall|i: int|
            0 <= i < self.rows@.len() ==> {
                &&& #[trigger] self.owners@.contains_key(self.rows@[i].key)
                &&& self.owners@[self.rows@[i].key] == self.rows@[i].user_id@
            }
        &&& forall|k: u64|
            #[trigger] self.owners@.contains_key(k) ==> exists|i: int|
                0 <= i < self.rows@.len() && self.rows@[i].key == k
    }

    /// An empty table.
    pub fn new() -> (r: LinkTable)
        ensures
            r.wf(),
            r@ == Map::<u64, Seq<char>>::empty(),
    {
        LinkTable { rows: Vec::new(), owners: Ghost(Map::empty()) }
    }

    /// Position of the row with this key, if any.
    fn position(&self, key: u64) -> (r: Option<usize>)
        requires
            self.wf(),
        ensures
            r is None <==> !self@.contains_key(key),
            r matches Some(i) ==> i < self.rows@.len() && self.rows@[i as int].key == key,
    {
        let mut i: usize = 0;
        while i < self.rows.len()
            invariant
                self.wf(),
                i <= self.rows@.len(),
                forall|j: int| 0 <= j < i ==> self.rows@[j].key != key,
            decreases self.rows@.len() - i,
        {
            if self.rows[i].key == key {
                assert(self.owners@.contains_key(self.rows@[i as int].key));
                return Some(i);
            }
            i = i + 1;
        }
        None
    }

    /// Whether a row has this key.
    pub fn contains(&self, key: u64) -> (r: bool)
        requires
            self.wf(),
        ensures
            r == self@.contains_key(key),
    {
        self.position(key).is_some()
    }

    /// Adds a row with a key that is not yet taken.
    pub fn insert(&mut self, key: u64, user_id: String)
        requires
            old(self).wf(),
            !old(self)@.contains_key(key),
        ensures
            final(self).wf(),
            final(self)@ == old(self)@.insert(key, user_id@),
    {
        let ghost old_rows = self.rows@;
        let ghost uid = user_id@;
        self.rows.push(Link { key, user_id });
        self.owners = Ghost(self.owners@.insert(key, uid));
        assert forall|k: u64| #[trigger] self.owners@.contains_key(k) implies exists|i: int|
            0 <= i < self.rows@.len() && self.rows@[i].key == k by {
            if k == key {
                assert(self.rows@[old_rows.len() as int].key == k);
            } else {
                let i = choose|i: int| 0 <= i < old_rows.len() && old_rows[i].key == k;
                assert(self.rows@[i].key == k);
            }
        }
    }

    /// Takes out the row with this key, if there is one; says whether there was.
    pub fn remove(&mut self, key: u64) -> (r: bool)
        requires
            old(self).wf(),
        ensures
            final(self).wf(),
            r == old(self)@.contains_key(key),
            final(self)@ == old(self)@.remove(key),
    {
        match self.position(key) {
            None => {
                assert(self.owners@.remove(key) =~= self.owners@);
                false
            },
            Some(p) => {
                let ghost old_rows = self.rows@;
                self.rows.remove(p);
                self.owners = Ghost(self.owners@.remove(key));
                assert forall|i: int| 0 <= i < self.rows@.len() implies {
                    &&& #[trigger] self.owners@.contains_key(self.rows@[i].key)
                    &&& self.owners@[self.rows@[i].key] == self.rows@[i].user_id@
                } by {
                    if i < p {
                        assert(self.rows@[i] == old_rows[i]);
                    } else {
                        assert(self.rows@[i] == old_rows[i + 1]);
                    }
                }
                assert forall|k: u64| #[trigger] self.owners@.contains_key(k) implies exists|i: int|
                    0 <= i < self.rows@.len() && self.rows@[i].key == k by {
                    let i = choose|i: int| 0 <= i < old_rows.len() && old_rows[i].key == k;
                    if i < p {
                        assert(self.rows@[i].key == k);
                    } else {
                        assert(self.rows@[i - 1].key == k);
                    }
                }
                true
            },
        }
    }

    /// Whether some row points at this user.
    pub fn references(&self, user_id: &String) -> (r: bool)
        requires
            self.wf(),
        ensures
            r == exists|k: u64| #[trigger] self@.contains_key(k) && self@[k] == user_id@,
    {
        let mut i: usize = 0;
        while i < self.rows.len()
            invariant
                self.wf(),
                i <= self.rows@.len(),
                forall|j: int| 0 <= j < i ==> self.rows@[j].user_id@ != user_id@,
            decreases self.rows@.len() - i,
        {
            if self.rows[i].user_id == *user_id {
                assert(self@.contains_key(self.rows@[i as int].key));
                return true;
            }
            i = i + 1;
        }
        assert forall|k: u64| #[trigger] self@.contains_key(k) implies self@[k] != user_id@ by {
            let j = choose|j: int| 0 <= j < self.rows@.len() && self.rows@[j].key == k;
            assert(self.owners@.contains_key(self.rows@[j].key));
        }
        false
    }

    /// The keys of all rows that point at this user, each once.
    pub fn keys_for(&self, user_id: &String) -> (r: Vec<u64>)
        requires
            self.wf(),
        ensures
            r@.no_duplicates(),
            forall|k: u64| r@.contains(k) <==> (self@.contains_key(k) && self@[k] == user_id@),
    {
        let mut out: Vec<u64> = Vec::new();
        let mut i: usize = 0;
        while i < self.rows.len()
            invariant
                self.wf(),
                i <= self.rows@.len(),
                out@.no_duplicates(),
                forall|k: u64| out@.contains(k) <==> exists|j: int|
                    0 <= j < i && self.rows@[j].key == k && self.rows@[j].user_id@ == user_id@,
            decreases self.rows@.len() - i,
        {
            let ghost before = out@;
            if self.rows[i].user_id == *user_id {
                let k = self.rows[i].key;
                assert(!before.contains(k)) by {
                    if before.contains(k) {
                        let j = choose|j: int|
                            0 <= j < i && self.rows@[j].key == k && self.rows@[j].user_id@
                                == user_id@;
                        assert(self.rows@[j].key != self.rows@[i as int].key);
                    }
                }
                out.push(k);
                assert forall|x: u64| out@.contains(x) <==> exists|j: int|
                    0 <= j < i + 1 && self.rows@[j].key == x && self.rows@[j].user_id@
                        == user_id@ by {
                    if out@.contains(x) {
                        let m = choose|m: int| 0 <= m < out@.len() && out@[m] == x;
                        if m < before.len() {
                            assert(before.contains(x));
                        }
                    }
                    if exists|j: int|
                        0 <= j < i + 1 && self.rows@[j].key == x && self.rows@[j].user_id@
                            == user_id@ {
                        let j = choose|j: int|
                            0 <= j < i + 1 && self.rows@[j].key == x && self.rows@[j].user_id@
                                == user_id@;
                        if j < i {
                            assert(before.contains(x));
                            let m = choose|m: int| 0 <= m < before.len() && before[m] == x;
                            assert(out@[m] == x);
                        } else {
                            assert(out@[before.len() as int] == x);
                        }
                    }
                }
            } else {
                assert forall|x: u64| out@.contains(x) <==> exists|j: int|
                    0 <= j < i + 1 && self.rows@[j].key == x && self.rows@[j].user_id@
                        == user_id@ by {
                    if exists|j: int|
                        0 <= j < i + 1 && self.rows@[j].key == x && self.rows@[j].user_id@
                            == user_id@ {
                        let j = choose|j: int|
                            0 <= j < i + 1 && self.rows@[j].key == x && self.rows@[j].user_id@
                                == user_id@;
                        assert(j < i);
                    }
                }
            }
            i = i + 1;
        }
        assert forall|k: u64| out@.contains(k) <==> (self@.contains_key(k) && self@[k]
            == user_id@) by {
            if out@.contains(k) {
                let j = choose|j: int|
                    0 <= j < self.rows@.len() && self.rows@[j].key == k && self.rows@[j].user_id@
                        == user_id@;
                assert(self.owners@.contains_key(self.rows@[j].key));
            }
            if self@.contains_key(k) && self@[k] == user_id@ {
                let j = choose|j: int| 0 <= j < self.rows@.len() && self.rows@[j].key == k;
                assert(self.owners@.contains_key(self.rows@[j].key));
            }
        }
        out
    }
}

} // verus!
