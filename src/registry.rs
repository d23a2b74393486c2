use vstd::prelude::*;

verus! {

/// Abstract state of a connection registry: the identifier the next accepted
/// connection will get, and the live connections by identifier.
pub struct RegistryModel<H> {
    pub next_id: nat,
    pub live: Map<nat, H>,
}

impl<H> RegistryModel<H> {
    /// The registry before any connection was accepted.
    pub open spec fn empty() -> Self {
        RegistryModel { next_id: 0, live: Map::empty() }
    }

    /// Every live identifier was handed out earlier.
    pub open spec fn wf(self) -> bool {
        forall|k: nat| #[trigger] self.live.contains_key(k) ==> k < self.next_id
    }

    /// A connection with write handle `h` was accepted: it is registered under
    /// the next identifier, and the identifier after it becomes the next one.
    pub open spec fn accepted(self, h: H) -> Self {
        RegistryModel { next_id: self.next_id + 1, live: self.live.insert(self.next_id, h) }
    }

    /// The connection `id` was observed as disconnected: its entry is gone.
    pub open spec fn closed(self, id: nat) -> Self {
        RegistryModel { next_id: self.next_id, live: self.live.remove(id) }
    }

    /// `targets` names every live connection exactly once, in ascending order
    /// of identifier, and nothing else: the destinations of one fan-out.
    pub open spec fn is_fanout(self, targets: Seq<usize>) -> bool {
        &&& forall|i: int| 0 <= i < targets.len() ==> self.live.contains_key(#[trigger] targets[i] as nat)
        &&& forall|k: nat| #[trigger] self.live.contains_key(k) ==> exists|i: int|
            0 <= i < targets.len() && #[trigger] targets[i] as nat == k
        &&& forall|i: int, j: int| 0 <= i < j < targets.len() ==> targets[i] < targets[j]
    }
}

/// The table of live connections, from identifier to write handle.
///
/// Entries are kept in ascending order of identifier, which is also the order
/// in which the connections were accepted.
pub struct ConnectionRegistry<H> {
    entries: Vec<(usize, H)>,
    next_id: usize,
    live: Ghost<Map<nat, H>>,
}

impl<H> View for ConnectionRegistry<H> {
    type V = RegistryModel<H>;

    closed spec fn view(&self) -> RegistryModel<H> {
        RegistryModel { next_id: self.next_id as nat, live: self.live@ }
    }
}

impl<H> ConnectionRegistry<H> {
    spec fn id_at(&self, i: int) -> usize {
        self.entries@[i].0
    }

    /// The entries agree with the model, and their identifiers ascend.
    pub closed spec fn wf(&self) -> bool {
        &&& self@.wf()
        &&& forall|i: int|
            0 <= i < self.entries@.len() ==> {
                &&& self.live@.contains_key(#[trigger] self.id_at(i) as nat)
                &&& self.live@[self.id_at(i) as nat] == self.entries@[i].1
            }
        &&& forall|k: nat| #[trigger] self.live@.contains_key(k) ==> exists|i: int|
            0 <= i < self.entries@.len() && #[trigger] self.id_at(i) as nat == k
        &&& forall|i: int, j: int|
            0 <= i < j < self.entries@.len() ==> self.id_at(i) < self.id_at(j)
    }

    /// An empty registry whose first identifier is 0.
    pub fn new() -> (r: Self)
        ensures
            r.wf(),
            r@ == RegistryModel::<H>::empty(),
    {
        ConnectionRegistry { entries: Vec::new(), next_id: 0, live: Ghost(Map::empty()) }
    }

    /// The identifier the next registered connection will get.
    pub fn next_id(&self) -> (r: usize)
        ensures
            r as nat == self@.next_id,
    {
        self.next_id
    }

    /// Whether an identifier is still free for another connection.
    pub fn has_free_id(&self) -> (r: bool)
        ensures
            r == (self@.next_id < usize::MAX),
    {
        self.next_id < usize::MAX
    }

    /// Registers a newly accepted connection under the next identifier and
    /// returns that identifier.
    pub fn register(&mut self, handle: H) -> (id: usize)
        requires
            old(self).wf(),
            old(self)@.next_id < usize::MAX,
        ensures
            final(self).wf(),
            id as nat == old(self)@.next_id,
            final(self)@ == old(self)@.accepted(handle),
    {
        let id = self.next_id;
        self.live = Ghost(self.live@.insert(id as nat, handle));
        self.entries.push((id, handle));
        self.next_id = id + 1;
        proof {
            let n = self.entries@.len() - 1;
            assert(self.id_at(n) == id);
            assert forall|k: nat| #[trigger] self.live@.contains_key(k) implies exists|i: int|
                0 <= i < self.entries@.len() && #[trigger] self.id_at(i) as nat == k by {
                if k != id as nat {
                    let i = choose|i: int|
                        0 <= i < old(self).entries@.len() && #[trigger] old(self).id_at(i) as nat
                            == k;
                    assert(self.id_at(i) == old(self).id_at(i));
                }
            }
            assert forall|i: int| 0 <= i < n implies old(self).id_at(i) < id by {
                let k = old(self).id_at(i) as nat;
                assert(old(self).live@.contains_key(k));
                assert(old(self)@.live.contains_key(k));
                assert(k < old(self)@.next_id);
            }
            assert forall|i: int| 0 <= i < self.entries@.len() implies {
                &&& self.live@.contains_key(#[trigger] self.id_at(i) as nat)
                &&& self.live@[self.id_at(i) as nat] == self.entries@[i].1
            } by {
                if i < n {
                    assert(self.entries@[i] == old(self).entries@[i]);
                    assert(old(self).id_at(i) < id);
                }
            }
            assert forall|i: int, j: int|
                0 <= i < j < self.entries@.len() implies self.id_at(i) < self.id_at(j) by {
                assert(self.entries@[i] == old(self).entries@[i]);
                if j < n {
                    assert(self.entries@[j] == old(self).entries@[j]);
                    assert(old(self).id_at(i) < old(self).id_at(j));
                } else {
                    let k = old(self).id_at(i) as nat;
                    assert(old(self)@.live.contains_key(k));
                    assert(old(self).id_at(i) < id);
                    assert(self.id_at(j) == id);
                }
            }
            assert forall|k: nat| #[trigger] self@.live.contains_key(k) implies k < self@.next_id by {
                if k != id as nat {
                    assert(old(self)@.live.contains_key(k));
                }
            }
        }
        id
    }

    /// Removes the connection `id`, handing back its write handle if it was
    /// registered.
    pub fn deregister(&mut self, id: usize) -> (r: Option<H>)
        requires
            old(self).wf(),
        ensures
            final(self).wf(),
            final(self)@ == old(self)@.closed(id as nat),
            match r {
                Some(h) => old(self)@.live.contains_key(id as nat) && h == old(self)@.live[id as nat],
                None => !old(self)@.live.contains_key(id as nat),
            },
    {
        match self.position(id) {
            Some(i) => {
                let (_, h) = self.entries.remove(i);
                let ghost pre = *old(self);
                self.live = Ghost(self.live@.remove(id as nat));
                proof {
                    assert forall|j: int| 0 <= j < self.entries@.len() implies {
                        &&& self.live@.contains_key(#[trigger] self.id_at(j) as nat)
                        &&& self.live@[self.id_at(j) as nat] == self.entries@[j]
                            .1
                    } by {
                        let oj = if j < i { j } else { j + 1 };
                        assert(self.entries@[j] == pre.entries@[oj]);
                        assert(pre.live@.contains_key(pre.id_at(oj) as nat));
                        if j < i {
                            assert(pre.id_at(oj) < pre.id_at(i as int));
                        } else {
                            assert(pre.id_at(i as int) < pre.id_at(oj));
                        }
                    }
                    assert forall|k: nat| #[trigger] self.live@.contains_key(k) implies exists|j: int|
                        0 <= j < self.entries@.len() && #[trigger] self.id_at(j) as nat == k by {
                        let oj = choose|oj: int|
                            0 <= oj < pre.entries@.len() && #[trigger] pre.id_at(oj) as nat == k;
                        if oj < i {
                            assert(self.id_at(oj) == pre.id_at(oj));
                        } else {
                            assert(oj != i);
                            assert(self.id_at(oj - 1) == pre.id_at(oj));
                        }
                    }
                    assert forall|a: int, b: int|
                        0 <= a < b < self.entries@.len() implies self.id_at(a) < self.id_at(b) by {
                        let oa = if a < i { a } else { a + 1 };
                        let ob = if b < i { b } else { b + 1 };
                        assert(self.id_at(a) == pre.id_at(oa));
                        assert(self.id_at(b) == pre.id_at(ob));
                        assert(pre.id_at(oa) < pre.id_at(ob));
                    }
                    assert forall|k: nat| #[trigger] self@.live.contains_key(k) implies k
                        < self@.next_id by {
                        assert(pre@.live.contains_key(k));
                    }
                }
                Some(h)
            },
            None => {
                proof {
                    assert(self.live@.remove(id as nat) =~= self.live@);
                }
                None
            },
        }
    }

    /// The write handle of the connection `id`, if it is registered.
    pub fn get(&self, id: usize) -> (r: Option<&H>)
        requires
            self.wf(),
        ensures
            match r {
                Some(h) => self@.live.contains_key(id as nat) && *h == self@.live[id as nat],
                None => !self@.live.contains_key(id as nat),
            },
    {
        match self.position(id) {
            Some(i) => Some(&self.entries[i].1),
            None => None,
        }
    }

    /// Whether the connection `id` is registered.
    pub fn contains(&self, id: usize) -> (r: bool)
        requires
            self.wf(),
        ensures
            r == self@.live.contains_key(id as nat),
    {
        self.position(id).is_some()
    }

    /// Where the entry of `id` stands, if there is one.
    fn position(&self, id: usize) -> (r: Option<usize>)
        requires
            self.wf(),
        ensures
            match r {
                Some(i) => i < self.entries@.len() && self.id_at(i as int) == id,
                None => !self@.live.contains_key(id as nat),
            },
    {
        let mut i: usize = 0;
        while i < self.entries.len()
            invariant
                i <= self.entries@.len(),
                forall|j: int| 0 <= j < i ==> self.id_at(j) != id,
            decreases self.entries@.len() - i,
        {
            if self.entries[i].0 == id {
                return Some(i);
            }
            i = i + 1;
        }
        proof {
            if self@.live.contains_key(id as nat) {
                let j = choose|j: int|
                    0 <= j < self.entries@.len() && #[trigger] self.id_at(j) as nat == id as nat;
                assert(self.id_at(j) != id);
            }
        }
        None
    }

    /// The identifiers of all registered connections, ascending: the
    /// destinations of a fan-out begun now.
    pub fn fanout_targets(&self) -> (r: Vec<usize>)
        requires
            self.wf(),
        ensures
            self@.is_fanout(r@),
            r@.len() == self@.live.len(),
    {
        let mut r: Vec<usize> = Vec::new();
        let mut i: usize = 0;
        while i < self.entries.len()
            invariant
                self.wf(),
                i <= self.entries@.len(),
                r@.len() == i,
                forall|j: int| 0 <= j < i ==> r@[j] == self.id_at(j),
            decreases self.entries@.len() - i,
        {
            r.push(self.entries[i].0);
            i = i + 1;
        }
        proof {
            self.lemma_len();
            assert forall|j: int| 0 <= j < r@.len() implies self@.live.contains_key(
                #[trigger] r@[j] as nat,
            ) by {
                assert(self.live@.contains_key(self.id_at(j) as nat));
            }
            assert forall|k: nat| #[trigger] self@.live.contains_key(k) implies exists|j: int|
                0 <= j < r@.len() && #[trigger] r@[j] as nat == k by {
                assert(self.live@.contains_key(k));
                let j = choose|j: int|
                    0 <= j < self.entries@.len() && #[trigger] self.id_at(j) as nat == k;
                assert(r@[j] == self.id_at(j));
            }
            assert forall|a: int, b: int| 0 <= a < b < r@.len() implies r@[a] < r@[b] by {
                assert(r@[a] == self.id_at(a));
                assert(r@[b] == self.id_at(b));
            }
        }
        r
    }

    /// The number of registered connections.
    pub fn len(&self) -> (r: usize)
        requires
            self.wf(),
        ensures
            r == self@.live.len(),
    {
        proof {
            self.lemma_len();
        }
        self.entries.len()
    }

    proof fn lemma_len(&self)
        requires
            self.wf(),
        ensures
            self.entries@.len() == self@.live.len(),
    {
        let ids = self.entries@.map_values(|e: (usize, H)| e.0 as nat);
        assert forall|a: int, b: int|
            0 <= a < ids.len() && 0 <= b < ids.len() && a != b implies ids[a] != ids[b] by {
            if a < b {
                assert(self.id_at(a) < self.id_at(b));
            } else {
                assert(self.id_at(b) < self.id_at(a));
            }
        }
        assert forall|k: nat| ids.to_set().contains(k) <==> self.live@.dom().contains(k) by {
            if ids.to_set().contains(k) {
                let a = choose|a: int| 0 <= a < ids.len() && ids[a] == k;
                assert(self.live@.contains_key(self.id_at(a) as nat));
            }
            if self.live@.contains_key(k) {
                let a = choose|a: int|
                    0 <= a < self.entries@.len() && #[trigger] self.id_at(a) as nat == k;
                assert(ids[a] == k);
            }
        }
        assert(ids.to_set() =~= self.live@.dom());
        ids.unique_seq_to_set();
    }

    /// Whether no connection is registered.
    pub fn is_empty(&self) -> (r: bool)
        requires
            self.wf(),
        ensures
            r == (self@.live.len() == 0),
    {
        self.len() == 0
    }
}

} // verus!
