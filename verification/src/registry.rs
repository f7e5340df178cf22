use vstd::prelude::*;

verus! {

/// The connected clients of the server, by id, and the id that the next
/// connection gets.
pub struct ClientRegistry {
    ids: Vec<u32>,
    next_id: u32,
}

/// The ids in `wanted` that are connected, in the order of `wanted`.
pub open spec fn connected_of(wanted: Seq<u32>, connected: Set<u32>) -> Seq<u32>
    decreases wanted.len(),
{
    if wanted.len() == 0 {
        seq![]
    } else {
        let prev = connected_of(wanted.drop_last(), connected);
        if connected.contains(wanted.last()) {
            prev.push(wanted.last())
        } else {
            prev
        }
    }
}

impl ClientRegistry {
    /// The ids of the connected clients.
    pub closed spec fn connected(&self) -> Set<u32> {
        Set::new(|x: u32| self.ids@.contains(x))
    }

    /// The id that the next connection gets.
    pub closed spec fn next(&self) -> u32 {
        self.next_id
    }

    /// Every connected id was handed out before the next one, and once.
    #[verifier::type_invariant]
    spec fn wf(&self) -> bool {
        &&& self.ids@.no_duplicates()
        &&& forall|i: int| 0 <= i < self.ids@.len() ==> #[trigger] self.ids@[i] < self.next_id
    }

    pub fn new() -> (r: Self)
        ensures
            r.connected() == Set::<u32>::empty(),
            r.next() == 0,
    {
        let r = ClientRegistry { ids: Vec::new(), next_id: 0 };
        proof {
            assert(Set::new(|x: u32| r.ids@.contains(x)) =~= Set::<u32>::empty());
        }
        r
    }

    /// The id that the next connection gets.
    pub fn next_id(&self) -> (r: u32)
        ensures
            r == self.next(),
    {
        self.next_id
    }

    /// Registers a new connection under the next id, which moves on by one.
    pub fn accept(&mut self) -> (id: u32)
        requires
            old(self).next() < u32::MAX,
        ensures
            id == old(self).next(),
            !old(self).connected().contains(id),
            final(self).next() == old(self).next() + 1,
            final(self).connected() == old(self).connected().insert(id),
    {
        proof {
            use_type_invariant(&*self);
        }
        let id = self.next_id;
        let ghost before = self.ids@;
        proof {
            if before.contains(id) {
                let i = choose|i: int| 0 <= i < before.len() && before[i] == id;
                assert(before[i] < id);
            }
        }
        self.next_id = self.next_id + 1;
        proof {
            assert forall|i: int, j: int| 0 <= i < j < before.push(id).len() implies before.push(id)[i] != before.push(id)[j] by {
                if j == before.len() {
                    assert(before[i] < id);
                }
            }
            assert(before.push(id).no_duplicates());
        }
        let mut ids: Vec<u32> = Vec::new();
        std::mem::swap(&mut ids, &mut self.ids);
        ids.push(id);
        self.ids = ids;
        proof {
            assert forall|x: u32| #[trigger] self.ids@.contains(x) <==> (before.contains(x) || x == id) by {
                if self.ids@.contains(x) {
                    let i = choose|i: int| 0 <= i < self.ids@.len() && self.ids@[i] == x;
                    if i < before.len() {
                        assert(before[i] == x);
                    }
                }
                if before.contains(x) {
                    let i = choose|i: int| 0 <= i < before.len() && before[i] == x;
                    assert(self.ids@[i] == x);
                }
                if x == id {
                    assert(self.ids@[before.len() as int] == x);
                }
            }
            assert(Set::new(|x: u32| self.ids@.contains(x)) =~= Set::new(|x: u32| before.contains(x)).insert(id));
        }
        id
    }

    /// Forgets a connection that ended.
    pub fn disconnect(&mut self, id: u32)
        ensures
            final(self).next() == old(self).next(),
            final(self).connected() == old(self).connected().remove(id),
    {
        proof {
            use_type_invariant(&*self);
        }
        let ghost before = self.ids@;
        let mut k: usize = 0;
        while k < self.ids.len()
            invariant
                k <= self.ids@.len(),
                self.ids@ == before,
                self.next_id == old(self).next_id,
                before == old(self).ids@,
                before.no_duplicates(),
                forall|i: int| 0 <= i < before.len() ==> #[trigger] before[i] < self.next_id,
                forall|j: int| 0 <= j < k ==> self.ids@[j] != id,
            decreases self.ids@.len() - k,
        {
            if self.ids[k] == id {
                let ghost after = before.remove(k as int);
                proof {
                    assert forall|a: int, b: int| 0 <= a < b < after.len() implies after[a] != after[b] by {
                        let a2 = if a < k { a } else { a + 1 };
                        let b2 = if b < k { b } else { b + 1 };
                        assert(after[a] == before[a2] && after[b] == before[b2]);
                    }
                    assert forall|i: int| 0 <= i < after.len() implies #[trigger] after[i] < self.next_id by {
                        let i2 = if i < k { i } else { i + 1 };
                        assert(after[i] == before[i2]);
                    }
                }
                let mut ids: Vec<u32> = Vec::new();
                std::mem::swap(&mut ids, &mut self.ids);
                ids.remove(k);
                proof {
                    assert(ids@ =~= after);
                }
                self.ids = ids;
                proof {
                    assert forall|x: u32| #[trigger] self.ids@.contains(x) <==> (before.contains(x) && x != id) by {
                        if before.contains(x) && x != id {
                            let i = choose|i: int| 0 <= i < before.len() && before[i] == x;
                            if i < k {
                                assert(self.ids@[i] == x);
                            } else {
                                assert(i != k);
                                assert(self.ids@[i - 1] == x);
                            }
                        }
                        if self.ids@.contains(x) {
                            let i = choose|i: int| 0 <= i < self.ids@.len() && self.ids@[i] == x;
                            if i < k {
                                assert(before[i] == x);
                            } else {
                                assert(before[i + 1] == x);
                                assert(before[k as int] == id);
                                assert(i + 1 != k);
                            }
                        }
                    }
                    assert(Set::new(|x: u32| self.ids@.contains(x)) =~= Set::new(|x: u32| before.contains(x)).remove(id));
                }
                return;
            }
            k = k + 1;
        }
        proof {
            assert(Set::new(|x: u32| self.ids@.contains(x)) =~= Set::new(|x: u32| before.contains(x)).remove(id));
        }
    }

    /// Whether client `id` is connected.
    pub fn is_connected(&self, id: u32) -> (r: bool)
        ensures
            r == self.connected().contains(id),
    {
        let mut k: usize = 0;
        while k < self.ids.len()
            invariant
                k <= self.ids@.len(),
                forall|j: int| 0 <= j < k ==> self.ids@[j] != id,
            decreases self.ids@.len() - k,
        {
            if self.ids[k] == id {
                proof {
                    assert(self.ids@[k as int] == id);
                }
                return true;
            }
            k = k + 1;
        }
        false
    }

    /// The clients among `wanted` that a message can go to: the connected
    /// ones, in the order of `wanted`; the others are skipped.
    pub fn recipients(&self, wanted: &Vec<u32>) -> (r: Vec<u32>)
        ensures
            r@ == connected_of(wanted@, self.connected()),
    {
        let mut r: Vec<u32> = Vec::new();
        let mut k: usize = 0;
        while k < wanted.len()
            invariant
                k <= wanted@.len(),
                r@ == connected_of(wanted@.take(k as int), self.connected()),
            decreases wanted@.len() - k,
        {
            proof {
                assert(wanted@.take(k + 1).drop_last() =~= wanted@.take(k as int));
            }
            if self.is_connected(wanted[k]) {
                r.push(wanted[k]);
            }
            k = k + 1;
        }
        proof {
            assert(wanted@.take(k as int) =~= wanted@);
        }
        r
    }

    /// Every connected client, each once.
    pub fn all(&self) -> (r: Vec<u32>)
        ensures
            r@.no_duplicates(),
            forall|x: u32| #[trigger] r@.contains(x) <==> self.connected().contains(x),
    {
        proof {
            use_type_invariant(self);
        }
        let mut r: Vec<u32> = Vec::new();
        let mut k: usize = 0;
        while k < self.ids.len()
            invariant
                k <= self.ids@.len(),
                self.ids@.no_duplicates(),
                r@ == self.ids@.take(k as int),
            decreases self.ids@.len() - k,
        {
            r.push(self.ids[k]);
            proof {
                assert(self.ids@.take(k + 1) =~= self.ids@.take(k as int).push(self.ids@[k as int]));
            }
            k = k + 1;
        }
        proof {
            assert(self.ids@.take(k as int) =~= self.ids@);
        }
        r
    }
}

} // verus!
