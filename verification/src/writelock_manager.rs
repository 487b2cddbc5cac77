//! The write-lock registry: for each port, the one subscription that may
//! write it.

use vstd::prelude::*;
use crate::errors::{ErrorView, WebsocketSerialServerError};

verus! {

/// One write lock: `sub_id` may write `port`.
struct WriteLock {
    port: String,
    sub_id: String,
}

/// Manages tracking of write locks.
pub struct WriteLockManager {
    /// The locks held, no two on one port.
    write_locks: Vec<WriteLock>,
}

impl View for WriteLockManager {
    type V = Map<Seq<char>, Seq<char>>;

    /// The owner of the write lock of each locked port.
    closed spec fn view(&self) -> Map<Seq<char>, Seq<char>> {
        Map::new(
            |port: Seq<char>| self.slot_of(port) is Some,
            |port: Seq<char>| self.write_locks[self.slot_of(port)->Some_0].sub_id@,
        )
    }
}

/// The locks of `locks` that `sub_id` does not hold.
pub open spec fn locks_without_owner(locks: Map<Seq<char>, Seq<char>>, sub_id: Seq<char>) -> Map<
    Seq<char>,
    Seq<char>,
> {
    Map::new(
        |port: Seq<char>| locks.contains_key(port) && locks[port] != sub_id,
        |port: Seq<char>| locks[port],
    )
}

/// Whether `sub_id` holds the write lock on `port`.
pub open spec fn locked_by(locks: Map<Seq<char>, Seq<char>>, port: Seq<char>, sub_id: Seq<char>) -> bool {
    locks.contains_key(port) && locks[port] == sub_id
}

/// Whether a subscription other than `sub_id` holds the write lock on `port`.
pub open spec fn locked_by_other(
    locks: Map<Seq<char>, Seq<char>>,
    port: Seq<char>,
    sub_id: Seq<char>,
) -> bool {
    locks.contains_key(port) && locks[port] != sub_id
}

/// Whether two locks name the same port and the same owner.
spec fn same_lock(a: WriteLock, b: WriteLock) -> bool {
    a.port@ == b.port@ && a.sub_id@ == b.sub_id@
}

/// Whether one of the first `upto` locks of `source` is the same as `lock`.
spec fn taken_from(source: Seq<WriteLock>, upto: int, lock: WriteLock) -> bool {
    exists|k: int| 0 <= k < upto && k < source.len() && same_lock(#[trigger] source[k], lock)
}

impl WriteLockManager {
    /// Where the lock on `port` is kept, if the port is locked.
    closed spec fn slot_of(&self, port: Seq<char>) -> Option<int> {
        if exists|i: int| 0 <= i < self.write_locks.len() && self.write_locks[i].port@ == port {
            Some(choose|i: int| 0 <= i < self.write_locks.len() && self.write_locks[i].port@ == port)
        } else {
            None
        }
    }

    /// No port is locked twice.
    pub closed spec fn wf(&self) -> bool {
        forall|i: int, j: int|
            0 <= i < j < self.write_locks.len() ==> self.write_locks[i].port@
                != self.write_locks[j].port@
    }

    /// In a well-formed registry the lock kept at `i` is the lock of its port.
    proof fn lemma_slot(&self, i: int)
        requires
            self.wf(),
            0 <= i < self.write_locks.len(),
        ensures
            self.slot_of(self.write_locks[i].port@) == Some(i),
            self@.contains_key(self.write_locks[i].port@),
            self@[self.write_locks[i].port@] == self.write_locks[i].sub_id@,
    {
        let port = self.write_locks[i].port@;
        let j = choose|j: int| 0 <= j < self.write_locks.len() && self.write_locks[j].port@ == port;
        assert(j == i);
    }

    /// A port without a slot is not locked.
    proof fn lemma_absent(&self, port: Seq<char>)
        requires
            forall|i: int| 0 <= i < self.write_locks.len() ==> self.write_locks[i].port@ != port,
        ensures
            !self@.contains_key(port),
    {
    }

    /// Create a registry without locks.
    pub fn new() -> (manager: WriteLockManager)
        ensures
            manager.wf(),
            manager@ == Map::<Seq<char>, Seq<char>>::empty(),
    {
        let manager = WriteLockManager { write_locks: Vec::new() };
        assert(manager@ =~= Map::<Seq<char>, Seq<char>>::empty());
        manager
    }

    /// The slot that holds the lock on `port_name`, if there is one.
    fn find(&self, port_name: &String) -> (slot: Option<usize>)
        requires
            self.wf(),
        ensures
            match slot {
                Some(i) => i < self.write_locks.len() && self.write_locks[i as int].port@
                    == port_name@ && self@.contains_key(port_name@) && self@[port_name@]
                    == self.write_locks[i as int].sub_id@,
                None => !self@.contains_key(port_name@) && forall|i: int|
                    0 <= i < self.write_locks.len() ==> self.write_locks[i].port@ != port_name@,
            },
    {
        let mut i: usize = 0;
        while i < self.write_locks.len()
            invariant
                self.wf(),
                i <= self.write_locks.len(),
                forall|k: int| 0 <= k < i ==> self.write_locks[k].port@ != port_name@,
            decreases self.write_locks.len() - i,
        {
            if self.write_locks[i].port == *port_name {
                proof {
                    self.lemma_slot(i as int);
                }
                return Some(i);
            }
            i += 1;
        }
        proof {
            self.lemma_absent(port_name@);
        }
        None
    }

    /// Is the port write locked by the given sub_id.
    pub fn is_port_write_locked_by(&self, port_name: &String, sub_id: &String) -> (held: bool)
        requires
            self.wf(),
        ensures
            held == locked_by(self@, port_name@, sub_id@),
    {
        match self.find(port_name) {
            None => false,
            Some(i) => self.write_locks[i].sub_id == *sub_id,
        }
    }

    /// Is the port write locked at all.
    pub fn is_port_write_locked(&self, port_name: &String) -> (locked: bool)
        requires
            self.wf(),
        ensures
            locked == self@.contains_key(port_name@),
    {
        self.find(port_name).is_some()
    }

    /// Is the port locked by someone else.
    pub fn is_port_locked_by_someone_else(&self, port_name: &String, sub_id: &String) -> (held: bool)
        requires
            self.wf(),
        ensures
            held == locked_by_other(self@, port_name@, sub_id@),
    {
        match self.find(port_name) {
            None => false,
            Some(i) => self.write_locks[i].sub_id != *sub_id,
        }
    }

    /// Check that sub_id has the write lock on this port; if it has not,
    /// return an error.
    pub fn check_owns_write_lock(&self, port_name: &String, sub_id: &String) -> (outcome: Result<
        (),
        WebsocketSerialServerError,
    >)
        requires
            self.wf(),
        ensures
            outcome is Ok <==> locked_by(self@, port_name@, sub_id@),
            outcome is Err ==> outcome->Err_0@ == (ErrorView::AlreadyWriteLocked {
                port: port_name@,
            }),
    {
        if self.is_port_write_locked_by(port_name, sub_id) {
            Ok(())
        } else {
            Err(WebsocketSerialServerError::AlreadyWriteLocked { port: port_name.clone() })
        }
    }

    /// Clear a write lock, without checking the subscriber id.
    pub fn clear_lock(&mut self, port_name: &String)
        requires
            old(self).wf(),
        ensures
            final(self).wf(),
            final(self)@ == old(self)@.remove(port_name@),
    {
        match self.find(port_name) {
            None => {
                assert(self@ =~= old(self)@.remove(port_name@));
            },
            Some(i) => {
                let ghost before = *self;
                self.write_locks.remove(i);
                proof {
                    let after = *self;
                    assert(after.wf()) by {
                        assert forall|a: int, b: int|
                            0 <= a < b < after.write_locks.len() implies after.write_locks[a].port@
                            != after.write_locks[b].port@ by {
                            let a0 = if a < i { a } else { a + 1 };
                            let b0 = if b < i { b } else { b + 1 };
                            assert(after.write_locks[a] == before.write_locks[a0]);
                            assert(after.write_locks[b] == before.write_locks[b0]);
                        }
                    }
                    assert forall|port: Seq<char>|
                        after@.contains_key(port) <==> before@.remove(port_name@).contains_key(
                            port,
                        ) by {
                        if after@.contains_key(port) {
                            let k = after.slot_of(port)->Some_0;
                            let k0 = if k < i { k } else { k + 1 };
                            assert(after.write_locks[k] == before.write_locks[k0]);
                            before.lemma_slot(k0);
                        }
                        if before@.remove(port_name@).contains_key(port) {
                            let k0 = before.slot_of(port)->Some_0;
                            let k = if k0 < i { k0 } else { k0 - 1 };
                            assert(after.write_locks[k] == before.write_locks[k0]);
                            after.lemma_slot(k);
                        }
                    }
                    assert forall|port: Seq<char>| after@.contains_key(port) implies after@[port]
                        == before@.remove(port_name@)[port] by {
                        let k = after.slot_of(port)->Some_0;
                        let k0 = if k < i { k } else { k + 1 };
                        assert(after.write_locks[k] == before.write_locks[k0]);
                        before.lemma_slot(k0);
                    }
                    assert(after@ =~= before@.remove(port_name@));
                }
            },
        }
    }

    /// Release the write lock for the given port and sub id.
    pub fn unlock_port(&mut self, port_name: &String, sub_id: &String) -> (outcome: Result<
        (),
        WebsocketSerialServerError,
    >)
        requires
            old(self).wf(),
        ensures
            final(self).wf(),
            outcome is Err <==> locked_by_other(old(self)@, port_name@, sub_id@),
            outcome is Err ==> final(self)@ == old(self)@ && outcome->Err_0@
                == (ErrorView::AlreadyWriteLocked { port: port_name@ }),
            outcome is Ok ==> final(self)@ == old(self)@.remove(port_name@),
    {
        if self.is_port_locked_by_someone_else(port_name, sub_id) {
            Err(WebsocketSerialServerError::AlreadyWriteLocked { port: port_name.clone() })
        } else {
            self.clear_lock(port_name);
            Ok(())
        }
    }

    /// If port port_name is locked by sub_id, unlock it.
    pub fn unlock_port_if_locked_by(&mut self, port_name: &String, sub_id: &String)
        requires
            old(self).wf(),
        ensures
            final(self).wf(),
            final(self)@ == if locked_by(old(self)@, port_name@, sub_id@) {
                old(self)@.remove(port_name@)
            } else {
                old(self)@
            },
    {
        if self.is_port_write_locked_by(port_name, sub_id) {
            self.clear_lock(port_name);
        }
    }

    /// Release all write locks held by this sub_id.
    pub fn unlock_all_ports_for_sub(&mut self, sub_id: &String)
        requires
            old(self).wf(),
        ensures
            final(self).wf(),
            final(self)@ == locks_without_owner(old(self)@, sub_id@),
    {
        let ghost before = *self;
        let mut kept: Vec<WriteLock> = Vec::new();
        let mut i: usize = 0;
        while i < self.write_locks.len()
            invariant
                *self == before,
                before.wf(),
                i <= before.write_locks.len(),
                forall|a: int, b: int| 0 <= a < b < kept.len() ==> kept[a].port@ != kept[b].port@,
                forall|a: int|
                    0 <= a < kept.len() ==> kept[a].sub_id@ != sub_id@ && taken_from(
                        before.write_locks@,
                        i as int,
                        #[trigger] kept[a],
                    ),
                forall|k: int|
                    0 <= k < i && before.write_locks[k].sub_id@ != sub_id@ ==> taken_from(
                        kept@,
                        kept.len() as int,
                        #[trigger] before.write_locks[k],
                    ),
            decreases before.write_locks.len() - i,
        {
            if self.write_locks[i].sub_id != *sub_id {
                let lock = WriteLock {
                    port: self.write_locks[i].port.clone(),
                    sub_id: self.write_locks[i].sub_id.clone(),
                };
                let ghost earlier = kept@;
                kept.push(lock);
                proof {
                    let last = kept.len() - 1;
                    assert(same_lock(before.write_locks[i as int], kept[last]));
                    assert forall|a: int, b: int| 0 <= a < b < kept.len() implies kept[a].port@
                        != kept[b].port@ by {
                        assert(kept[a] == earlier[a]);
                        if b == last {
                            assert(taken_from(before.write_locks@, i as int, earlier[a]));
                        } else {
                            assert(kept[b] == earlier[b]);
                        }
                    }
                    assert forall|a: int| 0 <= a < kept.len() implies kept[a].sub_id@ != sub_id@
                        && taken_from(before.write_locks@, i + 1, #[trigger] kept[a]) by {
                        if a < last {
                            assert(kept[a] == earlier[a]);
                            assert(taken_from(before.write_locks@, i as int, earlier[a]));
                        }
                    }
                    assert forall|k: int|
                        0 <= k < i + 1 && before.write_locks[k].sub_id@ != sub_id@ implies taken_from(
                        kept@,
                        kept.len() as int,
                        #[trigger] before.write_locks[k],
                    ) by {
                        if k < i {
                            assert(taken_from(earlier, earlier.len() as int, before.write_locks[k]));
                            let a = choose|a: int|
                                0 <= a < earlier.len() && same_lock(
                                    #[trigger] earlier[a],
                                    before.write_locks[k],
                                );
                            assert(kept[a] == earlier[a]);
                        }
                    }
                }
            }
            i += 1;
        }
        self.write_locks = kept;
        proof {
            let after = *self;
            let target = locks_without_owner(before@, sub_id@);
            assert forall|port: Seq<char>| after@.contains_key(port) implies target.contains_key(
                port,
            ) && target[port] == after@[port] by {
                let a = after.slot_of(port)->Some_0;
                after.lemma_slot(a);
                assert(taken_from(
                    before.write_locks@,
                    before.write_locks.len() as int,
                    after.write_locks[a],
                ));
                let k = choose|k: int|
                    0 <= k < before.write_locks.len() && same_lock(
                        #[trigger] before.write_locks[k],
                        after.write_locks[a],
                    );
                before.lemma_slot(k);
            }
            assert forall|port: Seq<char>| target.contains_key(port) implies after@.contains_key(
                port,
            ) by {
                let k = before.slot_of(port)->Some_0;
                before.lemma_slot(k);
                assert(taken_from(
                    after.write_locks@,
                    after.write_locks.len() as int,
                    before.write_locks[k],
                ));
                let a = choose|a: int|
                    0 <= a < after.write_locks.len() && same_lock(
                        #[trigger] after.write_locks[a],
                        before.write_locks[k],
                    );
                after.lemma_slot(a);
            }
            assert(after@ =~= target);
        }
    }

    /// Try and lock the port.
    pub fn try_lock_port(&mut self, port_name: &String, sub_id: &String) -> (outcome: Result<
        (),
        WebsocketSerialServerError,
    >)
        requires
            old(self).wf(),
        ensures
            final(self).wf(),
            outcome is Err <==> locked_by_other(old(self)@, port_name@, sub_id@),
            outcome is Err ==> final(self)@ == old(self)@ && outcome->Err_0@
                == (ErrorView::AlreadyWriteLocked { port: port_name@ }),
            outcome is Ok ==> final(self)@ == old(self)@.insert(port_name@, sub_id@),
    {
        match self.find(port_name) {
            Some(i) => {
                if self.write_locks[i].sub_id != *sub_id {
                    Err(WebsocketSerialServerError::AlreadyWriteLocked { port: port_name.clone() })
                } else {
                    assert(self@ =~= old(self)@.insert(port_name@, sub_id@));
                    Ok(())
                }
            },
            None => {
                let ghost before = *self;
                self.write_locks.push(WriteLock { port: port_name.clone(), sub_id: sub_id.clone() });
                proof {
                    let after = *self;
                    let last = after.write_locks.len() - 1;
                    assert(after.wf()) by {
                        assert forall|a: int, b: int|
                            0 <= a < b < after.write_locks.len() implies after.write_locks[a].port@
                            != after.write_locks[b].port@ by {
                            assert(after.write_locks[a] == before.write_locks[a]);
                            if b < last {
                                assert(after.write_locks[b] == before.write_locks[b]);
                            }
                        }
                    }
                    let target = before@.insert(port_name@, sub_id@);
                    assert forall|port: Seq<char>| after@.contains_key(port) implies target.contains_key(
                        port,
                    ) && target[port] == after@[port] by {
                        let k = after.slot_of(port)->Some_0;
                        after.lemma_slot(k);
                        if k < last {
                            assert(after.write_locks[k] == before.write_locks[k]);
                            before.lemma_slot(k);
                        }
                    }
                    assert forall|port: Seq<char>| target.contains_key(port) implies after@.contains_key(
                        port,
                    ) by {
                        if port == port_name@ {
                            after.lemma_slot(last);
                        } else {
                            let k = before.slot_of(port)->Some_0;
                            assert(after.write_locks[k] == before.write_locks[k]);
                            after.lemma_slot(k);
                        }
                    }
                    assert(after@ =~= target);
                }
                Ok(())
            },
        }
    }

    /// Lock the port for sub_id, unless another subscription holds it.
    pub fn lock_port(&mut self, port_name: &String, sub_id: &String) -> (outcome: Result<
        (),
        WebsocketSerialServerError,
    >)
        requires
            old(self).wf(),
        ensures
            final(self).wf(),
            outcome is Err <==> locked_by_other(old(self)@, port_name@, sub_id@),
            outcome is Err ==> final(self)@ == old(self)@ && outcome->Err_0@
                == (ErrorView::AlreadyWriteLocked { port: port_name@ }),
            outcome is Ok ==> final(self)@ == old(self)@.insert(port_name@, sub_id@),
    {
        self.try_lock_port(port_name, sub_id)
    }
}

} // verus!
