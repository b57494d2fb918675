//! The thread catalog of a loaded trace.
//!
//! There are two thread-id namespaces: OS thread ids, which the protocol and
//! the target speak, and the engine's unique thread ids, which its watchpoint
//! filters speak. The threads of a trace are fixed once it is loaded, so the
//! catalog is built once.

use std::collections::HashMap;

use vstd::prelude::*;

use crate::ttd::types::TtdThreadInfo;

verus! {

broadcast use vstd::std_specs::hash::group_hash_axioms;

/// Which unique id each OS thread id of the trace has. A recycled OS thread id
/// stands for its last thread.
pub open spec fn catalog(threads: Seq<TtdThreadInfo>) -> Map<u32, u32>
    decreases threads.len(),
{
    if threads.len() == 0 {
        Map::empty()
    } else {
        catalog(threads.drop_last()).insert(threads.last().os_thread_id, threads.last().unique_id)
    }
}

/// The unique id of each OS thread id.
pub struct ThreadTable {
    os_to_uid: HashMap<u32, u32>,
}

impl View for ThreadTable {
    type V = Map<u32, u32>;

    closed spec fn view(&self) -> Map<u32, u32> {
        self.os_to_uid@
    }
}

impl ThreadTable {
    /// Build the catalog from the engine's list of threads.
    pub fn from_engine_threads(threads: &[TtdThreadInfo]) -> (r: ThreadTable)
        ensures
            r@ == catalog(threads@),
    {
        let mut os_to_uid: HashMap<u32, u32> = HashMap::new();
        assert(os_to_uid@ =~= catalog(threads@.take(0)));
        for i in 0..threads.len()
            invariant
                os_to_uid@ == catalog(threads@.take(i as int)),
        {
            let t = &threads[i];
            os_to_uid.insert(t.os_thread_id, t.unique_id);
            assert(threads@.take(i as int + 1).drop_last() =~= threads@.take(i as int));
        }
        assert(threads@.take(threads@.len() as int) =~= threads@);
        ThreadTable { os_to_uid }
    }

    /// Whether the OS thread id ever appears in the trace.
    pub fn contains_os_tid(&self, os_tid: u32) -> (r: bool)
        ensures
            r == self@.contains_key(os_tid),
    {
        self.os_to_uid.contains_key(&os_tid)
    }

    /// The unique id of the OS thread id, if the thread exists in the trace.
    pub fn uid_for_os_tid(&self, os_tid: u32) -> (r: Option<u32>)
        ensures
            r == (if self@.contains_key(os_tid) {
                Some(self@[os_tid])
            } else {
                None
            }),
    {
        match self.os_to_uid.get(&os_tid) {
            Some(uid) => Some(*uid),
            None => None,
        }
    }
}

/// The catalog knows exactly the OS thread ids of the trace.
pub proof fn law_catalog_knows_every_thread(threads: Seq<TtdThreadInfo>, os_tid: u32)
    ensures
        catalog(threads).contains_key(os_tid) <==> exists|i: int|
            0 <= i < threads.len() && (#[trigger] threads[i]).os_thread_id == os_tid,
    decreases threads.len(),
{
    if threads.len() > 0 {
        let rest = threads.drop_last();
        law_catalog_knows_every_thread(rest, os_tid);
        if exists|i: int| 0 <= i < threads.len() && (#[trigger] threads[i]).os_thread_id == os_tid {
            let i = choose|i: int|
                0 <= i < threads.len() && (#[trigger] threads[i]).os_thread_id == os_tid;
            if i < rest.len() {
                assert(rest[i].os_thread_id == os_tid);
            }
        }
        if catalog(rest).contains_key(os_tid) {
            let i = choose|i: int|
                0 <= i < rest.len() && (#[trigger] rest[i]).os_thread_id == os_tid;
            assert(threads[i].os_thread_id == os_tid);
        }
        if threads.last().os_thread_id == os_tid {
            assert(threads[threads.len() - 1].os_thread_id == os_tid);
        }
    }
}

/// Of several threads with one OS thread id, the last one counts.
pub proof fn law_last_thread_wins(threads: Seq<TtdThreadInfo>, i: int)
    requires
        0 <= i < threads.len(),
        forall|j: int|
            i < j < threads.len() ==> (#[trigger] threads[j]).os_thread_id
                != threads[i].os_thread_id,
    ensures
        catalog(threads).contains_key(threads[i].os_thread_id),
        catalog(threads)[threads[i].os_thread_id] == threads[i].unique_id,
    decreases threads.len(),
{
    if i < threads.len() - 1 {
        let rest = threads.drop_last();
        assert forall|j: int| i < j < rest.len() implies (#[trigger] rest[j]).os_thread_id
            != rest[i].os_thread_id by {
            assert(rest[j] == threads[j]);
        }
        law_last_thread_wins(rest, i);
        assert(threads[threads.len() - 1].os_thread_id != threads[i].os_thread_id);
    }
}

} // verus!
