//! The storage subsystem, one variant per memory model.
//!
//! Shared memory is a journal of `(address, value)` pairs read through
//! `pairs_get`, which sees the newest binding; an address never written
//! reads as 0. The TSO and PSO variants add one FIFO store buffer per
//! thread: a store appends to the issuing thread's buffer, a load sees the
//! thread's own newest buffered write before it sees memory, and
//! `propagate` drains the newest buffered entry for one address into
//! memory.

use vstd::prelude::*;

verus! {

/// The newest binding of `a` in a journal of pairs, if any.
pub open spec fn pairs_get(s: Seq<(i32, i32)>, a: i32) -> Option<i32>
    decreases s.len(),
{
    if s.len() == 0 {
        None
    } else if s.last().0 == a {
        Some(s.last().1)
    } else {
        pairs_get(s.drop_last(), a)
    }
}

/// The value stored for `a`: the newest binding, or 0 when there is none.
pub open spec fn pairs_get0(s: Seq<(i32, i32)>, a: i32) -> i32 {
    match pairs_get(s, a) {
        Some(v) => v,
        None => 0,
    }
}

/// The index of the newest pair for `a`, or -1 when there is none.
pub open spec fn last_match_idx(s: Seq<(i32, i32)>, a: i32) -> int
    decreases s.len(),
{
    if s.len() == 0 {
        -1
    } else if s.last().0 == a {
        s.len() - 1
    } else {
        last_match_idx(s.drop_last(), a)
    }
}

/// What a TSO or PSO load returns: the thread's own newest buffered write
/// for the address, else coherent memory.
pub open spec fn buffered_load(
    buffers: Seq<Seq<(i32, i32)>>,
    memory: Seq<(i32, i32)>,
    thread_id: int,
    a: i32,
) -> i32 {
    match pairs_get(buffers[thread_id], a) {
        Some(v) => v,
        None => pairs_get0(memory, a),
    }
}

/// Newest-first lookup in a journal of pairs.
fn lookup_pairs(pairs: &Vec<(i32, i32)>, a: i32) -> (r: Option<i32>)
    ensures
        r == pairs_get(pairs@, a),
{
    let mut i = pairs.len();
    proof {
        assert(pairs@.take(i as int) =~= pairs@);
    }
    while i > 0
        invariant
            i <= pairs@.len(),
            pairs_get(pairs@, a) == pairs_get(pairs@.take(i as int), a),
        decreases i,
    {
        proof {
            assert(pairs@.take(i as int).drop_last() =~= pairs@.take(i - 1));
            assert(pairs@.take(i as int).last() == pairs@[i - 1]);
        }
        if pairs[i - 1].0 == a {
            return Some(pairs[i - 1].1);
        }
        i = i - 1;
    }
    proof {
        assert(pairs@.take(0) =~= Seq::<(i32, i32)>::empty());
    }
    None
}

/// Index of the newest pair for `a`, if any.
fn find_last_match(pairs: &Vec<(i32, i32)>, a: i32) -> (r: Option<usize>)
    ensures
        match r {
            Some(i) => i as int == last_match_idx(pairs@, a),
            None => last_match_idx(pairs@, a) == -1,
        },
{
    let mut i = pairs.len();
    proof {
        assert(pairs@.take(i as int) =~= pairs@);
    }
    while i > 0
        invariant
            i <= pairs@.len(),
            last_match_idx(pairs@, a) == last_match_idx(pairs@.take(i as int), a),
        decreases i,
    {
        proof {
            assert(pairs@.take(i as int).drop_last() =~= pairs@.take(i - 1));
            assert(pairs@.take(i as int).last() == pairs@[i - 1]);
        }
        if pairs[i - 1].0 == a {
            return Some(i - 1);
        }
        i = i - 1;
    }
    proof {
        assert(pairs@.take(0) =~= Seq::<(i32, i32)>::empty());
    }
    None
}

/// The storage surface shared by the three models. What a load returns
/// and what a store does differ per model; each implementation names
/// them with `loaded` and `stored`, and compare-and-swap and
/// fetch-and-add are built from those two in the same way everywhere.
pub trait StorageSystem: Sized {
    /// Which thread ids the storage accepts.
    spec fn thread_ok(&self, thread_id: int) -> bool;

    /// What a load by `thread_id` at `address` observes.
    spec fn loaded(&self, thread_id: int, address: i32) -> i32;

    /// `post` is `self` after a store by `thread_id`.
    spec fn stored(&self, post: Self, thread_id: int, address: i32, value: i32) -> bool;

    /// `post` holds the same data as `self`.
    spec fn same_data(&self, post: Self) -> bool;

    fn load(&self, thread_id: usize, address: i32) -> (v: i32)
        requires
            self.thread_ok(thread_id as int),
        ensures
            v == self.loaded(thread_id as int, address),
    ;

    fn store(&mut self, thread_id: usize, address: i32, value: i32)
        requires
            old(self).thread_ok(thread_id as int),
        ensures
            old(self).stored(*final(self), thread_id as int, address, value),
    ;

    fn cas(&mut self, thread_id: usize, address: i32, exp: i32, des: i32) -> (pre: i32)
        requires
            old(self).thread_ok(thread_id as int),
        ensures
            pre == old(self).loaded(thread_id as int, address),
            pre == exp ==> old(self).stored(*final(self), thread_id as int, address, des),
            pre != exp ==> old(self).same_data(*final(self)),
    ;

    fn fai(&mut self, thread_id: usize, address: i32, inc: i32) -> (pre: i32)
        requires
            old(self).thread_ok(thread_id as int),
        ensures
            pre == old(self).loaded(thread_id as int, address),
            old(self).stored(
                *final(self),
                thread_id as int,
                address,
                pre.wrapping_add(inc),
            ),
    ;
}

// ---------------------------------------------------------------------------
// Sequential consistency: one coherent memory, no buffers.
// ---------------------------------------------------------------------------

pub struct SCStorageSystem {
    pub memory: Vec<(i32, i32)>,
}

impl SCStorageSystem {
    pub fn new() -> (s: SCStorageSystem)
        ensures
            s.memory@.len() == 0,
    {
        SCStorageSystem { memory: Vec::new() }
    }

    pub fn load(&self, thread_id: usize, address: i32) -> (v: i32)
        ensures
            v == pairs_get0(self.memory@, address),
    {
        match lookup_pairs(&self.memory, address) {
            Some(v) => v,
            None => 0,
        }
    }

    pub fn store(&mut self, thread_id: usize, address: i32, value: i32)
        ensures
            final(self).memory@ == old(self).memory@.push((address, value)),
    {
        self.memory.push((address, value));
    }

    /// Compare-and-swap: returns the pre-image; writes `des` exactly when
    /// the pre-image equals `exp`.
    pub fn cas(&mut self, thread_id: usize, address: i32, exp: i32, des: i32) -> (pre: i32)
        ensures
            pre == pairs_get0(old(self).memory@, address),
            final(self).memory@ == if pre == exp {
                old(self).memory@.push((address, des))
            } else {
                old(self).memory@
            },
    {
        let value = self.load(thread_id, address);
        if value == exp {
            self.store(thread_id, address, des);
        }
        value
    }

    /// Fetch-and-add with wrapping arithmetic: returns the pre-image and
    /// stores the incremented value.
    pub fn fai(&mut self, thread_id: usize, address: i32, inc: i32) -> (pre: i32)
        ensures
            pre == pairs_get0(old(self).memory@, address),
            final(self).memory@ == old(self).memory@.push(
                (address, pre.wrapping_add(inc)),
            ),
    {
        let value = self.load(thread_id, address);
        self.store(thread_id, address, value.wrapping_add(inc));
        value
    }
}


impl StorageSystem for SCStorageSystem {
    open spec fn thread_ok(&self, thread_id: int) -> bool {
        true
    }

    open spec fn loaded(&self, thread_id: int, address: i32) -> i32 {
        pairs_get0(self.memory@, address)
    }

    open spec fn stored(&self, post: Self, thread_id: int, address: i32, value: i32) -> bool {
        post.memory@ == self.memory@.push((address, value))
    }

    open spec fn same_data(&self, post: Self) -> bool {
        post.memory@ == self.memory@
    }

    fn load(&self, thread_id: usize, address: i32) -> (v: i32) {
        SCStorageSystem::load(self, thread_id, address)
    }

    fn store(&mut self, thread_id: usize, address: i32, value: i32) {
        SCStorageSystem::store(self, thread_id, address, value)
    }

    fn cas(&mut self, thread_id: usize, address: i32, exp: i32, des: i32) -> (pre: i32) {
        SCStorageSystem::cas(self, thread_id, address, exp, des)
    }

    fn fai(&mut self, thread_id: usize, address: i32, inc: i32) -> (pre: i32) {
        SCStorageSystem::fai(self, thread_id, address, inc)
    }
}

// ---------------------------------------------------------------------------
// Total store order: per-thread FIFO store buffers over one memory.
// ---------------------------------------------------------------------------

pub struct TSOStorageSystem {
    pub buffers: Vec<Vec<(i32, i32)>>,
    pub memory: Vec<(i32, i32)>,
}

impl TSOStorageSystem {
    pub open spec fn bufs(&self) -> Seq<Seq<(i32, i32)>> {
        self.buffers@.map_values(|v: Vec<(i32, i32)>| v@)
    }

    pub fn new(number_of_threads: usize) -> (s: TSOStorageSystem)
        ensures
            s.buffers@.len() == number_of_threads,
            forall|t: int| 0 <= t < number_of_threads ==> #[trigger] s.bufs()[t].len() == 0,
            s.memory@.len() == 0,
    {
        let mut buffers: Vec<Vec<(i32, i32)>> = Vec::new();
        let mut i: usize = 0;
        while i < number_of_threads
            invariant
                i <= number_of_threads,
                buffers@.len() == i,
                forall|t: int| 0 <= t < i ==> #[trigger] buffers@[t]@.len() == 0,
            decreases number_of_threads - i,
        {
            buffers.push(Vec::new());
            i = i + 1;
        }
        TSOStorageSystem { buffers, memory: Vec::new() }
    }

    /// Drain the newest buffered entry of `thread_id` for `address` into
    /// memory; a no-op when nothing matching is buffered.
    pub fn propagate(&mut self, thread_id: usize, address: i32)
        requires
            thread_id < old(self).buffers@.len(),
        ensures
            final(self).buffers@.len() == old(self).buffers@.len(),
            ({
                let buf = old(self).bufs()[thread_id as int];
                let i = last_match_idx(buf, address);
                if i == -1 {
                    final(self).bufs() == old(self).bufs() && final(self).memory@ == old(
                        self,
                    ).memory@
                } else {
                    final(self).bufs() == old(self).bufs().update(thread_id as int, buf.remove(i))
                        && final(self).memory@ == old(self).memory@.push((address, buf[i].1))
                }
            }),
    {
        let found = find_last_match(&self.buffers[thread_id], address);
        match found {
            Some(i) => {
                proof {
                    lemma_last_match_idx_props(old(self).bufs()[thread_id as int], address);
                }
                let value = self.buffers[thread_id][i].1;
                self.buffers[thread_id].remove(i);
                self.memory.push((address, value));
                proof {
                    assert(self.bufs() =~= old(self).bufs().update(
                        thread_id as int,
                        old(self).bufs()[thread_id as int].remove(i as int),
                    ));
                }
            },
            None => {
                proof {
                    assert(self.bufs() =~= old(self).bufs());
                }
            },
        }
    }

    pub fn load(&self, thread_id: usize, address: i32) -> (v: i32)
        requires
            thread_id < self.buffers@.len(),
        ensures
            v == buffered_load(self.bufs(), self.memory@, thread_id as int, address),
    {
        match lookup_pairs(&self.buffers[thread_id], address) {
            Some(value) => value,
            None => match lookup_pairs(&self.memory, address) {
                Some(value) => value,
                None => 0,
            },
        }
    }

    pub fn store(&mut self, thread_id: usize, address: i32, value: i32)
        requires
            thread_id < old(self).buffers@.len(),
        ensures
            final(self).buffers@.len() == old(self).buffers@.len(),
            final(self).bufs() == old(self).bufs().update(
                thread_id as int,
                old(self).bufs()[thread_id as int].push((address, value)),
            ),
            final(self).memory@ == old(self).memory@,
    {
        self.buffers[thread_id].push((address, value));
        proof {
            assert(self.bufs() =~= old(self).bufs().update(
                thread_id as int,
                old(self).bufs()[thread_id as int].push((address, value)),
            ));
        }
    }

    /// Compare-and-swap against this thread's view: the pre-image comes
    /// from the buffer-then-memory load, and a successful swap is buffered
    /// like any store.
    pub fn cas(&mut self, thread_id: usize, address: i32, exp: i32, des: i32) -> (pre: i32)
        requires
            thread_id < old(self).buffers@.len(),
        ensures
            final(self).buffers@.len() == old(self).buffers@.len(),
            pre == buffered_load(old(self).bufs(), old(self).memory@, thread_id as int, address),
            final(self).memory@ == old(self).memory@,
            final(self).bufs() == if pre == exp {
                old(self).bufs().update(
                    thread_id as int,
                    old(self).bufs()[thread_id as int].push((address, des)),
                )
            } else {
                old(self).bufs()
            },
    {
        let value = self.load(thread_id, address);
        if value == exp {
            self.store(thread_id, address, des);
        }
        value
    }

    /// Fetch-and-add against this thread's view, with wrapping arithmetic.
    pub fn fai(&mut self, thread_id: usize, address: i32, inc: i32) -> (pre: i32)
        requires
            thread_id < old(self).buffers@.len(),
        ensures
            final(self).buffers@.len() == old(self).buffers@.len(),
            pre == buffered_load(old(self).bufs(), old(self).memory@, thread_id as int, address),
            final(self).memory@ == old(self).memory@,
            final(self).bufs() == old(self).bufs().update(
                thread_id as int,
                old(self).bufs()[thread_id as int].push((address, pre.wrapping_add(inc))),
            ),
    {
        let value = self.load(thread_id, address);
        self.store(thread_id, address, value.wrapping_add(inc));
        value
    }
}


impl StorageSystem for TSOStorageSystem {
    open spec fn thread_ok(&self, thread_id: int) -> bool {
        0 <= thread_id < self.buffers@.len()
    }

    open spec fn loaded(&self, thread_id: int, address: i32) -> i32 {
        buffered_load(self.bufs(), self.memory@, thread_id, address)
    }

    open spec fn stored(&self, post: Self, thread_id: int, address: i32, value: i32) -> bool {
        &&& post.buffers@.len() == self.buffers@.len()
        &&& post.bufs() == self.bufs().update(
            thread_id,
            self.bufs()[thread_id].push((address, value)),
        )
        &&& post.memory@ == self.memory@
    }

    open spec fn same_data(&self, post: Self) -> bool {
        &&& post.buffers@.len() == self.buffers@.len()
        &&& post.bufs() == self.bufs()
        &&& post.memory@ == self.memory@
    }

    fn load(&self, thread_id: usize, address: i32) -> (v: i32) {
        TSOStorageSystem::load(self, thread_id, address)
    }

    fn store(&mut self, thread_id: usize, address: i32, value: i32) {
        TSOStorageSystem::store(self, thread_id, address, value)
    }

    fn cas(&mut self, thread_id: usize, address: i32, exp: i32, des: i32) -> (pre: i32) {
        TSOStorageSystem::cas(self, thread_id, address, exp, des)
    }

    fn fai(&mut self, thread_id: usize, address: i32, inc: i32) -> (pre: i32) {
        TSOStorageSystem::fai(self, thread_id, address, inc)
    }
}

/// A valid match index lies in the sequence and names the address.
pub proof fn lemma_last_match_idx_props(s: Seq<(i32, i32)>, a: i32)
    ensures
        last_match_idx(s, a) >= -1,
        last_match_idx(s, a) < s.len(),
        last_match_idx(s, a) >= 0 ==> s[last_match_idx(s, a)].0 == a,
    decreases s.len(),
{
    if s.len() > 0 && s.last().0 != a {
        lemma_last_match_idx_props(s.drop_last(), a);
    }
}

// ---------------------------------------------------------------------------
// Partial store order: the same storage surface as TSO. The difference
// between the two models sits entirely in the thread system, which lets
// propagates to distinct addresses overtake each other.
// ---------------------------------------------------------------------------

pub struct PSOStorageSystem {
    pub buffers: Vec<Vec<(i32, i32)>>,
    pub memory: Vec<(i32, i32)>,
}

impl PSOStorageSystem {
    pub open spec fn bufs(&self) -> Seq<Seq<(i32, i32)>> {
        self.buffers@.map_values(|v: Vec<(i32, i32)>| v@)
    }

    pub fn new(number_of_threads: usize) -> (s: PSOStorageSystem)
        ensures
            s.buffers@.len() == number_of_threads,
            forall|t: int| 0 <= t < number_of_threads ==> #[trigger] s.bufs()[t].len() == 0,
            s.memory@.len() == 0,
    {
        let mut buffers: Vec<Vec<(i32, i32)>> = Vec::new();
        let mut i: usize = 0;
        while i < number_of_threads
            invariant
                i <= number_of_threads,
                buffers@.len() == i,
                forall|t: int| 0 <= t < i ==> #[trigger] buffers@[t]@.len() == 0,
            decreases number_of_threads - i,
        {
            buffers.push(Vec::new());
            i = i + 1;
        }
        PSOStorageSystem { buffers, memory: Vec::new() }
    }

    /// Drain the newest buffered entry of `thread_id` for `address` into
    /// memory; a no-op when nothing matching is buffered.
    pub fn propagate(&mut self, thread_id: usize, address: i32)
        requires
            thread_id < old(self).buffers@.len(),
        ensures
            final(self).buffers@.len() == old(self).buffers@.len(),
            ({
                let buf = old(self).bufs()[thread_id as int];
                let i = last_match_idx(buf, address);
                if i == -1 {
                    final(self).bufs() == old(self).bufs() && final(self).memory@ == old(
                        self,
                    ).memory@
                } else {
                    final(self).bufs() == old(self).bufs().update(thread_id as int, buf.remove(i))
                        && final(self).memory@ == old(self).memory@.push((address, buf[i].1))
                }
            }),
    {
        let found = find_last_match(&self.buffers[thread_id], address);
        match found {
            Some(i) => {
                proof {
                    lemma_last_match_idx_props(old(self).bufs()[thread_id as int], address);
                }
                let value = self.buffers[thread_id][i].1;
                self.buffers[thread_id].remove(i);
                self.memory.push((address, value));
                proof {
                    assert(self.bufs() =~= old(self).bufs().update(
                        thread_id as int,
                        old(self).bufs()[thread_id as int].remove(i as int),
                    ));
                }
            },
            None => {
                proof {
                    assert(self.bufs() =~= old(self).bufs());
                }
            },
        }
    }

    pub fn load(&self, thread_id: usize, address: i32) -> (v: i32)
        requires
            thread_id < self.buffers@.len(),
        ensures
            v == buffered_load(self.bufs(), self.memory@, thread_id as int, address),
    {
        match lookup_pairs(&self.buffers[thread_id], address) {
            Some(value) => value,
            None => match lookup_pairs(&self.memory, address) {
                Some(value) => value,
                None => 0,
            },
        }
    }

    pub fn store(&mut self, thread_id: usize, address: i32, value: i32)
        requires
            thread_id < old(self).buffers@.len(),
        ensures
            final(self).buffers@.len() == old(self).buffers@.len(),
            final(self).bufs() == old(self).bufs().update(
                thread_id as int,
                old(self).bufs()[thread_id as int].push((address, value)),
            ),
            final(self).memory@ == old(self).memory@,
    {
        self.buffers[thread_id].push((address, value));
        proof {
            assert(self.bufs() =~= old(self).bufs().update(
                thread_id as int,
                old(self).bufs()[thread_id as int].push((address, value)),
            ));
        }
    }

    /// Compare-and-swap against this thread's view: the pre-image comes
    /// from the buffer-then-memory load, and a successful swap is buffered
    /// like any store.
    pub fn cas(&mut self, thread_id: usize, address: i32, exp: i32, des: i32) -> (pre: i32)
        requires
            thread_id < old(self).buffers@.len(),
        ensures
            final(self).buffers@.len() == old(self).buffers@.len(),
            pre == buffered_load(old(self).bufs(), old(self).memory@, thread_id as int, address),
            final(self).memory@ == old(self).memory@,
            final(self).bufs() == if pre == exp {
                old(self).bufs().update(
                    thread_id as int,
                    old(self).bufs()[thread_id as int].push((address, des)),
                )
            } else {
                old(self).bufs()
            },
    {
        let value = self.load(thread_id, address);
        if value == exp {
            self.store(thread_id, address, des);
        }
        value
    }

    /// Fetch-and-add against this thread's view, with wrapping arithmetic.
    pub fn fai(&mut self, thread_id: usize, address: i32, inc: i32) -> (pre: i32)
        requires
            thread_id < old(self).buffers@.len(),
        ensures
            final(self).buffers@.len() == old(self).buffers@.len(),
            pre == buffered_load(old(self).bufs(), old(self).memory@, thread_id as int, address),
            final(self).memory@ == old(self).memory@,
            final(self).bufs() == old(self).bufs().update(
                thread_id as int,
                old(self).bufs()[thread_id as int].push((address, pre.wrapping_add(inc))),
            ),
    {
        let value = self.load(thread_id, address);
        self.store(thread_id, address, value.wrapping_add(inc));
        value
    }
}


impl StorageSystem for PSOStorageSystem {
    open spec fn thread_ok(&self, thread_id: int) -> bool {
        0 <= thread_id < self.buffers@.len()
    }

    open spec fn loaded(&self, thread_id: int, address: i32) -> i32 {
        buffered_load(self.bufs(), self.memory@, thread_id, address)
    }

    open spec fn stored(&self, post: Self, thread_id: int, address: i32, value: i32) -> bool {
        &&& post.buffers@.len() == self.buffers@.len()
        &&& post.bufs() == self.bufs().update(
            thread_id,
            self.bufs()[thread_id].push((address, value)),
        )
        &&& post.memory@ == self.memory@
    }

    open spec fn same_data(&self, post: Self) -> bool {
        &&& post.buffers@.len() == self.buffers@.len()
        &&& post.bufs() == self.bufs()
        &&& post.memory@ == self.memory@
    }

    fn load(&self, thread_id: usize, address: i32) -> (v: i32) {
        PSOStorageSystem::load(self, thread_id, address)
    }

    fn store(&mut self, thread_id: usize, address: i32, value: i32) {
        PSOStorageSystem::store(self, thread_id, address, value)
    }

    fn cas(&mut self, thread_id: usize, address: i32, exp: i32, des: i32) -> (pre: i32) {
        PSOStorageSystem::cas(self, thread_id, address, exp, des)
    }

    fn fai(&mut self, thread_id: usize, address: i32, inc: i32) -> (pre: i32) {
        PSOStorageSystem::fai(self, thread_id, address, inc)
    }
}

} // verus!
