//! The execution-candidate graph.
//!
//! Events are nodes with dense ids. An edge recorded by `add_edge(from, to)`
//! means "`to` must execute before `from`": `from` is appended to
//! `rev_edges[to]`, and `active_neighbors[from]` counts, with multiplicity,
//! the active nodes whose `rev_edges` list contains `from`. A node is an
//! execution candidate exactly when it is active and that counter is zero.
//! Removed nodes are pushed on `execution_stack`; restoring pops the stack
//! LIFO and re-establishes the counters exactly, which is what makes the
//! backward-jump rewind sound.

use vstd::prelude::*;

use crate::instruction::LabeledInstruction;

verus! {

/// A graph node: its id (equal to its index), the simulated thread that
/// issued it, and its payload.
#[derive(Debug)]
pub struct Node {
    pub id: usize,
    pub thread_id: usize,
    pub instruction: LabeledInstruction,
}

impl Clone for Node {
    fn clone(&self) -> (r: Self)
        ensures
            r == *self,
    {
        Node { id: self.id, thread_id: self.thread_id, instruction: self.instruction.clone() }
    }
}

impl Node {
    pub fn new(id: usize, thread_id: usize, instruction: LabeledInstruction) -> (r: Node)
        ensures
            r == (Node { id, thread_id, instruction }),
    {
        Node { id, thread_id, instruction }
    }
}

/// Number of occurrences of `x` in `s` (edges may be duplicated, so the
/// counters count with multiplicity).
pub open spec fn occ(s: Seq<usize>, x: usize) -> nat
    decreases s.len(),
{
    if s.len() == 0 {
        0
    } else {
        occ(s.drop_last(), x) + if s.last() == x {
            1nat
        } else {
            0nat
        }
    }
}

/// Sum over `j < upto` of the occurrences of `p` in `re[j]`, counting only
/// active `j`. This is the value `active_neighbors[p]` must hold.
pub open spec fn wcount_upto(re: Seq<Seq<usize>>, act: Seq<bool>, p: usize, upto: int) -> nat
    decreases upto,
{
    if upto <= 0 {
        0
    } else {
        wcount_upto(re, act, p, upto - 1) + if act[upto - 1] {
            occ(re[upto - 1], p)
        } else {
            0nat
        }
    }
}

pub open spec fn wcount(re: Seq<Seq<usize>>, act: Seq<bool>, p: usize) -> nat {
    wcount_upto(re, act, p, re.len() as int)
}

/// Total number of edge records in the graph.
pub open spec fn total_edges_upto(re: Seq<Seq<usize>>, upto: int) -> nat
    decreases upto,
{
    if upto <= 0 {
        0
    } else {
        total_edges_upto(re, upto - 1) + re[upto - 1].len()
    }
}

pub open spec fn total_edges(re: Seq<Seq<usize>>) -> nat {
    total_edges_upto(re, re.len() as int)
}

/// Looking a label up finds the most recently added binding: a later
/// binding for the same label shadows an earlier one.
pub open spec fn lookup_label(labels: Seq<(String, usize)>, l: Seq<char>) -> Option<usize>
    decreases labels.len(),
{
    if labels.len() == 0 {
        None
    } else if labels.last().0@ == l {
        Some(labels.last().1)
    } else {
        lookup_label(labels.drop_last(), l)
    }
}

/// The mathematical state of a graph.
#[verifier::ext_equal]
pub ghost struct GraphV {
    pub labels: Seq<(String, usize)>,
    pub nodes: Seq<Node>,
    pub rev_edges: Seq<Seq<usize>>,
    pub active_neighbors: Seq<int>,
    pub is_active: Seq<bool>,
    pub stack: Seq<usize>,
}

impl GraphV {
    pub open spec fn n(self) -> int {
        self.nodes.len() as int
    }

    /// The activity map as it will be once the stack has been popped down
    /// to length `m`: the current one, with the popped entries reactivated.
    pub open spec fn up_act(self, m: int) -> Seq<bool>
        decreases self.stack.len() - m,
    {
        if m < 0 || m >= self.stack.len() {
            self.is_active
        } else {
            self.up_act(m + 1).update(self.stack[m] as int, true)
        }
    }

    /// Well-formedness: dense ids, in-bounds edge records without self
    /// edges, label bindings that name their node, an execution stack that
    /// holds exactly the inactive nodes once each, and counters that are
    /// correct for every active node now and for every stacked node at the
    /// moment it will be popped.
    pub open spec fn wf(self) -> bool {
        &&& self.rev_edges.len() == self.n()
        &&& self.active_neighbors.len() == self.n()
        &&& self.is_active.len() == self.n()
        &&& total_edges(self.rev_edges) <= usize::MAX as nat
        &&& forall|i: int| 0 <= i < self.n() ==> (#[trigger] self.nodes[i]).id == i
        &&& forall|j: int, k: int|
            0 <= j < self.n() && 0 <= k < self.rev_edges[j].len() ==> {
                &&& (#[trigger] self.rev_edges[j][k]) < self.n()
                &&& self.rev_edges[j][k] != j
            }
        &&& forall|k: int|
            0 <= k < self.labels.len() ==> {
                &&& (#[trigger] self.labels[k]).1 < self.n()
                &&& self.nodes[self.labels[k].1 as int].instruction.label == Some(
                    self.labels[k].0,
                )
            }
        &&& forall|k: int|
            0 <= k < self.stack.len() ==> {
                &&& (#[trigger] self.stack[k]) < self.n()
                &&& !self.is_active[self.stack[k] as int]
            }
        &&& forall|k1: int, k2: int|
            0 <= k1 < k2 < self.stack.len() ==> #[trigger] self.stack[k1]
                != #[trigger] self.stack[k2]
        &&& forall|i: usize|
            0 <= i < self.n() && !self.is_active[i as int] ==> #[trigger] self.stack.contains(i)
        &&& forall|i: usize|
            0 <= i < self.n() && self.is_active[i as int] ==> self.active_neighbors[i as int]
                == wcount(self.rev_edges, self.is_active, i)
        &&& forall|k: int|
            0 <= k < self.stack.len() ==> self.active_neighbors[#[trigger] self.stack[k] as int]
                == wcount(self.rev_edges, self.up_act(k + 1), self.stack[k])
    }

    /// An execution candidate: active, with no active event still waiting
    /// on it.
    pub open spec fn is_candidate(self, i: usize) -> bool {
        &&& 0 <= i < self.n()
        &&& self.is_active[i as int]
        &&& self.active_neighbors[i as int] == 0
    }

    pub open spec fn is_active_fence(self, i: usize) -> bool {
        &&& 0 <= i < self.n()
        &&& self.is_active[i as int]
        &&& self.nodes[i as int].instruction.spec_is_fence()
    }

    pub open spec fn label_active(self, l: Seq<char>) -> bool {
        match lookup_label(self.labels, l) {
            Some(id) => self.is_active[id as int],
            None => true,
        }
    }

    /// The state after removing the active node `id`.
    pub open spec fn spec_remove(self, id: usize) -> GraphV {
        let act = self.is_active.update(id as int, false);
        GraphV {
            labels: self.labels,
            nodes: self.nodes,
            rev_edges: self.rev_edges,
            active_neighbors: Seq::new(
                self.active_neighbors.len(),
                |p: int|
                    if act[p] {
                        self.active_neighbors[p] - occ(self.rev_edges[id as int], p as usize)
                    } else {
                        self.active_neighbors[p]
                    },
            ),
            is_active: act,
            stack: self.stack.push(id),
        }
    }

    /// The state after restoring the most recently removed node.
    pub open spec fn spec_restore(self) -> GraphV {
        let id = self.stack.last();
        let act = self.is_active.update(id as int, true);
        GraphV {
            labels: self.labels,
            nodes: self.nodes,
            rev_edges: self.rev_edges,
            active_neighbors: Seq::new(
                self.active_neighbors.len(),
                |p: int|
                    if act[p] {
                        self.active_neighbors[p] + occ(self.rev_edges[id as int], p as usize)
                    } else {
                        self.active_neighbors[p]
                    },
            ),
            is_active: act,
            stack: self.stack.drop_last(),
        }
    }

    /// The state after adding a node for `instruction` on `thread_id`.
    pub open spec fn spec_add_node(self, thread_id: usize, instruction: LabeledInstruction) -> GraphV {
        let id = self.nodes.len() as usize;
        GraphV {
            labels: match instruction.label {
                Some(l) => self.labels.push((l, id)),
                None => self.labels,
            },
            nodes: self.nodes.push(Node { id, thread_id, instruction }),
            rev_edges: self.rev_edges.push(Seq::empty()),
            active_neighbors: self.active_neighbors.push(0),
            is_active: self.is_active.push(true),
            stack: self.stack,
        }
    }

    /// The state after recording "`to` must execute before `from`" between
    /// two active nodes.
    pub open spec fn spec_add_edge(self, from: usize, to: usize) -> GraphV {
        GraphV {
            labels: self.labels,
            nodes: self.nodes,
            rev_edges: self.rev_edges.update(to as int, self.rev_edges[to as int].push(from)),
            active_neighbors: self.active_neighbors.update(
                from as int,
                self.active_neighbors[from as int] + 1,
            ),
            is_active: self.is_active,
            stack: self.stack,
        }
    }
}

// ---------------------------------------------------------------------------
// Counting lemmas.
// ---------------------------------------------------------------------------

pub proof fn lemma_occ_le_len(s: Seq<usize>, x: usize)
    ensures
        occ(s, x) <= s.len(),
    decreases s.len(),
{
    if s.len() > 0 {
        lemma_occ_le_len(s.drop_last(), x);
    }
}

pub proof fn lemma_occ_zero(s: Seq<usize>, x: usize)
    requires
        forall|k: int| 0 <= k < s.len() ==> s[k] != x,
    ensures
        occ(s, x) == 0,
    decreases s.len(),
{
    if s.len() > 0 {
        lemma_occ_zero(s.drop_last(), x);
    }
}

pub proof fn lemma_occ_push(s: Seq<usize>, y: usize, x: usize)
    ensures
        occ(s.push(y), x) == occ(s, x) + if y == x {
            1nat
        } else {
            0nat
        },
{
    assert(s.push(y).drop_last() =~= s);
}

pub proof fn lemma_occ_take_step(s: Seq<usize>, x: usize, k: int)
    requires
        0 <= k < s.len(),
    ensures
        occ(s.take(k + 1), x) == occ(s.take(k), x) + if s[k] == x {
            1nat
        } else {
            0nat
        },
{
    assert(s.take(k + 1).drop_last() =~= s.take(k));
    assert(s.take(k + 1).last() == s[k]);
}

pub proof fn lemma_occ_take_le(s: Seq<usize>, x: usize, k: int)
    requires
        0 <= k <= s.len(),
    ensures
        occ(s.take(k), x) <= occ(s, x),
        k == s.len() ==> occ(s.take(k), x) == occ(s, x),
    decreases s.len() - k,
{
    if k == s.len() {
        assert(s.take(k) =~= s);
    } else {
        lemma_occ_take_step(s, x, k);
        lemma_occ_take_le(s, x, k + 1);
    }
}

/// `wcount` only looks at the prefix below `upto`.
pub proof fn lemma_wcount_agree(
    re1: Seq<Seq<usize>>,
    act1: Seq<bool>,
    re2: Seq<Seq<usize>>,
    act2: Seq<bool>,
    p: usize,
    upto: int,
)
    requires
        forall|j: int| 0 <= j < upto ==> #[trigger] re1[j] == re2[j] && act1[j] == act2[j],
    ensures
        wcount_upto(re1, act1, p, upto) == wcount_upto(re2, act2, p, upto),
    decreases upto,
{
    if upto > 0 {
        lemma_wcount_agree(re1, act1, re2, act2, p, upto - 1);
        assert(re1[upto - 1] == re2[upto - 1]);
        assert(act1[upto - 1] == act2[upto - 1]);
    }
}

/// Changing the activity of a single node shifts the counter of `p` by the
/// occurrences of `p` in that node's edge list.
pub proof fn lemma_wcount_update_act(
    re: Seq<Seq<usize>>,
    act: Seq<bool>,
    p: usize,
    id: int,
    b: bool,
    upto: int,
)
    requires
        0 <= id < act.len(),
        upto <= act.len(),
    ensures
        wcount_upto(re, act.update(id, b), p, upto) + if id < upto && act[id] {
            occ(re[id], p)
        } else {
            0nat
        } == wcount_upto(re, act, p, upto) + if id < upto && b {
            occ(re[id], p)
        } else {
            0nat
        },
    decreases upto,
{
    if upto > 0 {
        lemma_wcount_update_act(re, act, p, id, b, upto - 1);
        let upd = act.update(id, b);
        if id == upto - 1 {
            assert(upd[upto - 1] == b);
        } else {
            assert(upd[upto - 1] == act[upto - 1]);
        }
        assert(wcount_upto(re, upd, p, upto) == wcount_upto(re, upd, p, upto - 1) + if upd[upto
            - 1] {
            occ(re[upto - 1], p)
        } else {
            0nat
        });
    }
}

/// Appending to one edge list shifts the counter of the appended node by
/// one when the list's owner is active.
pub proof fn lemma_wcount_update_re(
    re: Seq<Seq<usize>>,
    act: Seq<bool>,
    p: usize,
    to: int,
    from: usize,
    upto: int,
)
    requires
        0 <= to < re.len(),
        upto <= re.len(),
    ensures
        wcount_upto(re.update(to, re[to].push(from)), act, p, upto) == wcount_upto(re, act, p, upto)
            + if to < upto && act[to] && from == p {
            1nat
        } else {
            0nat
        },
    decreases upto,
{
    if upto > 0 {
        lemma_wcount_update_re(re, act, p, to, from, upto - 1);
        let upd = re.update(to, re[to].push(from));
        if upto - 1 == to {
            lemma_occ_push(re[to], from, p);
            assert(upd[upto - 1] == re[to].push(from));
        } else {
            assert(upd[upto - 1] == re[upto - 1]);
        }
        assert(wcount_upto(upd, act, p, upto) == wcount_upto(upd, act, p, upto - 1) + if act[upto
            - 1] {
            occ(upd[upto - 1], p)
        } else {
            0nat
        });
    }
}

pub proof fn lemma_wcount_le_total(re: Seq<Seq<usize>>, act: Seq<bool>, p: usize, upto: int)
    ensures
        wcount_upto(re, act, p, upto) <= total_edges_upto(re, upto),
    decreases upto,
{
    if upto > 0 {
        lemma_wcount_le_total(re, act, p, upto - 1);
        lemma_occ_le_len(re[upto - 1], p);
    }
}

pub proof fn lemma_wcount_ge_term(re: Seq<Seq<usize>>, act: Seq<bool>, p: usize, j: int)
    requires
        0 <= j < re.len(),
        act[j],
    ensures
        wcount(re, act, p) >= occ(re[j], p),
{
    lemma_wcount_ge_term_upto(re, act, p, j, re.len() as int);
}

proof fn lemma_wcount_ge_term_upto(re: Seq<Seq<usize>>, act: Seq<bool>, p: usize, j: int, upto: int)
    requires
        0 <= j < upto,
        act[j],
    ensures
        wcount_upto(re, act, p, upto) >= occ(re[j], p),
    decreases upto,
{
    if j < upto - 1 {
        lemma_wcount_ge_term_upto(re, act, p, j, upto - 1);
    }
}

/// Membership form of `up_act`: a node counts as active at stack level `m`
/// exactly when it is active now or sits in the stack at or above `m`.
pub proof fn lemma_up_act_char(v: GraphV, m: int, j: int)
    requires
        v.wf(),
        0 <= j < v.n(),
        0 <= m,
    ensures
        v.up_act(m).len() == v.n(),
        v.up_act(m)[j] == (v.is_active[j] || exists|i: int|
            m <= i < v.stack.len() && v.stack[i] == j),
    decreases v.stack.len() - m,
{
    if m >= v.stack.len() {
        if exists|i: int| m <= i < v.stack.len() && v.stack[i] == j {
            let i = choose|i: int| m <= i < v.stack.len() && v.stack[i] == j;
            assert(false);
        }
    } else {
        lemma_up_act_char(v, m + 1, j);
        if v.stack[m] == j {
        } else {
            if v.up_act(m)[j] {
                assert(v.up_act(m + 1)[j]);
            }
            if v.is_active[j] || exists|i: int| m <= i < v.stack.len() && v.stack[i] == j {
                if !v.is_active[j] {
                    let i = choose|i: int| m <= i < v.stack.len() && v.stack[i] == j;
                    assert(m + 1 <= i < v.stack.len() && v.stack[i] == j);
                }
            }
        }
    }
}

pub proof fn lemma_wcount_zero(re: Seq<Seq<usize>>, act: Seq<bool>, p: usize, upto: int)
    requires
        forall|j: int, k: int|
            0 <= j < upto && 0 <= k < re[j].len() ==> (#[trigger] re[j][k]) != p,
    ensures
        wcount_upto(re, act, p, upto) == 0,
    decreases upto,
{
    if upto > 0 {
        lemma_wcount_zero(re, act, p, upto - 1);
        lemma_occ_zero(re[upto - 1], p);
    }
}

pub proof fn lemma_total_edges_update(re: Seq<Seq<usize>>, to: int, x: usize, upto: int)
    requires
        0 <= to < re.len(),
        upto <= re.len(),
    ensures
        total_edges_upto(re.update(to, re[to].push(x)), upto) == total_edges_upto(re, upto)
            + if to < upto {
            1nat
        } else {
            0nat
        },
    decreases upto,
{
    if upto > 0 {
        lemma_total_edges_update(re, to, x, upto - 1);
    }
}

pub proof fn lemma_total_edges_mono(re: Seq<Seq<usize>>, j: int, k: int)
    requires
        0 <= j <= k,
    ensures
        total_edges_upto(re, j) <= total_edges_upto(re, k),
    decreases k - j,
{
    if j < k {
        lemma_total_edges_mono(re, j, k - 1);
    }
}

pub proof fn lemma_total_edges_push(re: Seq<Seq<usize>>, s: Seq<usize>, upto: int)
    requires
        upto <= re.len(),
    ensures
        total_edges_upto(re.push(s), upto) == total_edges_upto(re, upto),
    decreases upto,
{
    if upto > 0 {
        lemma_total_edges_push(re, s, upto - 1);
    }
}

// ---------------------------------------------------------------------------
// Preservation of well-formedness, and the round-trip inverse.
// ---------------------------------------------------------------------------

pub proof fn lemma_remove_preserves_wf(v: GraphV, id: usize)
    requires
        v.wf(),
        0 <= id < v.n(),
        v.is_active[id as int],
    ensures
        v.spec_remove(id).wf(),
{
    let w = v.spec_remove(id);
    let n = v.n();
    let re = v.rev_edges;
    let act = v.is_active;
    let act2 = w.is_active;
    let ln = v.stack.len() as int;
    assert(forall|k: int| 0 <= k < ln ==> v.stack[k] != id);
    assert(forall|k: int| 0 <= k < ln ==> w.stack[k] == v.stack[k]);
    assert(w.stack[ln] == id);
    // stack entries are in bounds and inactive, once each
    assert forall|i: usize| 0 <= i < n && !act2[i as int] implies #[trigger] w.stack.contains(
        i,
    ) by {
        if i == id {
            assert(w.stack[ln] == i);
        } else {
            assert(v.stack.contains(i));
            let k = choose|k: int| 0 <= k < ln && v.stack[k] == i;
            assert(w.stack[k] == i);
        }
    }
    // counters of nodes still active
    assert forall|i: usize| 0 <= i < n && act2[i as int] implies w.active_neighbors[i as int]
        == wcount(re, act2, i) by {
        lemma_wcount_update_act(re, act, i, id as int, false, re.len() as int);
    }
    // counters of stacked nodes, at the level where each will be popped
    assert forall|k: int| 0 <= k < w.stack.len() implies w.active_neighbors[#[trigger] w.stack[k] as int]
        == wcount(re, w.up_act(k + 1), w.stack[k]) by {
        if k == ln {
            assert(w.up_act(k + 1) == act2);
            lemma_occ_zero(re[id as int], id);
            lemma_wcount_update_act(re, act, id, id as int, false, re.len() as int);
        } else {
            let s = v.stack[k];
            assert(s != id);
            assert forall|j: int| 0 <= j < n implies v.up_act(k + 1)[j] == #[trigger] w.up_act(
                k + 1,
            )[j] by {
                lemma_up_act_char(v, k + 1, j);
                lemma_up_act_char_raw(w, k + 1, j);
                if j == id {
                    assert(w.stack[ln] == id);
                } else {
                    if exists|i: int| k + 1 <= i < ln && v.stack[i] == j {
                        let i = choose|i: int| k + 1 <= i < ln && v.stack[i] == j;
                        assert(w.stack[i] == j);
                    }
                    if exists|i: int| k + 1 <= i < ln + 1 && w.stack[i] == j {
                        let i = choose|i: int| k + 1 <= i < ln + 1 && w.stack[i] == j;
                        assert(i < ln && v.stack[i] == j);
                    }
                }
            }
            lemma_up_act_char(v, k + 1, 0);
            lemma_up_act_char_raw(w, k + 1, 0);
            lemma_wcount_agree(re, w.up_act(k + 1), re, v.up_act(k + 1), s, re.len() as int);
        }
    }
}

/// Like `lemma_up_act_char`, for a graph whose full well-formedness is not
/// yet established: only the stack bounds are needed.
pub proof fn lemma_up_act_char_raw(v: GraphV, m: int, j: int)
    requires
        v.is_active.len() == v.n(),
        forall|k: int| 0 <= k < v.stack.len() ==> (#[trigger] v.stack[k]) < v.n(),
        0 <= j < v.n(),
        0 <= m,
    ensures
        v.up_act(m).len() == v.n(),
        v.up_act(m)[j] == (v.is_active[j] || exists|i: int|
            m <= i < v.stack.len() && v.stack[i] == j),
    decreases v.stack.len() - m,
{
    if m >= v.stack.len() {
        if exists|i: int| m <= i < v.stack.len() && v.stack[i] == j {
            let i = choose|i: int| m <= i < v.stack.len() && v.stack[i] == j;
            assert(false);
        }
    } else {
        lemma_up_act_char_raw(v, m + 1, j);
        if v.stack[m] == j {
        } else {
            if v.up_act(m)[j] {
                assert(v.up_act(m + 1)[j]);
            }
            if v.is_active[j] || exists|i: int| m <= i < v.stack.len() && v.stack[i] == j {
                if !v.is_active[j] {
                    let i = choose|i: int| m <= i < v.stack.len() && v.stack[i] == j;
                    assert(m + 1 <= i < v.stack.len() && v.stack[i] == j);
                }
            }
        }
    }
}

pub proof fn lemma_restore_preserves_wf(v: GraphV)
    requires
        v.wf(),
        v.stack.len() > 0,
    ensures
        v.spec_restore().wf(),
{
    let w = v.spec_restore();
    let n = v.n();
    let re = v.rev_edges;
    let act = v.is_active;
    let act2 = w.is_active;
    let ln = v.stack.len() as int;
    let id = v.stack.last();
    assert(!act[id as int]);
    assert(forall|k: int| 0 <= k < ln - 1 ==> v.stack[k] != id);
    // the stacked-counter clause of `v` at the top is exactly the current
    // activity map
    assert(v.up_act(ln) == act);
    assert(v.active_neighbors[id as int] == wcount(re, act, id));
    lemma_occ_zero(re[id as int], id);
    assert forall|i: usize| 0 <= i < n && !act2[i as int] implies #[trigger] w.stack.contains(
        i,
    ) by {
        assert(i != id);
        assert(v.stack.contains(i));
        let k = choose|k: int| 0 <= k < ln && v.stack[k] == i;
        assert(k < ln - 1);
        assert(w.stack[k] == i);
    }
    assert forall|i: usize| 0 <= i < n && act2[i as int] implies w.active_neighbors[i as int]
        == wcount(re, act2, i) by {
        lemma_wcount_update_act(re, act, i, id as int, true, re.len() as int);
    }
    assert forall|k: int| 0 <= k < w.stack.len() implies w.active_neighbors[#[trigger] w.stack[k] as int]
        == wcount(re, w.up_act(k + 1), w.stack[k]) by {
        let s = v.stack[k];
        assert(s != id);
        assert forall|j: int| 0 <= j < n implies v.up_act(k + 1)[j] == #[trigger] w.up_act(
            k + 1,
        )[j] by {
            lemma_up_act_char(v, k + 1, j);
            lemma_up_act_char_raw(w, k + 1, j);
            if j == id {
                assert(v.stack[ln - 1] == id);
            } else {
                if exists|i: int| k + 1 <= i < ln && v.stack[i] == j {
                    let i = choose|i: int| k + 1 <= i < ln && v.stack[i] == j;
                    assert(i < ln - 1);
                    assert(w.stack[i] == j);
                }
                if exists|i: int| k + 1 <= i < ln - 1 && w.stack[i] == j {
                    let i = choose|i: int| k + 1 <= i < ln - 1 && w.stack[i] == j;
                    assert(v.stack[i] == j);
                }
            }
        }
        lemma_up_act_char(v, k + 1, 0);
        lemma_up_act_char_raw(w, k + 1, 0);
        lemma_wcount_agree(re, w.up_act(k + 1), re, v.up_act(k + 1), s, re.len() as int);
    }
}

/// Restoring immediately after removing an active node yields exactly the
/// graph that existed before the removal.
pub proof fn lemma_restore_remove(v: GraphV, id: usize)
    requires
        v.wf(),
        0 <= id < v.n(),
        v.is_active[id as int],
    ensures
        v.spec_remove(id).spec_restore() == v,
{
    let w = v.spec_remove(id);
    let u = w.spec_restore();
    assert(w.stack.last() == id);
    assert(w.stack.drop_last() =~= v.stack);
    assert(u.is_active =~= v.is_active);
    lemma_occ_zero(v.rev_edges[id as int], id);
    assert forall|p: int| 0 <= p < u.active_neighbors.len() implies u.active_neighbors[p]
        == v.active_neighbors[p] by {
        if p == id {
        }
    }
    assert(u.active_neighbors =~= v.active_neighbors);
    assert(u =~= v);
}

pub proof fn lemma_add_node_preserves_wf(v: GraphV, thread_id: usize, instruction: LabeledInstruction)
    requires
        v.wf(),
        v.n() < usize::MAX as int,
    ensures
        v.spec_add_node(thread_id, instruction).wf(),
        v.spec_add_node(thread_id, instruction).is_candidate(v.nodes.len() as usize),
{
    let w = v.spec_add_node(thread_id, instruction);
    let n = v.n();
    let re = v.rev_edges;
    let re2 = w.rev_edges;
    let act = v.is_active;
    let act2 = w.is_active;
    lemma_total_edges_push(re, Seq::empty(), re.len() as int);
    assert(total_edges(re2) == total_edges_upto(re2, n) + re2[n as int].len());
    assert forall|i: usize| 0 <= i < w.n() && act2[i as int] implies w.active_neighbors[i as int]
        == wcount(re2, act2, i) by {
        if i < n {
            lemma_wcount_agree(re2, act2, re, act, i, n);
        } else {
            lemma_wcount_zero(re2, act2, i, n + 1);
        }
        assert(wcount_upto(re2, act2, i, n + 1) == wcount_upto(re2, act2, i, n) + if act2[n as int] {
            occ(re2[n as int], i)
        } else {
            0nat
        });
    }
    assert forall|k: int| 0 <= k < w.stack.len() implies w.active_neighbors[#[trigger] w.stack[k] as int]
        == wcount(re2, w.up_act(k + 1), w.stack[k]) by {
        let s = v.stack[k];
        assert forall|j: int| 0 <= j < n implies v.up_act(k + 1)[j] == #[trigger] w.up_act(
            k + 1,
        )[j] by {
            lemma_up_act_char(v, k + 1, j);
            lemma_up_act_char_raw(w, k + 1, j);
        }
        lemma_up_act_char(v, k + 1, 0);
        lemma_up_act_char_raw(w, k + 1, 0);
        lemma_up_act_char_raw(w, k + 1, n);
        lemma_wcount_agree(re2, w.up_act(k + 1), re, v.up_act(k + 1), s, n);
        assert(wcount_upto(re2, w.up_act(k + 1), s, n + 1) == wcount_upto(re2, w.up_act(k + 1), s, n)
            + if w.up_act(k + 1)[n as int] {
            occ(re2[n as int], s)
        } else {
            0nat
        });
    }
}

pub proof fn lemma_add_edge_preserves_wf(v: GraphV, from: usize, to: usize)
    requires
        v.wf(),
        0 <= from < v.n(),
        0 <= to < v.n(),
        from != to,
        v.is_active[from as int],
        v.is_active[to as int],
        total_edges(v.rev_edges) < usize::MAX as nat,
    ensures
        v.spec_add_edge(from, to).wf(),
{
    let w = v.spec_add_edge(from, to);
    let n = v.n();
    let re = v.rev_edges;
    let re2 = w.rev_edges;
    let act = v.is_active;
    lemma_total_edges_update(re, to as int, from, re.len() as int);
    assert forall|i: usize| 0 <= i < n && act[i as int] implies w.active_neighbors[i as int]
        == wcount(re2, act, i) by {
        lemma_wcount_update_re(re, act, i, to as int, from, re.len() as int);
    }
    assert forall|k: int| 0 <= k < w.stack.len() implies w.active_neighbors[#[trigger] w.stack[k] as int]
        == wcount(re2, w.up_act(k + 1), w.stack[k]) by {
        let s = v.stack[k];
        assert(s != from);
        assert forall|j: int| 0 <= j < n implies v.up_act(k + 1)[j] == #[trigger] w.up_act(
            k + 1,
        )[j] by {
            lemma_up_act_char(v, k + 1, j);
            lemma_up_act_char_raw(w, k + 1, j);
        }
        lemma_up_act_char(v, k + 1, 0);
        lemma_up_act_char_raw(w, k + 1, 0);
        lemma_wcount_agree(re, w.up_act(k + 1), re, v.up_act(k + 1), s, re.len() as int);
        lemma_wcount_update_re(re, w.up_act(k + 1), s, to as int, from, re.len() as int);
    }
}

/// Whether an optional label names exactly the characters `l`.
pub open spec fn label_matches(lbl: Option<String>, l: Seq<char>) -> bool {
    match lbl {
        Some(s) => s@ == l,
        None => false,
    }
}

/// The state reached by restoring nodes LIFO until the restored node
/// carries the label `l`.
pub open spec fn spec_rewind(v: GraphV, l: Seq<char>) -> GraphV
    decreases v.stack.len(),
{
    if v.stack.len() == 0 {
        v
    } else {
        let id = v.stack.last();
        let w = v.spec_restore();
        if label_matches(v.nodes[id as int].instruction.label, l) {
            w
        } else {
            spec_rewind(w, l)
        }
    }
}

/// What a jump does to the graph: nothing when the label is active or
/// unknown, otherwise a LIFO rewind until the label's node is restored.
pub open spec fn spec_goto(v: GraphV, l: Seq<char>) -> GraphV {
    if v.label_active(l) {
        v
    } else {
        spec_rewind(v, l)
    }
}

/// A successful label lookup names a binding whose characters are `l`.
pub proof fn lemma_lookup_label_found(labels: Seq<(String, usize)>, l: Seq<char>)
    requires
        lookup_label(labels, l) is Some,
    ensures
        exists|j: int|
            0 <= j < labels.len() && (#[trigger] labels[j]).0@ == l && labels[j].1
                == lookup_label(labels, l).unwrap(),
    decreases labels.len(),
{
    if labels.len() > 0 {
        if labels.last().0@ == l {
            assert(labels[labels.len() - 1].0@ == l);
        } else {
            lemma_lookup_label_found(labels.drop_last(), l);
            let j = choose|j: int|
                0 <= j < labels.drop_last().len() && (#[trigger] labels.drop_last()[j]).0@ == l
                    && labels.drop_last()[j].1 == lookup_label(labels.drop_last(), l).unwrap();
            assert(labels[j].0@ == l);
        }
    }
}

// ---------------------------------------------------------------------------
// The executable graph.
// ---------------------------------------------------------------------------

/// The dependency graph over events. The candidate set and the active
/// fence set are characterized by `GraphV::is_candidate` and
/// `GraphV::is_active_fence` and are computed on demand.
pub struct Graph {
    pub label_to_node: Vec<(String, usize)>,
    pub instructions: Vec<Node>,
    pub rev_edges: Vec<Vec<usize>>,
    pub active_neighbors: Vec<usize>,
    pub is_active: Vec<bool>,
    pub execution_stack: Vec<usize>,
}

impl View for Graph {
    type V = GraphV;

    open spec fn view(&self) -> GraphV {
        GraphV {
            labels: self.label_to_node@,
            nodes: self.instructions@,
            rev_edges: self.rev_edges@.map_values(|v: Vec<usize>| v@),
            active_neighbors: self.active_neighbors@.map_values(|x: usize| x as int),
            is_active: self.is_active@,
            stack: self.execution_stack@,
        }
    }
}

impl Graph {
    pub open spec fn wf(&self) -> bool {
        self@.wf()
    }

    pub fn new() -> (g: Graph)
        ensures
            g.wf(),
            g@.nodes.len() == 0,
            g@.labels.len() == 0,
            g@.stack.len() == 0,
    {
        Graph {
            label_to_node: Vec::new(),
            instructions: Vec::new(),
            rev_edges: Vec::new(),
            active_neighbors: Vec::new(),
            is_active: Vec::new(),
            execution_stack: Vec::new(),
        }
    }

    pub fn is_node_active(&self, id: usize) -> (b: bool)
        requires
            self.wf(),
            id < self@.n(),
        ensures
            b == self@.is_active[id as int],
    {
        self.is_active[id]
    }

    /// A label is considered active when its node is, and an unknown label
    /// counts as active (a forward jump to an unseen label is a no-op).
    pub fn is_label_active(&self, label: String) -> (b: bool)
        requires
            self.wf(),
        ensures
            b == self@.label_active(label@),
    {
        let mut i = self.label_to_node.len();
        proof {
            assert(self@.labels.take(i as int) =~= self@.labels);
        }
        while i > 0
            invariant
                self.wf(),
                i <= self.label_to_node.len(),
                lookup_label(self@.labels, label@) == lookup_label(
                    self@.labels.take(i as int),
                    label@,
                ),
            decreases i,
        {
            proof {
                assert(self@.labels.take(i as int).drop_last() =~= self@.labels.take(i - 1));
                assert(self@.labels.take(i as int).last() == self@.labels[i - 1]);
            }
            if self.label_to_node[i - 1].0 == label {
                let id = self.label_to_node[i - 1].1;
                return self.is_node_active(id);
            }
            i = i - 1;
        }
        proof {
            assert(self@.labels.take(0) =~= Seq::<(String, usize)>::empty());
        }
        true
    }

    pub fn add_node(&mut self, thread_id: usize, instruction: LabeledInstruction) -> (id: usize)
        requires
            old(self).wf(),
            old(self)@.n() < usize::MAX as int,
        ensures
            final(self).wf(),
            id == old(self)@.n(),
            final(self)@ == old(self)@.spec_add_node(thread_id, instruction),
    {
        let ghost v0 = self@;
        let ghost instr0 = instruction;
        let id = self.instructions.len();
        match &instruction.label {
            Some(l) => {
                let lc = l.clone();
                self.label_to_node.push((lc, id));
            },
            None => {},
        }
        self.instructions.push(Node { id, thread_id, instruction });
        self.rev_edges.push(Vec::new());
        self.active_neighbors.push(0);
        self.is_active.push(true);
        proof {
            lemma_add_node_preserves_wf(v0, thread_id, instr0);
            let target = v0.spec_add_node(thread_id, instr0);
            assert(self@.rev_edges =~= target.rev_edges);
            assert(self@.active_neighbors =~= target.active_neighbors);
            assert(self@ =~= target);
        }
        id
    }

    /// Record that `to` must execute before `from`. Both endpoints must be
    /// active: edges are only added during construction and when a
    /// propagate event is issued, while everything involved is live.
    pub fn add_edge(&mut self, from: usize, to: usize)
        requires
            old(self).wf(),
            from < old(self)@.n(),
            to < old(self)@.n(),
            from != to,
            old(self)@.is_active[from as int],
            old(self)@.is_active[to as int],
            total_edges(old(self)@.rev_edges) < usize::MAX as nat,
        ensures
            final(self).wf(),
            final(self)@ == old(self)@.spec_add_edge(from, to),
    {
        let ghost v0 = self@;
        proof {
            lemma_wcount_le_total(v0.rev_edges, v0.is_active, from, v0.rev_edges.len() as int);
        }
        let cur = self.active_neighbors[from];
        self.active_neighbors.set(from, cur + 1);
        self.rev_edges[to].push(from);
        proof {
            lemma_add_edge_preserves_wf(v0, from, to);
            let target = v0.spec_add_edge(from, to);
            assert(self@.rev_edges =~= target.rev_edges);
            assert(self@.active_neighbors =~= target.active_neighbors);
            assert(self@ =~= target);
        }
    }

    /// Remove an executed node: deactivate it, push it on the execution
    /// stack and release every active node that was waiting on it. A
    /// removal of an already inactive node does nothing.
    pub fn remove_node(&mut self, id: usize)
        requires
            old(self).wf(),
            id < old(self)@.n(),
        ensures
            final(self).wf(),
            final(self)@ == if old(self)@.is_active[id as int] {
                old(self)@.spec_remove(id)
            } else {
                old(self)@
            },
    {
        if !self.is_active[id] {
            return ;
        }
        let ghost v0 = self@;
        let ghost target = v0.spec_remove(id);
        let ghost re_id = v0.rev_edges[id as int];
        self.execution_stack.push(id);
        self.is_active.set(id, false);
        let m = self.rev_edges[id].len();
        let mut k: usize = 0;
        while k < m
            invariant
                v0.wf(),
                0 <= id < v0.n(),
                v0.is_active[id as int],
                target == v0.spec_remove(id),
                re_id == v0.rev_edges[id as int],
                k <= m,
                m == re_id.len(),
                self.label_to_node@ == v0.labels,
                self.instructions@ == v0.nodes,
                self@.rev_edges == v0.rev_edges,
                self.is_active@ == target.is_active,
                self.execution_stack@ == target.stack,
                self.active_neighbors@.len() == v0.active_neighbors.len(),
                forall|p: usize|
                    p < v0.n() ==> #[trigger] self@.active_neighbors[p as int]
                        == if target.is_active[p as int] {
                        v0.active_neighbors[p as int] - occ(re_id.take(k as int), p)
                    } else {
                        v0.active_neighbors[p as int]
                    },
            decreases m - k,
        {
            let from = self.rev_edges[id][k];
            let ghost an_pre = self@.active_neighbors;
            proof {
                assert(re_id[k as int] == from);
                lemma_occ_take_step(re_id, from, k as int);
                lemma_occ_take_le(re_id, from, k + 1);
            }
            if self.is_active[from] {
                proof {
                    assert(from != id);
                    lemma_wcount_ge_term(v0.rev_edges, v0.is_active, from, id as int);
                    assert(self@.active_neighbors[from as int] == v0.active_neighbors[from as int]
                        - occ(re_id.take(k as int), from));
                }
                let cur = self.active_neighbors[from];
                proof {
                    assert(cur as int == self@.active_neighbors[from as int]);
                    assert(cur >= 1);
                }
                self.active_neighbors.set(from, cur - 1);
            }
            proof {
                assert forall|p: usize| p < v0.n() implies #[trigger] self@.active_neighbors[p as int]
                    == if target.is_active[p as int] {
                    v0.active_neighbors[p as int] - occ(re_id.take(k + 1), p)
                } else {
                    v0.active_neighbors[p as int]
                } by {
                    lemma_occ_take_step(re_id, p, k as int);
                    assert(an_pre[p as int] == if target.is_active[p as int] {
                        v0.active_neighbors[p as int] - occ(re_id.take(k as int), p)
                    } else {
                        v0.active_neighbors[p as int]
                    });
                }
            }
            k = k + 1;
        }
        let nn = self.active_neighbors.len();
        proof {
            assert(re_id.take(m as int) =~= re_id);
            lemma_remove_preserves_wf(v0, id);
            assert forall|i: int| 0 <= i < nn implies self@.active_neighbors[i]
                == target.active_neighbors[i] by {
                let p: usize = i as usize;
                assert(self@.active_neighbors[p as int] == if target.is_active[p as int] {
                    v0.active_neighbors[p as int] - occ(re_id.take(m as int), p)
                } else {
                    v0.active_neighbors[p as int]
                });
            }
            assert(self@.active_neighbors =~= target.active_neighbors);
            assert(self@ =~= target);
        }
    }

    /// Pop the most recently removed node, reactivate it, and re-charge
    /// every active node that waits on it. Returns the restored node's
    /// label so that the rewind loop can detect the jump target.
    pub fn restore_node(&mut self) -> (r: Option<String>)
        requires
            old(self).wf(),
            old(self)@.stack.len() > 0,
        ensures
            final(self).wf(),
            final(self)@ == old(self)@.spec_restore(),
            r == old(self)@.nodes[old(self)@.stack.last() as int].instruction.label,
    {
        let ghost v0 = self@;
        let ghost target = v0.spec_restore();
        let ln = self.execution_stack.len();
        let id = self.execution_stack[ln - 1];
        let ghost re_id = v0.rev_edges[id as int];
        self.execution_stack.truncate(ln - 1);
        proof {
            assert(self.execution_stack@ =~= v0.stack.drop_last());
            assert(v0.up_act(ln as int) == v0.is_active);
            lemma_occ_zero(re_id, id);
        }
        self.is_active.set(id, true);
        let m = self.rev_edges[id].len();
        let mut k: usize = 0;
        while k < m
            invariant
                v0.wf(),
                0 <= id < v0.n(),
                id == v0.stack.last(),
                v0.stack.len() > 0,
                !v0.is_active[id as int],
                v0.active_neighbors[id as int] == wcount(v0.rev_edges, v0.is_active, id),
                occ(re_id, id) == 0,
                target == v0.spec_restore(),
                re_id == v0.rev_edges[id as int],
                k <= m,
                m == re_id.len(),
                self.label_to_node@ == v0.labels,
                self.instructions@ == v0.nodes,
                self@.rev_edges == v0.rev_edges,
                self.is_active@ == target.is_active,
                self.execution_stack@ == target.stack,
                self.active_neighbors@.len() == v0.active_neighbors.len(),
                forall|p: usize|
                    p < v0.n() ==> #[trigger] self@.active_neighbors[p as int]
                        == if target.is_active[p as int] {
                        v0.active_neighbors[p as int] + occ(re_id.take(k as int), p)
                    } else {
                        v0.active_neighbors[p as int]
                    },
            decreases m - k,
        {
            let from = self.rev_edges[id][k];
            let ghost an_pre = self@.active_neighbors;
            proof {
                assert(re_id[k as int] == from);
                lemma_occ_take_step(re_id, from, k as int);
                lemma_occ_take_le(re_id, from, k + 1);
            }
            if self.is_active[from] {
                proof {
                    assert(from != id);
                    lemma_wcount_update_act(
                        v0.rev_edges,
                        v0.is_active,
                        from,
                        id as int,
                        true,
                        v0.rev_edges.len() as int,
                    );
                    lemma_wcount_le_total(
                        v0.rev_edges,
                        target.is_active,
                        from,
                        v0.rev_edges.len() as int,
                    );
                    assert(self@.active_neighbors[from as int] == v0.active_neighbors[from as int]
                        + occ(re_id.take(k as int), from));
                }
                let cur = self.active_neighbors[from];
                proof {
                    assert(cur as int == self@.active_neighbors[from as int]);
                    assert(cur as int + 1 <= wcount(v0.rev_edges, target.is_active, from));
                    assert(cur < usize::MAX);
                }
                self.active_neighbors.set(from, cur + 1);
            }
            proof {
                assert forall|p: usize| p < v0.n() implies #[trigger] self@.active_neighbors[p as int]
                    == if target.is_active[p as int] {
                    v0.active_neighbors[p as int] + occ(re_id.take(k + 1), p)
                } else {
                    v0.active_neighbors[p as int]
                } by {
                    lemma_occ_take_step(re_id, p, k as int);
                    assert(an_pre[p as int] == if target.is_active[p as int] {
                        v0.active_neighbors[p as int] + occ(re_id.take(k as int), p)
                    } else {
                        v0.active_neighbors[p as int]
                    });
                }
            }
            k = k + 1;
        }
        let nn = self.active_neighbors.len();
        proof {
            assert(re_id.take(m as int) =~= re_id);
            lemma_restore_preserves_wf(v0);
            assert forall|i: int| 0 <= i < nn implies self@.active_neighbors[i]
                == target.active_neighbors[i] by {
                let p: usize = i as usize;
                assert(self@.active_neighbors[p as int] == if target.is_active[p as int] {
                    v0.active_neighbors[p as int] + occ(re_id.take(m as int), p)
                } else {
                    v0.active_neighbors[p as int]
                });
            }
            assert(self@.active_neighbors =~= target.active_neighbors);
            assert(self@ =~= target);
        }
        match &self.instructions[id].instruction.label {
            Some(l) => Some(l.clone()),
            None => None,
        }
    }

    /// The ids of the current execution candidates, in increasing order.
    pub fn execution_candidates(&self) -> (r: Vec<usize>)
        requires
            self.wf(),
        ensures
            forall|k: int| 0 <= k < r@.len() ==> self@.is_candidate(#[trigger] r@[k]),
            forall|i: usize| self@.is_candidate(i) ==> r@.contains(i),
            forall|k1: int, k2: int| 0 <= k1 < k2 < r@.len() ==> r@[k1] < r@[k2],
    {
        let mut r: Vec<usize> = Vec::new();
        let n = self.instructions.len();
        let mut i: usize = 0;
        while i < n
            invariant
                self.wf(),
                i <= n,
                n == self@.n(),
                forall|k: int| 0 <= k < r@.len() ==> self@.is_candidate(#[trigger] r@[k]),
                forall|k: int| 0 <= k < r@.len() ==> #[trigger] r@[k] < i,
                forall|j: usize| j < i && self@.is_candidate(j) ==> r@.contains(j),
                forall|k1: int, k2: int| 0 <= k1 < k2 < r@.len() ==> r@[k1] < r@[k2],
            decreases n - i,
        {
            let ghost r_old = r@;
            proof {
                assert(self@.active_neighbors[i as int] == self.active_neighbors@[i as int] as int);
            }
            if self.is_active[i] && self.active_neighbors[i] == 0 {
                r.push(i);
                assert(r@[r@.len() - 1] == i);
            }
            assert forall|j: usize| j < i + 1 && self@.is_candidate(j) implies r@.contains(j) by {
                if j < i {
                    assert(r_old.contains(j));
                    let idx = choose|idx: int| 0 <= idx < r_old.len() && r_old[idx] == j;
                    assert(r@[idx] == j);
                } else {
                    assert(r@[r@.len() - 1] == j);
                }
            }
            i = i + 1;
        }
        r
    }

    /// The ids of the active fence nodes, in increasing order.
    pub fn active_fence_nodes(&self) -> (r: Vec<usize>)
        requires
            self.wf(),
        ensures
            forall|k: int| 0 <= k < r@.len() ==> self@.is_active_fence(#[trigger] r@[k]),
            forall|i: usize| self@.is_active_fence(i) ==> r@.contains(i),
            forall|k1: int, k2: int| 0 <= k1 < k2 < r@.len() ==> r@[k1] < r@[k2],
            r@.len() <= self@.n(),
    {
        let mut r: Vec<usize> = Vec::new();
        let n = self.instructions.len();
        let mut i: usize = 0;
        while i < n
            invariant
                self.wf(),
                i <= n,
                n == self@.n(),
                r@.len() <= i,
                forall|k: int| 0 <= k < r@.len() ==> self@.is_active_fence(#[trigger] r@[k]),
                forall|k: int| 0 <= k < r@.len() ==> #[trigger] r@[k] < i,
                forall|j: usize| j < i && self@.is_active_fence(j) ==> r@.contains(j),
                forall|k1: int, k2: int| 0 <= k1 < k2 < r@.len() ==> r@[k1] < r@[k2],
            decreases n - i,
        {
            let ghost r_old = r@;
            if self.is_active[i] && self.instructions[i].instruction.is_fence() {
                r.push(i);
                assert(r@[r@.len() - 1] == i);
            }
            assert forall|j: usize| j < i + 1 && self@.is_active_fence(j) implies r@.contains(
                j,
            ) by {
                if j < i {
                    assert(r_old.contains(j));
                    let idx = choose|idx: int| 0 <= idx < r_old.len() && r_old[idx] == j;
                    assert(r@[idx] == j);
                } else {
                    assert(r@[r@.len() - 1] == j);
                }
            }
            i = i + 1;
        }
        r
    }
}

} // verus!
