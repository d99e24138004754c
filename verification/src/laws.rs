//! Properties that relate several operations, proved once and for all
//! graphs: the remove/restore round trip, label toggling, the
//! program-order discipline of the SC wiring, the blocking discipline of
//! edges, and the per-step event accounting of the three models.

use vstd::prelude::*;

use crate::graph::{
    lemma_occ_zero, lemma_remove_preserves_wf, lemma_restore_remove, lemma_wcount_ge_term,
    lookup_label, occ, wcount, wcount_upto, GraphV, Node,
};
use crate::instruction::{Instruction, LabeledInstruction};
use crate::memory_model::{pso_post, sc_post, tso_post, PSO, SC, TSO};
use crate::storage::buffered_load;
use crate::threads::{
    flat_len, lemma_node_id_bounds, lemma_node_id_inj, lemma_rewind_shape, node_id_of, reg_get,
    sc_edge,
};

verus! {

/// The graph after removing `ids`, one at a time, first id first.
pub open spec fn apply_removes(v: GraphV, ids: Seq<usize>) -> GraphV
    decreases ids.len(),
{
    if ids.len() == 0 {
        v
    } else {
        apply_removes(v.spec_remove(ids[0]), ids.drop_first())
    }
}

/// The graph after restoring `k` times.
pub open spec fn apply_restores(v: GraphV, k: nat) -> GraphV
    decreases k,
{
    if k == 0 {
        v
    } else {
        apply_restores(v, (k - 1) as nat).spec_restore()
    }
}

/// Law: removing any distinct active nodes, in any order, and then
/// restoring the same number of times re-establishes exactly the
/// starting graph - nodes, edges, labels, activity, counters and stack.
/// The candidate and fence sets are functions of that state, so they are
/// restored as well.
pub proof fn lemma_remove_restore_round_trip(v: GraphV, ids: Seq<usize>)
    requires
        v.wf(),
        forall|k: int|
            0 <= k < ids.len() ==> (#[trigger] ids[k]) < v.n() && v.is_active[ids[k] as int],
        forall|k1: int, k2: int| 0 <= k1 < k2 < ids.len() ==> ids[k1] != ids[k2],
    ensures
        apply_restores(apply_removes(v, ids), ids.len()) == v,
    decreases ids.len(),
{
    if ids.len() > 0 {
        let id = ids[0];
        let v1 = v.spec_remove(id);
        lemma_remove_preserves_wf(v, id);
        let rest = ids.drop_first();
        assert forall|k: int|
            0 <= k < rest.len() implies (#[trigger] rest[k]) < v1.n() && v1.is_active[rest[k] as int] by {
            assert(rest[k] == ids[k + 1]);
            assert(ids[k + 1] != ids[0]);
        }
        assert forall|k1: int, k2: int| 0 <= k1 < k2 < rest.len() implies rest[k1] != rest[k2] by {
            assert(rest[k1] == ids[k1 + 1] && rest[k2] == ids[k2 + 1]);
        }
        lemma_remove_restore_round_trip(v1, rest);
        assert(apply_removes(v, ids) == apply_removes(v1, rest));
        assert(apply_restores(apply_removes(v1, rest), ids.len()) == apply_restores(
            apply_removes(v1, rest),
            rest.len(),
        ).spec_restore());
        lemma_restore_remove(v, id);
    }
}

/// Law: a known label is active exactly while its node is. Removing the
/// node deactivates the label; the matching restore reactivates it.
pub proof fn lemma_label_toggles(v: GraphV, l: Seq<char>, id: usize)
    requires
        v.wf(),
        lookup_label(v.labels, l) == Some(id),
        id < v.n(),
        v.is_active[id as int],
    ensures
        v.label_active(l),
        !v.spec_remove(id).label_active(l),
        v.spec_remove(id).spec_restore().label_active(l),
{
    lemma_restore_remove(v, id);
}

/// Occurrence counts see membership.
pub proof fn lemma_occ_pos(s: Seq<usize>, x: usize)
    requires
        s.contains(x),
    ensures
        occ(s, x) >= 1,
    decreases s.len(),
{
    if s.last() == x {
    } else {
        let k = choose|k: int| 0 <= k < s.len() && s[k] == x;
        assert(s.drop_last()[k] == x);
        lemma_occ_pos(s.drop_last(), x);
    }
}

proof fn lemma_wcount_zero_active(re: Seq<Seq<usize>>, act: Seq<bool>, p: usize, upto: int)
    requires
        forall|j: int| 0 <= j < upto && act[j] ==> occ(#[trigger] re[j], p) == 0,
    ensures
        wcount_upto(re, act, p, upto) == 0,
    decreases upto,
{
    if upto > 0 {
        lemma_wcount_zero_active(re, act, p, upto - 1);
    }
}

/// Law of the SC wiring: an active instruction is an execution candidate
/// exactly when every earlier instruction of its own thread has been
/// executed. Every run under SC therefore executes each thread in program
/// order against the one coherent memory: the run is a sequential
/// interleaving, and its final memory a legal SC outcome.
pub proof fn lemma_sc_candidates_are_heads(
    v: GraphV,
    programs: Seq<Seq<LabeledInstruction>>,
    t: int,
    k: int,
)
    requires
        v.wf(),
        v.n() <= usize::MAX as int,
        v.n() == flat_len(programs, programs.len() as int),
        forall|a: usize, b: usize|
            0 <= a < v.n() && 0 <= b < v.n() ==> (#[trigger] v.rev_edges[b as int].contains(a)
                <==> sc_edge(programs, a, b)),
        0 <= t < programs.len(),
        0 <= k < programs[t].len(),
        v.is_active[node_id_of(programs, t, k)],
    ensures
        v.is_candidate(node_id_of(programs, t, k) as usize) <==> (forall|j: int|
            0 <= j < k ==> !v.is_active[#[trigger] node_id_of(programs, t, j)]),
{
    lemma_node_id_bounds(programs, t, k);
    let i = node_id_of(programs, t, k) as usize;
    if v.is_candidate(i) {
        assert forall|j: int| 0 <= j < k implies !v.is_active[#[trigger] node_id_of(
            programs,
            t,
            j,
        )] by {
            lemma_node_id_bounds(programs, t, j);
            let b = node_id_of(programs, t, j) as usize;
            if v.is_active[b as int] {
                assert(sc_edge(programs, i, b)) by {
                    assert(i as int == node_id_of(programs, t, k) && b as int == node_id_of(
                        programs,
                        t,
                        j,
                    ));
                }
                assert(v.rev_edges[b as int].contains(i));
                lemma_waiting_node_not_candidate(v, i, b);
                assert(false);
            }
        }
    }
    if forall|j: int| 0 <= j < k ==> !v.is_active[#[trigger] node_id_of(programs, t, j)] {
        assert forall|j: int| 0 <= j < v.rev_edges.len() && v.is_active[j] implies occ(
            #[trigger] v.rev_edges[j],
            i,
        ) == 0 by {
            if v.rev_edges[j as int].contains(i) {
                assert(sc_edge(programs, i, j as usize));
                let (t2, j2, k2) = choose|t2: int, j2: int, k2: int|
                    0 <= t2 < programs.len() && 0 <= j2 < k2 < programs[t2].len() && i as int
                        == #[trigger] node_id_of(programs, t2, k2) && j == #[trigger] node_id_of(
                        programs,
                        t2,
                        j2,
                    );
                lemma_node_id_inj(programs, t2, k2, t, k);
                assert(!v.is_active[node_id_of(programs, t, j2)]);
                assert(false);
            }
            lemma_occ_zero(v.rev_edges[j as int], i);
        }
        lemma_wcount_zero_active(v.rev_edges, v.is_active, i, v.rev_edges.len() as int);
        assert(v.active_neighbors[i as int] == wcount(v.rev_edges, v.is_active, i));
    }
}

/// Law: while a node is active, every node whose edge list records a
/// waiter keeps that waiter off the candidate set. Together with the
/// construction contracts this is what makes the orderings observable:
/// a fence cannot execute before a propagate issued while it was live,
/// an acquire cannot overtake an earlier event of its thread, and under
/// TSO a younger propagate cannot drain before an older pending one of
/// its thread, while PSO wires that wait only between propagates to the
/// same address.
pub proof fn lemma_waiting_node_not_candidate(v: GraphV, waiter: usize, target: usize)
    requires
        v.wf(),
        waiter < v.n(),
        target < v.n(),
        v.rev_edges[target as int].contains(waiter),
        v.is_active[target as int],
    ensures
        !v.is_candidate(waiter),
{
    if v.is_active[waiter as int] {
        lemma_occ_pos(v.rev_edges[target as int], waiter);
        lemma_wcount_ge_term(v.rev_edges, v.is_active, waiter, target as int);
    }
}

/// Law: one successful SC step consumes exactly its own event. No node
/// is ever created, and the executed node leaves the active set - except
/// a taken backward jump, which may restore earlier events (its own
/// conditional included) for re-execution.
pub proof fn lemma_sc_step_accounting(pre: SC, post: SC, node: Node)
    requires
        pre.thread_system.wf(),
        sc_post(pre, post, node),
        node.id < pre.thread_system.graph@.n(),
        pre.thread_system.graph@.is_active[node.id as int],
    ensures
        post.thread_system.graph@.n() == pre.thread_system.graph@.n(),
        !(node.instruction.instruction is Cond) ==> !post.thread_system.graph@.is_active[node.id as int],
{
    let g0 = pre.thread_system.graph@;
    let g1 = g0.spec_remove(node.id);
    lemma_remove_preserves_wf(g0, node.id);
    match node.instruction.instruction {
        Instruction::Cond { r: _, label } => {
            lemma_rewind_shape(g1, label@);
        },
        _ => {},
    }
}

/// Whether a TSO step on `node` synthesizes a propagate event: stores
/// and fetch-and-adds always do, a compare-and-swap only when its
/// pre-image matches the expected value.
pub open spec fn tso_emits_propagate(pre: TSO, node: Node) -> bool {
    let tid = node.thread_id as int;
    let regs0 = pre.thread_system.regs();
    match node.instruction.instruction {
        Instruction::Store { .. } => true,
        Instruction::Fai { .. } => true,
        Instruction::Cas { mode: _, address, to: _, exp, des: _ } => buffered_load(
            pre.storage_system.bufs(),
            pre.storage_system.memory@,
            tid,
            reg_get(regs0[tid], address@),
        ) == reg_get(regs0[tid], exp@),
        _ => false,
    }
}

/// Law: one successful TSO step consumes exactly its own event and
/// creates exactly one node - a Propagate - exactly when the event is a
/// store, a successful compare-and-swap or a fetch-and-add. Summed over
/// a completed run this is the step count: the instructions executed
/// (re-executions after backward jumps included) plus one propagate per
/// store-like execution.
pub proof fn lemma_tso_step_accounting(pre: TSO, post: TSO, node: Node)
    requires
        pre.thread_system.wf(),
        tso_post(pre, post, node),
        node.id < pre.thread_system.graph@.n(),
        pre.thread_system.graph@.is_active[node.id as int],
    ensures
        post.thread_system.graph@.n() == pre.thread_system.graph@.n()
            + if tso_emits_propagate(pre, node) {
            1int
        } else {
            0int
        },
        tso_emits_propagate(pre, node)
            ==> post.thread_system.graph@.nodes.last().instruction.instruction is Propagate,
        !(node.instruction.instruction is Cond)
            ==> !post.thread_system.graph@.is_active[node.id as int],
{
    let g0 = pre.thread_system.graph@;
    let g1 = g0.spec_remove(node.id);
    lemma_remove_preserves_wf(g0, node.id);
    match node.instruction.instruction {
        Instruction::Cond { r: _, label } => {
            lemma_rewind_shape(g1, label@);
        },
        _ => {},
    }
}

/// Whether a PSO step on `node` synthesizes a propagate event; the
/// discipline is the same as under TSO.
pub open spec fn pso_emits_propagate(pre: PSO, node: Node) -> bool {
    let tid = node.thread_id as int;
    let regs0 = pre.thread_system.regs();
    match node.instruction.instruction {
        Instruction::Store { .. } => true,
        Instruction::Fai { .. } => true,
        Instruction::Cas { mode: _, address, to: _, exp, des: _ } => buffered_load(
            pre.storage_system.bufs(),
            pre.storage_system.memory@,
            tid,
            reg_get(regs0[tid], address@),
        ) == reg_get(regs0[tid], exp@),
        _ => false,
    }
}

/// Law: the PSO step accounting is the same as the TSO one; the two
/// models differ only in which pending propagates the new one waits on.
pub proof fn lemma_pso_step_accounting(pre: PSO, post: PSO, node: Node)
    requires
        pre.thread_system.wf(),
        pso_post(pre, post, node),
        node.id < pre.thread_system.graph@.n(),
        pre.thread_system.graph@.is_active[node.id as int],
    ensures
        post.thread_system.graph@.n() == pre.thread_system.graph@.n()
            + if pso_emits_propagate(pre, node) {
            1int
        } else {
            0int
        },
        pso_emits_propagate(pre, node)
            ==> post.thread_system.graph@.nodes.last().instruction.instruction is Propagate,
        !(node.instruction.instruction is Cond)
            ==> !post.thread_system.graph@.is_active[node.id as int],
{
    let g0 = pre.thread_system.graph@;
    let g1 = g0.spec_remove(node.id);
    lemma_remove_preserves_wf(g0, node.id);
    match node.instruction.instruction {
        Instruction::Cond { r: _, label } => {
            lemma_rewind_shape(g1, label@);
        },
        _ => {},
    }
}

} // verus!
