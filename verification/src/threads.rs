//! The thread systems, one per memory model.
//!
//! Each owns the dependency graph for one loaded program plus a register
//! file per thread. Construction creates one node per instruction, thread
//! by thread, and then wires ordering edges: the SC variant wires full
//! program order within each thread; the TSO and PSO variants wire only
//! the edges induced by release/acquire modes. The TSO and PSO variants
//! also synthesize Propagate nodes for buffered stores and keep the set of
//! pending propagate node ids per thread.

use vstd::prelude::*;

use crate::graph::{
    label_matches, lemma_lookup_label_found, lookup_label, spec_goto, spec_rewind, total_edges,
    Graph, GraphV, Node,
};
use crate::instruction::{Instruction, LabeledInstruction, Mode};

verus! {

// ---------------------------------------------------------------------------
// Program layout: dense ids are assigned thread by thread, in program
// order.
// ---------------------------------------------------------------------------

/// Number of instructions in the threads below `upto`.
pub open spec fn flat_len(programs: Seq<Seq<LabeledInstruction>>, upto: int) -> nat
    decreases upto,
{
    if upto <= 0 {
        0
    } else {
        flat_len(programs, upto - 1) + programs[upto - 1].len()
    }
}

/// The id of instruction `k` of thread `t`.
pub open spec fn node_id_of(programs: Seq<Seq<LabeledInstruction>>, t: int, k: int) -> int {
    flat_len(programs, t) + k
}

pub proof fn lemma_flat_len_mono(programs: Seq<Seq<LabeledInstruction>>, t1: int, t2: int)
    requires
        0 <= t1 <= t2,
    ensures
        flat_len(programs, t1) <= flat_len(programs, t2),
        t1 < t2 ==> flat_len(programs, t1) + programs[t1].len() <= flat_len(programs, t2),
    decreases t2 - t1,
{
    if t1 < t2 {
        lemma_flat_len_mono(programs, t1 + 1, t2);
    }
}

/// Distinct positions get distinct ids.
pub proof fn lemma_node_id_inj(
    programs: Seq<Seq<LabeledInstruction>>,
    t1: int,
    k1: int,
    t2: int,
    k2: int,
)
    requires
        0 <= t1 < programs.len(),
        0 <= k1 < programs[t1].len(),
        0 <= t2 < programs.len(),
        0 <= k2 < programs[t2].len(),
        node_id_of(programs, t1, k1) == node_id_of(programs, t2, k2),
    ensures
        t1 == t2 && k1 == k2,
{
    if t1 < t2 {
        lemma_flat_len_mono(programs, t1, t2);
    }
    if t2 < t1 {
        lemma_flat_len_mono(programs, t2, t1);
    }
}

pub proof fn lemma_node_id_bounds(programs: Seq<Seq<LabeledInstruction>>, t: int, k: int)
    requires
        0 <= t < programs.len(),
        0 <= k < programs[t].len(),
    ensures
        0 <= node_id_of(programs, t, k) < flat_len(programs, programs.len() as int),
{
    lemma_flat_len_mono(programs, t, programs.len() as int);
}

/// The label bindings of the first `k` instructions of one thread whose
/// ids start at `off`.
pub open spec fn thread_labels(prog: Seq<LabeledInstruction>, off: int, k: int) -> Seq<
    (String, usize),
>
    decreases k,
{
    if k <= 0 {
        Seq::empty()
    } else {
        let rest = thread_labels(prog, off, k - 1);
        match prog[k - 1].label {
            Some(l) => rest.push((l, (off + k - 1) as usize)),
            None => rest,
        }
    }
}

/// The label bindings of the threads below `t`, in creation order.
pub open spec fn all_labels(programs: Seq<Seq<LabeledInstruction>>, t: int) -> Seq<(String, usize)>
    decreases t,
{
    if t <= 0 {
        Seq::empty()
    } else {
        all_labels(programs, t - 1) + thread_labels(
            programs[t - 1],
            flat_len(programs, t - 1) as int,
            programs[t - 1].len() as int,
        )
    }
}

/// Program-order wiring, as the SC variant lays it down: a later event of
/// a thread waits on every earlier event of the same thread.
pub open spec fn sc_edge(programs: Seq<Seq<LabeledInstruction>>, a: usize, b: usize) -> bool {
    exists|t: int, j: int, k: int|
        #![trigger node_id_of(programs, t, j), node_id_of(programs, t, k)]
        0 <= t < programs.len() && 0 <= j < k < programs[t].len() && a as int == node_id_of(
            programs,
            t,
            k,
        ) && b as int == node_id_of(programs, t, j)
}

pub open spec fn is_release(m: Option<Mode>) -> bool {
    m == Some(Mode::Rel) || m == Some(Mode::RelAcq)
}

pub open spec fn is_acquire(m: Option<Mode>) -> bool {
    m == Some(Mode::Acq) || m == Some(Mode::RelAcq)
}

/// Mode-induced wiring, as the TSO and PSO variants lay it down: events
/// after a release wait on it; an acquire waits on all earlier events of
/// its thread.
pub open spec fn mode_edge(programs: Seq<Seq<LabeledInstruction>>, a: usize, b: usize) -> bool {
    exists|t: int, i: int, j: int|
        #![trigger node_id_of(programs, t, i), node_id_of(programs, t, j)]
        0 <= t < programs.len() && 0 <= i < programs[t].len() && 0 <= j < programs[t].len() && ((i
            < j && is_release(programs[t][i].spec_get_mode()) && a as int == node_id_of(
            programs,
            t,
            j,
        ) && b as int == node_id_of(programs, t, i)) || (j < i && is_acquire(
            programs[t][i].spec_get_mode(),
        ) && a as int == node_id_of(programs, t, i) && b as int == node_id_of(programs, t, j)))
}

/// The value of a register in a journal of assignments: the newest
/// binding, or 0 for a register never assigned.
pub open spec fn reg_get(s: Seq<(String, i32)>, name: Seq<char>) -> i32
    decreases s.len(),
{
    if s.len() == 0 {
        0
    } else if s.last().0@ == name {
        s.last().1
    } else {
        reg_get(s.drop_last(), name)
    }
}

/// The nodes of the loaded program stand in the graph, all active, with
/// the stack empty and the labels bound in creation order.
pub open spec fn nodes_built(v: GraphV, programs: Seq<Seq<LabeledInstruction>>) -> bool {
    &&& v.n() == flat_len(programs, programs.len() as int)
    &&& forall|t: int, k: int|
        0 <= t < programs.len() && 0 <= k < programs[t].len() ==> v.nodes[#[trigger] node_id_of(
            programs,
            t,
            k,
        )] == (Node {
            id: node_id_of(programs, t, k) as usize,
            thread_id: t as usize,
            instruction: programs[t][k],
        })
    &&& forall|i: int| 0 <= i < v.n() ==> v.is_active[i]
    &&& v.stack.len() == 0
    &&& v.labels == all_labels(programs, programs.len() as int)
}

// ---------------------------------------------------------------------------
// Shared construction helpers.
// ---------------------------------------------------------------------------

fn empty_register_files(n: usize) -> (r: Vec<Vec<(String, i32)>>)
    ensures
        r@.len() == n,
        forall|t: int| 0 <= t < n ==> #[trigger] r@[t]@.len() == 0,
{
    let mut r: Vec<Vec<(String, i32)>> = Vec::new();
    let mut i: usize = 0;
    while i < n
        invariant
            i <= n,
            r@.len() == i,
            forall|t: int| 0 <= t < i ==> #[trigger] r@[t]@.len() == 0,
        decreases n - i,
    {
        r.push(Vec::new());
        i = i + 1;
    }
    r
}

/// Create one node per instruction, thread by thread, with no edges yet.
fn build_program_nodes(g: &mut Graph, programs: &Vec<Vec<LabeledInstruction>>)
    requires
        old(g).wf(),
        old(g)@.n() == 0,
        old(g)@.labels.len() == 0,
        old(g)@.stack.len() == 0,
        flat_len(programs@.map_values(|p: Vec<LabeledInstruction>| p@), programs@.len() as int)
            <= usize::MAX as nat,
    ensures
        final(g).wf(),
        nodes_built(final(g)@, programs@.map_values(|p: Vec<LabeledInstruction>| p@)),
        forall|j: int| 0 <= j < final(g)@.n() ==> #[trigger] final(g)@.rev_edges[j].len() == 0,
        total_edges(final(g)@.rev_edges) == 0,
{
    let ghost ps = programs@.map_values(|p: Vec<LabeledInstruction>| p@);
    let nt = programs.len();
    let mut t: usize = 0;
    while t < nt
        invariant
            g.wf(),
            nt == ps.len(),
            ps == programs@.map_values(|p: Vec<LabeledInstruction>| p@),
            t <= nt,
            flat_len(ps, ps.len() as int) <= usize::MAX as nat,
            g@.n() == flat_len(ps, t as int),
            forall|t2: int, k2: int|
                0 <= t2 < t && 0 <= k2 < ps[t2].len() ==> g@.nodes[#[trigger] node_id_of(
                    ps,
                    t2,
                    k2,
                )] == (Node {
                    id: node_id_of(ps, t2, k2) as usize,
                    thread_id: t2 as usize,
                    instruction: ps[t2][k2],
                }),
            forall|i: int| 0 <= i < g@.n() ==> g@.is_active[i],
            g@.stack.len() == 0,
            g@.labels == all_labels(ps, t as int),
            forall|j: int| 0 <= j < g@.n() ==> #[trigger] g@.rev_edges[j].len() == 0,
            total_edges(g@.rev_edges) == 0,
        decreases nt - t,
    {
        let prog = &programs[t];
        let nk = prog.len();
        let mut k: usize = 0;
        proof {
            lemma_flat_len_mono(ps, t + 1, ps.len() as int);
        }
        while k < nk
            invariant
                g.wf(),
                nt == ps.len(),
                ps == programs@.map_values(|p: Vec<LabeledInstruction>| p@),
                t < nt,
                k <= nk,
                nk == ps[t as int].len(),
                prog == programs@[t as int],
                flat_len(ps, ps.len() as int) <= usize::MAX as nat,
                flat_len(ps, t + 1) <= flat_len(ps, ps.len() as int),
                g@.n() == flat_len(ps, t as int) + k,
                forall|t2: int, k2: int|
                    (0 <= t2 < t && 0 <= k2 < ps[t2].len()) ==> g@.nodes[#[trigger] node_id_of(
                        ps,
                        t2,
                        k2,
                    )] == (Node {
                        id: node_id_of(ps, t2, k2) as usize,
                        thread_id: t2 as usize,
                        instruction: ps[t2][k2],
                    }),
                forall|k2: int|
                    0 <= k2 < k ==> g@.nodes[#[trigger] node_id_of(ps, t as int, k2)] == (Node {
                        id: node_id_of(ps, t as int, k2) as usize,
                        thread_id: t as usize,
                        instruction: ps[t as int][k2],
                    }),
                forall|i: int| 0 <= i < g@.n() ==> g@.is_active[i],
                g@.stack.len() == 0,
                g@.labels == all_labels(ps, t as int) + thread_labels(
                    ps[t as int],
                    flat_len(ps, t as int) as int,
                    k as int,
                ),
                forall|j: int| 0 <= j < g@.n() ==> #[trigger] g@.rev_edges[j].len() == 0,
                total_edges(g@.rev_edges) == 0,
            decreases nk - k,
        {
            let ghost v0 = g@;
            let instr = prog[k].clone();
            let ghost instr0 = instr;
            proof {
                assert(ps[t as int][k as int] == instr0);
            }
            let id = g.add_node(t, instr);
            proof {
                let target = v0.spec_add_node(t, instr0);
                assert(g@ == target);
                assert(g@.rev_edges.last() =~= Seq::<usize>::empty());
                crate::graph::lemma_total_edges_push(
                    v0.rev_edges,
                    Seq::empty(),
                    v0.rev_edges.len() as int,
                );
                assert(total_edges(g@.rev_edges) == crate::graph::total_edges_upto(
                    g@.rev_edges,
                    g@.rev_edges.len() as int,
                ));
                assert(g@.labels =~= all_labels(ps, t as int) + thread_labels(
                    ps[t as int],
                    flat_len(ps, t as int) as int,
                    k + 1,
                ));
                assert forall|t2: int, k2: int|
                    (0 <= t2 < t && 0 <= k2 < ps[t2].len()) implies g@.nodes[#[trigger] node_id_of(
                    ps,
                    t2,
                    k2,
                )] == (Node {
                    id: node_id_of(ps, t2, k2) as usize,
                    thread_id: t2 as usize,
                    instruction: ps[t2][k2],
                }) by {
                    lemma_flat_len_mono(ps, t2 + 1, t as int);
                }
            }
            k = k + 1;
        }
        proof {
            assert(all_labels(ps, t + 1) == all_labels(ps, t as int) + thread_labels(
                ps[t as int],
                flat_len(ps, t as int) as int,
                ps[t as int].len() as int,
            ));
        }
        t = t + 1;
    }
}

/// Restore nodes LIFO until the node carrying `label` is restored. The
/// label must name an inactive node: its node then sits on the execution
/// stack, which bounds the loop.
fn rewind_to_label(g: &mut Graph, label: String)
    requires
        old(g).wf(),
        !old(g)@.label_active(label@),
    ensures
        final(g).wf(),
        final(g)@ == spec_rewind(old(g)@, label@),
{
    let ghost v0 = g@;
    proof {
        let id = lookup_label(v0.labels, label@).unwrap();
        lemma_lookup_label_found(v0.labels, label@);
        assert(v0.stack.contains(id));
    }
    let mut done = false;
    while !done
        invariant
            g.wf(),
            done ==> g@ == spec_rewind(v0, label@),
            !done ==> spec_rewind(g@, label@) == spec_rewind(v0, label@),
            !done ==> exists|k: int|
                0 <= k < g@.stack.len() && label_matches(
                    g@.nodes[#[trigger] g@.stack[k] as int].instruction.label,
                    label@,
                ),
        decreases g@.stack.len() + if done {
            0int
        } else {
            1int
        },
    {
        let ghost gpre = g@;
        proof {
            let k = choose|k: int|
                0 <= k < gpre.stack.len() && label_matches(
                    gpre.nodes[#[trigger] gpre.stack[k] as int].instruction.label,
                    label@,
                );
            assert(gpre.stack.len() > 0);
        }
        let lbl = g.restore_node();
        let matched = match &lbl {
            Some(l) => *l == label,
            None => false,
        };
        if matched {
            done = true;
        } else {
            proof {
                let k = choose|k: int|
                    0 <= k < gpre.stack.len() && label_matches(
                        gpre.nodes[#[trigger] gpre.stack[k] as int].instruction.label,
                        label@,
                    );
                assert(k < gpre.stack.len() - 1);
                assert(g@.stack[k] == gpre.stack[k]);
            }
        }
    }
}

/// Newest-first register lookup.
fn lookup_reg(pairs: &Vec<(String, i32)>, name: &String) -> (r: i32)
    ensures
        r == reg_get(pairs@, name@),
{
    let mut i = pairs.len();
    proof {
        assert(pairs@.take(i as int) =~= pairs@);
    }
    while i > 0
        invariant
            i <= pairs@.len(),
            reg_get(pairs@, name@) == reg_get(pairs@.take(i as int), name@),
        decreases i,
    {
        proof {
            assert(pairs@.take(i as int).drop_last() =~= pairs@.take(i - 1));
            assert(pairs@.take(i as int).last() == pairs@[i - 1]);
        }
        if pairs[i - 1].0 == *name {
            return pairs[i - 1].1;
        }
        i = i - 1;
    }
    proof {
        assert(pairs@.take(0) =~= Seq::<(String, i32)>::empty());
    }
    0
}

/// A rewind never touches the nodes, labels or edges, and only
/// reactivates nodes.
pub proof fn lemma_rewind_shape(v: GraphV, l: Seq<char>)
    requires
        v.wf(),
    ensures
        spec_rewind(v, l).nodes == v.nodes,
        spec_rewind(v, l).labels == v.labels,
        spec_rewind(v, l).rev_edges == v.rev_edges,
        spec_rewind(v, l).is_active.len() == v.is_active.len(),
        forall|i: int|
            0 <= i < v.is_active.len() && v.is_active[i] ==> spec_rewind(v, l).is_active[i],
    decreases v.stack.len(),
{
    if v.stack.len() > 0 {
        let w = v.spec_restore();
        crate::graph::lemma_restore_preserves_wf(v);
        if !label_matches(v.nodes[v.stack.last() as int].instruction.label, l) {
            lemma_rewind_shape(w, l);
        }
        assert forall|i: int|
            0 <= i < v.is_active.len() && v.is_active[i] implies spec_rewind(v, l).is_active[i] by {
            assert(w.is_active[i]);
        }
    }
}

/// Every id below the total length belongs to some thread position.
pub proof fn lemma_node_id_surj(programs: Seq<Seq<LabeledInstruction>>, i: int, upto: int)
    requires
        0 <= upto <= programs.len(),
        0 <= i < flat_len(programs, upto),
    ensures
        exists|t: int, k: int|
            0 <= t < upto && 0 <= k < programs[t].len() && i == #[trigger] node_id_of(
                programs,
                t,
                k,
            ),
    decreases upto,
{
    if upto > 0 {
        if i < flat_len(programs, upto - 1) {
            lemma_node_id_surj(programs, i, upto - 1);
        } else {
            assert(i == node_id_of(programs, upto - 1, i - flat_len(programs, upto - 1)));
        }
    }
}

/// Edges laid down by the SC wiring strictly before instruction `k` of
/// thread `t` is wired.
pub open spec fn sc_edge_before(
    programs: Seq<Seq<LabeledInstruction>>,
    a: usize,
    b: usize,
    t: int,
    k: int,
) -> bool {
    exists|t2: int, j2: int, k2: int|
        #![trigger node_id_of(programs, t2, j2), node_id_of(programs, t2, k2)]
        0 <= t2 < programs.len() && 0 <= j2 < k2 < programs[t2].len() && (t2 < t || (t2 == t && k2
            < k)) && a as int == node_id_of(programs, t2, k2) && b as int == node_id_of(
            programs,
            t2,
            j2,
        )
}

/// The thread-system surface shared by the three models: the graph of
/// remaining events, one register journal per thread, and the jump
/// machinery. The per-model pending-propagate bookkeeping stays with the
/// concrete types, whose own contracts describe it exactly.
pub trait ThreadSystem: Sized {
    spec fn ts_wf(&self) -> bool;

    spec fn ts_graph(&self) -> GraphV;

    spec fn ts_regs(&self) -> Seq<Seq<(String, i32)>>;

    /// `post` keeps the same pending-propagate bookkeeping as `self`.
    spec fn same_pending(&self, post: Self) -> bool;

    fn get_possible_executions(&self) -> (r: Vec<Node>)
        requires
            self.ts_wf(),
        ensures
            forall|k: int|
                0 <= k < r@.len() ==> self.ts_graph().is_candidate(#[trigger] r@[k].id) && r@[k]
                    == self.ts_graph().nodes[r@[k].id as int],
            forall|i: usize|
                self.ts_graph().is_candidate(i) ==> exists|k: int|
                    0 <= k < r@.len() && (#[trigger] r@[k]).id == i,
            forall|k1: int, k2: int| 0 <= k1 < k2 < r@.len() ==> r@[k1].id < r@[k2].id,
            r@.len() == 0 <==> (forall|i: usize| !self.ts_graph().is_candidate(i)),
    ;

    fn assign_register(&mut self, thread_id: usize, register: String, value: i32)
        requires
            old(self).ts_wf(),
            thread_id < old(self).ts_regs().len(),
        ensures
            final(self).ts_wf(),
            final(self).ts_graph() == old(self).ts_graph(),
            old(self).same_pending(*final(self)),
            final(self).ts_regs() == old(self).ts_regs().update(
                thread_id as int,
                old(self).ts_regs()[thread_id as int].push((register, value)),
            ),
    ;

    fn get_register(&self, thread_id: usize, register: String) -> (v: i32)
        requires
            self.ts_wf(),
            thread_id < self.ts_regs().len(),
        ensures
            v == reg_get(self.ts_regs()[thread_id as int], register@),
    ;

    fn remove_node(&mut self, node: &Node)
        requires
            old(self).ts_wf(),
            node.id < old(self).ts_graph().n(),
            old(self).ts_graph().nodes[node.id as int] == *node,
        ensures
            final(self).ts_wf(),
            final(self).ts_regs() == old(self).ts_regs(),
            final(self).ts_graph() == if old(self).ts_graph().is_active[node.id as int] {
                old(self).ts_graph().spec_remove(node.id)
            } else {
                old(self).ts_graph()
            },
    ;

    fn goto(&mut self, label: String)
        requires
            old(self).ts_wf(),
        ensures
            final(self).ts_wf(),
            final(self).ts_regs() == old(self).ts_regs(),
            old(self).same_pending(*final(self)),
            final(self).ts_graph() == spec_goto(old(self).ts_graph(), label@),
    ;
}

// ---------------------------------------------------------------------------
// The SC thread system: full program order within each thread.
// ---------------------------------------------------------------------------

pub struct SCThreadSystem {
    pub graph: Graph,
    pub registers: Vec<Vec<(String, i32)>>,
}

impl SCThreadSystem {
    pub open spec fn regs(&self) -> Seq<Seq<(String, i32)>> {
        self.registers@.map_values(|v: Vec<(String, i32)>| v@)
    }

    pub open spec fn wf(&self) -> bool {
        &&& self.graph.wf()
        &&& forall|i: int|
            0 <= i < self.graph@.n() ==> (#[trigger] self.graph@.nodes[i]).thread_id
                < self.registers@.len()
    }

    /// Load a program: one node per instruction and, within each thread,
    /// an edge from every later instruction to every earlier one, so that
    /// the candidates are exactly the per-thread heads.
    pub fn new(instructions: Vec<Vec<LabeledInstruction>>) -> (s: SCThreadSystem)
        requires
            ({
                let ps = instructions@.map_values(|p: Vec<LabeledInstruction>| p@);
                let fl = flat_len(ps, ps.len() as int);
                fl * fl + 1 <= usize::MAX as nat
            }),
        ensures
            s.wf(),
            s.registers@.len() == instructions@.len(),
            forall|t: int| 0 <= t < s.registers@.len() ==> #[trigger] s.regs()[t].len() == 0,
            nodes_built(s.graph@, instructions@.map_values(|p: Vec<LabeledInstruction>| p@)),
            forall|a: usize, b: usize|
                0 <= a < s.graph@.n() && 0 <= b < s.graph@.n() ==> (
                #[trigger] s.graph@.rev_edges[b as int].contains(a) <==> sc_edge(
                    instructions@.map_values(|p: Vec<LabeledInstruction>| p@),
                    a,
                    b,
                )),
    {
        let ghost ps = instructions@.map_values(|p: Vec<LabeledInstruction>| p@);
        let ghost fl = flat_len(ps, ps.len() as int);
        proof {
            assert(fl <= fl * fl + 1) by (nonlinear_arith);
        }
        let mut graph = Graph::new();
        let registers = empty_register_files(instructions.len());
        build_program_nodes(&mut graph, &instructions);
        let nt = instructions.len();
        let mut off: usize = 0;
        let mut t: usize = 0;
        while t < nt
            invariant
                graph.wf(),
                nt == ps.len(),
                ps == instructions@.map_values(|p: Vec<LabeledInstruction>| p@),
                t <= nt,
                fl == flat_len(ps, ps.len() as int),
                fl * fl + 1 <= usize::MAX as nat,
                off as int == flat_len(ps, t as int),
                nodes_built(graph@, ps),
                total_edges(graph@.rev_edges) <= fl * off,
                forall|a: usize, b: usize|
                    0 <= a < graph@.n() && 0 <= b < graph@.n() ==> (
                    #[trigger] graph@.rev_edges[b as int].contains(a) <==> sc_edge_before(
                        ps,
                        a,
                        b,
                        t as int,
                        0,
                    )),
            decreases nt - t,
        {
            let nk = instructions[t].len();
            proof {
                lemma_flat_len_mono(ps, t + 1, ps.len() as int);
                assert(flat_len(ps, t + 1) == off + nk);
            }
            let mut k: usize = 0;
            while k < nk
                invariant
                    graph.wf(),
                    nt == ps.len(),
                    ps == instructions@.map_values(|p: Vec<LabeledInstruction>| p@),
                    t < nt,
                    k <= nk,
                    nk == ps[t as int].len(),
                    fl == flat_len(ps, ps.len() as int),
                    fl * fl + 1 <= usize::MAX as nat,
                    off as int == flat_len(ps, t as int),
                    off + nk <= fl,
                    nodes_built(graph@, ps),
                    total_edges(graph@.rev_edges) <= fl * (off + k),
                    forall|a: usize, b: usize|
                        0 <= a < graph@.n() && 0 <= b < graph@.n() ==> (
                        #[trigger] graph@.rev_edges[b as int].contains(a) <==> sc_edge_before(
                            ps,
                            a,
                            b,
                            t as int,
                            k as int,
                        )),
                decreases nk - k,
            {
                let mut j: usize = 0;
                while j < k
                    invariant
                        graph.wf(),
                        nt == ps.len(),
                        ps == instructions@.map_values(|p: Vec<LabeledInstruction>| p@),
                        t < nt,
                        j <= k,
                        k < nk,
                        nk == ps[t as int].len(),
                        fl == flat_len(ps, ps.len() as int),
                        fl * fl + 1 <= usize::MAX as nat,
                        off as int == flat_len(ps, t as int),
                        off + nk <= fl,
                        nodes_built(graph@, ps),
                        total_edges(graph@.rev_edges) <= fl * (off + k) + j,
                        forall|a: usize, b: usize|
                            0 <= a < graph@.n() && 0 <= b < graph@.n() ==> (
                            #[trigger] graph@.rev_edges[b as int].contains(a) <==> (sc_edge_before(
                                ps,
                                a,
                                b,
                                t as int,
                                k as int,
                            ) || (a as int == node_id_of(ps, t as int, k as int) && exists|j2: int|
                                0 <= j2 < j && b as int == #[trigger] node_id_of(
                                    ps,
                                    t as int,
                                    j2,
                                )))),
                    decreases k - j,
                {
                    let ghost v0 = graph@;
                    proof {
                        assert(fl <= fl * fl + 1) by (nonlinear_arith);
                    }
                    let from = off + k;
                    let to = off + j;
                    proof {
                        assert(off + k < fl && off + j < fl);
                        assert(fl * (off + k) + j + 1 <= fl * fl) by (nonlinear_arith)
                            requires
                                off + k < fl,
                                j < fl,
                                fl * (off + k) >= 0,
                        ;
                        assert(total_edges(v0.rev_edges) < usize::MAX as nat);
                    }
                    graph.add_edge(from, to);
                    proof {
                        crate::graph::lemma_total_edges_update(
                            v0.rev_edges,
                            to as int,
                            from,
                            v0.rev_edges.len() as int,
                        );
                        crate::graph::lemma_occ_push(v0.rev_edges[to as int], from, from);
                        assert forall|a: usize, b: usize|
                            0 <= a < graph@.n() && 0 <= b < graph@.n() implies (
                        #[trigger] graph@.rev_edges[b as int].contains(a) <==> (sc_edge_before(
                            ps,
                            a,
                            b,
                            t as int,
                            k as int,
                        ) || (a as int == node_id_of(ps, t as int, k as int) && exists|j2: int|
                            0 <= j2 < j + 1 && b as int == #[trigger] node_id_of(
                                ps,
                                t as int,
                                j2,
                            )))) by {
                            if b == to {
                                assert(graph@.rev_edges[b as int] == v0.rev_edges[b as int].push(
                                    from,
                                ));
                                if graph@.rev_edges[b as int].contains(a) {
                                    let idx = choose|idx: int|
                                        0 <= idx < graph@.rev_edges[b as int].len()
                                            && graph@.rev_edges[b as int][idx] == a;
                                    if idx < v0.rev_edges[b as int].len() {
                                        assert(v0.rev_edges[b as int].contains(a));
                                    } else {
                                        assert(a == from);
                                        assert(b as int == node_id_of(ps, t as int, j as int));
                                    }
                                } else {
                                    if v0.rev_edges[b as int].contains(a) {
                                        let idx = choose|idx: int|
                                            0 <= idx < v0.rev_edges[b as int].len()
                                                && v0.rev_edges[b as int][idx] == a;
                                        assert(graph@.rev_edges[b as int][idx] == a);
                                        assert(false);
                                    }
                                }
                                if sc_edge_before(ps, a, b, t as int, k as int) || (a as int
                                    == node_id_of(ps, t as int, k as int) && exists|j2: int|
                                    0 <= j2 < j + 1 && b as int == #[trigger] node_id_of(
                                        ps,
                                        t as int,
                                        j2,
                                    )) {
                                    if !(sc_edge_before(ps, a, b, t as int, k as int) || (a as int
                                        == node_id_of(ps, t as int, k as int) && exists|j2: int|
                                        0 <= j2 < j && b as int == #[trigger] node_id_of(
                                            ps,
                                            t as int,
                                            j2,
                                        ))) {
                                        assert(a == from);
                                        assert(v0.rev_edges[b as int].push(from)[v0.rev_edges[b as int].len() as int]
                                            == from);
                                        assert(graph@.rev_edges[b as int].contains(a));
                                    }
                                }
                            } else {
                                assert(graph@.rev_edges[b as int] == v0.rev_edges[b as int]);
                                if a as int == node_id_of(ps, t as int, k as int) && exists|j2: int|
                                    0 <= j2 < j + 1 && b as int == #[trigger] node_id_of(
                                        ps,
                                        t as int,
                                        j2,
                                    ) {
                                    let j2 = choose|j2: int|
                                        0 <= j2 < j + 1 && b as int == #[trigger] node_id_of(
                                            ps,
                                            t as int,
                                            j2,
                                        );
                                    assert(j2 < j);
                                }
                            }
                        }
                    }
                    j = j + 1;
                }
                proof {
                    assert(fl * (off + k) + k <= fl * (off + k + 1)) by (nonlinear_arith)
                        requires
                            k <= fl,
                            fl >= 0,
                            off >= 0,
                            k >= 0,
                    ;
                    assert forall|a: usize, b: usize|
                        0 <= a < graph@.n() && 0 <= b < graph@.n() implies (
                    #[trigger] graph@.rev_edges[b as int].contains(a) <==> sc_edge_before(
                        ps,
                        a,
                        b,
                        t as int,
                        k + 1,
                    )) by {
                        if graph@.rev_edges[b as int].contains(a) {
                            if !sc_edge_before(ps, a, b, t as int, k as int) {
                                let j2 = choose|j2: int|
                                    0 <= j2 < k && b as int == #[trigger] node_id_of(
                                        ps,
                                        t as int,
                                        j2,
                                    );
                                assert(0 <= j2 < k + 1 <= ps[t as int].len());
                                assert(a as int == node_id_of(ps, t as int, k as int));
                            }
                        }
                        if sc_edge_before(ps, a, b, t as int, k + 1) {
                            let (t2, j2, k2) = choose|t2: int, j2: int, k2: int|
                                0 <= t2 < ps.len() && 0 <= j2 < k2 < ps[t2].len() && (t2 < t || (t2
                                    == t && k2 < k + 1)) && a as int == #[trigger] node_id_of(
                                    ps,
                                    t2,
                                    k2,
                                ) && b as int == #[trigger] node_id_of(ps, t2, j2);
                            if t2 == t && k2 == k {
                                assert(exists|j3: int|
                                    0 <= j3 < k && b as int == #[trigger] node_id_of(
                                        ps,
                                        t as int,
                                        j3,
                                    ));
                            }
                        }
                    }
                }
                k = k + 1;
            }
            proof {
                assert(fl * (off + nk) <= fl * flat_len(ps, t + 1)) by (nonlinear_arith)
                    requires
                        off + nk == flat_len(ps, t + 1),
                        fl >= 0,
                ;
                assert forall|a: usize, b: usize|
                    0 <= a < graph@.n() && 0 <= b < graph@.n() implies (
                #[trigger] graph@.rev_edges[b as int].contains(a) <==> sc_edge_before(
                    ps,
                    a,
                    b,
                    t + 1,
                    0,
                )) by {
                    if graph@.rev_edges[b as int].contains(a) {
                        assert(sc_edge_before(ps, a, b, t as int, nk as int));
                    }
                    if sc_edge_before(ps, a, b, t + 1, 0) {
                        let (t2, j2, k2) = choose|t2: int, j2: int, k2: int|
                            0 <= t2 < ps.len() && 0 <= j2 < k2 < ps[t2].len() && (t2 < t + 1 && (t2
                                != t + 1 || k2 < 0)) && a as int == #[trigger] node_id_of(
                                ps,
                                t2,
                                k2,
                            ) && b as int == #[trigger] node_id_of(ps, t2, j2);
                        assert(t2 < t || (t2 == t && k2 < nk));
                    }
                }
            }
            proof {
                assert(fl <= fl * fl + 1) by (nonlinear_arith);
                assert(off + nk <= fl);
            }
            off = off + nk;
            t = t + 1;
        }
        proof {
            assert forall|i: int| 0 <= i < graph@.n() implies (#[trigger] graph@.nodes[i]).thread_id
                < nt by {
                lemma_node_id_surj(ps, i, ps.len() as int);
                let (t2, k2) = choose|t2: int, k2: int|
                    0 <= t2 < ps.len() && 0 <= k2 < ps[t2].len() && i == #[trigger] node_id_of(
                        ps,
                        t2,
                        k2,
                    );
                assert(graph@.nodes[i].thread_id == t2 as usize);
            }
            assert forall|a: usize, b: usize|
                0 <= a < graph@.n() && 0 <= b < graph@.n() implies (
            #[trigger] graph@.rev_edges[b as int].contains(a) <==> sc_edge(ps, a, b)) by {
                if graph@.rev_edges[b as int].contains(a) {
                    assert(sc_edge_before(ps, a, b, nt as int, 0));
                }
                if sc_edge(ps, a, b) {
                    let (t2, j2, k2) = choose|t2: int, j2: int, k2: int|
                        0 <= t2 < ps.len() && 0 <= j2 < k2 < ps[t2].len() && a as int
                            == #[trigger] node_id_of(ps, t2, k2) && b as int == #[trigger] node_id_of(
                            ps,
                            t2,
                            j2,
                        );
                    assert(sc_edge_before(ps, a, b, nt as int, 0));
                }
            }
        }
        SCThreadSystem { graph, registers }
    }

    /// The execution candidates, as full node copies.
    pub fn get_possible_executions(&self) -> (r: Vec<Node>)
        requires
            self.wf(),
        ensures
            forall|k: int|
                0 <= k < r@.len() ==> self.graph@.is_candidate(#[trigger] r@[k].id) && r@[k]
                    == self.graph@.nodes[r@[k].id as int],
            forall|i: usize|
                self.graph@.is_candidate(i) ==> exists|k: int|
                    0 <= k < r@.len() && (#[trigger] r@[k]).id == i,
            forall|k1: int, k2: int| 0 <= k1 < k2 < r@.len() ==> r@[k1].id < r@[k2].id,
            r@.len() == 0 <==> (forall|i: usize| !self.graph@.is_candidate(i)),
    {
        candidates_to_nodes(&self.graph)
    }

    pub fn assign_register(&mut self, thread_id: usize, register: String, value: i32)
        requires
            old(self).wf(),
            thread_id < old(self).registers@.len(),
        ensures
            final(self).wf(),
            final(self).graph == old(self).graph,
            final(self).registers@.len() == old(self).registers@.len(),
            final(self).regs() == old(self).regs().update(
                thread_id as int,
                old(self).regs()[thread_id as int].push((register, value)),
            ),
    {
        self.registers[thread_id].push((register, value));
        proof {
            assert(self.regs() =~= old(self).regs().update(
                thread_id as int,
                old(self).regs()[thread_id as int].push((register, value)),
            ));
        }
    }

    pub fn get_register(&self, thread_id: usize, register: String) -> (v: i32)
        requires
            self.wf(),
            thread_id < self.registers@.len(),
        ensures
            v == reg_get(self.regs()[thread_id as int], register@),
    {
        lookup_reg(&self.registers[thread_id], &register)
    }

    pub fn remove_node(&mut self, node: &Node)
        requires
            old(self).wf(),
            node.id < old(self).graph@.n(),
        ensures
            final(self).wf(),
            final(self).registers == old(self).registers,
            final(self).graph@ == if old(self).graph@.is_active[node.id as int] {
                old(self).graph@.spec_remove(node.id)
            } else {
                old(self).graph@
            },
    {
        self.graph.remove_node(node.id);
    }

    /// A jump: nothing happens when the target label is still active (or
    /// unknown); a backward jump rewinds the graph until the label's node
    /// is restored.
    pub fn goto(&mut self, label: String)
        requires
            old(self).wf(),
        ensures
            final(self).wf(),
            final(self).registers == old(self).registers,
            final(self).graph@ == spec_goto(old(self).graph@, label@),
    {
        let lc = label.clone();
        if !self.graph.is_label_active(lc) {
            proof {
                lemma_rewind_shape(self.graph@, label@);
            }
            rewind_to_label(&mut self.graph, label);
        }
    }
}


impl ThreadSystem for SCThreadSystem {
    open spec fn ts_wf(&self) -> bool {
        self.wf()
    }

    open spec fn ts_graph(&self) -> GraphV {
        self.graph@
    }

    open spec fn ts_regs(&self) -> Seq<Seq<(String, i32)>> {
        self.regs()
    }

    open spec fn same_pending(&self, post: Self) -> bool {
        true
    }

    fn get_possible_executions(&self) -> (r: Vec<Node>) {
        let r = SCThreadSystem::get_possible_executions(self);
        proof {
            assert(self.ts_graph() == self.graph@);
            if r@.len() == 0 {
                assert forall|i: usize| !self.ts_graph().is_candidate(i) by {
                    assert(!self.graph@.is_candidate(i));
                }
            } else {
                assert(self.ts_graph().is_candidate(r@[0].id));
            }
        }
        r
    }

    fn assign_register(&mut self, thread_id: usize, register: String, value: i32) {
        SCThreadSystem::assign_register(self, thread_id, register, value)
    }

    fn get_register(&self, thread_id: usize, register: String) -> (v: i32) {
        SCThreadSystem::get_register(self, thread_id, register)
    }

    fn remove_node(&mut self, node: &Node) {
        SCThreadSystem::remove_node(self, node)
    }

    fn goto(&mut self, label: String) {
        SCThreadSystem::goto(self, label)
    }
}

/// Copy out the candidate nodes of a graph.
fn candidates_to_nodes(graph: &Graph) -> (r: Vec<Node>)
    requires
        graph.wf(),
    ensures
        forall|k: int|
            0 <= k < r@.len() ==> graph@.is_candidate(#[trigger] r@[k].id) && r@[k]
                == graph@.nodes[r@[k].id as int],
        forall|i: usize|
            graph@.is_candidate(i) ==> exists|k: int| 0 <= k < r@.len() && (#[trigger] r@[k]).id == i,
        forall|k1: int, k2: int| 0 <= k1 < k2 < r@.len() ==> r@[k1].id < r@[k2].id,
        r@.len() == 0 <==> (forall|i: usize| !graph@.is_candidate(i)),
{
    let ids = graph.execution_candidates();
    let mut r: Vec<Node> = Vec::new();
    let mut k: usize = 0;
    while k < ids.len()
        invariant
            graph.wf(),
            k <= ids@.len(),
            r@.len() == k,
            forall|k2: int| 0 <= k2 < ids@.len() ==> graph@.is_candidate(#[trigger] ids@[k2]),
            forall|i: usize| graph@.is_candidate(i) ==> ids@.contains(i),
            forall|k2: int| 0 <= k2 < k ==> (#[trigger] r@[k2]).id == ids@[k2] && r@[k2]
                == graph@.nodes[ids@[k2] as int],
        decreases ids@.len() - k,
    {
        let id = ids[k];
        r.push(graph.instructions[id].clone());
        k = k + 1;
    }
    proof {
        assert forall|i: usize| graph@.is_candidate(i) implies exists|k2: int|
            0 <= k2 < r@.len() && (#[trigger] r@[k2]).id == i by {
            let k2 = choose|k2: int| 0 <= k2 < ids@.len() && ids@[k2] == i;
            assert(r@[k2].id == i);
        }
        if r@.len() == 0 {
            assert forall|i: usize| !graph@.is_candidate(i) by {
                if graph@.is_candidate(i) {
                    assert(ids@.contains(i));
                }
            }
        } else {
            assert(graph@.is_candidate(r@[0].id));
        }
    }
    r
}

/// Edges laid down by the mode wiring strictly before instruction `i` of
/// thread `t` is processed.
pub open spec fn mode_edge_before(
    programs: Seq<Seq<LabeledInstruction>>,
    a: usize,
    b: usize,
    t: int,
    i: int,
) -> bool {
    exists|t2: int, i2: int, j2: int|
        #![trigger node_id_of(programs, t2, i2), node_id_of(programs, t2, j2)]
        0 <= t2 < programs.len() && 0 <= i2 < programs[t2].len() && 0 <= j2 < programs[t2].len()
            && (t2 < t || (t2 == t && i2 < i)) && ((i2 < j2 && is_release(
            programs[t2][i2].spec_get_mode(),
        ) && a as int == node_id_of(programs, t2, j2) && b as int == node_id_of(programs, t2, i2))
            || (j2 < i2 && is_acquire(programs[t2][i2].spec_get_mode()) && a as int == node_id_of(
            programs,
            t2,
            i2,
        ) && b as int == node_id_of(programs, t2, j2)))
}

/// Wire the release/acquire edges of every instruction: later events wait
/// on an earlier release; an acquire waits on every earlier event of its
/// thread.
fn wire_mode_edges(g: &mut Graph, programs: &Vec<Vec<LabeledInstruction>>)
    requires
        old(g).wf(),
        nodes_built(old(g)@, programs@.map_values(|p: Vec<LabeledInstruction>| p@)),
        forall|j: int| 0 <= j < old(g)@.n() ==> #[trigger] old(g)@.rev_edges[j].len() == 0,
        total_edges(old(g)@.rev_edges) == 0,
        ({
            let ps = programs@.map_values(|p: Vec<LabeledInstruction>| p@);
            let fl = flat_len(ps, ps.len() as int);
            2 * fl * fl + 1 <= usize::MAX as nat
        }),
    ensures
        final(g).wf(),
        nodes_built(final(g)@, programs@.map_values(|p: Vec<LabeledInstruction>| p@)),
        forall|a: usize, b: usize|
            0 <= a < final(g)@.n() && 0 <= b < final(g)@.n() ==> (
            #[trigger] final(g)@.rev_edges[b as int].contains(a) <==> mode_edge(
                programs@.map_values(|p: Vec<LabeledInstruction>| p@),
                a,
                b,
            )),
{
    let ghost ps = programs@.map_values(|p: Vec<LabeledInstruction>| p@);
    let ghost fl = flat_len(ps, ps.len() as int);
    proof {
        assert(fl <= 2 * fl * fl + 1) by (nonlinear_arith);
    }
    let nt = programs.len();
    let mut off: usize = 0;
    let mut t: usize = 0;
    while t < nt
        invariant
            g.wf(),
            nt == ps.len(),
            ps == programs@.map_values(|p: Vec<LabeledInstruction>| p@),
            t <= nt,
            fl == flat_len(ps, ps.len() as int),
            2 * fl * fl + 1 <= usize::MAX as nat,
            off as int == flat_len(ps, t as int),
            nodes_built(g@, ps),
            total_edges(g@.rev_edges) <= 2 * fl * off,
            forall|a: usize, b: usize|
                0 <= a < g@.n() && 0 <= b < g@.n() ==> (#[trigger] g@.rev_edges[b as int].contains(
                    a,
                ) <==> mode_edge_before(ps, a, b, t as int, 0)),
        decreases nt - t,
    {
        let nk = programs[t].len();
        proof {
            lemma_flat_len_mono(ps, t + 1, ps.len() as int);
            assert(flat_len(ps, t + 1) == off + nk);
        }
        let mut i: usize = 0;
        while i < nk
            invariant
                g.wf(),
                nt == ps.len(),
                ps == programs@.map_values(|p: Vec<LabeledInstruction>| p@),
                t < nt,
                i <= nk,
                nk == ps[t as int].len(),
                fl == flat_len(ps, ps.len() as int),
                2 * fl * fl + 1 <= usize::MAX as nat,
                off as int == flat_len(ps, t as int),
                off + nk <= fl,
                nodes_built(g@, ps),
                total_edges(g@.rev_edges) <= 2 * fl * (off + i),
                forall|a: usize, b: usize|
                    0 <= a < g@.n() && 0 <= b < g@.n() ==> (
                    #[trigger] g@.rev_edges[b as int].contains(a) <==> mode_edge_before(
                        ps,
                        a,
                        b,
                        t as int,
                        i as int,
                    )),
            decreases nk - i,
        {
            let md = programs[t][i].get_mode();
            let acq = match md {
                Some(Mode::Acq) => true,
                Some(Mode::RelAcq) => true,
                _ => false,
            };
            let rel = match md {
                Some(Mode::Rel) => true,
                Some(Mode::RelAcq) => true,
                _ => false,
            };
            proof {
                assert(acq == is_acquire(ps[t as int][i as int].spec_get_mode()));
                assert(rel == is_release(ps[t as int][i as int].spec_get_mode()));
            }
            if acq {
                let mut j: usize = 0;
                while j < i
                    invariant
                        g.wf(),
                        nt == ps.len(),
                        ps == programs@.map_values(|p: Vec<LabeledInstruction>| p@),
                        t < nt,
                        j <= i,
                        i < nk,
                        nk == ps[t as int].len(),
                        fl == flat_len(ps, ps.len() as int),
                        2 * fl * fl + 1 <= usize::MAX as nat,
                        off as int == flat_len(ps, t as int),
                        off + nk <= fl,
                        acq,
                        is_acquire(ps[t as int][i as int].spec_get_mode()),
                        nodes_built(g@, ps),
                        total_edges(g@.rev_edges) <= 2 * fl * (off + i) + j,
                        forall|a: usize, b: usize|
                            0 <= a < g@.n() && 0 <= b < g@.n() ==> (
                            #[trigger] g@.rev_edges[b as int].contains(a) <==> (mode_edge_before(
                                ps,
                                a,
                                b,
                                t as int,
                                i as int,
                            ) || (a as int == node_id_of(ps, t as int, i as int) && exists|j2: int|
                                0 <= j2 < j && b as int == #[trigger] node_id_of(
                                    ps,
                                    t as int,
                                    j2,
                                )))),
                    decreases i - j,
                {
                    let ghost v0 = g@;
                    proof {
                        assert(2 * fl * (off + i) + j + 1 < 2 * fl * fl + 1) by (nonlinear_arith)
                            requires
                                off + i < fl,
                                j < fl,
                                fl >= 1,
                        ;
                        assert(fl <= 2 * fl * fl + 1) by (nonlinear_arith);
                    }
                    let from = off + i;
                    let to = off + j;
                    g.add_edge(from, to);
                    proof {
                        crate::graph::lemma_total_edges_update(
                            v0.rev_edges,
                            to as int,
                            from,
                            v0.rev_edges.len() as int,
                        );
                        assert forall|a: usize, b: usize|
                            0 <= a < g@.n() && 0 <= b < g@.n() implies (
                        #[trigger] g@.rev_edges[b as int].contains(a) <==> (mode_edge_before(
                            ps,
                            a,
                            b,
                            t as int,
                            i as int,
                        ) || (a as int == node_id_of(ps, t as int, i as int) && exists|j2: int|
                            0 <= j2 < j + 1 && b as int == #[trigger] node_id_of(
                                ps,
                                t as int,
                                j2,
                            )))) by {
                            if b == to {
                                if g@.rev_edges[b as int].contains(a) {
                                    let idx = choose|idx: int|
                                        0 <= idx < g@.rev_edges[b as int].len()
                                            && g@.rev_edges[b as int][idx] == a;
                                    if idx < v0.rev_edges[b as int].len() {
                                        assert(v0.rev_edges[b as int].contains(a));
                                    } else {
                                        assert(a == from);
                                        assert(b as int == node_id_of(ps, t as int, j as int));
                                    }
                                } else {
                                    if v0.rev_edges[b as int].contains(a) {
                                        let idx = choose|idx: int|
                                            0 <= idx < v0.rev_edges[b as int].len()
                                                && v0.rev_edges[b as int][idx] == a;
                                        assert(g@.rev_edges[b as int][idx] == a);
                                        assert(false);
                                    }
                                }
                                if a as int == node_id_of(ps, t as int, i as int) && exists|j2: int|
                                    0 <= j2 < j + 1 && b as int == #[trigger] node_id_of(
                                        ps,
                                        t as int,
                                        j2,
                                    ) {
                                    assert(v0.rev_edges[b as int].push(from)[v0.rev_edges[b as int].len() as int]
                                        == from);
                                }
                            } else {
                                assert(g@.rev_edges[b as int] == v0.rev_edges[b as int]);
                                if a as int == node_id_of(ps, t as int, i as int) && exists|j2: int|
                                    0 <= j2 < j + 1 && b as int == #[trigger] node_id_of(
                                        ps,
                                        t as int,
                                        j2,
                                    ) {
                                    let j2 = choose|j2: int|
                                        0 <= j2 < j + 1 && b as int == #[trigger] node_id_of(
                                            ps,
                                            t as int,
                                            j2,
                                        );
                                    assert(j2 < j);
                                }
                            }
                        }
                    }
                    j = j + 1;
                }
            }
            let ghost acq_done = |a: usize, b: usize|
                mode_edge_before(ps, a, b, t as int, i as int) || (is_acquire(
                    ps[t as int][i as int].spec_get_mode(),
                ) && a as int == node_id_of(ps, t as int, i as int) && exists|j2: int|
                    0 <= j2 < i && b as int == #[trigger] node_id_of(ps, t as int, j2));
            proof {
                assert forall|a: usize, b: usize|
                    0 <= a < g@.n() && 0 <= b < g@.n() implies (
                #[trigger] g@.rev_edges[b as int].contains(a) <==> acq_done(a, b)) by {}
            }
            if rel {
                let mut j: usize = i + 1;
                while j < nk
                    invariant
                        g.wf(),
                        nt == ps.len(),
                        ps == programs@.map_values(|p: Vec<LabeledInstruction>| p@),
                        t < nt,
                        i < j <= nk,
                        nk == ps[t as int].len(),
                        fl == flat_len(ps, ps.len() as int),
                        2 * fl * fl + 1 <= usize::MAX as nat,
                        off as int == flat_len(ps, t as int),
                        off + nk <= fl,
                        rel,
                        is_release(ps[t as int][i as int].spec_get_mode()),
                        acq_done == (|a: usize, b: usize|
                            mode_edge_before(ps, a, b, t as int, i as int) || (is_acquire(
                                ps[t as int][i as int].spec_get_mode(),
                            ) && a as int == node_id_of(ps, t as int, i as int) && exists|j2: int|
                                0 <= j2 < i && b as int == #[trigger] node_id_of(
                                    ps,
                                    t as int,
                                    j2,
                                ))),
                        nodes_built(g@, ps),
                        total_edges(g@.rev_edges) <= 2 * fl * (off + i) + fl + (j - i - 1),
                        forall|a: usize, b: usize|
                            0 <= a < g@.n() && 0 <= b < g@.n() ==> (
                            #[trigger] g@.rev_edges[b as int].contains(a) <==> (acq_done(a, b) || (
                            b as int == node_id_of(ps, t as int, i as int) && exists|j2: int|
                                i < j2 < j && a as int == #[trigger] node_id_of(
                                    ps,
                                    t as int,
                                    j2,
                                )))),
                    decreases nk - j,
                {
                    let ghost v0 = g@;
                    proof {
                        assert(2 * fl * (off + i) + fl + (j - i - 1) + 1 < 2 * fl * fl + 1)
                            by (nonlinear_arith)
                            requires
                                off + i < fl,
                                i < j < fl,
                                fl >= 1,
                        ;
                    }
                    let from = off + j;
                    let to = off + i;
                    g.add_edge(from, to);
                    proof {
                        crate::graph::lemma_total_edges_update(
                            v0.rev_edges,
                            to as int,
                            from,
                            v0.rev_edges.len() as int,
                        );
                        assert forall|a: usize, b: usize|
                            0 <= a < g@.n() && 0 <= b < g@.n() implies (
                        #[trigger] g@.rev_edges[b as int].contains(a) <==> (acq_done(a, b) || (
                        b as int == node_id_of(ps, t as int, i as int) && exists|j2: int|
                            i < j2 < j + 1 && a as int == #[trigger] node_id_of(
                                ps,
                                t as int,
                                j2,
                            )))) by {
                            if b == to {
                                if g@.rev_edges[b as int].contains(a) {
                                    let idx = choose|idx: int|
                                        0 <= idx < g@.rev_edges[b as int].len()
                                            && g@.rev_edges[b as int][idx] == a;
                                    if idx < v0.rev_edges[b as int].len() {
                                        assert(v0.rev_edges[b as int].contains(a));
                                    } else {
                                        assert(a == from);
                                        assert(a as int == node_id_of(ps, t as int, j as int));
                                    }
                                } else {
                                    if v0.rev_edges[b as int].contains(a) {
                                        let idx = choose|idx: int|
                                            0 <= idx < v0.rev_edges[b as int].len()
                                                && v0.rev_edges[b as int][idx] == a;
                                        assert(g@.rev_edges[b as int][idx] == a);
                                        assert(false);
                                    }
                                }
                                if b as int == node_id_of(ps, t as int, i as int) && exists|j2: int|
                                    i < j2 < j + 1 && a as int == #[trigger] node_id_of(
                                        ps,
                                        t as int,
                                        j2,
                                    ) {
                                    assert(v0.rev_edges[b as int].push(from)[v0.rev_edges[b as int].len() as int]
                                        == from);
                                }
                            } else {
                                assert(g@.rev_edges[b as int] == v0.rev_edges[b as int]);
                                if b as int == node_id_of(ps, t as int, i as int) && exists|j2: int|
                                    i < j2 < j + 1 && a as int == #[trigger] node_id_of(
                                        ps,
                                        t as int,
                                        j2,
                                    ) {
                                    let j2 = choose|j2: int|
                                        i < j2 < j + 1 && a as int == #[trigger] node_id_of(
                                            ps,
                                            t as int,
                                            j2,
                                        );
                                    assert(j2 < j);
                                }
                            }
                        }
                    }
                    j = j + 1;
                }
            }
            proof {
                assert(2 * fl * (off + i) + fl + fl <= 2 * fl * (off + i + 1)) by (nonlinear_arith)
                    requires
                        fl >= 0,
                        off >= 0,
                        i >= 0,
                ;
                assert forall|a: usize, b: usize|
                    0 <= a < g@.n() && 0 <= b < g@.n() implies (
                #[trigger] g@.rev_edges[b as int].contains(a) <==> mode_edge_before(
                    ps,
                    a,
                    b,
                    t as int,
                    i + 1,
                )) by {
                    if g@.rev_edges[b as int].contains(a) {
                        if !mode_edge_before(ps, a, b, t as int, i as int) {
                            assert(mode_edge_before(ps, a, b, t as int, i + 1));
                        }
                    }
                    if mode_edge_before(ps, a, b, t as int, i + 1) {
                        let (t2, i2, j2) = choose|t2: int, i2: int, j2: int|
                            0 <= t2 < ps.len() && 0 <= i2 < ps[t2].len() && 0 <= j2 < ps[t2].len()
                                && (t2 < t || (t2 == t && i2 < i + 1)) && ((i2 < j2 && is_release(
                                ps[t2][i2].spec_get_mode(),
                            ) && a as int == #[trigger] node_id_of(ps, t2, j2) && b as int
                                == #[trigger] node_id_of(ps, t2, i2)) || (j2 < i2 && is_acquire(
                                ps[t2][i2].spec_get_mode(),
                            ) && a as int == node_id_of(ps, t2, i2) && b as int == node_id_of(
                                ps,
                                t2,
                                j2,
                            )));
                        if t2 == t && i2 == i {
                            if j2 < i2 {
                                assert(is_acquire(ps[t as int][i as int].spec_get_mode()));
                                assert(acq_done(a, b));
                            } else {
                                assert(is_release(ps[t as int][i as int].spec_get_mode()));
                            }
                        } else {
                            assert(mode_edge_before(ps, a, b, t as int, i as int));
                        }
                    }
                }
            }
            i = i + 1;
        }
        proof {
            assert(2 * fl * (off + nk) <= 2 * fl * flat_len(ps, t + 1)) by (nonlinear_arith)
                requires
                    off + nk == flat_len(ps, t + 1),
                    fl >= 0,
            ;
            assert forall|a: usize, b: usize|
                0 <= a < g@.n() && 0 <= b < g@.n() implies (#[trigger] g@.rev_edges[b as int].contains(
                a,
            ) <==> mode_edge_before(ps, a, b, t + 1, 0)) by {
                if g@.rev_edges[b as int].contains(a) {
                    assert(mode_edge_before(ps, a, b, t as int, nk as int));
                }
                if mode_edge_before(ps, a, b, t + 1, 0) {
                    let (t2, i2, j2) = choose|t2: int, i2: int, j2: int|
                        0 <= t2 < ps.len() && 0 <= i2 < ps[t2].len() && 0 <= j2 < ps[t2].len() && (
                        t2 < t + 1 && (t2 != t + 1 || i2 < 0)) && ((i2 < j2 && is_release(
                            ps[t2][i2].spec_get_mode(),
                        ) && a as int == #[trigger] node_id_of(ps, t2, j2) && b as int
                            == #[trigger] node_id_of(ps, t2, i2)) || (j2 < i2 && is_acquire(
                            ps[t2][i2].spec_get_mode(),
                        ) && a as int == node_id_of(ps, t2, i2) && b as int == node_id_of(
                            ps,
                            t2,
                            j2,
                        )));
                    assert(t2 < t || (t2 == t && i2 < nk));
                }
            }
            assert(fl <= 2 * fl * fl + 1) by (nonlinear_arith);
            assert(off + nk <= fl);
        }
        off = off + nk;
        t = t + 1;
    }
    proof {
        assert forall|a: usize, b: usize|
            0 <= a < g@.n() && 0 <= b < g@.n() implies (#[trigger] g@.rev_edges[b as int].contains(a)
            <==> mode_edge(ps, a, b)) by {
            if g@.rev_edges[b as int].contains(a) {
                assert(mode_edge_before(ps, a, b, nt as int, 0));
            }
            if mode_edge(ps, a, b) {
                let (t2, i2, j2) = choose|t2: int, i2: int, j2: int|
                    0 <= t2 < ps.len() && 0 <= i2 < ps[t2].len() && 0 <= j2 < ps[t2].len() && ((i2
                        < j2 && is_release(ps[t2][i2].spec_get_mode()) && a as int
                        == #[trigger] node_id_of(ps, t2, j2) && b as int == #[trigger] node_id_of(
                        ps,
                        t2,
                        i2,
                    )) || (j2 < i2 && is_acquire(ps[t2][i2].spec_get_mode()) && a as int
                        == node_id_of(ps, t2, i2) && b as int == node_id_of(ps, t2, j2)));
                assert(mode_edge_before(ps, a, b, nt as int, 0));
            }
        }
    }
}

/// A strictly increasing sequence of ids below `n` has at most `n`
/// entries.
pub proof fn lemma_increasing_ge(s: Seq<usize>, k: int)
    requires
        forall|k1: int, k2: int| 0 <= k1 < k2 < s.len() ==> s[k1] < s[k2],
        0 <= k < s.len(),
    ensures
        s[k] >= k,
    decreases k,
{
    if k > 0 {
        lemma_increasing_ge(s, k - 1);
    }
}

pub proof fn lemma_increasing_len(s: Seq<usize>, n: int)
    requires
        forall|k1: int, k2: int| 0 <= k1 < k2 < s.len() ==> s[k1] < s[k2],
        forall|k: int| 0 <= k < s.len() ==> s[k] < n,
        n >= 0,
    ensures
        s.len() <= n,
{
    if s.len() > 0 {
        lemma_increasing_ge(s, s.len() - 1);
    }
}

/// Remove one id from a strictly increasing list of pending propagate
/// ids; a no-op when the id is not listed.
fn remove_pending_id(v: &mut Vec<usize>, id: usize)
    requires
        forall|k1: int, k2: int| 0 <= k1 < k2 < old(v)@.len() ==> old(v)@[k1] < old(v)@[k2],
    ensures
        forall|k1: int, k2: int| 0 <= k1 < k2 < final(v)@.len() ==> final(v)@[k1] < final(v)@[k2],
        forall|x: usize| final(v)@.contains(x) <==> (old(v)@.contains(x) && x != id),
        old(v)@.contains(id) ==> final(v)@.len() == old(v)@.len() - 1,
        !old(v)@.contains(id) ==> final(v)@ == old(v)@,
{
    let ghost s0 = v@;
    let mut i: usize = 0;
    while i < v.len()
        invariant
            v@ == s0,
            old(v)@ == s0,
            i <= s0.len(),
            forall|k1: int, k2: int| 0 <= k1 < k2 < s0.len() ==> s0[k1] < s0[k2],
            forall|k: int| 0 <= k < i ==> s0[k] != id,
        decreases s0.len() - i,
    {
        if v[i] == id {
            v.remove(i);
            proof {
                assert(v@ =~= s0.subrange(0, i as int) + s0.subrange(i + 1, s0.len() as int));
                assert(v@.len() == s0.len() - 1);
                assert(forall|k: int| 0 <= k < i ==> #[trigger] v@[k] == s0[k]);
                assert(forall|k: int| i <= k < v@.len() ==> #[trigger] v@[k] == s0[k + 1]);
                assert forall|x: usize| v@.contains(x) <==> (s0.contains(x) && x != id) by {
                    if v@.contains(x) {
                        let k = choose|k: int| 0 <= k < v@.len() && v@[k] == x;
                        if k < i {
                            assert(s0[k] == x);
                            assert(s0[k] != id);
                        } else {
                            assert(s0[k + 1] == x);
                            assert(s0[i as int] < s0[k + 1]);
                        }
                        assert(s0.contains(x));
                        assert(x != id);
                    }
                    if s0.contains(x) && x != id {
                        let k = choose|k: int| 0 <= k < s0.len() && s0[k] == x;
                        if k < i {
                            assert(v@[k] == x);
                        } else {
                            assert(k > i);
                            assert(v@[k - 1] == x);
                        }
                        assert(v@.contains(x));
                    }
                }
                assert(s0.contains(id));
                assert forall|k1: int, k2: int| 0 <= k1 < k2 < v@.len() implies v@[k1]
                    < v@[k2] by {
                    if k2 < i {
                        assert(v@[k1] == s0[k1] && v@[k2] == s0[k2]);
                    } else if k1 < i {
                        assert(v@[k1] == s0[k1] && v@[k2] == s0[k2 + 1]);
                    } else {
                        assert(v@[k1] == s0[k1 + 1] && v@[k2] == s0[k2 + 1]);
                    }
                }
            }
            return ;
        }
        i = i + 1;
    }
    proof {
        if s0.contains(id) {
            let k = choose|k: int| 0 <= k < s0.len() && s0[k] == id;
            assert(false);
        }
    }
}

/// What synthesizing a propagate node does: one new Propagate node, an
/// edge from every active fence to it, an edge from it to every pending
/// propagate of its thread, and the new id appended to the pending set.
pub open spec fn prop_added_tso(
    g0: GraphV,
    g1: GraphV,
    pend0: Seq<Seq<usize>>,
    pend1: Seq<Seq<usize>>,
    thread_id: usize,
    address: i32,
    value: i32,
) -> bool {
    let id = g0.n() as usize;
    &&& g1.n() == g0.n() + 1
    &&& g1.nodes == g0.nodes.push(
        Node {
            id,
            thread_id,
            instruction: LabeledInstruction {
                label: None,
                instruction: Instruction::Propagate { thread_id, address, value },
            },
        },
    )
    &&& g1.is_active == g0.is_active.push(true)
    &&& g1.stack == g0.stack
    &&& g1.labels == g0.labels
    &&& forall|f: usize| #[trigger] g1.rev_edges[id as int].contains(f) <==> g0.is_active_fence(f)
    &&& forall|p: int|
        0 <= p < g0.n() ==> #[trigger] g1.rev_edges[p] == if pend0[thread_id as int].contains(
            p as usize,
        ) {
            g0.rev_edges[p].push(id)
        } else {
            g0.rev_edges[p]
        }
    &&& pend1 == pend0.update(thread_id as int, pend0[thread_id as int].push(id))
}

// ---------------------------------------------------------------------------
// The TSO thread system: mode edges only, plus synthesized Propagate
// nodes kept FIFO per thread.
// ---------------------------------------------------------------------------

pub struct TSOThreadSystem {
    pub graph: Graph,
    pub registers: Vec<Vec<(String, i32)>>,
    pub propagate_nodes: Vec<Vec<usize>>,
}

impl TSOThreadSystem {
    pub open spec fn regs(&self) -> Seq<Seq<(String, i32)>> {
        self.registers@.map_values(|v: Vec<(String, i32)>| v@)
    }

    pub open spec fn pending(&self) -> Seq<Seq<usize>> {
        self.propagate_nodes@.map_values(|v: Vec<usize>| v@)
    }

    /// Besides graph well-formedness: every pending propagate id names an
    /// active Propagate node of its own thread, listed once, in issue
    /// order (ids grow with issue order); and every Propagate payload
    /// names a real thread.
    pub open spec fn wf(&self) -> bool {
        &&& self.graph.wf()
        &&& forall|i: int|
            0 <= i < self.graph@.n() ==> (#[trigger] self.graph@.nodes[i]).thread_id
                < self.registers@.len()
        &&& self.propagate_nodes@.len() == self.registers@.len()
        &&& forall|t: int, k: int|
            0 <= t < self.pending().len() && 0 <= k < self.pending()[t].len() ==> {
                let p = #[trigger] self.pending()[t][k];
                &&& p < self.graph@.n()
                &&& self.graph@.is_active[p as int]
                &&& self.graph@.nodes[p as int].thread_id == t
                &&& self.graph@.nodes[p as int].instruction.instruction is Propagate
            }
        &&& forall|t: int, k1: int, k2: int|
            0 <= t < self.pending().len() && 0 <= k1 < k2 < self.pending()[t].len()
                ==> #[trigger] self.pending()[t][k1] < #[trigger] self.pending()[t][k2]
        &&& forall|i: int|
            0 <= i < self.graph@.n()
                ==> ((#[trigger] self.graph@.nodes[i]).instruction.instruction matches
            Instruction::Propagate { thread_id, .. } ==> thread_id < self.registers@.len())
    }

    /// Load a program: one node per instruction, release/acquire edges
    /// only. Programs never contain Propagate events; those are
    /// synthesized later.
    pub fn new(instructions: Vec<Vec<LabeledInstruction>>) -> (s: TSOThreadSystem)
        requires
            ({
                let ps = instructions@.map_values(|p: Vec<LabeledInstruction>| p@);
                let fl = flat_len(ps, ps.len() as int);
                &&& 2 * fl * fl + 1 <= usize::MAX as nat
                &&& forall|t: int, k: int|
                    0 <= t < ps.len() && 0 <= k < ps[t].len() ==> !((#[trigger] ps[t][k]).instruction
                        is Propagate)
            }),
        ensures
            s.wf(),
            s.registers@.len() == instructions@.len(),
            forall|t: int| 0 <= t < s.registers@.len() ==> #[trigger] s.regs()[t].len() == 0,
            s.propagate_nodes@.len() == instructions@.len(),
            forall|t: int| 0 <= t < s.pending().len() ==> #[trigger] s.pending()[t].len() == 0,
            nodes_built(s.graph@, instructions@.map_values(|p: Vec<LabeledInstruction>| p@)),
            forall|a: usize, b: usize|
                0 <= a < s.graph@.n() && 0 <= b < s.graph@.n() ==> (
                #[trigger] s.graph@.rev_edges[b as int].contains(a) <==> mode_edge(
                    instructions@.map_values(|p: Vec<LabeledInstruction>| p@),
                    a,
                    b,
                )),
    {
        let ghost ps = instructions@.map_values(|p: Vec<LabeledInstruction>| p@);
        let mut graph = Graph::new();
        let registers = empty_register_files(instructions.len());
        let mut propagate_nodes: Vec<Vec<usize>> = Vec::new();
        let mut i: usize = 0;
        let nt = instructions.len();
        while i < nt
            invariant
                i <= nt,
                propagate_nodes@.len() == i,
                forall|t: int| 0 <= t < i ==> #[trigger] propagate_nodes@[t]@.len() == 0,
            decreases nt - i,
        {
            propagate_nodes.push(Vec::new());
            i = i + 1;
        }
        proof {
            assert(flat_len(ps, ps.len() as int) <= 2 * flat_len(ps, ps.len() as int) * flat_len(
                ps,
                ps.len() as int,
            ) + 1) by (nonlinear_arith);
        }
        build_program_nodes(&mut graph, &instructions);
        wire_mode_edges(&mut graph, &instructions);
        let s = TSOThreadSystem { graph, registers, propagate_nodes };
        proof {
            assert forall|i2: int| 0 <= i2 < s.graph@.n() implies (
            #[trigger] s.graph@.nodes[i2]).thread_id < nt && !(s.graph@.nodes[i2].instruction.instruction
                is Propagate) by {
                lemma_node_id_surj(ps, i2, ps.len() as int);
                let (t2, k2) = choose|t2: int, k2: int|
                    0 <= t2 < ps.len() && 0 <= k2 < ps[t2].len() && i2 == #[trigger] node_id_of(
                        ps,
                        t2,
                        k2,
                    );
                assert(s.graph@.nodes[i2].thread_id == t2 as usize);
                assert(s.graph@.nodes[i2].instruction == ps[t2][k2]);
            }
        }
        s
    }

    /// Synthesize a Propagate node for a buffered store: every active
    /// fence waits on it, and it waits on every pending propagate of its
    /// thread (FIFO per thread).
    pub fn add_propagate_node(&mut self, thread_id: usize, address: i32, value: i32)
        requires
            old(self).wf(),
            thread_id < old(self).registers@.len(),
            old(self).graph@.n() < usize::MAX as int,
            total_edges(old(self).graph@.rev_edges) + 2 * old(self).graph@.n() + 1 <= usize::MAX
                as nat,
        ensures
            final(self).wf(),
            final(self).registers == old(self).registers,
            prop_added_tso(
                old(self).graph@,
                final(self).graph@,
                old(self).pending(),
                final(self).pending(),
                thread_id,
                address,
                value,
            ),
    {
        let ghost g0 = self.graph@;
        let ghost pend0 = self.pending()[thread_id as int];
        let id = self.graph.add_node(
            thread_id,
            LabeledInstruction {
                label: None,
                instruction: Instruction::Propagate { thread_id, address, value },
            },
        );
        let ghost g1 = self.graph@;
        let fences = self.graph.active_fence_nodes();
        proof {
            crate::graph::lemma_total_edges_push(
                g0.rev_edges,
                Seq::empty(),
                g0.rev_edges.len() as int,
            );
            assert(total_edges(g1.rev_edges) == crate::graph::total_edges_upto(
                g1.rev_edges,
                g0.n(),
            ) + g1.rev_edges[g0.n()].len());
            assert(g1.rev_edges[g0.n()].len() == 0);
            assert(self.graph@.rev_edges[id as int] =~= fences@.take(0));
            lemma_increasing_len(pend0, g0.n());
            assert forall|f: usize| #[trigger] g1.is_active_fence(f) <==> g0.is_active_fence(
                f,
            ) by {
                if f < g0.n() {
                } else if f == id {
                    assert(!g1.nodes[f as int].instruction.spec_is_fence());
                }
            }
        }
        let mut k: usize = 0;
        while k < fences.len()
            invariant
                self.graph.wf(),
                self.propagate_nodes == old(self).propagate_nodes,
                self.registers == old(self).registers,
                g0.n() < usize::MAX as int,
                total_edges(g0.rev_edges) + 2 * g0.n() + 1 <= usize::MAX as nat,
                id as int == g0.n(),
                g1 == g0.spec_add_node(
                    thread_id,
                    LabeledInstruction {
                        label: None,
                        instruction: Instruction::Propagate { thread_id, address, value },
                    },
                ),
                k <= fences@.len(),
                fences@.len() <= g1.n(),
                forall|k2: int| 0 <= k2 < fences@.len() ==> g1.is_active_fence(#[trigger] fences@[k2]),
                forall|f: usize| g1.is_active_fence(f) ==> fences@.contains(f),
                forall|k1: int, k2: int|
                    0 <= k1 < k2 < fences@.len() ==> fences@[k1] < fences@[k2],
                self.graph@.nodes == g1.nodes,
                self.graph@.is_active == g1.is_active,
                self.graph@.stack == g1.stack,
                self.graph@.labels == g1.labels,
                self.graph@.rev_edges.len() == g1.rev_edges.len(),
                self.graph@.rev_edges[id as int] == fences@.take(k as int),
                forall|p: int|
                    0 <= p < g0.n() ==> #[trigger] self.graph@.rev_edges[p] == g0.rev_edges[p],
                total_edges(self.graph@.rev_edges) == total_edges(g0.rev_edges) + k,
            decreases fences@.len() - k,
        {
            let ghost vpre = self.graph@;
            let f = fences[k];
            proof {
                assert(g1.is_active_fence(f));
                assert(g1.nodes[id as int].instruction.instruction is Propagate);
                assert(f != id);
                assert(g1.is_active[id as int] == g0.is_active.push(true)[g0.n()]);
                assert(total_edges(self.graph@.rev_edges) == total_edges(g0.rev_edges) + k);
                assert(k < fences@.len() && fences@.len() <= g0.n() + 1);
                assert(total_edges(self.graph@.rev_edges) < usize::MAX as nat);
            }
            self.graph.add_edge(f, id);
            proof {
                crate::graph::lemma_total_edges_update(
                    vpre.rev_edges,
                    id as int,
                    f,
                    vpre.rev_edges.len() as int,
                );
                assert(self.graph@.rev_edges[id as int] =~= fences@.take(k + 1));
            }
            k = k + 1;
        }
        proof {
            assert(fences@.take(fences@.len() as int) =~= fences@);
        }
        let mut k2: usize = 0;
        while k2 < self.propagate_nodes[thread_id].len()
            invariant
                self.graph.wf(),
                self.propagate_nodes == old(self).propagate_nodes,
                self.registers == old(self).registers,
                g0.n() < usize::MAX as int,
                total_edges(g0.rev_edges) + 2 * g0.n() + 1 <= usize::MAX as nat,
                id as int == g0.n(),
                thread_id < self.propagate_nodes@.len(),
                self.propagate_nodes@[thread_id as int]@ == pend0,
                forall|k3: int, k4: int| 0 <= k3 < k4 < pend0.len() ==> pend0[k3] < pend0[k4],
                forall|k3: int|
                    0 <= k3 < pend0.len() ==> {
                        let p = #[trigger] pend0[k3];
                        &&& p < g0.n()
                        &&& g0.is_active[p as int]
                    },
                pend0.len() <= g0.n(),
                k2 <= pend0.len(),
                g1 == g0.spec_add_node(
                    thread_id,
                    LabeledInstruction {
                        label: None,
                        instruction: Instruction::Propagate { thread_id, address, value },
                    },
                ),
                self.graph@.nodes == g1.nodes,
                self.graph@.is_active == g1.is_active,
                self.graph@.stack == g1.stack,
                self.graph@.labels == g1.labels,
                self.graph@.rev_edges.len() == g1.rev_edges.len(),
                forall|f: usize|
                    #[trigger] self.graph@.rev_edges[id as int].contains(f) <==> g0.is_active_fence(
                        f,
                    ),
                forall|p: int|
                    0 <= p < g0.n() ==> #[trigger] self.graph@.rev_edges[p] == if exists|k3: int|
                        0 <= k3 < k2 && pend0[k3] == p as usize {
                        g0.rev_edges[p].push(id)
                    } else {
                        g0.rev_edges[p]
                    },
                total_edges(self.graph@.rev_edges) == total_edges(g0.rev_edges) + fences@.len()
                    + k2,
                fences@.len() <= g1.n(),
            decreases pend0.len() - k2,
        {
            let ghost vpre = self.graph@;
            let p = self.propagate_nodes[thread_id][k2];
            proof {
                assert(pend0[k2 as int] == p);
                assert(p < g0.n() && g0.is_active[p as int]);
                assert(p != id);
                assert(self.graph@.is_active[id as int] == g0.is_active.push(true)[g0.n()]);
                assert(total_edges(self.graph@.rev_edges) == total_edges(g0.rev_edges)
                    + fences@.len() + k2);
                assert(k2 < pend0.len() && pend0.len() <= g0.n());
                assert(fences@.len() <= g0.n() + 1);
                assert(total_edges(self.graph@.rev_edges) < usize::MAX as nat);
                if exists|k3: int| 0 <= k3 < k2 && pend0[k3] == p {
                    let k3 = choose|k3: int| 0 <= k3 < k2 && pend0[k3] == p;
                    assert(pend0[k3] < pend0[k2 as int]);
                    assert(false);
                }
            }
            self.graph.add_edge(id, p);
            proof {
                crate::graph::lemma_total_edges_update(
                    vpre.rev_edges,
                    p as int,
                    id,
                    vpre.rev_edges.len() as int,
                );
                assert forall|q: int| 0 <= q < g0.n() implies #[trigger] self.graph@.rev_edges[q]
                    == if exists|k3: int| 0 <= k3 < k2 + 1 && pend0[k3] == q as usize {
                    g0.rev_edges[q].push(id)
                } else {
                    g0.rev_edges[q]
                } by {
                    if q == p {
                        assert(pend0[k2 as int] == q as usize);
                    } else {
                        if exists|k3: int| 0 <= k3 < k2 + 1 && pend0[k3] == q as usize {
                            let k3 = choose|k3: int| 0 <= k3 < k2 + 1 && pend0[k3] == q as usize;
                            assert(k3 < k2);
                        }
                    }
                }
                assert(self.graph@.rev_edges[id as int] == vpre.rev_edges[id as int]);
            }
            k2 = k2 + 1;
        }
        let ghost vfin = self.graph@;
        self.propagate_nodes[thread_id].push(id);
        proof {
            assert(self.pending() =~= old(self).pending().update(
                thread_id as int,
                pend0.push(id),
            ));
            assert forall|p: int| 0 <= p < g0.n() implies #[trigger] vfin.rev_edges[p]
                == if pend0.contains(p as usize) {
                g0.rev_edges[p].push(id)
            } else {
                g0.rev_edges[p]
            } by {}
            // the thread-system invariant
            assert forall|t: int, k3: int|
                0 <= t < self.pending().len() && 0 <= k3 < self.pending()[t].len() implies {
                let p = #[trigger] self.pending()[t][k3];
                &&& p < self.graph@.n()
                &&& self.graph@.is_active[p as int]
                &&& self.graph@.nodes[p as int].thread_id == t
                &&& self.graph@.nodes[p as int].instruction.instruction is Propagate
            } by {
                if t == thread_id && k3 == self.pending()[t].len() - 1 {
                    assert(self.graph@.nodes[id as int].thread_id == thread_id);
                } else {
                    assert(self.pending()[t][k3] == old(self).pending()[t][k3]);
                    assert(old(self).pending()[t][k3] < g0.n());
                }
            }
        }
    }

    /// The execution candidates, as full node copies.
    pub fn get_possible_executions(&self) -> (r: Vec<Node>)
        requires
            self.wf(),
        ensures
            forall|k: int|
                0 <= k < r@.len() ==> self.graph@.is_candidate(#[trigger] r@[k].id) && r@[k]
                    == self.graph@.nodes[r@[k].id as int],
            forall|i: usize|
                self.graph@.is_candidate(i) ==> exists|k: int|
                    0 <= k < r@.len() && (#[trigger] r@[k]).id == i,
            forall|k1: int, k2: int| 0 <= k1 < k2 < r@.len() ==> r@[k1].id < r@[k2].id,
            r@.len() == 0 <==> (forall|i: usize| !self.graph@.is_candidate(i)),
    {
        candidates_to_nodes(&self.graph)
    }

    pub fn assign_register(&mut self, thread_id: usize, register: String, value: i32)
        requires
            old(self).wf(),
            thread_id < old(self).registers@.len(),
        ensures
            final(self).wf(),
            final(self).graph == old(self).graph,
            final(self).propagate_nodes == old(self).propagate_nodes,
            final(self).registers@.len() == old(self).registers@.len(),
            final(self).regs() == old(self).regs().update(
                thread_id as int,
                old(self).regs()[thread_id as int].push((register, value)),
            ),
    {
        self.registers[thread_id].push((register, value));
        proof {
            assert(self.regs() =~= old(self).regs().update(
                thread_id as int,
                old(self).regs()[thread_id as int].push((register, value)),
            ));
        }
    }

    pub fn get_register(&self, thread_id: usize, register: String) -> (v: i32)
        requires
            self.wf(),
            thread_id < self.registers@.len(),
        ensures
            v == reg_get(self.regs()[thread_id as int], register@),
    {
        lookup_reg(&self.registers[thread_id], &register)
    }

    /// Remove an executed node; a Propagate node also leaves its thread's
    /// pending set.
    pub fn remove_node(&mut self, node: &Node)
        requires
            old(self).wf(),
            node.id < old(self).graph@.n(),
            old(self).graph@.nodes[node.id as int] == *node,
        ensures
            final(self).wf(),
            final(self).registers == old(self).registers,
            final(self).graph@ == if old(self).graph@.is_active[node.id as int] {
                old(self).graph@.spec_remove(node.id)
            } else {
                old(self).graph@
            },
            final(self).pending().len() == old(self).pending().len(),
            node.instruction.instruction is Propagate ==> {
                &&& forall|t: int|
                    0 <= t < old(self).pending().len() && t != node.thread_id
                        ==> #[trigger] final(self).pending()[t] == old(self).pending()[t]
                &&& forall|x: usize|
                    final(self).pending()[node.thread_id as int].contains(x) <==> (old(self).pending()[node.thread_id as int].contains(x) && x != node.id)
                &&& (old(self).pending()[node.thread_id as int].contains(node.id) ==> final(self).pending()[node.thread_id as int].len() == old(self).pending()[node.thread_id as int].len()
                    - 1)
                &&& (!old(self).pending()[node.thread_id as int].contains(node.id) ==> final(self).pending()[node.thread_id as int] == old(self).pending()[node.thread_id as int])
            },
            !(node.instruction.instruction is Propagate) ==> final(self).pending() == old(self).pending(),
    {
        let is_prop = node.instruction.is_propagate();
        if is_prop {
            proof {
                assert(node.thread_id < self.propagate_nodes@.len());
                let t = node.thread_id as int;
                assert forall|k1: int, k2: int|
                    0 <= k1 < k2 < self.propagate_nodes@[t]@.len() implies
                    self.propagate_nodes@[t]@[k1] < self.propagate_nodes@[t]@[k2] by {
                    assert(self.pending()[t][k1] < self.pending()[t][k2]);
                }
            }
            remove_pending_id(&mut self.propagate_nodes[node.thread_id], node.id);
            proof {
                assert forall|t: int|
                    0 <= t < old(self).pending().len() && t != node.thread_id implies
                    #[trigger] self.pending()[t] == old(self).pending()[t] by {}
            }
        }
        self.graph.remove_node(node.id);
        proof {
            // pending ids other than the removed one stay active
            assert forall|t: int, k3: int|
                0 <= t < self.pending().len() && 0 <= k3 < self.pending()[t].len() implies {
                let p = #[trigger] self.pending()[t][k3];
                &&& p < self.graph@.n()
                &&& self.graph@.is_active[p as int]
                &&& self.graph@.nodes[p as int].thread_id == t
                &&& self.graph@.nodes[p as int].instruction.instruction is Propagate
            } by {
                let p = self.pending()[t][k3];
                if t == node.thread_id && is_prop {
                    assert(self.pending()[t].contains(p));
                    assert(old(self).pending()[t].contains(p));
                    assert(p != node.id);
                } else {
                    assert(old(self).pending()[t][k3] == p);
                    assert(old(self).pending()[t].contains(p)) by {
                        assert(old(self).pending()[t][k3] == p);
                    }
                    assert(old(self).graph@.nodes[p as int].thread_id == t);
                    if p == node.id && !is_prop {
                        assert(old(self).graph@.nodes[p as int].instruction.instruction
                            is Propagate);
                        assert(false);
                    }
                    assert(p != node.id);
                }
            }
            // order is kept: membership removal preserves relative order
            assert forall|t: int, k1: int, k4: int|
                0 <= t < self.pending().len() && 0 <= k1 < k4 < self.pending()[t].len() implies
                #[trigger] self.pending()[t][k1] < #[trigger] self.pending()[t][k4] by {
                if is_prop && t == node.thread_id {
                    assert(self.pending()[t] == self.propagate_nodes@[t]@);
                    assert(self.propagate_nodes@[t]@[k1] < self.propagate_nodes@[t]@[k4]);
                } else {
                    assert(self.pending()[t] == old(self).pending()[t]);
                    assert(old(self).pending()[t][k1] < old(self).pending()[t][k4]);
                }
            }
        }
    }

    /// A jump: nothing happens when the target label is still active (or
    /// unknown); a backward jump rewinds the graph until the label's node
    /// is restored. The pending-propagate sets are not rewound.
    pub fn goto(&mut self, label: String)
        requires
            old(self).wf(),
        ensures
            final(self).wf(),
            final(self).registers == old(self).registers,
            final(self).propagate_nodes == old(self).propagate_nodes,
            final(self).graph@ == spec_goto(old(self).graph@, label@),
    {
        let lc = label.clone();
        if !self.graph.is_label_active(lc) {
            proof {
                lemma_rewind_shape(self.graph@, label@);
            }
            rewind_to_label(&mut self.graph, label);
        }
    }
}


impl ThreadSystem for TSOThreadSystem {
    open spec fn ts_wf(&self) -> bool {
        self.wf()
    }

    open spec fn ts_graph(&self) -> GraphV {
        self.graph@
    }

    open spec fn ts_regs(&self) -> Seq<Seq<(String, i32)>> {
        self.regs()
    }

    open spec fn same_pending(&self, post: Self) -> bool {
        post.propagate_nodes == self.propagate_nodes
    }

    fn get_possible_executions(&self) -> (r: Vec<Node>) {
        let r = TSOThreadSystem::get_possible_executions(self);
        proof {
            assert(self.ts_graph() == self.graph@);
            if r@.len() == 0 {
                assert forall|i: usize| !self.ts_graph().is_candidate(i) by {
                    assert(!self.graph@.is_candidate(i));
                }
            } else {
                assert(self.ts_graph().is_candidate(r@[0].id));
            }
        }
        r
    }

    fn assign_register(&mut self, thread_id: usize, register: String, value: i32) {
        TSOThreadSystem::assign_register(self, thread_id, register, value)
    }

    fn get_register(&self, thread_id: usize, register: String) -> (v: i32) {
        TSOThreadSystem::get_register(self, thread_id, register)
    }

    fn remove_node(&mut self, node: &Node) {
        TSOThreadSystem::remove_node(self, node)
    }

    fn goto(&mut self, label: String) {
        TSOThreadSystem::goto(self, label)
    }
}

/// Remove one `(id, address)` entry from a pending list whose ids grow
/// strictly; a no-op when the pair is not listed.
fn remove_pending_pair(v: &mut Vec<(usize, i32)>, id: usize, address: i32)
    requires
        forall|k1: int, k2: int|
            0 <= k1 < k2 < old(v)@.len() ==> (#[trigger] old(v)@[k1]).0 < (#[trigger] old(v)@[k2]).0,
    ensures
        forall|k1: int, k2: int|
            0 <= k1 < k2 < final(v)@.len() ==> (#[trigger] final(v)@[k1]).0 < (#[trigger] final(v)@[k2]).0,
        forall|x: (usize, i32)|
            final(v)@.contains(x) <==> (old(v)@.contains(x) && x != (id, address)),
        old(v)@.contains((id, address)) ==> final(v)@.len() == old(v)@.len() - 1,
        !old(v)@.contains((id, address)) ==> final(v)@ == old(v)@,
{
    let ghost s0 = v@;
    let mut i: usize = 0;
    while i < v.len()
        invariant
            v@ == s0,
            old(v)@ == s0,
            i <= s0.len(),
            forall|k1: int, k2: int|
                0 <= k1 < k2 < s0.len() ==> (#[trigger] s0[k1]).0 < (#[trigger] s0[k2]).0,
            forall|k: int| 0 <= k < i ==> #[trigger] s0[k] != (id, address),
        decreases s0.len() - i,
    {
        if v[i].0 == id && v[i].1 == address {
            proof {
                assert(s0[i as int] == (id, address));
            }
            v.remove(i);
            proof {
                assert(v@ =~= s0.subrange(0, i as int) + s0.subrange(i + 1, s0.len() as int));
                assert(v@.len() == s0.len() - 1);
                assert(forall|k: int| 0 <= k < i ==> #[trigger] v@[k] == s0[k]);
                assert(forall|k: int| i <= k < v@.len() ==> #[trigger] v@[k] == s0[k + 1]);
                assert forall|x: (usize, i32)| v@.contains(x) <==> (s0.contains(x) && x != (
                id,
                address,
                )) by {
                    if v@.contains(x) {
                        let k = choose|k: int| 0 <= k < v@.len() && v@[k] == x;
                        if k < i {
                            assert(s0[k] == x);
                            assert(s0[k] != (id, address));
                        } else {
                            assert(s0[k + 1] == x);
                            assert(s0[i as int].0 < s0[k + 1].0);
                        }
                        assert(s0.contains(x));
                        assert(x != (id, address));
                    }
                    if s0.contains(x) && x != (id, address) {
                        let k = choose|k: int| 0 <= k < s0.len() && s0[k] == x;
                        if k < i {
                            assert(v@[k] == x);
                        } else {
                            if k == i {
                                assert(false);
                            }
                            assert(v@[k - 1] == x);
                        }
                        assert(v@.contains(x));
                    }
                }
                assert(s0.contains((id, address)));
                assert forall|k1: int, k2: int| 0 <= k1 < k2 < v@.len() implies (
                #[trigger] v@[k1]).0 < (#[trigger] v@[k2]).0 by {
                    if k2 < i {
                        assert(v@[k1] == s0[k1] && v@[k2] == s0[k2]);
                    } else if k1 < i {
                        assert(v@[k1] == s0[k1] && v@[k2] == s0[k2 + 1]);
                    } else {
                        assert(v@[k1] == s0[k1 + 1] && v@[k2] == s0[k2 + 1]);
                    }
                }
            }
            return ;
        }
        proof {
            if s0[i as int] == (id, address) {
                assert(false);
            }
        }
        i = i + 1;
    }
    proof {
        if s0.contains((id, address)) {
            let k = choose|k: int| 0 <= k < s0.len() && s0[k] == (id, address);
            assert(false);
        }
    }
}

/// Like `prop_added_tso`, but the new propagate only waits on pending
/// propagates that target the same address.
pub open spec fn prop_added_pso(
    g0: GraphV,
    g1: GraphV,
    pend0: Seq<Seq<(usize, i32)>>,
    pend1: Seq<Seq<(usize, i32)>>,
    thread_id: usize,
    address: i32,
    value: i32,
) -> bool {
    let id = g0.n() as usize;
    &&& g1.n() == g0.n() + 1
    &&& g1.nodes == g0.nodes.push(
        Node {
            id,
            thread_id,
            instruction: LabeledInstruction {
                label: None,
                instruction: Instruction::Propagate { thread_id, address, value },
            },
        },
    )
    &&& g1.is_active == g0.is_active.push(true)
    &&& g1.stack == g0.stack
    &&& g1.labels == g0.labels
    &&& forall|f: usize| #[trigger] g1.rev_edges[id as int].contains(f) <==> g0.is_active_fence(f)
    &&& forall|p: int|
        0 <= p < g0.n() ==> #[trigger] g1.rev_edges[p] == if pend0[thread_id as int].contains(
            (p as usize, address),
        ) {
            g0.rev_edges[p].push(id)
        } else {
            g0.rev_edges[p]
        }
    &&& pend1 == pend0.update(thread_id as int, pend0[thread_id as int].push((id, address)))
}

// ---------------------------------------------------------------------------
// The PSO thread system: like TSO, but pending propagates are keyed by
// address, so propagates to distinct addresses may overtake each other.
// ---------------------------------------------------------------------------

pub struct PSOThreadSystem {
    pub graph: Graph,
    pub registers: Vec<Vec<(String, i32)>>,
    pub propagate_nodes: Vec<Vec<(usize, i32)>>,
}

impl PSOThreadSystem {
    pub open spec fn regs(&self) -> Seq<Seq<(String, i32)>> {
        self.registers@.map_values(|v: Vec<(String, i32)>| v@)
    }

    pub open spec fn pending(&self) -> Seq<Seq<(usize, i32)>> {
        self.propagate_nodes@.map_values(|v: Vec<(usize, i32)>| v@)
    }

    /// Besides graph well-formedness: every pending entry names an active
    /// Propagate node of its own thread together with that node's
    /// address, listed once, in issue order.
    pub open spec fn wf(&self) -> bool {
        &&& self.graph.wf()
        &&& forall|i: int|
            0 <= i < self.graph@.n() ==> (#[trigger] self.graph@.nodes[i]).thread_id
                < self.registers@.len()
        &&& self.propagate_nodes@.len() == self.registers@.len()
        &&& forall|t: int, k: int|
            0 <= t < self.pending().len() && 0 <= k < self.pending()[t].len() ==> {
                let e = #[trigger] self.pending()[t][k];
                &&& e.0 < self.graph@.n()
                &&& self.graph@.is_active[e.0 as int]
                &&& self.graph@.nodes[e.0 as int].thread_id == t
                &&& (self.graph@.nodes[e.0 as int].instruction.instruction matches
                Instruction::Propagate { address, .. } && address == e.1)
            }
        &&& forall|t: int, k1: int, k2: int|
            0 <= t < self.pending().len() && 0 <= k1 < k2 < self.pending()[t].len() ==> (
            #[trigger] self.pending()[t][k1]).0 < (#[trigger] self.pending()[t][k2]).0
        &&& forall|i: int|
            0 <= i < self.graph@.n()
                ==> ((#[trigger] self.graph@.nodes[i]).instruction.instruction matches
            Instruction::Propagate { thread_id, .. } ==> thread_id < self.registers@.len())
    }

    /// Load a program: one node per instruction, release/acquire edges
    /// only. Programs never contain Propagate events.
    pub fn new(instructions: Vec<Vec<LabeledInstruction>>) -> (s: PSOThreadSystem)
        requires
            ({
                let ps = instructions@.map_values(|p: Vec<LabeledInstruction>| p@);
                let fl = flat_len(ps, ps.len() as int);
                &&& 2 * fl * fl + 1 <= usize::MAX as nat
                &&& forall|t: int, k: int|
                    0 <= t < ps.len() && 0 <= k < ps[t].len() ==> !((#[trigger] ps[t][k]).instruction
                        is Propagate)
            }),
        ensures
            s.wf(),
            s.registers@.len() == instructions@.len(),
            forall|t: int| 0 <= t < s.registers@.len() ==> #[trigger] s.regs()[t].len() == 0,
            s.propagate_nodes@.len() == instructions@.len(),
            forall|t: int| 0 <= t < s.pending().len() ==> #[trigger] s.pending()[t].len() == 0,
            nodes_built(s.graph@, instructions@.map_values(|p: Vec<LabeledInstruction>| p@)),
            forall|a: usize, b: usize|
                0 <= a < s.graph@.n() && 0 <= b < s.graph@.n() ==> (
                #[trigger] s.graph@.rev_edges[b as int].contains(a) <==> mode_edge(
                    instructions@.map_values(|p: Vec<LabeledInstruction>| p@),
                    a,
                    b,
                )),
    {
        let ghost ps = instructions@.map_values(|p: Vec<LabeledInstruction>| p@);
        let mut graph = Graph::new();
        let registers = empty_register_files(instructions.len());
        let mut propagate_nodes: Vec<Vec<(usize, i32)>> = Vec::new();
        let mut i: usize = 0;
        let nt = instructions.len();
        while i < nt
            invariant
                i <= nt,
                propagate_nodes@.len() == i,
                forall|t: int| 0 <= t < i ==> #[trigger] propagate_nodes@[t]@.len() == 0,
            decreases nt - i,
        {
            propagate_nodes.push(Vec::new());
            i = i + 1;
        }
        proof {
            assert(flat_len(ps, ps.len() as int) <= 2 * flat_len(ps, ps.len() as int) * flat_len(
                ps,
                ps.len() as int,
            ) + 1) by (nonlinear_arith);
        }
        build_program_nodes(&mut graph, &instructions);
        wire_mode_edges(&mut graph, &instructions);
        let s = PSOThreadSystem { graph, registers, propagate_nodes };
        proof {
            assert forall|i2: int| 0 <= i2 < s.graph@.n() implies (
            #[trigger] s.graph@.nodes[i2]).thread_id < nt && !(s.graph@.nodes[i2].instruction.instruction
                is Propagate) by {
                lemma_node_id_surj(ps, i2, ps.len() as int);
                let (t2, k2) = choose|t2: int, k2: int|
                    0 <= t2 < ps.len() && 0 <= k2 < ps[t2].len() && i2 == #[trigger] node_id_of(
                        ps,
                        t2,
                        k2,
                    );
                assert(s.graph@.nodes[i2].thread_id == t2 as usize);
                assert(s.graph@.nodes[i2].instruction == ps[t2][k2]);
            }
        }
        s
    }

    /// Synthesize a Propagate node for a buffered store: every active
    /// fence waits on it, and it waits on every pending propagate of its
    /// thread that targets the same address (FIFO per thread and
    /// address).
    pub fn add_propagate_node(&mut self, thread_id: usize, address: i32, value: i32)
        requires
            old(self).wf(),
            thread_id < old(self).registers@.len(),
            old(self).graph@.n() < usize::MAX as int,
            total_edges(old(self).graph@.rev_edges) + 2 * old(self).graph@.n() + 1 <= usize::MAX
                as nat,
        ensures
            final(self).wf(),
            final(self).registers == old(self).registers,
            prop_added_pso(
                old(self).graph@,
                final(self).graph@,
                old(self).pending(),
                final(self).pending(),
                thread_id,
                address,
                value,
            ),
    {
        let ghost g0 = self.graph@;
        let ghost pend0 = self.pending()[thread_id as int];
        let id = self.graph.add_node(
            thread_id,
            LabeledInstruction {
                label: None,
                instruction: Instruction::Propagate { thread_id, address, value },
            },
        );
        let ghost g1 = self.graph@;
        let fences = self.graph.active_fence_nodes();
        proof {
            crate::graph::lemma_total_edges_push(
                g0.rev_edges,
                Seq::empty(),
                g0.rev_edges.len() as int,
            );
            assert(total_edges(g1.rev_edges) == crate::graph::total_edges_upto(
                g1.rev_edges,
                g0.n(),
            ) + g1.rev_edges[g0.n()].len());
            assert(g1.rev_edges[g0.n()].len() == 0);
            assert(self.graph@.rev_edges[id as int] =~= fences@.take(0));
            assert forall|k3: int, k4: int| 0 <= k3 < k4 < pend0.len() implies (
            #[trigger] pend0[k3]).0 < (#[trigger] pend0[k4]).0 by {}
            let ids = pend0.map_values(|e: (usize, i32)| e.0);
            assert forall|k3: int, k4: int| 0 <= k3 < k4 < ids.len() implies ids[k3]
                < ids[k4] by {
                assert(pend0[k3].0 < pend0[k4].0);
            }
            assert(forall|k3: int| 0 <= k3 < ids.len() ==> #[trigger] ids[k3] < g0.n());
            lemma_increasing_len(ids, g0.n());
            assert(pend0.len() <= g0.n());
            assert forall|f: usize| #[trigger] g1.is_active_fence(f) <==> g0.is_active_fence(
                f,
            ) by {
                if f < g0.n() {
                } else if f == id {
                    assert(!g1.nodes[f as int].instruction.spec_is_fence());
                }
            }
        }
        let mut k: usize = 0;
        while k < fences.len()
            invariant
                self.graph.wf(),
                self.propagate_nodes == old(self).propagate_nodes,
                self.registers == old(self).registers,
                g0.n() < usize::MAX as int,
                total_edges(g0.rev_edges) + 2 * g0.n() + 1 <= usize::MAX as nat,
                id as int == g0.n(),
                g1 == g0.spec_add_node(
                    thread_id,
                    LabeledInstruction {
                        label: None,
                        instruction: Instruction::Propagate { thread_id, address, value },
                    },
                ),
                k <= fences@.len(),
                fences@.len() <= g1.n(),
                forall|k2: int| 0 <= k2 < fences@.len() ==> g1.is_active_fence(#[trigger] fences@[k2]),
                forall|f: usize| g1.is_active_fence(f) ==> fences@.contains(f),
                forall|k1: int, k2: int|
                    0 <= k1 < k2 < fences@.len() ==> fences@[k1] < fences@[k2],
                self.graph@.nodes == g1.nodes,
                self.graph@.is_active == g1.is_active,
                self.graph@.stack == g1.stack,
                self.graph@.labels == g1.labels,
                self.graph@.rev_edges.len() == g1.rev_edges.len(),
                self.graph@.rev_edges[id as int] == fences@.take(k as int),
                forall|p: int|
                    0 <= p < g0.n() ==> #[trigger] self.graph@.rev_edges[p] == g0.rev_edges[p],
                total_edges(self.graph@.rev_edges) == total_edges(g0.rev_edges) + k,
            decreases fences@.len() - k,
        {
            let ghost vpre = self.graph@;
            let f = fences[k];
            proof {
                assert(g1.is_active_fence(f));
                assert(g1.nodes[id as int].instruction.instruction is Propagate);
                assert(f != id);
                assert(g1.is_active[id as int] == g0.is_active.push(true)[g0.n()]);
                assert(total_edges(self.graph@.rev_edges) == total_edges(g0.rev_edges) + k);
                assert(k < fences@.len() && fences@.len() <= g0.n() + 1);
                assert(total_edges(self.graph@.rev_edges) < usize::MAX as nat);
            }
            self.graph.add_edge(f, id);
            proof {
                crate::graph::lemma_total_edges_update(
                    vpre.rev_edges,
                    id as int,
                    f,
                    vpre.rev_edges.len() as int,
                );
                assert(self.graph@.rev_edges[id as int] =~= fences@.take(k + 1));
            }
            k = k + 1;
        }
        proof {
            assert(fences@.take(fences@.len() as int) =~= fences@);
        }
        let mut k2: usize = 0;
        while k2 < self.propagate_nodes[thread_id].len()
            invariant
                self.graph.wf(),
                self.propagate_nodes == old(self).propagate_nodes,
                self.registers == old(self).registers,
                g0.n() < usize::MAX as int,
                total_edges(g0.rev_edges) + 2 * g0.n() + 1 <= usize::MAX as nat,
                id as int == g0.n(),
                thread_id < self.propagate_nodes@.len(),
                self.propagate_nodes@[thread_id as int]@ == pend0,
                forall|k3: int, k4: int|
                    0 <= k3 < k4 < pend0.len() ==> (#[trigger] pend0[k3]).0 < (
                    #[trigger] pend0[k4]).0,
                forall|k3: int|
                    0 <= k3 < pend0.len() ==> {
                        let e = #[trigger] pend0[k3];
                        &&& e.0 < g0.n()
                        &&& g0.is_active[e.0 as int]
                    },
                pend0.len() <= g0.n(),
                k2 <= pend0.len(),
                g1 == g0.spec_add_node(
                    thread_id,
                    LabeledInstruction {
                        label: None,
                        instruction: Instruction::Propagate { thread_id, address, value },
                    },
                ),
                self.graph@.nodes == g1.nodes,
                self.graph@.is_active == g1.is_active,
                self.graph@.stack == g1.stack,
                self.graph@.labels == g1.labels,
                self.graph@.rev_edges.len() == g1.rev_edges.len(),
                forall|f: usize|
                    #[trigger] self.graph@.rev_edges[id as int].contains(f) <==> g0.is_active_fence(
                        f,
                    ),
                forall|p: int|
                    0 <= p < g0.n() ==> #[trigger] self.graph@.rev_edges[p] == if exists|k3: int|
                        0 <= k3 < k2 && pend0[k3] == (p as usize, address) {
                        g0.rev_edges[p].push(id)
                    } else {
                        g0.rev_edges[p]
                    },
                total_edges(self.graph@.rev_edges) <= total_edges(g0.rev_edges) + fences@.len()
                    + k2,
                fences@.len() <= g1.n(),
            decreases pend0.len() - k2,
        {
            let ghost vpre = self.graph@;
            let p = self.propagate_nodes[thread_id][k2].0;
            let a = self.propagate_nodes[thread_id][k2].1;
            proof {
                assert(pend0[k2 as int] == (p, a));
                assert(p < g0.n() && g0.is_active[p as int]);
                assert(p != id);
                assert(self.graph@.is_active[id as int] == g0.is_active.push(true)[g0.n()]);
                assert(total_edges(self.graph@.rev_edges) <= total_edges(g0.rev_edges)
                    + fences@.len() + k2);
                assert(k2 < pend0.len() && pend0.len() <= g0.n());
                assert(fences@.len() <= g0.n() + 1);
                assert(total_edges(self.graph@.rev_edges) < usize::MAX as nat);
                if exists|k3: int| 0 <= k3 < k2 && pend0[k3] == (p, address) {
                    let k3 = choose|k3: int| 0 <= k3 < k2 && pend0[k3] == (p, address);
                    assert(pend0[k3].0 < pend0[k2 as int].0);
                    assert(false);
                }
            }
            if a == address {
                self.graph.add_edge(id, p);
                proof {
                    crate::graph::lemma_total_edges_update(
                        vpre.rev_edges,
                        p as int,
                        id,
                        vpre.rev_edges.len() as int,
                    );
                    assert forall|q: int| 0 <= q < g0.n() implies #[trigger] self.graph@.rev_edges[q]
                        == if exists|k3: int| 0 <= k3 < k2 + 1 && pend0[k3] == (
                        q as usize,
                        address,
                    ) {
                        g0.rev_edges[q].push(id)
                    } else {
                        g0.rev_edges[q]
                    } by {
                        if q == p {
                            assert(pend0[k2 as int] == (q as usize, address));
                        } else {
                            if exists|k3: int| 0 <= k3 < k2 + 1 && pend0[k3] == (
                                q as usize,
                                address,
                            ) {
                                let k3 = choose|k3: int|
                                    0 <= k3 < k2 + 1 && pend0[k3] == (q as usize, address);
                                assert(k3 < k2);
                            }
                        }
                    }
                    assert(self.graph@.rev_edges[id as int] == vpre.rev_edges[id as int]);
                }
            } else {
                proof {
                    assert forall|q: int| 0 <= q < g0.n() implies #[trigger] self.graph@.rev_edges[q]
                        == if exists|k3: int| 0 <= k3 < k2 + 1 && pend0[k3] == (
                        q as usize,
                        address,
                    ) {
                        g0.rev_edges[q].push(id)
                    } else {
                        g0.rev_edges[q]
                    } by {
                        if exists|k3: int| 0 <= k3 < k2 + 1 && pend0[k3] == (q as usize, address) {
                            let k3 = choose|k3: int|
                                0 <= k3 < k2 + 1 && pend0[k3] == (q as usize, address);
                            if k3 == k2 {
                                assert(pend0[k2 as int] == (p, a));
                                assert(false);
                            }
                            assert(k3 < k2);
                        }
                    }
                }
            }
            k2 = k2 + 1;
        }
        let ghost vfin = self.graph@;
        self.propagate_nodes[thread_id].push((id, address));
        proof {
            assert(self.pending() =~= old(self).pending().update(
                thread_id as int,
                pend0.push((id, address)),
            ));
            assert forall|p: int| 0 <= p < g0.n() implies #[trigger] vfin.rev_edges[p]
                == if pend0.contains((p as usize, address)) {
                g0.rev_edges[p].push(id)
            } else {
                g0.rev_edges[p]
            } by {}
            assert forall|t: int, k3: int|
                0 <= t < self.pending().len() && 0 <= k3 < self.pending()[t].len() implies {
                let e = #[trigger] self.pending()[t][k3];
                &&& e.0 < self.graph@.n()
                &&& self.graph@.is_active[e.0 as int]
                &&& self.graph@.nodes[e.0 as int].thread_id == t
                &&& (self.graph@.nodes[e.0 as int].instruction.instruction matches
                Instruction::Propagate { address: a2, .. } && a2 == e.1)
            } by {
                if t == thread_id && k3 == self.pending()[t].len() - 1 {
                    assert(self.graph@.nodes[id as int].thread_id == thread_id);
                } else {
                    assert(self.pending()[t][k3] == old(self).pending()[t][k3]);
                    assert(old(self).pending()[t][k3].0 < g0.n());
                }
            }
        }
    }

    /// The execution candidates, as full node copies.
    pub fn get_possible_executions(&self) -> (r: Vec<Node>)
        requires
            self.wf(),
        ensures
            forall|k: int|
                0 <= k < r@.len() ==> self.graph@.is_candidate(#[trigger] r@[k].id) && r@[k]
                    == self.graph@.nodes[r@[k].id as int],
            forall|i: usize|
                self.graph@.is_candidate(i) ==> exists|k: int|
                    0 <= k < r@.len() && (#[trigger] r@[k]).id == i,
            forall|k1: int, k2: int| 0 <= k1 < k2 < r@.len() ==> r@[k1].id < r@[k2].id,
            r@.len() == 0 <==> (forall|i: usize| !self.graph@.is_candidate(i)),
    {
        candidates_to_nodes(&self.graph)
    }

    pub fn assign_register(&mut self, thread_id: usize, register: String, value: i32)
        requires
            old(self).wf(),
            thread_id < old(self).registers@.len(),
        ensures
            final(self).wf(),
            final(self).graph == old(self).graph,
            final(self).propagate_nodes == old(self).propagate_nodes,
            final(self).registers@.len() == old(self).registers@.len(),
            final(self).regs() == old(self).regs().update(
                thread_id as int,
                old(self).regs()[thread_id as int].push((register, value)),
            ),
    {
        self.registers[thread_id].push((register, value));
        proof {
            assert(self.regs() =~= old(self).regs().update(
                thread_id as int,
                old(self).regs()[thread_id as int].push((register, value)),
            ));
        }
    }

    pub fn get_register(&self, thread_id: usize, register: String) -> (v: i32)
        requires
            self.wf(),
            thread_id < self.registers@.len(),
        ensures
            v == reg_get(self.regs()[thread_id as int], register@),
    {
        lookup_reg(&self.registers[thread_id], &register)
    }

    /// Remove an executed node; a Propagate node also leaves its thread's
    /// pending set, keyed by its id and address.
    pub fn remove_node(&mut self, node: &Node)
        requires
            old(self).wf(),
            node.id < old(self).graph@.n(),
            old(self).graph@.nodes[node.id as int] == *node,
        ensures
            final(self).wf(),
            final(self).registers == old(self).registers,
            final(self).graph@ == if old(self).graph@.is_active[node.id as int] {
                old(self).graph@.spec_remove(node.id)
            } else {
                old(self).graph@
            },
            final(self).pending().len() == old(self).pending().len(),
            (node.instruction.instruction matches Instruction::Propagate { address, .. } ==> {
                &&& forall|t: int|
                    0 <= t < old(self).pending().len() && t != node.thread_id
                        ==> #[trigger] final(self).pending()[t] == old(self).pending()[t]
                &&& forall|x: (usize, i32)|
                    final(self).pending()[node.thread_id as int].contains(x) <==> (old(
                        self,
                    ).pending()[node.thread_id as int].contains(x) && x != (node.id, address))
            }),
            !(node.instruction.instruction is Propagate) ==> final(self).pending() == old(
                self,
            ).pending(),
    {
        let mut removed = false;
        match &node.instruction.instruction {
            Instruction::Propagate { address, .. } => {
                let addr = *address;
                proof {
                    assert(node.thread_id < self.propagate_nodes@.len());
                    let t = node.thread_id as int;
                    assert forall|k1: int, k2: int|
                        0 <= k1 < k2 < self.propagate_nodes@[t]@.len() implies (
                    #[trigger] self.propagate_nodes@[t]@[k1]).0 < (
                    #[trigger] self.propagate_nodes@[t]@[k2]).0 by {
                        assert(self.pending()[t][k1].0 < self.pending()[t][k2].0);
                    }
                }
                remove_pending_pair(&mut self.propagate_nodes[node.thread_id], node.id, addr);
                proof {
                    assert forall|t: int|
                        0 <= t < old(self).pending().len() && t != node.thread_id implies
                        #[trigger] self.pending()[t] == old(self).pending()[t] by {}
                }
                removed = true;
            },
            _ => {},
        }
        let ghost mid = *self;
        self.graph.remove_node(node.id);
        proof {
            assert forall|t: int, k3: int|
                0 <= t < self.pending().len() && 0 <= k3 < self.pending()[t].len() implies {
                let e = #[trigger] self.pending()[t][k3];
                &&& e.0 < self.graph@.n()
                &&& self.graph@.is_active[e.0 as int]
                &&& self.graph@.nodes[e.0 as int].thread_id == t
                &&& (self.graph@.nodes[e.0 as int].instruction.instruction matches
                Instruction::Propagate { address: a2, .. } && a2 == e.1)
            } by {
                let e = self.pending()[t][k3];
                if removed && t == node.thread_id {
                    assert(self.pending()[t].contains(e));
                    assert(old(self).pending()[t].contains(e));
                    if e.0 == node.id {
                        assert(old(self).graph@.nodes[e.0 as int].instruction.instruction matches
                            Instruction::Propagate { address: a2, .. } && a2 == e.1);
                        assert(false);
                    }
                } else {
                    assert(old(self).pending()[t][k3] == e);
                    assert(old(self).pending()[t].contains(e)) by {
                        assert(old(self).pending()[t][k3] == e);
                    }
                    assert(old(self).graph@.nodes[e.0 as int].thread_id == t);
                    if e.0 == node.id && !removed {
                        assert(old(self).graph@.nodes[e.0 as int].instruction.instruction
                            is Propagate);
                        assert(false);
                    }
                }
            }
            assert forall|t: int, k1: int, k4: int|
                0 <= t < self.pending().len() && 0 <= k1 < k4 < self.pending()[t].len() implies (
            #[trigger] self.pending()[t][k1]).0 < (#[trigger] self.pending()[t][k4]).0 by {
                if removed && t == node.thread_id {
                    assert(self.pending()[t] == self.propagate_nodes@[t]@);
                } else {
                    assert(self.pending()[t] == old(self).pending()[t]);
                    assert(old(self).pending()[t][k1].0 < old(self).pending()[t][k4].0);
                }
            }
        }
    }

    /// A jump: nothing happens when the target label is still active (or
    /// unknown); a backward jump rewinds the graph until the label's node
    /// is restored. The pending-propagate sets are not rewound.
    pub fn goto(&mut self, label: String)
        requires
            old(self).wf(),
        ensures
            final(self).wf(),
            final(self).registers == old(self).registers,
            final(self).propagate_nodes == old(self).propagate_nodes,
            final(self).graph@ == spec_goto(old(self).graph@, label@),
    {
        let lc = label.clone();
        if !self.graph.is_label_active(lc) {
            proof {
                lemma_rewind_shape(self.graph@, label@);
            }
            rewind_to_label(&mut self.graph, label);
        }
    }
}


impl ThreadSystem for PSOThreadSystem {
    open spec fn ts_wf(&self) -> bool {
        self.wf()
    }

    open spec fn ts_graph(&self) -> GraphV {
        self.graph@
    }

    open spec fn ts_regs(&self) -> Seq<Seq<(String, i32)>> {
        self.regs()
    }

    open spec fn same_pending(&self, post: Self) -> bool {
        post.propagate_nodes == self.propagate_nodes
    }

    fn get_possible_executions(&self) -> (r: Vec<Node>) {
        let r = PSOThreadSystem::get_possible_executions(self);
        proof {
            assert(self.ts_graph() == self.graph@);
            if r@.len() == 0 {
                assert forall|i: usize| !self.ts_graph().is_candidate(i) by {
                    assert(!self.graph@.is_candidate(i));
                }
            } else {
                assert(self.ts_graph().is_candidate(r@[0].id));
            }
        }
        r
    }

    fn assign_register(&mut self, thread_id: usize, register: String, value: i32) {
        PSOThreadSystem::assign_register(self, thread_id, register, value)
    }

    fn get_register(&self, thread_id: usize, register: String) -> (v: i32) {
        PSOThreadSystem::get_register(self, thread_id, register)
    }

    fn remove_node(&mut self, node: &Node) {
        PSOThreadSystem::remove_node(self, node)
    }

    fn goto(&mut self, label: String) {
        PSOThreadSystem::goto(self, label)
    }
}

} // verus!
