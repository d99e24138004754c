//! The model drivers: one per memory model. A driver owns a thread
//! system and a storage system, repeatedly samples one execution
//! candidate uniformly at random, removes it from the graph and applies
//! its effect to the registers and the storage.

use vstd::prelude::*;

use crate::graph::{spec_goto, total_edges, total_edges_upto, Node};
use crate::instruction::{Instruction, LabeledInstruction};
use crate::storage::{
    buffered_load, last_match_idx, pairs_get0, PSOStorageSystem, SCStorageSystem, TSOStorageSystem,
};
use crate::threads::{
    flat_len, prop_added_pso, prop_added_tso, reg_get, PSOThreadSystem, SCThreadSystem,
    TSOThreadSystem,
};

verus! {

/// The fault a step can hit: the program divided by zero. All other
/// arithmetic is total, with wrap-around semantics.
#[derive(Clone, Copy, Debug, PartialEq, Eq, Structural)]
pub enum StepError {
    DivisionByZero,
}

/// Which hardware model to simulate.
#[derive(Clone, Copy, Debug, PartialEq, Eq, Structural)]
pub enum MemoryModelType {
    SC,
    TSO,
    PSO,
}

/// Truncating 32-bit division, with the single overflowing case wrapping
/// around as the hardware would.
pub open spec fn div32(a: i32, b: i32) -> i32 {
    if a == i32::MIN && b == -1 {
        i32::MIN
    } else {
        a.checked_div(b).unwrap()
    }
}

/// Registers after one assignment is journaled.
pub open spec fn assigned(
    regs: Seq<Seq<(String, i32)>>,
    tid: int,
    name: String,
    value: i32,
) -> Seq<Seq<(String, i32)>> {
    regs.update(tid, regs[tid].push((name, value)))
}

fn div_wrap(a: i32, b: i32) -> (q: i32)
    requires
        b != 0,
    ensures
        q == div32(a, b),
{
    if a == i32::MIN && b == -1 {
        i32::MIN
    } else {
        match a.checked_div(b) {
            Some(q) => q,
            None => {
                proof {
                    let x = a as int;
                    let d = b as int;
                    if x > 0 && d > 0 {
                        vstd::arithmetic::div_mod::lemma_div_basics_4(x, d);
                        vstd::arithmetic::div_mod::lemma_div_basics_5(x, d);
                    } else if x < 0 && d < 0 {
                        vstd::arithmetic::div_mod::lemma_div_basics_4(-x, -d);
                        vstd::arithmetic::div_mod::lemma_div_basics_5(-x, -d);
                        if x == i32::MIN as int {
                            vstd::arithmetic::div_mod::lemma_div_is_ordered_by_denominator(
                                -x,
                                2,
                                -d,
                            );
                            assert((-x) / 2 == 0x4000_0000);
                        }
                    } else if x < 0 {
                        vstd::arithmetic::div_mod::lemma_div_basics_4(-x, d);
                        vstd::arithmetic::div_mod::lemma_div_basics_5(-x, d);
                    } else if x > 0 {
                        vstd::arithmetic::div_mod::lemma_div_basics_4(x, -d);
                        vstd::arithmetic::div_mod::lemma_div_basics_5(x, -d);
                    }
                    assert(false);
                }
                0
            },
        }
    }
}

/// Relies on rand::Rng::gen_range over the non-empty range 0..n: the
/// result is drawn uniformly from that range, so it is below n.
#[verifier::external_body]
fn pick_index(n: usize) -> (r: usize)
    requires
        n > 0,
    ensures
        r < n,
{
    rand::Rng::gen_range(&mut rand::thread_rng(), 0..n)
}

/// The driver surface shared by the three models. Each implementation
/// names its own well-formedness, growth budget and step transition; the
/// step transitions themselves are `sc_post`, `tso_post` and `pso_post`.
pub trait MemoryModel: Sized {
    spec fn m_wf(&self) -> bool;

    spec fn m_graph(&self) -> crate::graph::GraphV;

    spec fn m_regs(&self) -> Seq<Seq<(String, i32)>>;

    /// Whether the graph can take one more step's worth of growth.
    spec fn can_grow(&self) -> bool;

    /// The effect of one successful step on `node`.
    spec fn step_post(&self, post: Self, node: Node) -> bool;

    fn get_possible_executions(&self) -> (r: Vec<Node>)
        requires
            self.m_wf(),
        ensures
            forall|k: int|
                0 <= k < r@.len() ==> self.m_graph().is_candidate(#[trigger] r@[k].id) && r@[k]
                    == self.m_graph().nodes[r@[k].id as int],
            forall|i: usize|
                self.m_graph().is_candidate(i) ==> exists|k: int|
                    0 <= k < r@.len() && (#[trigger] r@[k]).id == i,
            forall|k1: int, k2: int| 0 <= k1 < k2 < r@.len() ==> r@[k1].id < r@[k2].id,
            r@.len() == 0 <==> (forall|i: usize| !self.m_graph().is_candidate(i)),
    ;

    fn step(&mut self, node: Node) -> (r: Result<(), StepError>)
        requires
            old(self).m_wf(),
            node.id < old(self).m_graph().n(),
            old(self).m_graph().nodes[node.id as int] == node,
            old(self).m_graph().is_active[node.id as int],
            old(self).can_grow(),
        ensures
            final(self).m_wf(),
            r is Err <==> div_faults(old(self).m_regs(), node),
            r is Err ==> *final(self) == *old(self),
            r is Ok ==> old(self).step_post(*final(self), node),
    ;

    fn random_step(&mut self) -> (r: Result<Option<Node>, StepError>)
        requires
            old(self).m_wf(),
            old(self).can_grow(),
        ensures
            final(self).m_wf(),
            r matches Ok(None) ==> *final(self) == *old(self) && (forall|i: usize|
                !old(self).m_graph().is_candidate(i)),
            r matches Ok(Some(node)) ==> old(self).m_graph().is_candidate(node.id) && node == old(
                self,
            ).m_graph().nodes[node.id as int] && old(self).step_post(*final(self), node),
            r is Err ==> *final(self) == *old(self) && (exists|i: usize|
                old(self).m_graph().is_candidate(i) && div_faults(
                    old(self).m_regs(),
                    old(self).m_graph().nodes[i as int],
                )),
    ;
}

// ---------------------------------------------------------------------------
// Sequential consistency.
// ---------------------------------------------------------------------------

pub struct SC {
    pub thread_system: SCThreadSystem,
    pub storage_system: SCStorageSystem,
}

/// Whether a step on `node` must report a division by zero.
pub open spec fn div_faults(regs: Seq<Seq<(String, i32)>>, node: Node) -> bool {
    node.instruction.instruction matches Instruction::ArithDiv { r3, .. } && reg_get(
        regs[node.thread_id as int],
        r3@,
    ) == 0
}

/// The effect of one successful SC step on `node`: the node leaves the
/// graph, and its instruction acts on the registers and the coherent
/// memory.
pub open spec fn sc_post(pre: SC, post: SC, node: Node) -> bool {
    let tid = node.thread_id as int;
    let g1 = pre.thread_system.graph@.spec_remove(node.id);
    let regs0 = pre.thread_system.regs();
    let mem0 = pre.storage_system.memory@;
    &&& post.thread_system.registers@.len() == pre.thread_system.registers@.len()
    &&& match node.instruction.instruction {
        Instruction::Const { r, value } => {
            &&& post.thread_system.graph@ == g1
            &&& post.thread_system.regs() == assigned(regs0, tid, r, value)
            &&& post.storage_system.memory@ == mem0
        },
        Instruction::ArithPlus { r1, r2, r3 } => {
            &&& post.thread_system.graph@ == g1
            &&& post.thread_system.regs() == assigned(
                regs0,
                tid,
                r1,
                reg_get(regs0[tid], r2@).wrapping_add(reg_get(regs0[tid], r3@)),
            )
            &&& post.storage_system.memory@ == mem0
        },
        Instruction::ArithMinus { r1, r2, r3 } => {
            &&& post.thread_system.graph@ == g1
            &&& post.thread_system.regs() == assigned(
                regs0,
                tid,
                r1,
                reg_get(regs0[tid], r2@).wrapping_sub(reg_get(regs0[tid], r3@)),
            )
            &&& post.storage_system.memory@ == mem0
        },
        Instruction::ArithMul { r1, r2, r3 } => {
            &&& post.thread_system.graph@ == g1
            &&& post.thread_system.regs() == assigned(
                regs0,
                tid,
                r1,
                reg_get(regs0[tid], r2@).wrapping_mul(reg_get(regs0[tid], r3@)),
            )
            &&& post.storage_system.memory@ == mem0
        },
        Instruction::ArithDiv { r1, r2, r3 } => {
            &&& post.thread_system.graph@ == g1
            &&& post.thread_system.regs() == assigned(
                regs0,
                tid,
                r1,
                div32(reg_get(regs0[tid], r2@), reg_get(regs0[tid], r3@)),
            )
            &&& post.storage_system.memory@ == mem0
        },
        Instruction::Cond { r, label } => {
            &&& post.thread_system.graph@ == if reg_get(regs0[tid], r@) != 0 {
                spec_goto(g1, label@)
            } else {
                g1
            }
            &&& post.thread_system.regs() == regs0
            &&& post.storage_system.memory@ == mem0
        },
        Instruction::Load { mode: _, address, r } => {
            &&& post.thread_system.graph@ == g1
            &&& post.thread_system.regs() == assigned(
                regs0,
                tid,
                r,
                pairs_get0(mem0, reg_get(regs0[tid], address@)),
            )
            &&& post.storage_system.memory@ == mem0
        },
        Instruction::Store { mode: _, address, r } => {
            &&& post.thread_system.graph@ == g1
            &&& post.thread_system.regs() == regs0
            &&& post.storage_system.memory@ == mem0.push(
                (reg_get(regs0[tid], address@), reg_get(regs0[tid], r@)),
            )
        },
        Instruction::Cas { mode: _, address, to, exp, des } => {
            let a = reg_get(regs0[tid], address@);
            let pre_v = pairs_get0(mem0, a);
            &&& post.thread_system.graph@ == g1
            &&& post.thread_system.regs() == assigned(regs0, tid, to, pre_v)
            &&& post.storage_system.memory@ == if pre_v == reg_get(regs0[tid], exp@) {
                mem0.push((a, reg_get(regs0[tid], des@)))
            } else {
                mem0
            }
        },
        Instruction::Fai { mode: _, address, to, inc } => {
            let a = reg_get(regs0[tid], address@);
            let pre_v = pairs_get0(mem0, a);
            &&& post.thread_system.graph@ == g1
            &&& post.thread_system.regs() == assigned(regs0, tid, to, pre_v)
            &&& post.storage_system.memory@ == mem0.push(
                (a, pre_v.wrapping_add(reg_get(regs0[tid], inc@))),
            )
        },
        Instruction::Fence { mode: _ } => {
            &&& post.thread_system.graph@ == g1
            &&& post.thread_system.regs() == regs0
            &&& post.storage_system.memory@ == mem0
        },
        Instruction::Propagate { .. } => {
            &&& post.thread_system.graph@ == g1
            &&& post.thread_system.regs() == regs0
            &&& post.storage_system.memory@ == mem0
        },
    }
}

impl SC {
    pub open spec fn wf(&self) -> bool {
        self.thread_system.wf()
    }

    pub fn new(instructions: Vec<Vec<LabeledInstruction>>) -> (s: SC)
        requires
            ({
                let ps = instructions@.map_values(|p: Vec<LabeledInstruction>| p@);
                let fl = flat_len(ps, ps.len() as int);
                fl * fl + 1 <= usize::MAX as nat
            }),
        ensures
            s.wf(),
            s.thread_system.registers@.len() == instructions@.len(),
            forall|t: int|
                0 <= t < s.thread_system.registers@.len() ==> #[trigger] s.thread_system.regs()[t].len()
                    == 0,
            crate::threads::nodes_built(
                s.thread_system.graph@,
                instructions@.map_values(|p: Vec<LabeledInstruction>| p@),
            ),
            forall|a: usize, b: usize|
                0 <= a < s.thread_system.graph@.n() && 0 <= b < s.thread_system.graph@.n() ==> (
                #[trigger] s.thread_system.graph@.rev_edges[b as int].contains(a)
                    <==> crate::threads::sc_edge(
                    instructions@.map_values(|p: Vec<LabeledInstruction>| p@),
                    a,
                    b,
                )),
            s.storage_system.memory@.len() == 0,
    {
        SC { thread_system: SCThreadSystem::new(instructions), storage_system: SCStorageSystem::new() }
    }

    pub fn get_possible_executions(&self) -> (r: Vec<Node>)
        requires
            self.wf(),
        ensures
            forall|k: int|
                0 <= k < r@.len() ==> self.thread_system.graph@.is_candidate(#[trigger] r@[k].id)
                    && r@[k] == self.thread_system.graph@.nodes[r@[k].id as int],
            forall|i: usize|
                self.thread_system.graph@.is_candidate(i) ==> exists|k: int|
                    0 <= k < r@.len() && (#[trigger] r@[k]).id == i,
            forall|k1: int, k2: int| 0 <= k1 < k2 < r@.len() ==> r@[k1].id < r@[k2].id,
            r@.len() == 0 <==> (forall|i: usize| !self.thread_system.graph@.is_candidate(i)),
    {
        self.thread_system.get_possible_executions()
    }

    /// Execute one chosen event: remove it from the graph and apply its
    /// effect. Fails exactly on a division by zero, leaving everything
    /// unchanged.
    pub fn step(&mut self, node: Node) -> (r: Result<(), StepError>)
        requires
            old(self).wf(),
            node.id < old(self).thread_system.graph@.n(),
            old(self).thread_system.graph@.nodes[node.id as int] == node,
            old(self).thread_system.graph@.is_active[node.id as int],
        ensures
            final(self).wf(),
            r is Err <==> div_faults(old(self).thread_system.regs(), node),
            r is Err ==> *final(self) == *old(self) && r == Err::<(), StepError>(
                StepError::DivisionByZero,
            ),
            r is Ok ==> sc_post(*old(self), *final(self), node),
    {
        let thread_id = node.thread_id;
        match &node.instruction.instruction {
            Instruction::ArithDiv { r3, .. } => {
                let v3 = self.thread_system.get_register(thread_id, r3.clone());
                if v3 == 0 {
                    return Err(StepError::DivisionByZero);
                }
            },
            _ => {},
        }
        self.thread_system.remove_node(&node);
        match node.instruction.instruction {
            Instruction::Const { r, value } => {
                self.thread_system.assign_register(thread_id, r, value);
            },
            Instruction::ArithPlus { r1, r2, r3 } => {
                let r2_value = self.thread_system.get_register(thread_id, r2);
                let r3_value = self.thread_system.get_register(thread_id, r3);
                self.thread_system.assign_register(thread_id, r1, r2_value.wrapping_add(r3_value));
            },
            Instruction::ArithMinus { r1, r2, r3 } => {
                let r2_value = self.thread_system.get_register(thread_id, r2);
                let r3_value = self.thread_system.get_register(thread_id, r3);
                self.thread_system.assign_register(thread_id, r1, r2_value.wrapping_sub(r3_value));
            },
            Instruction::ArithMul { r1, r2, r3 } => {
                let r2_value = self.thread_system.get_register(thread_id, r2);
                let r3_value = self.thread_system.get_register(thread_id, r3);
                self.thread_system.assign_register(thread_id, r1, r2_value.wrapping_mul(r3_value));
            },
            Instruction::ArithDiv { r1, r2, r3 } => {
                let r2_value = self.thread_system.get_register(thread_id, r2);
                let r3_value = self.thread_system.get_register(thread_id, r3);
                self.thread_system.assign_register(thread_id, r1, div_wrap(r2_value, r3_value));
            },
            Instruction::Cond { r, label } => {
                let value = self.thread_system.get_register(thread_id, r);
                if value != 0 {
                    self.thread_system.goto(label);
                }
            },
            Instruction::Load { mode: _, address, r } => {
                let address_value = self.thread_system.get_register(thread_id, address);
                let value = self.storage_system.load(thread_id, address_value);
                self.thread_system.assign_register(thread_id, r, value);
            },
            Instruction::Store { mode: _, address, r } => {
                let address_value = self.thread_system.get_register(thread_id, address);
                let value = self.thread_system.get_register(thread_id, r);
                self.storage_system.store(thread_id, address_value, value);
            },
            Instruction::Cas { mode: _, address, to, exp, des } => {
                let address_value = self.thread_system.get_register(thread_id, address);
                let exp_value = self.thread_system.get_register(thread_id, exp);
                let des_value = self.thread_system.get_register(thread_id, des);
                let value = self.storage_system.cas(thread_id, address_value, exp_value, des_value);
                self.thread_system.assign_register(thread_id, to, value);
            },
            Instruction::Fai { mode: _, address, to, inc } => {
                let address_value = self.thread_system.get_register(thread_id, address);
                let inc_value = self.thread_system.get_register(thread_id, inc);
                let value = self.storage_system.fai(thread_id, address_value, inc_value);
                self.thread_system.assign_register(thread_id, to, value);
            },
            Instruction::Fence { mode: _ } => {},
            Instruction::Propagate { .. } => {},
        }
        Ok(())
    }

    /// Sample one candidate uniformly and execute it. Returns the
    /// executed node, or nothing when no candidate is left. A fault is
    /// only reported when some candidate is a division by zero, and
    /// leaves everything unchanged.
    pub fn random_step(&mut self) -> (r: Result<Option<Node>, StepError>)
        requires
            old(self).wf(),
        ensures
            final(self).wf(),
            r matches Ok(None) ==> *final(self) == *old(self) && (forall|i: usize|
                !old(self).thread_system.graph@.is_candidate(i)),
            r matches Ok(Some(node)) ==> old(self).thread_system.graph@.is_candidate(node.id)
                && node == old(self).thread_system.graph@.nodes[node.id as int] && sc_post(
                *old(self),
                *final(self),
                node,
            ),
            r is Err ==> *final(self) == *old(self) && (exists|i: usize|
                old(self).thread_system.graph@.is_candidate(i) && div_faults(
                    old(self).thread_system.regs(),
                    old(self).thread_system.graph@.nodes[i as int],
                )),
    {
        let executions = self.get_possible_executions();
        if executions.len() == 0 {
            return Ok(None);
        }
        let idx = pick_index(executions.len());
        let node = executions[idx].clone();
        let ret = node.clone();
        match self.step(node) {
            Ok(()) => Ok(Some(ret)),
            Err(e) => {
                proof {
                    assert(old(self).thread_system.graph@.is_candidate(ret.id));
                    assert(old(self).thread_system.graph@.nodes[ret.id as int] == ret);
                    assert(div_faults(
                        old(self).thread_system.regs(),
                        old(self).thread_system.graph@.nodes[ret.id as int],
                    ));
                }
                Err(e)
            },
        }
    }
}


impl MemoryModel for SC {
    open spec fn m_wf(&self) -> bool {
        self.wf()
    }

    open spec fn m_graph(&self) -> crate::graph::GraphV {
        self.thread_system.graph@
    }

    open spec fn m_regs(&self) -> Seq<Seq<(String, i32)>> {
        self.thread_system.regs()
    }

    open spec fn can_grow(&self) -> bool {
        true
    }

    open spec fn step_post(&self, post: Self, node: Node) -> bool {
        sc_post(*self, post, node)
    }

    fn get_possible_executions(&self) -> (r: Vec<Node>) {
        let r = SC::get_possible_executions(self);
        proof {
            assert(self.m_graph() == self.thread_system.graph@);
            if r@.len() == 0 {
                assert forall|i: usize| !self.m_graph().is_candidate(i) by {
                    assert(!self.thread_system.graph@.is_candidate(i));
                }
            } else {
                assert(self.m_graph().is_candidate(r@[0].id));
            }
        }
        r
    }

    fn step(&mut self, node: Node) -> (r: Result<(), StepError>) {
        SC::step(self, node)
    }

    fn random_step(&mut self) -> (r: Result<Option<Node>, StepError>) {
        let r = SC::random_step(self);
        proof {
            if r matches Ok(None) {
                assert forall|i: usize| !old(self).m_graph().is_candidate(i) by {
                    assert(!old(self).thread_system.graph@.is_candidate(i));
                }
            }
            if r is Err {
                let i = choose|i: usize|
                    old(self).thread_system.graph@.is_candidate(i) && div_faults(
                        old(self).thread_system.regs(),
                        old(self).thread_system.graph@.nodes[i as int],
                    );
                assert(old(self).m_graph().is_candidate(i));
                assert(div_faults(old(self).m_regs(), old(self).m_graph().nodes[i as int]));
            }
        }
        r
    }
}

// ---------------------------------------------------------------------------
// Total store order.
// ---------------------------------------------------------------------------

pub struct TSO {
    pub thread_system: TSOThreadSystem,
    pub storage_system: TSOStorageSystem,
}

/// The effect of one successful TSO step on `node`: the node leaves the
/// graph; stores, successful compare-and-swaps and fetch-and-adds are
/// buffered and synthesize one Propagate node; a Propagate drains its
/// thread's newest matching buffer entry into memory.
pub open spec fn tso_post(pre: TSO, post: TSO, node: Node) -> bool {
    let tid = node.thread_id as int;
    let g1 = pre.thread_system.graph@.spec_remove(node.id);
    let regs0 = pre.thread_system.regs();
    let pend0 = pre.thread_system.pending();
    let bufs0 = pre.storage_system.bufs();
    let mem0 = pre.storage_system.memory@;
    &&& post.thread_system.registers@.len() == pre.thread_system.registers@.len()
    &&& post.storage_system.buffers@.len() == pre.storage_system.buffers@.len()
    &&& match node.instruction.instruction {
        Instruction::Const { r, value } => {
            &&& post.thread_system.graph@ == g1
            &&& post.thread_system.regs() == assigned(regs0, tid, r, value)
            &&& post.thread_system.pending() == pend0
            &&& post.storage_system.bufs() == bufs0
            &&& post.storage_system.memory@ == mem0
        },
        Instruction::ArithPlus { r1, r2, r3 } => {
            &&& post.thread_system.graph@ == g1
            &&& post.thread_system.regs() == assigned(
                regs0,
                tid,
                r1,
                reg_get(regs0[tid], r2@).wrapping_add(reg_get(regs0[tid], r3@)),
            )
            &&& post.thread_system.pending() == pend0
            &&& post.storage_system.bufs() == bufs0
            &&& post.storage_system.memory@ == mem0
        },
        Instruction::ArithMinus { r1, r2, r3 } => {
            &&& post.thread_system.graph@ == g1
            &&& post.thread_system.regs() == assigned(
                regs0,
                tid,
                r1,
                reg_get(regs0[tid], r2@).wrapping_sub(reg_get(regs0[tid], r3@)),
            )
            &&& post.thread_system.pending() == pend0
            &&& post.storage_system.bufs() == bufs0
            &&& post.storage_system.memory@ == mem0
        },
        Instruction::ArithMul { r1, r2, r3 } => {
            &&& post.thread_system.graph@ == g1
            &&& post.thread_system.regs() == assigned(
                regs0,
                tid,
                r1,
                reg_get(regs0[tid], r2@).wrapping_mul(reg_get(regs0[tid], r3@)),
            )
            &&& post.thread_system.pending() == pend0
            &&& post.storage_system.bufs() == bufs0
            &&& post.storage_system.memory@ == mem0
        },
        Instruction::ArithDiv { r1, r2, r3 } => {
            &&& post.thread_system.graph@ == g1
            &&& post.thread_system.regs() == assigned(
                regs0,
                tid,
                r1,
                div32(reg_get(regs0[tid], r2@), reg_get(regs0[tid], r3@)),
            )
            &&& post.thread_system.pending() == pend0
            &&& post.storage_system.bufs() == bufs0
            &&& post.storage_system.memory@ == mem0
        },
        Instruction::Cond { r, label } => {
            &&& post.thread_system.graph@ == if reg_get(regs0[tid], r@) != 0 {
                spec_goto(g1, label@)
            } else {
                g1
            }
            &&& post.thread_system.regs() == regs0
            &&& post.thread_system.pending() == pend0
            &&& post.storage_system.bufs() == bufs0
            &&& post.storage_system.memory@ == mem0
        },
        Instruction::Load { mode: _, address, r } => {
            &&& post.thread_system.graph@ == g1
            &&& post.thread_system.regs() == assigned(
                regs0,
                tid,
                r,
                buffered_load(bufs0, mem0, tid, reg_get(regs0[tid], address@)),
            )
            &&& post.thread_system.pending() == pend0
            &&& post.storage_system.bufs() == bufs0
            &&& post.storage_system.memory@ == mem0
        },
        Instruction::Store { mode: _, address, r } => {
            let a = reg_get(regs0[tid], address@);
            let v = reg_get(regs0[tid], r@);
            &&& prop_added_tso(
                g1,
                post.thread_system.graph@,
                pend0,
                post.thread_system.pending(),
                node.thread_id,
                a,
                v,
            )
            &&& post.thread_system.regs() == regs0
            &&& post.storage_system.bufs() == bufs0.update(tid, bufs0[tid].push((a, v)))
            &&& post.storage_system.memory@ == mem0
        },
        Instruction::Cas { mode: _, address, to, exp, des } => {
            let a = reg_get(regs0[tid], address@);
            let pre_v = buffered_load(bufs0, mem0, tid, a);
            let dv = reg_get(regs0[tid], des@);
            &&& post.thread_system.regs() == assigned(regs0, tid, to, pre_v)
            &&& post.storage_system.memory@ == mem0
            &&& if pre_v == reg_get(regs0[tid], exp@) {
                &&& post.storage_system.bufs() == bufs0.update(tid, bufs0[tid].push((a, dv)))
                &&& prop_added_tso(
                    g1,
                    post.thread_system.graph@,
                    pend0,
                    post.thread_system.pending(),
                    node.thread_id,
                    a,
                    dv,
                )
            } else {
                &&& post.storage_system.bufs() == bufs0
                &&& post.thread_system.graph@ == g1
                &&& post.thread_system.pending() == pend0
            }
        },
        Instruction::Fai { mode: _, address, to, inc } => {
            let a = reg_get(regs0[tid], address@);
            let pre_v = buffered_load(bufs0, mem0, tid, a);
            let nv = pre_v.wrapping_add(reg_get(regs0[tid], inc@));
            &&& post.thread_system.regs() == assigned(regs0, tid, to, pre_v)
            &&& post.storage_system.memory@ == mem0
            &&& post.storage_system.bufs() == bufs0.update(tid, bufs0[tid].push((a, nv)))
            &&& prop_added_tso(
                g1,
                post.thread_system.graph@,
                pend0,
                post.thread_system.pending(),
                node.thread_id,
                a,
                nv,
            )
        },
        Instruction::Fence { mode: _ } => {
            &&& post.thread_system.graph@ == g1
            &&& post.thread_system.regs() == regs0
            &&& post.thread_system.pending() == pend0
            &&& post.storage_system.bufs() == bufs0
            &&& post.storage_system.memory@ == mem0
        },
        Instruction::Propagate { thread_id: pt, address: pa, value: _ } => {
            let buf = bufs0[pt as int];
            let i = last_match_idx(buf, pa);
            &&& post.thread_system.graph@ == g1
            &&& post.thread_system.regs() == regs0
            &&& post.thread_system.pending().len() == pend0.len()
            &&& forall|t: int|
                0 <= t < pend0.len() && t != node.thread_id
                    ==> #[trigger] post.thread_system.pending()[t] == pend0[t]
            &&& forall|x: usize|
                post.thread_system.pending()[node.thread_id as int].contains(x) <==> (
                pend0[node.thread_id as int].contains(x) && x != node.id)
            &&& (pend0[node.thread_id as int].contains(node.id)
                ==> post.thread_system.pending()[node.thread_id as int].len()
                == pend0[node.thread_id as int].len() - 1)
            &&& (!pend0[node.thread_id as int].contains(node.id)
                ==> post.thread_system.pending()[node.thread_id as int]
                == pend0[node.thread_id as int])
            &&& post.storage_system.memory@ == if i == -1 {
                mem0
            } else {
                mem0.push((pa, buf[i].1))
            }
            &&& post.storage_system.bufs() == if i == -1 {
                bufs0
            } else {
                bufs0.update(pt as int, buf.remove(i))
            }
        },
    }
}

impl TSO {
    pub open spec fn wf(&self) -> bool {
        &&& self.thread_system.wf()
        &&& self.storage_system.buffers@.len() == self.thread_system.registers@.len()
    }

    pub fn new(instructions: Vec<Vec<LabeledInstruction>>) -> (s: TSO)
        requires
            ({
                let ps = instructions@.map_values(|p: Vec<LabeledInstruction>| p@);
                let fl = flat_len(ps, ps.len() as int);
                &&& 2 * fl * fl + 1 <= usize::MAX as nat
                &&& forall|t: int, k: int|
                    0 <= t < ps.len() && 0 <= k < ps[t].len() ==> !((#[trigger] ps[t][k]).instruction
                        is Propagate)
            }),
        ensures
            s.wf(),
            s.thread_system.registers@.len() == instructions@.len(),
            forall|t: int|
                0 <= t < s.thread_system.registers@.len() ==> #[trigger] s.thread_system.regs()[t].len()
                    == 0,
            forall|t: int|
                0 <= t < s.thread_system.pending().len()
                    ==> #[trigger] s.thread_system.pending()[t].len() == 0,
            crate::threads::nodes_built(
                s.thread_system.graph@,
                instructions@.map_values(|p: Vec<LabeledInstruction>| p@),
            ),
            forall|a: usize, b: usize|
                0 <= a < s.thread_system.graph@.n() && 0 <= b < s.thread_system.graph@.n() ==> (
                #[trigger] s.thread_system.graph@.rev_edges[b as int].contains(a)
                    <==> crate::threads::mode_edge(
                    instructions@.map_values(|p: Vec<LabeledInstruction>| p@),
                    a,
                    b,
                )),
            s.storage_system.memory@.len() == 0,
            forall|t: int|
                0 <= t < s.storage_system.buffers@.len() ==> #[trigger] s.storage_system.bufs()[t].len()
                    == 0,
    {
        let storage_system = TSOStorageSystem::new(instructions.len());
        let thread_system = TSOThreadSystem::new(instructions);
        TSO { thread_system, storage_system }
    }

    pub fn get_possible_executions(&self) -> (r: Vec<Node>)
        requires
            self.wf(),
        ensures
            forall|k: int|
                0 <= k < r@.len() ==> self.thread_system.graph@.is_candidate(#[trigger] r@[k].id)
                    && r@[k] == self.thread_system.graph@.nodes[r@[k].id as int],
            forall|i: usize|
                self.thread_system.graph@.is_candidate(i) ==> exists|k: int|
                    0 <= k < r@.len() && (#[trigger] r@[k]).id == i,
            forall|k1: int, k2: int| 0 <= k1 < k2 < r@.len() ==> r@[k1].id < r@[k2].id,
            r@.len() == 0 <==> (forall|i: usize| !self.thread_system.graph@.is_candidate(i)),
    {
        self.thread_system.get_possible_executions()
    }

    /// Whether the graph can still take one more step's worth of growth:
    /// one node and at most two edges per existing node.
    pub fn has_room(&self) -> (b: bool)
        requires
            self.wf(),
        ensures
            b == (self.thread_system.graph@.n() + 1 <= usize::MAX as int && total_edges(
                self.thread_system.graph@.rev_edges,
            ) + 2 * self.thread_system.graph@.n() + 1 <= usize::MAX as nat),
    {
        graph_has_room(&self.thread_system.graph)
    }

    /// Execute one chosen event. Fails exactly on a division by zero,
    /// leaving everything unchanged.
    pub fn step(&mut self, node: Node) -> (r: Result<(), StepError>)
        requires
            old(self).wf(),
            node.id < old(self).thread_system.graph@.n(),
            old(self).thread_system.graph@.nodes[node.id as int] == node,
            old(self).thread_system.graph@.is_active[node.id as int],
            old(self).thread_system.graph@.n() + 1 <= usize::MAX as int,
            total_edges(old(self).thread_system.graph@.rev_edges) + 2 * old(
                self,
            ).thread_system.graph@.n() + 1 <= usize::MAX as nat,
        ensures
            final(self).wf(),
            r is Err <==> div_faults(old(self).thread_system.regs(), node),
            r is Err ==> *final(self) == *old(self) && r == Err::<(), StepError>(
                StepError::DivisionByZero,
            ),
            r is Ok ==> tso_post(*old(self), *final(self), node),
    {
        let thread_id = node.thread_id;
        match &node.instruction.instruction {
            Instruction::ArithDiv { r3, .. } => {
                let v3 = self.thread_system.get_register(thread_id, r3.clone());
                if v3 == 0 {
                    return Err(StepError::DivisionByZero);
                }
            },
            _ => {},
        }
        self.thread_system.remove_node(&node);
        match node.instruction.instruction {
            Instruction::Const { r, value } => {
                self.thread_system.assign_register(thread_id, r, value);
            },
            Instruction::ArithPlus { r1, r2, r3 } => {
                let r2_value = self.thread_system.get_register(thread_id, r2);
                let r3_value = self.thread_system.get_register(thread_id, r3);
                self.thread_system.assign_register(thread_id, r1, r2_value.wrapping_add(r3_value));
            },
            Instruction::ArithMinus { r1, r2, r3 } => {
                let r2_value = self.thread_system.get_register(thread_id, r2);
                let r3_value = self.thread_system.get_register(thread_id, r3);
                self.thread_system.assign_register(thread_id, r1, r2_value.wrapping_sub(r3_value));
            },
            Instruction::ArithMul { r1, r2, r3 } => {
                let r2_value = self.thread_system.get_register(thread_id, r2);
                let r3_value = self.thread_system.get_register(thread_id, r3);
                self.thread_system.assign_register(thread_id, r1, r2_value.wrapping_mul(r3_value));
            },
            Instruction::ArithDiv { r1, r2, r3 } => {
                let r2_value = self.thread_system.get_register(thread_id, r2);
                let r3_value = self.thread_system.get_register(thread_id, r3);
                self.thread_system.assign_register(thread_id, r1, div_wrap(r2_value, r3_value));
            },
            Instruction::Cond { r, label } => {
                let value = self.thread_system.get_register(thread_id, r);
                if value != 0 {
                    self.thread_system.goto(label);
                }
            },
            Instruction::Load { mode: _, address, r } => {
                let address_value = self.thread_system.get_register(thread_id, address);
                let value = self.storage_system.load(thread_id, address_value);
                self.thread_system.assign_register(thread_id, r, value);
            },
            Instruction::Store { mode: _, address, r } => {
                let address_value = self.thread_system.get_register(thread_id, address);
                let value = self.thread_system.get_register(thread_id, r);
                self.storage_system.store(thread_id, address_value, value);
                self.thread_system.add_propagate_node(thread_id, address_value, value);
            },
            Instruction::Cas { mode: _, address, to, exp, des } => {
                let address_value = self.thread_system.get_register(thread_id, address);
                let exp_value = self.thread_system.get_register(thread_id, exp);
                let des_value = self.thread_system.get_register(thread_id, des);
                let value = self.storage_system.cas(thread_id, address_value, exp_value, des_value);
                if value == exp_value {
                    self.thread_system.add_propagate_node(thread_id, address_value, des_value);
                }
                self.thread_system.assign_register(thread_id, to, value);
            },
            Instruction::Fai { mode: _, address, to, inc } => {
                let address_value = self.thread_system.get_register(thread_id, address);
                let inc_value = self.thread_system.get_register(thread_id, inc);
                let value = self.storage_system.fai(thread_id, address_value, inc_value);
                self.thread_system.assign_register(thread_id, to, value);
                self.thread_system.add_propagate_node(
                    thread_id,
                    address_value,
                    value.wrapping_add(inc_value),
                );
            },
            Instruction::Fence { mode: _ } => {},
            Instruction::Propagate { thread_id: pt, address: pa, value: _ } => {
                proof {
                    assert(old(self).thread_system.graph@.nodes[node.id as int].instruction.instruction
                        matches Instruction::Propagate { thread_id, .. } && thread_id == pt);
                }
                self.storage_system.propagate(pt, pa);
            },
        }
        Ok(())
    }

    /// Sample one candidate uniformly and execute it. Returns the
    /// executed node, or nothing when no candidate is left. A fault is
    /// only reported when some candidate is a division by zero, and
    /// leaves everything unchanged.
    pub fn random_step(&mut self) -> (r: Result<Option<Node>, StepError>)
        requires
            old(self).wf(),
            old(self).thread_system.graph@.n() + 1 <= usize::MAX as int,
            total_edges(old(self).thread_system.graph@.rev_edges) + 2 * old(
                self,
            ).thread_system.graph@.n() + 1 <= usize::MAX as nat,
        ensures
            final(self).wf(),
            r matches Ok(None) ==> *final(self) == *old(self) && (forall|i: usize|
                !old(self).thread_system.graph@.is_candidate(i)),
            r matches Ok(Some(node)) ==> old(self).thread_system.graph@.is_candidate(node.id)
                && node == old(self).thread_system.graph@.nodes[node.id as int] && tso_post(
                *old(self),
                *final(self),
                node,
            ),
            r is Err ==> *final(self) == *old(self) && (exists|i: usize|
                old(self).thread_system.graph@.is_candidate(i) && div_faults(
                    old(self).thread_system.regs(),
                    old(self).thread_system.graph@.nodes[i as int],
                )),
    {
        let executions = self.get_possible_executions();
        if executions.len() == 0 {
            return Ok(None);
        }
        let idx = pick_index(executions.len());
        let node = executions[idx].clone();
        let ret = node.clone();
        match self.step(node) {
            Ok(()) => Ok(Some(ret)),
            Err(e) => {
                proof {
                    assert(old(self).thread_system.graph@.is_candidate(ret.id));
                    assert(old(self).thread_system.graph@.nodes[ret.id as int] == ret);
                    assert(div_faults(
                        old(self).thread_system.regs(),
                        old(self).thread_system.graph@.nodes[ret.id as int],
                    ));
                }
                Err(e)
            },
        }
    }
}


impl MemoryModel for TSO {
    open spec fn m_wf(&self) -> bool {
        self.wf()
    }

    open spec fn m_graph(&self) -> crate::graph::GraphV {
        self.thread_system.graph@
    }

    open spec fn m_regs(&self) -> Seq<Seq<(String, i32)>> {
        self.thread_system.regs()
    }

    open spec fn can_grow(&self) -> bool {
        self.thread_system.graph@.n() + 1 <= usize::MAX as int && total_edges(
            self.thread_system.graph@.rev_edges,
        ) + 2 * self.thread_system.graph@.n() + 1 <= usize::MAX as nat
    }

    open spec fn step_post(&self, post: Self, node: Node) -> bool {
        tso_post(*self, post, node)
    }

    fn get_possible_executions(&self) -> (r: Vec<Node>) {
        let r = TSO::get_possible_executions(self);
        proof {
            assert(self.m_graph() == self.thread_system.graph@);
            if r@.len() == 0 {
                assert forall|i: usize| !self.m_graph().is_candidate(i) by {
                    assert(!self.thread_system.graph@.is_candidate(i));
                }
            } else {
                assert(self.m_graph().is_candidate(r@[0].id));
            }
        }
        r
    }

    fn step(&mut self, node: Node) -> (r: Result<(), StepError>) {
        TSO::step(self, node)
    }

    fn random_step(&mut self) -> (r: Result<Option<Node>, StepError>) {
        let r = TSO::random_step(self);
        proof {
            if r matches Ok(None) {
                assert forall|i: usize| !old(self).m_graph().is_candidate(i) by {
                    assert(!old(self).thread_system.graph@.is_candidate(i));
                }
            }
            if r is Err {
                let i = choose|i: usize|
                    old(self).thread_system.graph@.is_candidate(i) && div_faults(
                        old(self).thread_system.regs(),
                        old(self).thread_system.graph@.nodes[i as int],
                    );
                assert(old(self).m_graph().is_candidate(i));
                assert(div_faults(old(self).m_regs(), old(self).m_graph().nodes[i as int]));
            }
        }
        r
    }
}

// ---------------------------------------------------------------------------
// Partial store order.
// ---------------------------------------------------------------------------

pub struct PSO {
    pub thread_system: PSOThreadSystem,
    pub storage_system: PSOStorageSystem,
}

/// The effect of one successful PSO step on `node`: like TSO, except
/// that a synthesized Propagate node only waits on pending propagates of
/// its thread that target the same address.
pub open spec fn pso_post(pre: PSO, post: PSO, node: Node) -> bool {
    let tid = node.thread_id as int;
    let g1 = pre.thread_system.graph@.spec_remove(node.id);
    let regs0 = pre.thread_system.regs();
    let pend0 = pre.thread_system.pending();
    let bufs0 = pre.storage_system.bufs();
    let mem0 = pre.storage_system.memory@;
    &&& post.thread_system.registers@.len() == pre.thread_system.registers@.len()
    &&& post.storage_system.buffers@.len() == pre.storage_system.buffers@.len()
    &&& match node.instruction.instruction {
        Instruction::Const { r, value } => {
            &&& post.thread_system.graph@ == g1
            &&& post.thread_system.regs() == assigned(regs0, tid, r, value)
            &&& post.thread_system.pending() == pend0
            &&& post.storage_system.bufs() == bufs0
            &&& post.storage_system.memory@ == mem0
        },
        Instruction::ArithPlus { r1, r2, r3 } => {
            &&& post.thread_system.graph@ == g1
            &&& post.thread_system.regs() == assigned(
                regs0,
                tid,
                r1,
                reg_get(regs0[tid], r2@).wrapping_add(reg_get(regs0[tid], r3@)),
            )
            &&& post.thread_system.pending() == pend0
            &&& post.storage_system.bufs() == bufs0
            &&& post.storage_system.memory@ == mem0
        },
        Instruction::ArithMinus { r1, r2, r3 } => {
            &&& post.thread_system.graph@ == g1
            &&& post.thread_system.regs() == assigned(
                regs0,
                tid,
                r1,
                reg_get(regs0[tid], r2@).wrapping_sub(reg_get(regs0[tid], r3@)),
            )
            &&& post.thread_system.pending() == pend0
            &&& post.storage_system.bufs() == bufs0
            &&& post.storage_system.memory@ == mem0
        },
        Instruction::ArithMul { r1, r2, r3 } => {
            &&& post.thread_system.graph@ == g1
            &&& post.thread_system.regs() == assigned(
                regs0,
                tid,
                r1,
                reg_get(regs0[tid], r2@).wrapping_mul(reg_get(regs0[tid], r3@)),
            )
            &&& post.thread_system.pending() == pend0
            &&& post.storage_system.bufs() == bufs0
            &&& post.storage_system.memory@ == mem0
        },
        Instruction::ArithDiv { r1, r2, r3 } => {
            &&& post.thread_system.graph@ == g1
            &&& post.thread_system.regs() == assigned(
                regs0,
                tid,
                r1,
                div32(reg_get(regs0[tid], r2@), reg_get(regs0[tid], r3@)),
            )
            &&& post.thread_system.pending() == pend0
            &&& post.storage_system.bufs() == bufs0
            &&& post.storage_system.memory@ == mem0
        },
        Instruction::Cond { r, label } => {
            &&& post.thread_system.graph@ == if reg_get(regs0[tid], r@) != 0 {
                spec_goto(g1, label@)
            } else {
                g1
            }
            &&& post.thread_system.regs() == regs0
            &&& post.thread_system.pending() == pend0
            &&& post.storage_system.bufs() == bufs0
            &&& post.storage_system.memory@ == mem0
        },
        Instruction::Load { mode: _, address, r } => {
            &&& post.thread_system.graph@ == g1
            &&& post.thread_system.regs() == assigned(
                regs0,
                tid,
                r,
                buffered_load(bufs0, mem0, tid, reg_get(regs0[tid], address@)),
            )
            &&& post.thread_system.pending() == pend0
            &&& post.storage_system.bufs() == bufs0
            &&& post.storage_system.memory@ == mem0
        },
        Instruction::Store { mode: _, address, r } => {
            let a = reg_get(regs0[tid], address@);
            let v = reg_get(regs0[tid], r@);
            &&& prop_added_pso(
                g1,
                post.thread_system.graph@,
                pend0,
                post.thread_system.pending(),
                node.thread_id,
                a,
                v,
            )
            &&& post.thread_system.regs() == regs0
            &&& post.storage_system.bufs() == bufs0.update(tid, bufs0[tid].push((a, v)))
            &&& post.storage_system.memory@ == mem0
        },
        Instruction::Cas { mode: _, address, to, exp, des } => {
            let a = reg_get(regs0[tid], address@);
            let pre_v = buffered_load(bufs0, mem0, tid, a);
            let dv = reg_get(regs0[tid], des@);
            &&& post.thread_system.regs() == assigned(regs0, tid, to, pre_v)
            &&& post.storage_system.memory@ == mem0
            &&& if pre_v == reg_get(regs0[tid], exp@) {
                &&& post.storage_system.bufs() == bufs0.update(tid, bufs0[tid].push((a, dv)))
                &&& prop_added_pso(
                    g1,
                    post.thread_system.graph@,
                    pend0,
                    post.thread_system.pending(),
                    node.thread_id,
                    a,
                    dv,
                )
            } else {
                &&& post.storage_system.bufs() == bufs0
                &&& post.thread_system.graph@ == g1
                &&& post.thread_system.pending() == pend0
            }
        },
        Instruction::Fai { mode: _, address, to, inc } => {
            let a = reg_get(regs0[tid], address@);
            let pre_v = buffered_load(bufs0, mem0, tid, a);
            let nv = pre_v.wrapping_add(reg_get(regs0[tid], inc@));
            &&& post.thread_system.regs() == assigned(regs0, tid, to, pre_v)
            &&& post.storage_system.memory@ == mem0
            &&& post.storage_system.bufs() == bufs0.update(tid, bufs0[tid].push((a, nv)))
            &&& prop_added_pso(
                g1,
                post.thread_system.graph@,
                pend0,
                post.thread_system.pending(),
                node.thread_id,
                a,
                nv,
            )
        },
        Instruction::Fence { mode: _ } => {
            &&& post.thread_system.graph@ == g1
            &&& post.thread_system.regs() == regs0
            &&& post.thread_system.pending() == pend0
            &&& post.storage_system.bufs() == bufs0
            &&& post.storage_system.memory@ == mem0
        },
        Instruction::Propagate { thread_id: pt, address: pa, value: _ } => {
            let buf = bufs0[pt as int];
            let i = last_match_idx(buf, pa);
            &&& post.thread_system.graph@ == g1
            &&& post.thread_system.regs() == regs0
            &&& post.thread_system.pending().len() == pend0.len()
            &&& forall|t: int|
                0 <= t < pend0.len() && t != node.thread_id
                    ==> #[trigger] post.thread_system.pending()[t] == pend0[t]
            &&& forall|x: (usize, i32)|
                post.thread_system.pending()[node.thread_id as int].contains(x) <==> (
                pend0[node.thread_id as int].contains(x) && x != (node.id, pa))
            &&& post.storage_system.memory@ == if i == -1 {
                mem0
            } else {
                mem0.push((pa, buf[i].1))
            }
            &&& post.storage_system.bufs() == if i == -1 {
                bufs0
            } else {
                bufs0.update(pt as int, buf.remove(i))
            }
        },
    }
}

impl PSO {
    pub open spec fn wf(&self) -> bool {
        &&& self.thread_system.wf()
        &&& self.storage_system.buffers@.len() == self.thread_system.registers@.len()
    }

    pub fn new(instructions: Vec<Vec<LabeledInstruction>>) -> (s: PSO)
        requires
            ({
                let ps = instructions@.map_values(|p: Vec<LabeledInstruction>| p@);
                let fl = flat_len(ps, ps.len() as int);
                &&& 2 * fl * fl + 1 <= usize::MAX as nat
                &&& forall|t: int, k: int|
                    0 <= t < ps.len() && 0 <= k < ps[t].len() ==> !((#[trigger] ps[t][k]).instruction
                        is Propagate)
            }),
        ensures
            s.wf(),
            s.thread_system.registers@.len() == instructions@.len(),
            forall|t: int|
                0 <= t < s.thread_system.registers@.len() ==> #[trigger] s.thread_system.regs()[t].len()
                    == 0,
            forall|t: int|
                0 <= t < s.thread_system.pending().len()
                    ==> #[trigger] s.thread_system.pending()[t].len() == 0,
            crate::threads::nodes_built(
                s.thread_system.graph@,
                instructions@.map_values(|p: Vec<LabeledInstruction>| p@),
            ),
            forall|a: usize, b: usize|
                0 <= a < s.thread_system.graph@.n() && 0 <= b < s.thread_system.graph@.n() ==> (
                #[trigger] s.thread_system.graph@.rev_edges[b as int].contains(a)
                    <==> crate::threads::mode_edge(
                    instructions@.map_values(|p: Vec<LabeledInstruction>| p@),
                    a,
                    b,
                )),
            s.storage_system.memory@.len() == 0,
            forall|t: int|
                0 <= t < s.storage_system.buffers@.len() ==> #[trigger] s.storage_system.bufs()[t].len()
                    == 0,
    {
        let storage_system = PSOStorageSystem::new(instructions.len());
        let thread_system = PSOThreadSystem::new(instructions);
        PSO { thread_system, storage_system }
    }

    pub fn get_possible_executions(&self) -> (r: Vec<Node>)
        requires
            self.wf(),
        ensures
            forall|k: int|
                0 <= k < r@.len() ==> self.thread_system.graph@.is_candidate(#[trigger] r@[k].id)
                    && r@[k] == self.thread_system.graph@.nodes[r@[k].id as int],
            forall|i: usize|
                self.thread_system.graph@.is_candidate(i) ==> exists|k: int|
                    0 <= k < r@.len() && (#[trigger] r@[k]).id == i,
            forall|k1: int, k2: int| 0 <= k1 < k2 < r@.len() ==> r@[k1].id < r@[k2].id,
            r@.len() == 0 <==> (forall|i: usize| !self.thread_system.graph@.is_candidate(i)),
    {
        self.thread_system.get_possible_executions()
    }

    /// Whether the graph can still take one more step's worth of growth.
    pub fn has_room(&self) -> (b: bool)
        requires
            self.wf(),
        ensures
            b == (self.thread_system.graph@.n() + 1 <= usize::MAX as int && total_edges(
                self.thread_system.graph@.rev_edges,
            ) + 2 * self.thread_system.graph@.n() + 1 <= usize::MAX as nat),
    {
        graph_has_room(&self.thread_system.graph)
    }

    /// Execute one chosen event. Fails exactly on a division by zero,
    /// leaving everything unchanged.
    pub fn step(&mut self, node: Node) -> (r: Result<(), StepError>)
        requires
            old(self).wf(),
            node.id < old(self).thread_system.graph@.n(),
            old(self).thread_system.graph@.nodes[node.id as int] == node,
            old(self).thread_system.graph@.is_active[node.id as int],
            old(self).thread_system.graph@.n() + 1 <= usize::MAX as int,
            total_edges(old(self).thread_system.graph@.rev_edges) + 2 * old(
                self,
            ).thread_system.graph@.n() + 1 <= usize::MAX as nat,
        ensures
            final(self).wf(),
            r is Err <==> div_faults(old(self).thread_system.regs(), node),
            r is Err ==> *final(self) == *old(self) && r == Err::<(), StepError>(
                StepError::DivisionByZero,
            ),
            r is Ok ==> pso_post(*old(self), *final(self), node),
    {
        let thread_id = node.thread_id;
        match &node.instruction.instruction {
            Instruction::ArithDiv { r3, .. } => {
                let v3 = self.thread_system.get_register(thread_id, r3.clone());
                if v3 == 0 {
                    return Err(StepError::DivisionByZero);
                }
            },
            _ => {},
        }
        self.thread_system.remove_node(&node);
        match node.instruction.instruction {
            Instruction::Const { r, value } => {
                self.thread_system.assign_register(thread_id, r, value);
            },
            Instruction::ArithPlus { r1, r2, r3 } => {
                let r2_value = self.thread_system.get_register(thread_id, r2);
                let r3_value = self.thread_system.get_register(thread_id, r3);
                self.thread_system.assign_register(thread_id, r1, r2_value.wrapping_add(r3_value));
            },
            Instruction::ArithMinus { r1, r2, r3 } => {
                let r2_value = self.thread_system.get_register(thread_id, r2);
                let r3_value = self.thread_system.get_register(thread_id, r3);
                self.thread_system.assign_register(thread_id, r1, r2_value.wrapping_sub(r3_value));
            },
            Instruction::ArithMul { r1, r2, r3 } => {
                let r2_value = self.thread_system.get_register(thread_id, r2);
                let r3_value = self.thread_system.get_register(thread_id, r3);
                self.thread_system.assign_register(thread_id, r1, r2_value.wrapping_mul(r3_value));
            },
            Instruction::ArithDiv { r1, r2, r3 } => {
                let r2_value = self.thread_system.get_register(thread_id, r2);
                let r3_value = self.thread_system.get_register(thread_id, r3);
                self.thread_system.assign_register(thread_id, r1, div_wrap(r2_value, r3_value));
            },
            Instruction::Cond { r, label } => {
                let value = self.thread_system.get_register(thread_id, r);
                if value != 0 {
                    self.thread_system.goto(label);
                }
            },
            Instruction::Load { mode: _, address, r } => {
                let address_value = self.thread_system.get_register(thread_id, address);
                let value = self.storage_system.load(thread_id, address_value);
                self.thread_system.assign_register(thread_id, r, value);
            },
            Instruction::Store { mode: _, address, r } => {
                let address_value = self.thread_system.get_register(thread_id, address);
                let value = self.thread_system.get_register(thread_id, r);
                self.storage_system.store(thread_id, address_value, value);
                self.thread_system.add_propagate_node(thread_id, address_value, value);
            },
            Instruction::Cas { mode: _, address, to, exp, des } => {
                let address_value = self.thread_system.get_register(thread_id, address);
                let exp_value = self.thread_system.get_register(thread_id, exp);
                let des_value = self.thread_system.get_register(thread_id, des);
                let value = self.storage_system.cas(thread_id, address_value, exp_value, des_value);
                if value == exp_value {
                    self.thread_system.add_propagate_node(thread_id, address_value, des_value);
                }
                self.thread_system.assign_register(thread_id, to, value);
            },
            Instruction::Fai { mode: _, address, to, inc } => {
                let address_value = self.thread_system.get_register(thread_id, address);
                let inc_value = self.thread_system.get_register(thread_id, inc);
                let value = self.storage_system.fai(thread_id, address_value, inc_value);
                self.thread_system.assign_register(thread_id, to, value);
                self.thread_system.add_propagate_node(
                    thread_id,
                    address_value,
                    value.wrapping_add(inc_value),
                );
            },
            Instruction::Fence { mode: _ } => {},
            Instruction::Propagate { thread_id: pt, address: pa, value: _ } => {
                proof {
                    assert(old(self).thread_system.graph@.nodes[node.id as int].instruction.instruction
                        matches Instruction::Propagate { thread_id, .. } && thread_id == pt);
                }
                self.storage_system.propagate(pt, pa);
            },
        }
        Ok(())
    }

    /// Sample one candidate uniformly and execute it. Returns the
    /// executed node, or nothing when no candidate is left. A fault is
    /// only reported when some candidate is a division by zero, and
    /// leaves everything unchanged.
    pub fn random_step(&mut self) -> (r: Result<Option<Node>, StepError>)
        requires
            old(self).wf(),
            old(self).thread_system.graph@.n() + 1 <= usize::MAX as int,
            total_edges(old(self).thread_system.graph@.rev_edges) + 2 * old(
                self,
            ).thread_system.graph@.n() + 1 <= usize::MAX as nat,
        ensures
            final(self).wf(),
            r matches Ok(None) ==> *final(self) == *old(self) && (forall|i: usize|
                !old(self).thread_system.graph@.is_candidate(i)),
            r matches Ok(Some(node)) ==> old(self).thread_system.graph@.is_candidate(node.id)
                && node == old(self).thread_system.graph@.nodes[node.id as int] && pso_post(
                *old(self),
                *final(self),
                node,
            ),
            r is Err ==> *final(self) == *old(self) && (exists|i: usize|
                old(self).thread_system.graph@.is_candidate(i) && div_faults(
                    old(self).thread_system.regs(),
                    old(self).thread_system.graph@.nodes[i as int],
                )),
    {
        let executions = self.get_possible_executions();
        if executions.len() == 0 {
            return Ok(None);
        }
        let idx = pick_index(executions.len());
        let node = executions[idx].clone();
        let ret = node.clone();
        match self.step(node) {
            Ok(()) => Ok(Some(ret)),
            Err(e) => {
                proof {
                    assert(old(self).thread_system.graph@.is_candidate(ret.id));
                    assert(old(self).thread_system.graph@.nodes[ret.id as int] == ret);
                    assert(div_faults(
                        old(self).thread_system.regs(),
                        old(self).thread_system.graph@.nodes[ret.id as int],
                    ));
                }
                Err(e)
            },
        }
    }
}


impl MemoryModel for PSO {
    open spec fn m_wf(&self) -> bool {
        self.wf()
    }

    open spec fn m_graph(&self) -> crate::graph::GraphV {
        self.thread_system.graph@
    }

    open spec fn m_regs(&self) -> Seq<Seq<(String, i32)>> {
        self.thread_system.regs()
    }

    open spec fn can_grow(&self) -> bool {
        self.thread_system.graph@.n() + 1 <= usize::MAX as int && total_edges(
            self.thread_system.graph@.rev_edges,
        ) + 2 * self.thread_system.graph@.n() + 1 <= usize::MAX as nat
    }

    open spec fn step_post(&self, post: Self, node: Node) -> bool {
        pso_post(*self, post, node)
    }

    fn get_possible_executions(&self) -> (r: Vec<Node>) {
        let r = PSO::get_possible_executions(self);
        proof {
            assert(self.m_graph() == self.thread_system.graph@);
            if r@.len() == 0 {
                assert forall|i: usize| !self.m_graph().is_candidate(i) by {
                    assert(!self.thread_system.graph@.is_candidate(i));
                }
            } else {
                assert(self.m_graph().is_candidate(r@[0].id));
            }
        }
        r
    }

    fn step(&mut self, node: Node) -> (r: Result<(), StepError>) {
        PSO::step(self, node)
    }

    fn random_step(&mut self) -> (r: Result<Option<Node>, StepError>) {
        let r = PSO::random_step(self);
        proof {
            if r matches Ok(None) {
                assert forall|i: usize| !old(self).m_graph().is_candidate(i) by {
                    assert(!old(self).thread_system.graph@.is_candidate(i));
                }
            }
            if r is Err {
                let i = choose|i: usize|
                    old(self).thread_system.graph@.is_candidate(i) && div_faults(
                        old(self).thread_system.regs(),
                        old(self).thread_system.graph@.nodes[i as int],
                    );
                assert(old(self).m_graph().is_candidate(i));
                assert(div_faults(old(self).m_regs(), old(self).m_graph().nodes[i as int]));
            }
        }
        r
    }
}

/// Whether the graph can grow by one node and at most two edges per
/// existing node without leaving the machine's address range.
fn graph_has_room(graph: &crate::graph::Graph) -> (b: bool)
    requires
        graph.wf(),
    ensures
        b == (graph@.n() + 1 <= usize::MAX as int && total_edges(graph@.rev_edges) + 2 * graph@.n()
            + 1 <= usize::MAX as nat),
{
    let n = graph.instructions.len();
    let m = graph.rev_edges.len();
    let mut total: usize = 0;
    let mut j: usize = 0;
    while j < m
        invariant
            graph.wf(),
            m == graph@.rev_edges.len(),
            j <= m,
            total as nat == total_edges_upto(graph@.rev_edges, j as int),
        decreases m - j,
    {
        let l = graph.rev_edges[j].len();
        proof {
            assert(graph@.rev_edges[j as int].len() == l);
            crate::graph::lemma_total_edges_mono(graph@.rev_edges, j + 1, m as int);
        }
        total = total + l;
        j = j + 1;
    }
    let half = (usize::MAX - 1) / 2;
    proof {
        vstd::arithmetic::div_mod::lemma_fundamental_div_mod(usize::MAX as int - 1, 2);
    }
    if n > half {
        return false;
    }
    total <= usize::MAX - (2 * n + 1)
}

} // verus!
