//! The event model: memory-order modes, instructions and labeled
//! instructions. `Propagate` is never written by a program; the TSO and PSO
//! thread systems synthesize one such event for every buffered store.

use vstd::prelude::*;

verus! {

/// Memory-order annotation on a memory operation or fence.
#[derive(Clone, Copy, Debug, PartialEq, Eq, Structural)]
pub enum Mode {
    SeqCst,
    Rel,
    Acq,
    RelAcq,
    Rlx,
}

/// One event. Register and address operands are register names; an
/// "address" operand is the name of the register holding the address.
#[derive(Debug)]
pub enum Instruction {
    Const { r: String, value: i32 },
    ArithPlus { r1: String, r2: String, r3: String },
    ArithMinus { r1: String, r2: String, r3: String },
    ArithMul { r1: String, r2: String, r3: String },
    ArithDiv { r1: String, r2: String, r3: String },
    Cond { r: String, label: String },
    Load { mode: Mode, address: String, r: String },
    Store { mode: Mode, address: String, r: String },
    Cas { mode: Mode, address: String, to: String, exp: String, des: String },
    Fai { mode: Mode, address: String, to: String, inc: String },
    Fence { mode: Mode },
    Propagate { thread_id: usize, address: i32, value: i32 },
}

impl Clone for Instruction {
    fn clone(&self) -> (r: Self)
        ensures
            r == *self,
    {
        match self {
            Instruction::Const { r, value } => Instruction::Const {
                r: r.clone(),
                value: *value,
            },
            Instruction::ArithPlus { r1, r2, r3 } => Instruction::ArithPlus {
                r1: r1.clone(),
                r2: r2.clone(),
                r3: r3.clone(),
            },
            Instruction::ArithMinus { r1, r2, r3 } => Instruction::ArithMinus {
                r1: r1.clone(),
                r2: r2.clone(),
                r3: r3.clone(),
            },
            Instruction::ArithMul { r1, r2, r3 } => Instruction::ArithMul {
                r1: r1.clone(),
                r2: r2.clone(),
                r3: r3.clone(),
            },
            Instruction::ArithDiv { r1, r2, r3 } => Instruction::ArithDiv {
                r1: r1.clone(),
                r2: r2.clone(),
                r3: r3.clone(),
            },
            Instruction::Cond { r, label } => Instruction::Cond {
                r: r.clone(),
                label: label.clone(),
            },
            Instruction::Load { mode, address, r } => Instruction::Load {
                mode: *mode,
                address: address.clone(),
                r: r.clone(),
            },
            Instruction::Store { mode, address, r } => Instruction::Store {
                mode: *mode,
                address: address.clone(),
                r: r.clone(),
            },
            Instruction::Cas { mode, address, to, exp, des } => Instruction::Cas {
                mode: *mode,
                address: address.clone(),
                to: to.clone(),
                exp: exp.clone(),
                des: des.clone(),
            },
            Instruction::Fai { mode, address, to, inc } => Instruction::Fai {
                mode: *mode,
                address: address.clone(),
                to: to.clone(),
                inc: inc.clone(),
            },
            Instruction::Fence { mode } => Instruction::Fence { mode: *mode },
            Instruction::Propagate { thread_id, address, value } => Instruction::Propagate {
                thread_id: *thread_id,
                address: *address,
                value: *value,
            },
        }
    }
}

/// The mathematical shape of an instruction: operand names as character
/// sequences.
pub ghost enum InstrV {
    Const { r: Seq<char>, value: i32 },
    ArithPlus { r1: Seq<char>, r2: Seq<char>, r3: Seq<char> },
    ArithMinus { r1: Seq<char>, r2: Seq<char>, r3: Seq<char> },
    ArithMul { r1: Seq<char>, r2: Seq<char>, r3: Seq<char> },
    ArithDiv { r1: Seq<char>, r2: Seq<char>, r3: Seq<char> },
    Cond { r: Seq<char>, label: Seq<char> },
    Load { mode: Mode, address: Seq<char>, r: Seq<char> },
    Store { mode: Mode, address: Seq<char>, r: Seq<char> },
    Cas { mode: Mode, address: Seq<char>, to: Seq<char>, exp: Seq<char>, des: Seq<char> },
    Fai { mode: Mode, address: Seq<char>, to: Seq<char>, inc: Seq<char> },
    Fence { mode: Mode },
    Propagate { thread_id: usize, address: i32, value: i32 },
}

pub ghost struct LabeledInstrV {
    pub label: Option<Seq<char>>,
    pub instruction: InstrV,
}

impl View for Instruction {
    type V = InstrV;

    open spec fn view(&self) -> InstrV {
        match self {
            Instruction::Const { r, value } => InstrV::Const { r: r@, value: *value },
            Instruction::ArithPlus { r1, r2, r3 } => InstrV::ArithPlus {
                r1: r1@,
                r2: r2@,
                r3: r3@,
            },
            Instruction::ArithMinus { r1, r2, r3 } => InstrV::ArithMinus {
                r1: r1@,
                r2: r2@,
                r3: r3@,
            },
            Instruction::ArithMul { r1, r2, r3 } => InstrV::ArithMul {
                r1: r1@,
                r2: r2@,
                r3: r3@,
            },
            Instruction::ArithDiv { r1, r2, r3 } => InstrV::ArithDiv {
                r1: r1@,
                r2: r2@,
                r3: r3@,
            },
            Instruction::Cond { r, label } => InstrV::Cond { r: r@, label: label@ },
            Instruction::Load { mode, address, r } => InstrV::Load {
                mode: *mode,
                address: address@,
                r: r@,
            },
            Instruction::Store { mode, address, r } => InstrV::Store {
                mode: *mode,
                address: address@,
                r: r@,
            },
            Instruction::Cas { mode, address, to, exp, des } => InstrV::Cas {
                mode: *mode,
                address: address@,
                to: to@,
                exp: exp@,
                des: des@,
            },
            Instruction::Fai { mode, address, to, inc } => InstrV::Fai {
                mode: *mode,
                address: address@,
                to: to@,
                inc: inc@,
            },
            Instruction::Fence { mode } => InstrV::Fence { mode: *mode },
            Instruction::Propagate { thread_id, address, value } => InstrV::Propagate {
                thread_id: *thread_id,
                address: *address,
                value: *value,
            },
        }
    }
}

/// An instruction together with its optional label.
#[derive(Debug)]
pub struct LabeledInstruction {
    pub label: Option<String>,
    pub instruction: Instruction,
}

impl View for LabeledInstruction {
    type V = LabeledInstrV;

    open spec fn view(&self) -> LabeledInstrV {
        LabeledInstrV {
            label: match &self.label {
                Some(l) => Some(l@),
                None => None,
            },
            instruction: self.instruction@,
        }
    }
}

impl Clone for LabeledInstruction {
    fn clone(&self) -> (r: Self)
        ensures
            r == *self,
    {
        LabeledInstruction {
            label: match &self.label {
                Some(l) => Some(l.clone()),
                None => None,
            },
            instruction: self.instruction.clone(),
        }
    }
}

impl LabeledInstruction {
    /// The memory-order mode of the event, where it has one.
    pub open spec fn spec_get_mode(&self) -> Option<Mode> {
        match self.instruction {
            Instruction::Load { mode, .. } => Some(mode),
            Instruction::Store { mode, .. } => Some(mode),
            Instruction::Cas { mode, .. } => Some(mode),
            Instruction::Fai { mode, .. } => Some(mode),
            Instruction::Fence { mode } => Some(mode),
            _ => None,
        }
    }

    pub fn get_mode(&self) -> (m: Option<Mode>)
        ensures
            m == self.spec_get_mode(),
    {
        match &self.instruction {
            Instruction::Const { .. } => None,
            Instruction::ArithPlus { .. } => None,
            Instruction::ArithMinus { .. } => None,
            Instruction::ArithMul { .. } => None,
            Instruction::ArithDiv { .. } => None,
            Instruction::Cond { .. } => None,
            Instruction::Load { mode, .. } => Some(*mode),
            Instruction::Store { mode, .. } => Some(*mode),
            Instruction::Cas { mode, .. } => Some(*mode),
            Instruction::Fai { mode, .. } => Some(*mode),
            Instruction::Fence { mode } => Some(*mode),
            Instruction::Propagate { .. } => None,
        }
    }

    pub open spec fn spec_is_fence(&self) -> bool {
        self.instruction is Fence
    }

    pub fn is_fence(&self) -> (b: bool)
        ensures
            b == self.spec_is_fence(),
    {
        match &self.instruction {
            Instruction::Fence { .. } => true,
            _ => false,
        }
    }

    pub open spec fn spec_is_propagate(&self) -> bool {
        self.instruction is Propagate
    }

    pub fn is_propagate(&self) -> (b: bool)
        ensures
            b == self.spec_is_propagate(),
    {
        match &self.instruction {
            Instruction::Propagate { .. } => true,
            _ => false,
        }
    }
}

} // verus!
