//! The control-flow-graph IR the analysis runs on: a program is a set
//! of function bodies; a body is an ordered set of basic blocks over
//! densely numbered variable slots.  Slot 0 holds the return value and
//! slots `1..=arg_count` hold the parameters.

use vstd::prelude::*;

use crate::attributes::{spec_get_kind, AttrInfo};

verus! {

/// A function-local variable slot.
pub type Slot = usize;

/// Index of a basic block within one body.
pub type BlockId = usize;

/// Identity of a function; an index into the program's bodies for
/// functions whose body is part of the program.
pub type FuncId = usize;

/// Something a statement reads: a slot's current value, or a literal
/// constant, which is always untainted.
#[derive(Clone, Copy, PartialEq, Eq, Structural)]
pub enum Operand {
    Copy(Slot),
    Move(Slot),
    Constant,
}

/// The right-hand side of an assignment.  Kinds with no bearing on
/// taint (aggregates, casts, lengths, ...) are collapsed into `Other`.
#[derive(Clone, Copy, PartialEq, Eq, Structural)]
pub enum Rvalue {
    Use(Operand),
    UnaryOp(Operand),
    BinaryOp(Operand, Operand),
    Ref(Slot),
    Other,
}

/// An assignment of an rvalue to a slot; the only statement kind the
/// analysis interprets.
#[derive(Clone, Copy, PartialEq, Eq, Structural)]
pub struct Statement {
    pub target: Slot,
    pub rvalue: Rvalue,
}

/// How a basic block ends.
pub enum Terminator {
    Goto { target: BlockId },
    SwitchInt { discr: Operand, targets: Vec<BlockId> },
    Return,
    Call { func: FuncId, args: Vec<Operand>, destination: Option<(Slot, BlockId)> },
    Assert { target: BlockId },
}

/// A basic block: straight-line assignments closed by one terminator.
pub struct Block {
    pub statements: Vec<Statement>,
    pub terminator: Terminator,
}

/// One function body.  Block 0 is the entry block.
pub struct Body {
    pub arg_count: usize,
    pub slot_count: usize,
    pub blocks: Vec<Block>,
}

/// A whole program: bodies indexed by function identity.
pub struct Program {
    pub bodies: Vec<Body>,
}

impl Operand {
    /// The slot an operand reads, if it is not a constant.
    pub open spec fn slot_of(self) -> Option<Slot> {
        match self {
            Operand::Copy(s) => Some(s),
            Operand::Move(s) => Some(s),
            Operand::Constant => None,
        }
    }

    /// The slot behind the operand, as the caller-visible place of an
    /// argument.
    pub fn place(&self) -> (r: Option<Slot>)
        ensures
            r == self.slot_of(),
    {
        match *self {
            Operand::Copy(s) => Some(s),
            Operand::Move(s) => Some(s),
            Operand::Constant => None,
        }
    }
}

/// Every slot an operand mentions lies inside the body's slot
/// universe.
pub open spec fn operand_wf(op: Operand, n_slots: nat) -> bool {
    match op.slot_of() {
        Some(s) => s < n_slots,
        None => true,
    }
}

/// Every slot an rvalue mentions lies inside the body's slot universe.
pub open spec fn rvalue_wf(rv: Rvalue, n_slots: nat) -> bool {
    match rv {
        Rvalue::Use(op) => operand_wf(op, n_slots),
        Rvalue::UnaryOp(op) => operand_wf(op, n_slots),
        Rvalue::BinaryOp(a, b) => operand_wf(a, n_slots) && operand_wf(b, n_slots),
        Rvalue::Ref(s) => s < n_slots,
        Rvalue::Other => true,
    }
}

/// A statement stays inside the body's slot universe.
pub open spec fn stmt_wf(st: Statement, n_slots: nat) -> bool {
    st.target < n_slots && rvalue_wf(st.rvalue, n_slots)
}

/// A terminator stays inside the body's slots and blocks.
pub open spec fn terminator_wf(t: Terminator, n_slots: nat, n_blocks: nat) -> bool {
    match t {
        Terminator::Goto { target } => target < n_blocks,
        Terminator::SwitchInt { discr, targets } => operand_wf(discr, n_slots) && forall|i: int|
            0 <= i < targets@.len() ==> #[trigger] targets@[i] < n_blocks,
        Terminator::Return => true,
        Terminator::Call { func, args, destination } => {
            &&& forall|i: int| 0 <= i < args@.len() ==> operand_wf(#[trigger] args@[i], n_slots)
            &&& match destination {
                Some((slot, block)) => slot < n_slots && block < n_blocks,
                None => true,
            }
        },
        Terminator::Assert { target } => target < n_blocks,
    }
}

/// A block is well-formed when all its statements and its terminator
/// are.
pub open spec fn block_wf(b: Block, n_slots: nat, n_blocks: nat) -> bool {
    &&& forall|i: int| 0 <= i < b.statements@.len() ==> stmt_wf(#[trigger] b.statements@[i], n_slots)
    &&& terminator_wf(b.terminator, n_slots, n_blocks)
}

/// A body has an entry block, room for the return slot and every
/// parameter, and only well-formed blocks.
pub open spec fn body_wf(b: Body) -> bool {
    &&& b.blocks@.len() >= 1
    &&& b.slot_count >= 1 + b.arg_count
    &&& forall|i: int|
        0 <= i < b.blocks@.len() ==> block_wf(
            #[trigger] b.blocks@[i],
            b.slot_count as nat,
            b.blocks@.len(),
        )
}

/// A program is well-formed when every body stays inside its own slot
/// and block bounds.
pub open spec fn program_wf(p: Program) -> bool {
    forall|f: int| 0 <= f < p.bodies@.len() ==> body_wf(#[trigger] p.bodies@[f])
}

/// Every call target that carries no classification resolves to a
/// body of the program, so the interprocedural driver can always look
/// a callee up.
pub open spec fn call_target_ok(t: Terminator, n_bodies: nat, info: AttrInfo) -> bool {
    match t {
        Terminator::Call { func, args, destination } => spec_get_kind(info, func) is Some || func
            < n_bodies,
        _ => true,
    }
}

/// Body retrieval is total for every call target of the program that
/// the classification does not already decide.
pub open spec fn bodies_available(p: Program, info: AttrInfo) -> bool {
    forall|f: int, b: int|
        0 <= f < p.bodies@.len() && 0 <= b < p.bodies@[f].blocks@.len() ==> call_target_ok(
            (#[trigger] p.bodies@[f].blocks@[b]).terminator,
            p.bodies@.len(),
            info,
        )
}

/// The blocks a terminator can fall through to.
pub open spec fn spec_successors(t: Terminator) -> Seq<BlockId> {
    match t {
        Terminator::Goto { target } => seq![target],
        Terminator::SwitchInt { discr, targets } => targets@,
        Terminator::Return => Seq::empty(),
        Terminator::Call { func, args, destination } => match destination {
            Some((slot, block)) => seq![block],
            None => Seq::empty(),
        },
        Terminator::Assert { target } => seq![target],
    }
}

impl Terminator {
    /// The blocks control can reach when this terminator runs.
    pub fn successors(&self) -> (r: Vec<BlockId>)
        ensures
            r@ == spec_successors(*self),
    {
        match self {
            Terminator::Goto { target } => {
                let mut v: Vec<BlockId> = Vec::new();
                v.push(*target);
                proof {
                    assert(v@ =~= spec_successors(*self));
                }
                v
            },
            Terminator::SwitchInt { discr, targets } => {
                let v = targets.clone();
                proof {
                    assert(v@ =~= targets@);
                }
                v
            },
            Terminator::Return => {
                let v: Vec<BlockId> = Vec::new();
                proof {
                    assert(v@ =~= spec_successors(*self));
                }
                v
            },
            Terminator::Call { func, args, destination } => {
                let mut v: Vec<BlockId> = Vec::new();
                if let Some((_slot, block)) = destination {
                    v.push(*block);
                }
                proof {
                    assert(v@ =~= spec_successors(*self));
                }
                v
            },
            Terminator::Assert { target } => {
                let mut v: Vec<BlockId> = Vec::new();
                v.push(*target);
                proof {
                    assert(v@ =~= spec_successors(*self));
                }
                v
            },
        }
    }
}

fn check_operand(op: &Operand, n_slots: usize) -> (r: bool)
    ensures
        r == operand_wf(*op, n_slots as nat),
{
    match op {
        Operand::Copy(s) => *s < n_slots,
        Operand::Move(s) => *s < n_slots,
        Operand::Constant => true,
    }
}

fn check_statement(st: &Statement, n_slots: usize) -> (r: bool)
    ensures
        r == stmt_wf(*st, n_slots as nat),
{
    if st.target >= n_slots {
        return false;
    }
    match &st.rvalue {
        Rvalue::Use(op) => check_operand(op, n_slots),
        Rvalue::UnaryOp(op) => check_operand(op, n_slots),
        Rvalue::BinaryOp(a, b) => check_operand(a, n_slots) && check_operand(b, n_slots),
        Rvalue::Ref(s) => *s < n_slots,
        Rvalue::Other => true,
    }
}

#[verifier::loop_isolation(false)]
fn check_terminator(t: &Terminator, n_slots: usize, n_blocks: usize) -> (r: bool)
    ensures
        r == terminator_wf(*t, n_slots as nat, n_blocks as nat),
{
    match t {
        Terminator::Goto { target } => *target < n_blocks,
        Terminator::SwitchInt { discr, targets } => {
            if !check_operand(discr, n_slots) {
                return false;
            }
            let n = targets.len();
            let mut i: usize = 0;
            while i < n
                invariant
                    n == targets@.len(),
                    i <= n,
                    forall|j: int| 0 <= j < i ==> #[trigger] targets@[j] < n_blocks,
                decreases n - i,
            {
                if targets[i] >= n_blocks {
                    return false;
                }
                i += 1;
            }
            true
        },
        Terminator::Return => true,
        Terminator::Call { func, args, destination } => {
            let n = args.len();
            let mut i: usize = 0;
            while i < n
                invariant
                    n == args@.len(),
                    i <= n,
                    forall|j: int| 0 <= j < i ==> operand_wf(#[trigger] args@[j], n_slots as nat),
                decreases n - i,
            {
                if !check_operand(&args[i], n_slots) {
                    return false;
                }
                i += 1;
            }
            match destination {
                Some((slot, block)) => *slot < n_slots && *block < n_blocks,
                None => true,
            }
        },
        Terminator::Assert { target } => *target < n_blocks,
    }
}

#[verifier::loop_isolation(false)]
fn check_body(b: &Body) -> (r: bool)
    ensures
        r == body_wf(*b),
{
    let n_blocks = b.blocks.len();
    if n_blocks == 0 {
        return false;
    }
    if b.arg_count >= usize::MAX || b.slot_count < 1 + b.arg_count {
        return false;
    }
    let mut i: usize = 0;
    while i < n_blocks
        invariant
            n_blocks == b.blocks@.len(),
            i <= n_blocks,
            forall|j: int|
                0 <= j < i ==> block_wf(#[trigger] b.blocks@[j], b.slot_count as nat, n_blocks as nat),
        decreases n_blocks - i,
    {
        let blk = &b.blocks[i];
        let m = blk.statements.len();
        let mut s: usize = 0;
        while s < m
            invariant
                m == blk.statements@.len(),
                s <= m,
                forall|j: int|
                    0 <= j < s ==> stmt_wf(#[trigger] blk.statements@[j], b.slot_count as nat),
            decreases m - s,
        {
            if !check_statement(&blk.statements[s], b.slot_count) {
                return false;
            }
            s += 1;
        }
        if !check_terminator(&blk.terminator, b.slot_count, n_blocks) {
            return false;
        }
        i += 1;
    }
    true
}

/// Whether every body of the program stays inside its own slot and
/// block bounds.
#[verifier::loop_isolation(false)]
pub fn check_program(p: &Program) -> (r: bool)
    ensures
        r == program_wf(*p),
{
    let n = p.bodies.len();
    let mut f: usize = 0;
    while f < n
        invariant
            n == p.bodies@.len(),
            f <= n,
            forall|j: int| 0 <= j < f ==> body_wf(#[trigger] p.bodies@[j]),
        decreases n - f,
    {
        if !check_body(&p.bodies[f]) {
            return false;
        }
        f += 1;
    }
    true
}

/// Whether every unclassified call target of the program has a body
/// to look up.
#[verifier::loop_isolation(false)]
pub fn check_bodies_available(p: &Program, info: &AttrInfo) -> (r: bool)
    ensures
        r == bodies_available(*p, *info),
{
    let n = p.bodies.len();
    let mut f: usize = 0;
    while f < n
        invariant
            n == p.bodies@.len(),
            f <= n,
            forall|j: int, b: int|
                0 <= j < f && 0 <= b < p.bodies@[j].blocks@.len() ==> call_target_ok(
                    (#[trigger] p.bodies@[j].blocks@[b]).terminator,
                    n as nat,
                    *info,
                ),
        decreases n - f,
    {
        let body = &p.bodies[f];
        let m = body.blocks.len();
        let mut b: usize = 0;
        while b < m
            invariant
                0 <= f < n,
                n == p.bodies@.len(),
                body == &p.bodies@[f as int],
                m == body.blocks@.len(),
                b <= m,
                forall|k: int|
                    0 <= k < b ==> call_target_ok(
                        (#[trigger] body.blocks@[k]).terminator,
                        n as nat,
                        *info,
                    ),
            decreases m - b,
        {
            let ok = match &body.blocks[b].terminator {
                Terminator::Call { func, args, destination } => info.get_kind(*func).is_some()
                    || *func < n,
                _ => true,
            };
            if !ok {
                return false;
            }
            b += 1;
        }
        f += 1;
    }
    true
}

} // verus!
