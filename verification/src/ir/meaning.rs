//! What the operations of the intermediate representation do, and what expressions and statements of a
//! program mean. Neither speaks of how the one is made of the other.

use vstd::prelude::*;

use crate::analyze::ast::{
    ArithmeticOp, AssignableV, CompareOp, ExprInnerV, ExprV, LogicalOp, StmtV,
};
use crate::analyze::semantics::types;
use crate::analyze::semantics::types::{Primitive, Sign, TypeId, TypesV};
use crate::ir;
use crate::ir::{
    Condition, Label, OpV, Operation, SourceVal, Terminator, ValSize, VirtualReg,
};

verus! {

/// How many values a register has.
pub open spec fn range() -> int {
    0x1_0000_0000_0000_0000
}

/// What is left of a number in a register.
#[verifier::opaque]
pub open spec fn wrapped(n: int) -> u64 {
    (n % range()) as u64
}

/// The number that a register holds, if its highest bit is a sign.
#[verifier::opaque]
pub open spec fn signed(n: u64) -> int {
    if n < 0x8000_0000_0000_0000 {
        n as int
    } else {
        n - range()
    }
}

pub open spec fn magnitude(n: int) -> int {
    if n < 0 {
        -n
    } else {
        n
    }
}

/// How often one number goes into another, without the rest. Nothing goes into a number zero times.
pub open spec fn quotient(a: int, b: int) -> int {
    if b == 0 {
        0
    } else if (a < 0) == (b < 0) {
        magnitude(a) / magnitude(b)
    } else {
        -(magnitude(a) / magnitude(b))
    }
}

pub open spec fn sum(a: u64, b: u64) -> u64 {
    wrapped(a + b)
}

pub open spec fn difference(a: u64, b: u64) -> u64 {
    wrapped(a - b)
}

pub open spec fn product(a: u64, b: u64) -> u64 {
    wrapped(a * b)
}

pub open spec fn division(a: u64, b: u64) -> u64 {
    wrapped(quotient(signed(a), signed(b)))
}

/// What is left over by a division.
pub open spec fn remainder(a: u64, b: u64) -> u64 {
    wrapped(a - division(a, b) * b)
}

pub open spec fn truth(b: bool) -> u64 {
    if b {
        1
    } else {
        0
    }
}

/// What an operator makes of two numbers. Division takes them as numbers with a sign.
pub open spec fn combined(op: ArithmeticOp, a: u64, b: u64) -> u64 {
    match op {
        ArithmeticOp::Add => sum(a, b),
        ArithmeticOp::Sub => difference(a, b),
        ArithmeticOp::Mul => product(a, b),
        ArithmeticOp::Div => division(a, b),
        ArithmeticOp::Mod => remainder(a, b),
    }
}

/// Whether one number compares to another as an operator says.
pub open spec fn compares(op: CompareOp, with_sign: bool, a: u64, b: u64) -> bool {
    let x = if with_sign {
        signed(a)
    } else {
        a as int
    };
    let y = if with_sign {
        signed(b)
    } else {
        b as int
    };
    match op {
        CompareOp::Equal => x == y,
        CompareOp::NotEqual => x != y,
        CompareOp::Less => x < y,
        CompareOp::LessOrEqual => x <= y,
        CompareOp::Greater => x > y,
        CompareOp::GreaterOrEqual => x >= y,
    }
}

/// Whether a condition holds between two numbers.
pub open spec fn holds(c: Condition, a: u64, b: u64) -> bool {
    match c {
        Condition::Equal => a == b,
        Condition::NotEqual => a != b,
        Condition::UnsignedGreaterOrEqual => a >= b,
        Condition::UnsignedLess => a < b,
        Condition::UnsignedGreater => a > b,
        Condition::UnsignedLessOrEqual => a <= b,
        Condition::SignedGreaterOrEqual => signed(a) >= signed(b),
        Condition::SignedLess => signed(a) < signed(b),
        Condition::SignedGreater => signed(a) > signed(b),
        Condition::SignedLessOrEqual => signed(a) <= signed(b),
        Condition::Negative => signed(difference(a, b)) < 0,
        Condition::PositiveOrZero => signed(difference(a, b)) >= 0,
        Condition::Overflow => signed(a) - signed(b) != signed(difference(a, b)),
        Condition::NoOverflow => signed(a) - signed(b) == signed(difference(a, b)),
        Condition::Always => true,
        Condition::Never => false,
    }
}

/// The condition that a comparison becomes holds just where the comparison does.
pub proof fn law_condition(op: CompareOp, with_sign: bool, a: u64, b: u64)
    ensures
        holds(crate::ir::condition_of(op, with_sign), a, b) == compares(op, with_sign, a, b),
{
    reveal(signed);
}

/// The opposite of a condition holds just where the condition does not.
pub proof fn law_opposite_holds(c: Condition, a: u64, b: u64)
    ensures
        holds(crate::ir::opposite(c), a, b) == !holds(c, a, b),
{
}

/// The bytes at all addresses.
pub type Memory = Map<u64, u8>;

/// Adding to what is left of a number is as good as adding to the number.
pub proof fn law_wrapped(n: int, more: int)
    ensures
        wrapped(wrapped(n) + more) == wrapped(n + more),
        wrapped(wrapped(n) as int) == wrapped(n),
        0 <= n < range() ==> wrapped(n) == n,
{
    reveal(wrapped);
    vstd::arithmetic::div_mod::lemma_add_mod_noop(n, more, range());
    vstd::arithmetic::div_mod::lemma_add_mod_noop(n % range(), more, range());
}

/// What programs run on: memory of some kind, and functions that can be called.
pub struct Machine {
    /// The number of a given size at an address.
    pub load: spec_fn(Memory, u64, ValSize) -> u64,
    /// Memory with a number of a given size at an address.
    pub store: spec_fn(Memory, u64, ValSize, u64) -> Memory,
    /// What a function gives back, and the memory that it leaves.
    pub call: spec_fn(Memory, Seq<char>, Seq<u64>) -> (u64, Memory),
    /// The address of a string literal.
    pub text: spec_fn(Seq<char>) -> u64,
    /// The address of a place in static memory.
    pub fixed: spec_fn(u64) -> u64,
    /// Where the variables of the function lie.
    pub frame: u64,
    /// Where the arguments of the function lie, in eight bytes each.
    pub args: u64,
}

/// Registers and memory.
pub struct World {
    pub regs: Map<VirtualReg, u64>,
    pub mem: Memory,
}

/// What is known of a function: its blocks by their labels, the sizes of its registers, the places of
/// its variables, and the string literals.
pub struct Ground {
    pub blocks: Map<Label, (Seq<OpV>, Terminator)>,
    pub sizes: Map<VirtualReg, ValSize>,
    pub stack: Map<u32, u32>,
    pub strings: Seq<Seq<char>>,
}

pub open spec fn source_value(
    k: Machine,
    c: Ground,
    src: SourceVal,
    regs: Map<VirtualReg, u64>,
) -> u64 {
    match src {
        SourceVal::Immediate(n) => n,
        SourceVal::VReg(v) => regs[v],
        SourceVal::String(id) => (k.text)(c.strings[id as int]),
        SourceVal::StaticMem(offset) => (k.fixed)(offset),
    }
}

/// The address of a place in the frame of a function.
pub open spec fn frame_address(k: Machine, offset: u32) -> u64 {
    sum(k.frame, offset as u64)
}

/// The address of an argument.
pub open spec fn arg_address(k: Machine, position: u32) -> u64 {
    wrapped(k.args + 8 * position)
}

impl World {
    pub open spec fn set(self, dest: VirtualReg, n: u64) -> World {
        World { regs: self.regs.insert(dest, n), ..self }
    }

    pub open spec fn stored(self, k: Machine, address: u64, size: ValSize, n: u64) -> World {
        World { mem: (k.store)(self.mem, address, size, n), ..self }
    }
}

/// What an operation that is no call does.
pub open spec fn performed(k: Machine, c: Ground, op: Operation, w: World) -> World {
    match op {
        Operation::Assign { src, dest } => w.set(dest, source_value(k, c, src, w.regs)),
        Operation::Store { src, stack_offset } => {
            let size = match src {
                SourceVal::VReg(v) => c.sizes[v],
                _ => ValSize::Doubleword,
            };
            w.stored(k, frame_address(k, stack_offset), size, source_value(k, c, src, w.regs))
        },
        Operation::Load { stack_offset, dest } => w.set(
            dest,
            (k.load)(w.mem, frame_address(k, stack_offset), c.sizes[dest]),
        ),
        Operation::LoadOffset { base, offset, dest } => w.set(
            dest,
            (k.load)(w.mem, sum(w.regs[base], offset as u64), c.sizes[dest]),
        ),
        Operation::LoadArg { offset, dest } => w.set(
            dest,
            (k.load)(w.mem, arg_address(k, offset), c.sizes[dest]),
        ),
        Operation::AddressOf { val, dest } => w.set(dest, frame_address(k, c.stack[val.0])),
        Operation::AddressOfArg { offset, dest } => w.set(dest, arg_address(k, offset)),
        Operation::LoadPointer { ptr, size, dest } => w.set(
            dest,
            (k.load)(w.mem, w.regs[ptr], size),
        ),
        Operation::StorePointer { src, ptr, size, offset } => w.stored(
            k,
            sum(w.regs[ptr], offset as u64),
            size,
            w.regs[src],
        ),
        Operation::Add { a, b, dest } => w.set(dest, sum(w.regs[a], w.regs[b])),
        Operation::Subtract { a, b, dest } => w.set(dest, difference(w.regs[a], w.regs[b])),
        Operation::Multiply { a, b, dest } => w.set(dest, product(w.regs[a], w.regs[b])),
        Operation::Divide { a, b, dest } => w.set(dest, division(w.regs[a], w.regs[b])),
        Operation::Modulo { a, b, dest } => w.set(dest, remainder(w.regs[a], w.regs[b])),
        Operation::Negate { val, dest } => w.set(dest, difference(0, w.regs[val])),
        Operation::Not { val, dest } => w.set(dest, truth(w.regs[val] == 0)),
        Operation::Compare { a, b, cond, dest } => w.set(
            dest,
            truth(holds(cond, w.regs[a], w.regs[b])),
        ),
        Operation::Select { .. } => w,
        Operation::Call { .. } => w,
    }
}

/// What an operation does.
pub open spec fn done(k: Machine, c: Ground, op: OpV, w: World) -> World {
    match op {
        OpV::Plain(op) => performed(k, c, op, w),
        OpV::Call { function, args, dest } => {
            let values = args.map_values(|v: VirtualReg| w.regs[v]);
            let (value, mem) = (k.call)(w.mem, function, values);
            match dest {
                Some(d) => World { regs: w.regs.insert(d, value), mem },
                None => World { regs: w.regs, mem },
            }
        },
    }
}

/// Where a function is while it runs.
pub enum Point {
    /// In front of an operation of a block, or of its end.
    At(Label, nat, World),
    /// It has returned a value.
    Returned(u64, Memory),
    /// It has come to its end without a value.
    Ended(Memory),
    /// There is no such block.
    Lost,
}

pub open spec fn went(label: Label, w: World) -> Point {
    if label == Label::End {
        Point::Ended(w.mem)
    } else {
        Point::At(label, 0, w)
    }
}

/// One step of a function.
pub open spec fn stepped(k: Machine, c: Ground, p: Point) -> Point {
    match p {
        Point::At(label, i, w) => if !c.blocks.contains_key(label) {
            Point::Lost
        } else {
            let (ops, end) = c.blocks[label];
            if i < ops.len() {
                Point::At(label, i + 1, done(k, c, ops[i as int], w))
            } else {
                match end {
                    Terminator::Branch { label } => went(label, w),
                    Terminator::BranchCond { cond, if_true, if_false } => if w.regs[cond] != 0 {
                        went(if_true, w)
                    } else {
                        went(if_false, w)
                    },
                    Terminator::Return { value } => Point::Returned(w.regs[value], w.mem),
                }
            }
        },
        _ => p,
    }
}

/// `n` steps of a function.
pub open spec fn ran(k: Machine, c: Ground, p: Point, n: nat) -> Point
    decreases n,
{
    if n == 0 {
        p
    } else {
        ran(k, c, stepped(k, c, p), (n - 1) as nat)
    }
}

/// Whether a function comes from one point to another.
#[verifier::opaque]
pub open spec fn reaches(k: Machine, c: Ground, p: Point, q: Point) -> bool {
    exists|n: nat| #[trigger] ran(k, c, p, n) == q
}

/// Where the variables of a function lie: those in static memory, and those of the function, of which
/// some are arguments.
pub struct Scope {
    pub allocs: Map<Seq<char>, (u64, TypeId)>,
    pub vars: Map<Seq<char>, VirtualReg>,
    pub args: Map<u32, u32>,
    pub stack: Map<u32, u32>,
    pub sizes: Map<VirtualReg, ValSize>,
}

/// Where a variable lies.
pub enum Place {
    /// In static memory, with a type of its own.
    Static(u64, TypeId),
    Arg(u32),
    Frame(u32),
}

impl Scope {
    /// A variable in static memory hides one of the function.
    pub open spec fn place(self, name: Seq<char>) -> Place {
        if self.allocs.contains_key(name) {
            Place::Static(self.allocs[name].0, self.allocs[name].1)
        } else {
            self.own(name)
        }
    }

    /// The place of a variable of the function.
    pub open spec fn own(self, name: Seq<char>) -> Place {
        let v = self.vars[name];
        if self.args.contains_key(v.0) {
            Place::Arg(self.args[v.0])
        } else {
            Place::Frame(self.stack[v.0])
        }
    }
}

/// How many bytes a value of a type takes, where it is handled at once.
pub open spec fn type_size(types: TypesV, t: Option<TypeId>) -> Option<ValSize> {
    match t {
        Some(t) => if types.contains_key(t.0) {
            ir::val_size(types[t.0].size)
        } else {
            None
        },
        None => None,
    }
}

pub open spec fn address_of(k: Machine, place: Place) -> u64 {
    match place {
        Place::Static(offset, _) => (k.fixed)(offset),
        Place::Arg(position) => arg_address(k, position),
        Place::Frame(offset) => frame_address(k, offset),
    }
}

/// The value of a variable.
pub open spec fn read(
    types: TypesV,
    k: Machine,
    place: Place,
    size: Option<ValSize>,
    mem: Memory,
) -> u64 {
    let size = match place {
        Place::Static(_, typ) => type_size(types, Some(typ)),
        _ => size,
    };
    (k.load)(mem, address_of(k, place), size->0)
}

/// How far behind the beginning of a struct a member lies.
pub open spec fn member_offset(types: TypesV, t: Option<TypeId>, member: Seq<char>) -> u64 {
    (types::member_of(types, t->0, member)->0).2
}

/// The value of an expression, and the memory that computing it leaves. Operands are computed from left to
/// right, but an index comes before what it is an index of. The second operand of a logical operator is
/// only computed if the first one does not decide.
pub open spec fn value(
    types: TypesV,
    s: Scope,
    k: Machine,
    mem: Memory,
    e: ExprV<TypeId>,
) -> (u64, Memory)
    decreases e, 0nat,
{
    match e.inner {
        ExprInnerV::Const(n, _) => (n, mem),
        ExprInnerV::Character(c) => (c as u64, mem),
        ExprInnerV::String(t) => ((k.text)(t), mem),
        ExprInnerV::Bool(b) => (truth(b), mem),
        ExprInnerV::Ident(name) => (
            read(types, k, s.place(name), type_size(types, e.typ), mem),
            mem,
        ),
        ExprInnerV::Pointer(name) => (address_of(k, s.own(name)), mem),
        ExprInnerV::Deref(name, t) => {
            let p = read(types, k, s.place(name), Some(ValSize::Doubleword), mem);
            ((k.load)(mem, p, type_size(types, t)->0), mem)
        },
        ExprInnerV::Arithmetic(a, b, op, _) => {
            let (x, m) = value(types, s, k, mem, *a);
            let (y, m) = value(types, s, k, m, *b);
            (combined(op, x, y), m)
        },
        ExprInnerV::Comparison(a, b, op, sign) => {
            let (x, m) = value(types, s, k, mem, *a);
            let (y, m) = value(types, s, k, m, *b);
            (truth(compares(op, sign == Some(Sign::Signed), x, y)), m)
        },
        ExprInnerV::Logical(a, b, op) => {
            let (x, m) = value(types, s, k, mem, *a);
            if op == LogicalOp::And && x == 0 {
                (0, m)
            } else if op == LogicalOp::Or && x != 0 {
                (1, m)
            } else {
                let (y, m) = value(types, s, k, m, *b);
                (truth(y != 0), m)
            }
        },
        ExprInnerV::Not(a) => {
            let (x, m) = value(types, s, k, mem, *a);
            (truth(x == 0), m)
        },
        ExprInnerV::Negate(a) => {
            let (x, m) = value(types, s, k, mem, *a);
            (difference(0, x), m)
        },
        ExprInnerV::Cast(a, _) => value(types, s, k, mem, *a),
        ExprInnerV::Index { data, index, val_size } => {
            let (i, m) = value(types, s, k, mem, *index);
            let (d, m) = value(types, s, k, m, *data);
            ((k.load)(m, sum(d, i), val_size->0), m)
        },
        ExprInnerV::MemberAccess(a, member, t) => {
            let (p, m) = value(types, s, k, mem, *a);
            let address = sum(p, member_offset(types, t, member));
            ((k.load)(m, address, type_size(types, e.typ)->0), m)
        },
        ExprInnerV::FnCall(f, args) => {
            let (xs, m) = values(types, s, k, mem, args, args.len());
            let (x, m) = (k.call)(m, f->Named_0, xs);
            (
                if type_size(types, e.typ) is Some {
                    x
                } else {
                    0
                },
                m,
            )
        },
        ExprInnerV::Construct { .. } => (0, mem),
        ExprInnerV::SizeOf(t) => (types[t.0].size, mem),
    }
}

/// The values of the first `n` arguments, and the memory that computing them leaves.
pub open spec fn values(
    types: TypesV,
    s: Scope,
    k: Machine,
    mem: Memory,
    args: Seq<ExprV<TypeId>>,
    n: nat,
) -> (Seq<u64>, Memory)
    decreases args, n,
{
    if n == 0 || n > args.len() {
        (Seq::empty(), mem)
    } else {
        let (xs, m) = values(types, s, k, mem, args, (n - 1) as nat);
        let (x, m) = value(types, s, k, m, args[n - 1]);
        (xs.push(x), m)
    }
}

/// What comes of statements.
pub enum Ran {
    /// They were run, and left some memory.
    On(Memory),
    /// The function returned a value.
    Back(u64, Memory),
    /// There was no time to run them to the end.
    Late,
}

/// What an assignment of a value leaves. Where the value is put is computed behind the value.
pub open spec fn assigned(
    types: TypesV,
    s: Scope,
    k: Machine,
    mem: Memory,
    var: AssignableV<TypeId>,
    n: u64,
    typ: Option<TypeId>,
) -> Memory {
    match var {
        AssignableV::Var(name) => {
            let place = s.place(name);
            let size = match place {
                Place::Static(_, t) => type_size(types, Some(t))->0,
                _ => s.sizes[s.vars[name]],
            };
            (k.store)(mem, address_of(k, place), size, n)
        },
        AssignableV::Ptr(name, val_size) => {
            let p = read(types, k, s.own(name), Some(ValSize::Doubleword), mem);
            (k.store)(mem, p, val_size->0, n)
        },
        AssignableV::Index { data, index, val_size } => {
            let (i, m) = value(types, s, k, mem, index);
            let (d, m) = value(types, s, k, m, data);
            (k.store)(m, sum(d, i), val_size->0, n)
        },
        AssignableV::MemberAccess(parent, member) => {
            let (p, m) = value(types, s, k, mem, parent);
            let t = types[(parent.typ->0).0].pointee();
            (k.store)(m, sum(p, member_offset(types, t, member)), type_size(types, typ)->0, n)
        },
    }
}

/// Runs a statement. A loop is entered at most `time` times, counting those inside it.
pub open spec fn run_stmt(
    types: TypesV,
    s: Scope,
    k: Machine,
    mem: Memory,
    stmt: StmtV<TypeId>,
    time: nat,
) -> Ran
    decreases time, stmt, 0nat,
{
    match stmt {
        StmtV::Declare { var, expr, .. } => if expr.typ == Some(types::primitive_id(Primitive::Unit)) {
            Ran::On(mem)
        } else {
            let (n, m) = value(types, s, k, mem, expr);
            Ran::On((k.store)(m, address_of(k, s.own(var)), type_size(types, expr.typ)->0, n))
        },
        StmtV::Assign { var, expr, .. } => {
            let (n, m) = value(types, s, k, mem, expr);
            Ran::On(assigned(types, s, k, m, var, n, expr.typ))
        },
        StmtV::Expr(expr) => Ran::On(value(types, s, k, mem, expr).1),
        StmtV::Return(expr) => {
            let (n, m) = value(types, s, k, mem, expr);
            Ran::Back(n, m)
        },
        StmtV::If { guard, body } => {
            let (n, m) = value(types, s, k, mem, guard);
            if n != 0 {
                run_stmts(types, s, k, m, body, 0, time)
            } else {
                Ran::On(m)
            }
        },
        StmtV::WhileLoop { guard, body } => {
            let (n, m) = value(types, s, k, mem, guard);
            if n == 0 {
                Ran::On(m)
            } else if time == 0 {
                Ran::Late
            } else {
                match run_stmts(types, s, k, m, body, 0, (time - 1) as nat) {
                    Ran::On(m) => run_stmt(types, s, k, m, stmt, (time - 1) as nat),
                    r => r,
                }
            }
        },
    }
}

/// Runs the statements from `i` on.
pub open spec fn run_stmts(
    types: TypesV,
    s: Scope,
    k: Machine,
    mem: Memory,
    stmts: Seq<StmtV<TypeId>>,
    i: nat,
    time: nat,
) -> Ran
    decreases time, stmts, (stmts.len() - i) as nat,
{
    if i >= stmts.len() {
        Ran::On(mem)
    } else {
        match run_stmt(types, s, k, mem, stmts[i as int], time) {
            Ran::On(m) => run_stmts(types, s, k, m, stmts, i + 1, time),
            r => r,
        }
    }
}

} // verus!
