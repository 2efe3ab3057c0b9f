//! Shows the intermediate representation as text.

use vstd::prelude::*;
use vstd::string::*;

use crate::ir;
use crate::ir::{
    BasicBlock, BlockV, Condition, FunctionV, Item, Label, OpV, Operation, SizeMap, SourceVal,
    Terminator, ValSize, VirtualReg, IR,
};
use crate::text;

verus! {

pub open spec fn shown_reg(v: VirtualReg) -> Seq<char> {
    "%"@ + text::decimal(v.0 as nat)
}

pub fn show_reg(v: VirtualReg) -> (r: String)
    ensures
        r@ == shown_reg(v),
{
    text::join2("%", text::to_decimal(v.0 as u64).as_str())
}

pub open spec fn shown_label(l: Label) -> Seq<char> {
    match l {
        Label::Entry => ".entry"@,
        Label::Anon(n) => ".L"@ + text::decimal(n as nat),
        Label::End => ".end"@,
    }
}

pub fn show_label(l: Label) -> (r: String)
    ensures
        r@ == shown_label(l),
{
    match l {
        Label::Entry => ".entry".to_owned(),
        Label::Anon(n) => text::join2(".L", text::to_decimal(n as u64).as_str()),
        Label::End => ".end".to_owned(),
    }
}

pub open spec fn shown_src(s: SourceVal) -> Seq<char> {
    match s {
        SourceVal::Immediate(n) => text::decimal(n as nat),
        SourceVal::VReg(v) => shown_reg(v),
        SourceVal::String(id) => "string #"@ + text::decimal(id as nat),
        SourceVal::StaticMem(offset) => "mem +"@ + text::decimal(offset as nat),
    }
}

pub fn show_src(s: SourceVal) -> (r: String)
    ensures
        r@ == shown_src(s),
{
    match s {
        SourceVal::Immediate(n) => text::to_decimal(n),
        SourceVal::VReg(v) => show_reg(v),
        SourceVal::String(id) => text::join2("string #", text::to_decimal(id as u64).as_str()),
        SourceVal::StaticMem(offset) => text::join2("mem +", text::to_decimal(offset).as_str()),
    }
}

pub open spec fn size_name(s: ValSize) -> Seq<char> {
    match s {
        ValSize::Byte => "Byte"@,
        ValSize::Halfword => "Halfword"@,
        ValSize::Word => "Word"@,
        ValSize::Doubleword => "Doubleword"@,
    }
}

pub fn show_size(s: ValSize) -> (r: &'static str)
    ensures
        r@ == size_name(s),
{
    match s {
        ValSize::Byte => "Byte",
        ValSize::Halfword => "Halfword",
        ValSize::Word => "Word",
        ValSize::Doubleword => "Doubleword",
    }
}

pub open spec fn condition_name(c: Condition) -> Seq<char> {
    match c {
        Condition::Equal => "Equal"@,
        Condition::NotEqual => "NotEqual"@,
        Condition::UnsignedGreaterOrEqual => "UnsignedGreaterOrEqual"@,
        Condition::UnsignedLess => "UnsignedLess"@,
        Condition::UnsignedGreater => "UnsignedGreater"@,
        Condition::UnsignedLessOrEqual => "UnsignedLessOrEqual"@,
        Condition::SignedGreaterOrEqual => "SignedGreaterOrEqual"@,
        Condition::SignedLess => "SignedLess"@,
        Condition::SignedGreater => "SignedGreater"@,
        Condition::SignedLessOrEqual => "SignedLessOrEqual"@,
        Condition::Negative => "Negative"@,
        Condition::PositiveOrZero => "PositiveOrZero"@,
        Condition::Overflow => "Overflow"@,
        Condition::NoOverflow => "NoOverflow"@,
        Condition::Always => "Always"@,
        Condition::Never => "Never"@,
    }
}

pub fn show_condition(c: Condition) -> (r: &'static str)
    ensures
        r@ == condition_name(c),
{
    match c {
        Condition::Equal => "Equal",
        Condition::NotEqual => "NotEqual",
        Condition::UnsignedGreaterOrEqual => "UnsignedGreaterOrEqual",
        Condition::UnsignedLess => "UnsignedLess",
        Condition::UnsignedGreater => "UnsignedGreater",
        Condition::UnsignedLessOrEqual => "UnsignedLessOrEqual",
        Condition::SignedGreaterOrEqual => "SignedGreaterOrEqual",
        Condition::SignedLess => "SignedLess",
        Condition::SignedGreater => "SignedGreater",
        Condition::SignedLessOrEqual => "SignedLessOrEqual",
        Condition::Negative => "Negative",
        Condition::PositiveOrZero => "PositiveOrZero",
        Condition::Overflow => "Overflow",
        Condition::NoOverflow => "NoOverflow",
        Condition::Always => "Always",
        Condition::Never => "Never",
    }
}

/// Registers with a comma between neighbours.
pub open spec fn shown_regs(v: Seq<VirtualReg>) -> Seq<char> {
    text::joined(v.map_values(|r: VirtualReg| shown_reg(r)), ", "@)
}

pub fn show_regs(v: &Vec<VirtualReg>) -> (r: String)
    ensures
        r@ == shown_regs(v@),
{
    let mut items: Vec<String> = Vec::new();
    let mut i: usize = 0;
    while i < v.len()
        invariant
            i <= v.len(),
            items@.len() == i,
            forall|j: int| 0 <= j < i ==> (#[trigger] items@[j])@ == shown_reg(v@[j]),
        decreases v.len() - i,
    {
        items.push(show_reg(v[i]));
        i = i + 1;
    }
    proof {
        assert(text::all_chars(items@) =~= v@.map_values(|r: VirtualReg| shown_reg(r)));
    }
    text::join_all(&items, ", ")
}

/// The line that shows an operation.
pub open spec fn shown_op(op: OpV) -> Seq<char> {
    match op {
        OpV::Call { function, args, dest } => {
            let head = match dest {
                Some(d) => "    "@ + shown_reg(d) + " = call "@,
                None => "    call "@,
            };
            head + function + "("@ + shown_regs(args) + ")\n"@
        },
        OpV::Plain(op) => match op {
            Operation::Assign { src, dest } => "    "@ + shown_reg(dest) + " = "@ + shown_src(src) + "\n"@,
            Operation::Store { src, stack_offset } => "    store "@ + shown_src(src) + " => stack "@ + text::decimal(stack_offset as nat) + "\n"@,
            Operation::Load { stack_offset, dest } => "    "@ + shown_reg(dest) + " = load stack "@ + text::decimal(stack_offset as nat) + "\n"@,
            Operation::LoadOffset { base, offset, dest } => "    "@ + shown_reg(dest) + " = ptr("@ + shown_reg(base) + ") + "@ + text::decimal(offset as nat) + "\n"@,
            Operation::LoadArg { offset, dest } => "    load arg fp + "@ + text::decimal(offset as nat) + " => "@ + shown_reg(dest) + "\n"@,
            Operation::AddressOf { val, dest } => "    "@ + shown_reg(dest) + " = ref "@ + shown_reg(val) + "\n"@,
            Operation::AddressOfArg { offset, dest } => "    "@ + shown_reg(dest) + " = ref fp + "@ + text::decimal(offset as nat) + "\n"@,
            Operation::LoadPointer { ptr, size, dest } => "    "@ + shown_reg(dest) + " = deref "@ + size_name(size) + " "@ + shown_reg(ptr) + "\n"@,
            Operation::StorePointer { src, ptr, size, offset } => "    ptr("@ + shown_reg(ptr) + ") + "@ + text::decimal(offset as nat) + " = "@ + shown_reg(src) + " ("@ + size_name(size) + ")\n"@,
            Operation::Add { a, b, dest } => "    "@ + shown_reg(dest) + " = "@ + shown_reg(a) + " + "@ + shown_reg(b) + "\n"@,
            Operation::Subtract { a, b, dest } => "    "@ + shown_reg(dest) + " = "@ + shown_reg(a) + " - "@ + shown_reg(b) + "\n"@,
            Operation::Multiply { a, b, dest } => "    "@ + shown_reg(dest) + " = "@ + shown_reg(a) + " * "@ + shown_reg(b) + "\n"@,
            Operation::Divide { a, b, dest } => "    "@ + shown_reg(dest) + " = "@ + shown_reg(a) + " / "@ + shown_reg(b) + "\n"@,
            Operation::Modulo { a, b, dest } => "    "@ + shown_reg(dest) + " = "@ + shown_reg(a) + " % "@ + shown_reg(b) + "\n"@,
            Operation::Not { val, dest } => "    "@ + shown_reg(dest) + " = not "@ + shown_reg(val) + "\n"@,
            Operation::Negate { val, dest } => "    "@ + shown_reg(dest) + " = neg "@ + shown_reg(val) + "\n"@,
            Operation::Compare { a, b, cond, dest } => "    "@ + shown_reg(dest) + " = cmp "@ + shown_reg(a) + " "@ + condition_name(cond) + " "@ + shown_reg(b) + "\n"@,
            Operation::Select { a, b, cond, dest } => "    "@ + shown_reg(dest) + " = select "@ + shown_reg(cond) + " ? "@ + text::decimal(a as nat) + " : "@ + text::decimal(b as nat) + "\n"@,
            Operation::Call { .. } => Seq::empty(),
        },
    }
}

impl Operation {
    /// The line that shows the operation.
    pub fn show(&self) -> (r: String)
        ensures
            r@ == shown_op(self@),
    {
        match self {
            Operation::Assign { src, dest } => {
                let mut s = "    ".to_owned();
                s.append(show_reg(*dest).as_str());
                s.append(" = ");
                s.append(show_src(*src).as_str());
                s.append("\n");
                s
            },
            Operation::Store { src, stack_offset } => {
                let mut s = "    store ".to_owned();
                s.append(show_src(*src).as_str());
                s.append(" => stack ");
                s.append(text::to_decimal(*stack_offset as u64).as_str());
                s.append("\n");
                s
            },
            Operation::Load { stack_offset, dest } => {
                let mut s = "    ".to_owned();
                s.append(show_reg(*dest).as_str());
                s.append(" = load stack ");
                s.append(text::to_decimal(*stack_offset as u64).as_str());
                s.append("\n");
                s
            },
            Operation::LoadOffset { base, offset, dest } => {
                let mut s = "    ".to_owned();
                s.append(show_reg(*dest).as_str());
                s.append(" = ptr(");
                s.append(show_reg(*base).as_str());
                s.append(") + ");
                s.append(text::to_decimal(*offset as u64).as_str());
                s.append("\n");
                s
            },
            Operation::LoadArg { offset, dest } => {
                let mut s = "    load arg fp + ".to_owned();
                s.append(text::to_decimal(*offset as u64).as_str());
                s.append(" => ");
                s.append(show_reg(*dest).as_str());
                s.append("\n");
                s
            },
            Operation::AddressOf { val, dest } => {
                let mut s = "    ".to_owned();
                s.append(show_reg(*dest).as_str());
                s.append(" = ref ");
                s.append(show_reg(*val).as_str());
                s.append("\n");
                s
            },
            Operation::AddressOfArg { offset, dest } => {
                let mut s = "    ".to_owned();
                s.append(show_reg(*dest).as_str());
                s.append(" = ref fp + ");
                s.append(text::to_decimal(*offset as u64).as_str());
                s.append("\n");
                s
            },
            Operation::LoadPointer { ptr, size, dest } => {
                let mut s = "    ".to_owned();
                s.append(show_reg(*dest).as_str());
                s.append(" = deref ");
                s.append(show_size(*size));
                s.append(" ");
                s.append(show_reg(*ptr).as_str());
                s.append("\n");
                s
            },
            Operation::StorePointer { src, ptr, size, offset } => {
                let mut s = "    ptr(".to_owned();
                s.append(show_reg(*ptr).as_str());
                s.append(") + ");
                s.append(text::to_decimal(*offset as u64).as_str());
                s.append(" = ");
                s.append(show_reg(*src).as_str());
                s.append(" (");
                s.append(show_size(*size));
                s.append(")\n");
                s
            },
            Operation::Add { a, b, dest } => {
                let mut s = "    ".to_owned();
                s.append(show_reg(*dest).as_str());
                s.append(" = ");
                s.append(show_reg(*a).as_str());
                s.append(" + ");
                s.append(show_reg(*b).as_str());
                s.append("\n");
                s
            },
            Operation::Subtract { a, b, dest } => {
                let mut s = "    ".to_owned();
                s.append(show_reg(*dest).as_str());
                s.append(" = ");
                s.append(show_reg(*a).as_str());
                s.append(" - ");
                s.append(show_reg(*b).as_str());
                s.append("\n");
                s
            },
            Operation::Multiply { a, b, dest } => {
                let mut s = "    ".to_owned();
                s.append(show_reg(*dest).as_str());
                s.append(" = ");
                s.append(show_reg(*a).as_str());
                s.append(" * ");
                s.append(show_reg(*b).as_str());
                s.append("\n");
                s
            },
            Operation::Divide { a, b, dest } => {
                let mut s = "    ".to_owned();
                s.append(show_reg(*dest).as_str());
                s.append(" = ");
                s.append(show_reg(*a).as_str());
                s.append(" / ");
                s.append(show_reg(*b).as_str());
                s.append("\n");
                s
            },
            Operation::Modulo { a, b, dest } => {
                let mut s = "    ".to_owned();
                s.append(show_reg(*dest).as_str());
                s.append(" = ");
                s.append(show_reg(*a).as_str());
                s.append(" % ");
                s.append(show_reg(*b).as_str());
                s.append("\n");
                s
            },
            Operation::Not { val, dest } => {
                let mut s = "    ".to_owned();
                s.append(show_reg(*dest).as_str());
                s.append(" = not ");
                s.append(show_reg(*val).as_str());
                s.append("\n");
                s
            },
            Operation::Negate { val, dest } => {
                let mut s = "    ".to_owned();
                s.append(show_reg(*dest).as_str());
                s.append(" = neg ");
                s.append(show_reg(*val).as_str());
                s.append("\n");
                s
            },
            Operation::Compare { a, b, cond, dest } => {
                let mut s = "    ".to_owned();
                s.append(show_reg(*dest).as_str());
                s.append(" = cmp ");
                s.append(show_reg(*a).as_str());
                s.append(" ");
                s.append(show_condition(*cond));
                s.append(" ");
                s.append(show_reg(*b).as_str());
                s.append("\n");
                s
            },
            Operation::Select { a, b, cond, dest } => {
                let mut s = "    ".to_owned();
                s.append(show_reg(*dest).as_str());
                s.append(" = select ");
                s.append(show_reg(*cond).as_str());
                s.append(" ? ");
                s.append(text::to_decimal(*a as u64).as_str());
                s.append(" : ");
                s.append(text::to_decimal(*b as u64).as_str());
                s.append("\n");
                s
            },
            Operation::Call { function, args, dest } => {
                let mut s = match dest {
                    Some(d) => text::join3("    ", show_reg(*d).as_str(), " = call "),
                    None => "    call ".to_owned(),
                };
                s.append(function.as_str());
                s.append("(");
                s.append(show_regs(args).as_str());
                s.append(")\n");
                s
            },
        }
    }
}

/// The lines that show a terminator.
pub open spec fn shown_terminator(t: Terminator) -> Seq<char> {
    match t {
        Terminator::Branch { label } => "    goto "@ + shown_label(label) + "\n"@,
        Terminator::BranchCond { cond, if_true, if_false } => "    br cond "@ + shown_reg(cond)
            + " [\n      true => "@ + shown_label(if_true) + "\n      false => "@ + shown_label(
            if_false,
        ) + "\n    ]\n"@,
        Terminator::Return { value } => "    ret "@ + shown_reg(value) + "\n"@,
    }
}

impl Terminator {
    /// The lines that show the terminator.
    pub fn show(&self) -> (r: String)
        ensures
            r@ == shown_terminator(*self),
    {
        match self {
            Terminator::Branch { label } => text::join3(
                "    goto ",
                show_label(*label).as_str(),
                "\n",
            ),
            Terminator::BranchCond { cond, if_true, if_false } => {
                let mut s = "    br cond ".to_owned();
                s.append(show_reg(*cond).as_str());
                s.append(" [\n      true => ");
                s.append(show_label(*if_true).as_str());
                s.append("\n      false => ");
                s.append(show_label(*if_false).as_str());
                s.append("\n    ]\n");
                s
            },
            Terminator::Return { value } => text::join3(
                "    ret ",
                show_reg(*value).as_str(),
                "\n",
            ),
        }
    }
}

/// The labels of those of the first `n` blocks that can be followed by one with a given label.
pub open spec fn predecessors(blocks: Seq<BlockV>, label: Label, n: nat) -> Seq<Label>
    decreases n,
{
    if n == 0 {
        Seq::empty()
    } else {
        let before = predecessors(blocks, label, (n - 1) as nat);
        if ir::successors_of(blocks[n - 1].terminator).contains(label) {
            before.push(blocks[n - 1].label)
        } else {
            before
        }
    }
}

fn find_predecessors(blocks: &Vec<BasicBlock>, label: Label) -> (r: Vec<Label>)
    ensures
        r@ == predecessors(ir::block_views(blocks@), label, blocks@.len()),
{
    let mut r: Vec<Label> = Vec::new();
    let mut i: usize = 0;
    while i < blocks.len()
        invariant
            i <= blocks.len(),
            r@ == predecessors(ir::block_views(blocks@), label, i as nat),
        decreases blocks.len() - i,
    {
        let succ = blocks[i].successors();
        let mut found = false;
        let mut k: usize = 0;
        while k < succ.len()
            invariant
                k <= succ.len(),
                found == succ@.subrange(0, k as int).contains(label),
            decreases succ.len() - k,
        {
            proof {
                assert(succ@.subrange(0, k + 1) =~= succ@.subrange(0, k as int).push(
                    succ@[k as int],
                ));
                ir::lemma_push_to_set(succ@.subrange(0, k as int), succ@[k as int]);
                assert(succ@.subrange(0, k + 1).contains(label) <==> succ@.subrange(
                    0,
                    k + 1,
                ).to_set().contains(label));
                assert(succ@.subrange(0, k as int).contains(label) <==> succ@.subrange(
                    0,
                    k as int,
                ).to_set().contains(label));
            }
            if succ[k] == label {
                found = true;
            }
            k = k + 1;
        }
        proof {
            assert(succ@.subrange(0, k as int) =~= succ@);
        }
        if found {
            r.push(blocks[i].label);
        }
        i = i + 1;
    }
    r
}

pub open spec fn shown_labels(v: Seq<Label>) -> Seq<char> {
    text::joined(v.map_values(|l: Label| shown_label(l)), ", "@)
}

fn show_labels(v: &Vec<Label>) -> (r: String)
    ensures
        r@ == shown_labels(v@),
{
    let mut items: Vec<String> = Vec::new();
    let mut i: usize = 0;
    while i < v.len()
        invariant
            i <= v.len(),
            items@.len() == i,
            forall|j: int| 0 <= j < i ==> (#[trigger] items@[j])@ == shown_label(v@[j]),
        decreases v.len() - i,
    {
        items.push(show_label(v[i]));
        i = i + 1;
    }
    proof {
        assert(text::all_chars(items@) =~= v@.map_values(|l: Label| shown_label(l)));
    }
    text::join_all(&items, ", ")
}

/// The first `n` operations, one line each.
pub open spec fn shown_ops(ops: Seq<OpV>, n: nat) -> Seq<char>
    decreases n,
{
    if n == 0 {
        Seq::empty()
    } else {
        shown_ops(ops, (n - 1) as nat) + shown_op(ops[n - 1])
    }
}

/// A block of a function: a line with its label, its arguments and its predecessors, then its
/// operations, its terminator and an empty line. The arguments, which are a set, come in the order
/// `args`.
pub open spec fn shown_block(blocks: Seq<BlockV>, block: BlockV, args: Seq<VirtualReg>) -> Seq<char> {
    shown_label(block.label) + " ("@ + shown_regs(args) + ")  # "@ + shown_labels(
        predecessors(blocks, block.label, blocks.len()),
    ) + "\n"@ + shown_ops(block.ops, block.ops.len()) + shown_terminator(block.terminator) + "\n"@
}

fn show_block(blocks: &Vec<BasicBlock>, block: &BasicBlock) -> (r: String)
    ensures
        r@ == shown_block(ir::block_views(blocks@), block@, block.args.list@),
{
    let mut s = show_label(block.label);
    s.append(" (");
    s.append(show_regs(&block.args.list).as_str());
    s.append(")  # ");
    let before = find_predecessors(blocks, block.label);
    s.append(show_labels(&before).as_str());
    s.append("\n");
    let ghost head = s@;
    let ghost views = ir::op_views(block.ops@);
    let mut i: usize = 0;
    proof {
        assert(head + shown_ops(views, 0) =~= head);
    }
    while i < block.ops.len()
        invariant
            i <= block.ops.len(),
            views == ir::op_views(block.ops@),
            s@ == head + shown_ops(views, i as nat),
        decreases block.ops.len() - i,
    {
        proof {
            assert(views[i as int] == block.ops@[i as int]@);
            assert(head + shown_ops(views, (i + 1) as nat) =~= head + shown_ops(views, i as nat)
                + shown_op(views[i as int]));
        }
        s.append(block.ops[i].show().as_str());
        i = i + 1;
    }
    s.append(block.terminator.show().as_str());
    s.append("\n");
    s
}

/// The first `n` blocks of a function, of which block `i` shows its arguments in the order
/// `orders[i]`.
pub open spec fn shown_blocks(blocks: Seq<BlockV>, orders: Seq<Seq<VirtualReg>>, n: nat) -> Seq<char>
    decreases n,
{
    if n == 0 {
        Seq::empty()
    } else {
        shown_blocks(blocks, orders, (n - 1) as nat) + shown_block(
            blocks,
            blocks[n - 1],
            orders[n - 1],
        )
    }
}

pub open spec fn arg_orders(v: Seq<BasicBlock>) -> Seq<Seq<VirtualReg>> {
    v.map_values(|b: BasicBlock| b.args.list@)
}

pub open spec fn shown_entry(e: (VirtualReg, ValSize)) -> Seq<char> {
    "VirtualReg("@ + text::decimal(e.0.0 as nat) + "): "@ + size_name(e.1)
}

/// Registers with their sizes, in the order of the registers.
pub open spec fn shown_sizes(entries: Seq<(VirtualReg, ValSize)>) -> Seq<char> {
    "{"@ + text::joined(entries.map_values(|e: (VirtualReg, ValSize)| shown_entry(e)), ", "@) + "}"@
}

fn show_sizes(map: &SizeMap) -> (r: String)
    ensures
        r@ == shown_sizes(ir::size_entries(map@, map.first_reg(), map.next_reg())),
{
    let entries = map.entries();
    let mut items: Vec<String> = Vec::new();
    let mut i: usize = 0;
    while i < entries.len()
        invariant
            i <= entries.len(),
            items@.len() == i,
            forall|j: int| 0 <= j < i ==> (#[trigger] items@[j])@ == shown_entry(entries@[j]),
        decreases entries.len() - i,
    {
        let e = entries[i];
        let v = e.0;
        items.push(
            text::join4(
                "VirtualReg(",
                text::to_decimal(v.0 as u64).as_str(),
                "): ",
                show_size(e.1),
            ),
        );
        i = i + 1;
    }
    proof {
        assert(text::all_chars(items@) =~= entries@.map_values(
            |e: (VirtualReg, ValSize)| shown_entry(e),
        ));
    }
    let list = text::join_all(&items, ", ");
    text::join3("{", list.as_str(), "}")
}

/// A function, its sizes given as a list, and its blocks.
pub open spec fn shown_function(
    f: FunctionV,
    sizes: Seq<(VirtualReg, ValSize)>,
    orders: Seq<Seq<VirtualReg>>,
) -> Seq<char> {
    "fn "@ + f.name + "("@ + shown_regs(f.args) + ") size_map: "@ + shown_sizes(sizes) + " {\n"@
        + shown_blocks(f.body, orders, f.body.len()) + "}\n\n"@
}

impl Item {
    /// The sizes of the registers, in the order of the registers.
    pub open spec fn size_list(&self) -> Seq<(VirtualReg, ValSize)> {
        match self {
            Item::Function { size_map, .. } => ir::size_entries(
                size_map@,
                size_map.first_reg(),
                size_map.next_reg(),
            ),
        }
    }

    /// The orders in which the arguments of the blocks are held.
    pub open spec fn orders(&self) -> Seq<Seq<VirtualReg>> {
        match self {
            Item::Function { body, .. } => arg_orders(body@),
        }
    }

    /// The text that shows the function. The arguments of a block, which are a set, come in the
    /// order in which the block holds them.
    pub fn show(&self) -> (r: String)
        ensures
            r@ == shown_function(self@, self.size_list(), self.orders()),
    {
        let Item::Function { name, args, size_map, body, .. } = self;
        let mut s = "fn ".to_owned();
        s.append(name.as_str());
        s.append("(");
        s.append(show_regs(args).as_str());
        s.append(") size_map: ");
        s.append(show_sizes(size_map).as_str());
        s.append(" {\n");
        let ghost head = s@;
        let ghost views = ir::block_views(body@);
        let ghost orders = arg_orders(body@);
        let mut i: usize = 0;
        proof {
            assert(head + shown_blocks(views, orders, 0) =~= head);
        }
        while i < body.len()
            invariant
                i <= body.len(),
                views == ir::block_views(body@),
                orders == arg_orders(body@),
                s@ == head + shown_blocks(views, orders, i as nat),
            decreases body.len() - i,
        {
            proof {
                assert(views[i as int] == body@[i as int]@);
                assert(orders[i as int] == body@[i as int].args.list@);
                assert(head + shown_blocks(views, orders, (i + 1) as nat) =~= head + shown_blocks(
                    views,
                    orders,
                    i as nat,
                ) + shown_block(views, views[i as int], orders[i as int]));
            }
            s.append(show_block(body, &body[i]).as_str());
            i = i + 1;
        }
        s.append("}\n\n");
        s
    }
}

/// The strings, one line each.
pub open spec fn shown_strings(strings: Seq<Seq<char>>, n: nat) -> Seq<char>
    decreases n,
{
    if n == 0 {
        Seq::empty()
    } else {
        shown_strings(strings, (n - 1) as nat) + "#"@ + text::decimal((n - 1) as nat) + " => \""@
            + strings[n - 1] + "\"\n"@
    }
}

/// The first `n` functions.
pub open spec fn shown_items(items: Seq<Item>, n: nat) -> Seq<char>
    decreases n,
{
    if n == 0 {
        Seq::empty()
    } else {
        let item = items[n - 1];
        shown_items(items, (n - 1) as nat) + shown_function(item@, item.size_list(), item.orders())
    }
}

/// A program: its strings, an empty line if there are any, and its functions.
pub open spec fn shown_program(program: IR) -> Seq<char> {
    let strings = program@.strings;
    let head = shown_strings(strings, strings.len());
    (if strings.len() > 0 {
        head + "\n"@
    } else {
        head
    }) + shown_items(program.items@, program.items@.len())
}

impl IR {
    /// The text that shows the program.
    pub fn show(&self) -> (r: String)
        ensures
            r@ == shown_program(*self),
    {
        let mut s = String::new();
        let ghost strings = self@.strings;
        let mut i: usize = 0;
        while i < self.strings.len()
            invariant
                i <= self.strings.len(),
                strings == self@.strings,
                s@ == shown_strings(strings, i as nat),
            decreases self.strings.len() - i,
        {
            proof {
                assert(strings[i as int] == self.strings@[i as int]@);
            }
            s.append("#");
            s.append(text::to_decimal(i as u64).as_str());
            s.append(" => \"");
            s.append(self.strings[i].as_str());
            s.append("\"\n");
            i = i + 1;
        }
        if self.strings.len() > 0 {
            s.append("\n");
        }
        let ghost head = s@;
        let mut i: usize = 0;
        proof {
            assert(head + shown_items(self.items@, 0) =~= head);
        }
        while i < self.items.len()
            invariant
                i <= self.items.len(),
                s@ == head + shown_items(self.items@, i as nat),
            decreases self.items.len() - i,
        {
            proof {
                let item = self.items@[i as int];
                assert(head + shown_items(self.items@, (i + 1) as nat) =~= head + shown_items(
                    self.items@,
                    i as nat,
                ) + shown_function(item@, item.size_list(), item.orders()));
            }
            s.append(self.items[i].show().as_str());
            i = i + 1;
        }
        s
    }
}

} // verus!
