//! Checks that each register is assigned once.

use vstd::prelude::*;

use crate::ir;
use crate::ir::{BasicBlock, BlockV, FunctionV, Item, OpV, RegSet, VirtualReg, IR};

verus! {

/// The registers that the first `n` operations assign, in their order.
pub open spec fn assigned_by_ops(ops: Seq<OpV>, n: nat) -> Seq<VirtualReg>
    decreases n,
{
    if n == 0 {
        Seq::empty()
    } else {
        match ops[n - 1].assigns() {
            Some(v) => assigned_by_ops(ops, (n - 1) as nat).push(v),
            None => assigned_by_ops(ops, (n - 1) as nat),
        }
    }
}

/// The registers that the first `n` blocks assign, in their order.
pub open spec fn assigned_by_blocks(blocks: Seq<BlockV>, n: nat) -> Seq<VirtualReg>
    decreases n,
{
    if n == 0 {
        Seq::empty()
    } else {
        let ops = blocks[n - 1].ops;
        assigned_by_blocks(blocks, (n - 1) as nat) + assigned_by_ops(ops, ops.len())
    }
}

/// The registers that a function assigns, in their order.
pub open spec fn assigned(f: FunctionV) -> Seq<VirtualReg> {
    assigned_by_blocks(f.body, f.body.len())
}

/// Whether an element occurs more than once.
pub open spec fn repeated(s: Seq<VirtualReg>, v: VirtualReg) -> bool {
    exists|i: int, j: int| 0 <= i < j < s.len() && s[i] == v && #[trigger] s[j] == #[trigger] s[i]
}

/// The registers that are assigned more than once.
pub open spec fn duplicates(s: Seq<VirtualReg>) -> Set<VirtualReg> {
    Set::new(|v: VirtualReg| repeated(s, v))
}

/// The first function from `i` on that assigns a register more than once.
pub open spec fn first_violation(items: Seq<FunctionV>, i: nat) -> Option<int>
    decreases items.len() - i,
{
    if i >= items.len() {
        None
    } else if duplicates(assigned(items[i as int])) != Set::<VirtualReg>::empty() {
        Some(i as int)
    } else {
        first_violation(items, i + 1)
    }
}

fn collect_assigned(body: &Vec<BasicBlock>) -> (r: Vec<VirtualReg>)
    ensures
        r@ == assigned_by_blocks(ir::block_views(body@), body@.len()),
{
    let mut found: Vec<VirtualReg> = Vec::new();
    let mut i: usize = 0;
    while i < body.len()
        invariant
            i <= body.len(),
            found@ == assigned_by_blocks(ir::block_views(body@), i as nat),
        decreases body.len() - i,
    {
        let ghost before = found@;
        let ops = &body[i].ops;
        let ghost views = ir::op_views(ops@);
        let mut k: usize = 0;
        while k < ops.len()
            invariant
                k <= ops.len(),
                views == ir::op_views(ops@),
                found@ == before + assigned_by_ops(views, k as nat),
            decreases ops.len() - k,
        {
            proof {
                assert(views[k as int] == ops@[k as int]@);
            }
            let (_, dest) = ops[k].vregs_used();
            if let Some(dest) = dest {
                found.push(dest);
            }
            k = k + 1;
        }
        proof {
            assert(ir::block_views(body@)[i as int].ops == views);
        }
        i = i + 1;
    }
    found
}

/// Checks that no function assigns a register more than once. If one does, gives the first such
/// function and the registers.
pub fn verify_ssa(program: &IR) -> (r: Result<(), (String, RegSet)>)
    ensures
        match first_violation(program@.items, 0) {
            None => r is Ok,
            Some(i) => {
                &&& r matches Err((name, regs))
                &&& name@ == program@.items[i].name
                &&& regs@ == duplicates(assigned(program@.items[i]))
            },
        },
{
    let mut i: usize = 0;
    while i < program.items.len()
        invariant
            i <= program.items.len(),
            first_violation(program@.items, i as nat) == first_violation(program@.items, 0),
        decreases program.items.len() - i,
    {
        let Item::Function { name, body, .. } = &program.items[i];
        proof {
            assert(program@.items[i as int] == program.items@[i as int]@);
        }
        let found = collect_assigned(body);
        let mut seen = RegSet::new();
        let mut doubles = RegSet::new();
        let mut k: usize = 0;
        while k < found.len()
            invariant
                k <= found.len(),
                forall|v: VirtualReg| #[trigger]
                    seen@.contains(v) <==> found@.subrange(0, k as int).contains(v),
                forall|v: VirtualReg| #[trigger]
                    doubles@.contains(v) <==> repeated(found@.subrange(0, k as int), v),
            decreases found.len() - k,
        {
            let ghost before = found@.subrange(0, k as int);
            let ghost now = found@.subrange(0, k + 1);
            let dest = found[k];
            let ghost doubles0 = doubles@;
            let ghost seen0 = seen@;
            if !seen.insert(dest) {
                doubles.insert(dest);
            }
            proof {
                assert(now =~= before.push(dest));
                assert forall|v: VirtualReg| #[trigger]
                    seen@.contains(v) <==> now.contains(v) by {
                    if now.contains(v) {
                        let j = choose|j: int| 0 <= j < now.len() && now[j] == v;
                        if j < before.len() {
                            assert(before[j] == v);
                            assert(before.contains(v));
                        }
                    }
                    if seen@.contains(v) {
                        if v == dest {
                            assert(now[before.len() as int] == v);
                        } else {
                            assert(before.contains(v));
                            let j = choose|j: int| 0 <= j < before.len() && before[j] == v;
                            assert(now[j] == v);
                        }
                    }
                }
                assert forall|v: VirtualReg| #[trigger]
                    doubles@.contains(v) <==> repeated(now, v) by {
                    if repeated(now, v) {
                        let (a, b) = choose|a: int, b: int|
                            0 <= a < b < now.len() && now[a] == v && #[trigger] now[b] == #[trigger] now[a];
                        assert(before[a] == v);
                        if b < before.len() {
                            assert(before[b] == before[a]);
                            assert(repeated(before, v));
                        } else {
                            assert(v == dest);
                            assert(before.contains(v));
                            assert(seen0.contains(v));
                        }
                    }
                    if doubles@.contains(v) {
                        if doubles0.contains(v) {
                            let (a, b) = choose|a: int, b: int|
                                0 <= a < b < before.len() && before[a] == v && #[trigger] before[b]
                                    == #[trigger] before[a];
                            assert(now[a] == v);
                            assert(now[b] == now[a]);
                        } else {
                            assert(v == dest);
                            assert(before.contains(v));
                            let a = choose|a: int| 0 <= a < before.len() && before[a] == v;
                            assert(now[a] == v);
                            assert(now[before.len() as int] == now[a]);
                        }
                    }
                }
            }
            k = k + 1;
        }
        proof {
            assert(found@.subrange(0, k as int) =~= found@);
            assert(doubles@ =~= duplicates(found@));
        }
        if doubles.list.len() > 0 {
            proof {
                assert(doubles@.contains(doubles.list@[0]));
            }
            return Err((name.clone(), doubles));
        }
        proof {
            assert(doubles@ =~= Set::<VirtualReg>::empty());
        }
        i = i + 1;
    }
    Ok(())
}

} // verus!
