//! Evaluation order: a tree is flattened into a post-order program of steps
//! for a numeric back end, which runs them on a stack and stops at the first
//! failing step.
use vstd::prelude::*;
use crate::catalog::{find_function, find_function_spec, Catalogs, Function};
use crate::instruction::{tree_wf, Instruction, Operator};

verus! {

/// One step of a program.
#[derive(Clone, Copy, Debug, PartialEq, Eq, Structural)]
pub enum Step {
    /// Push the value of the atom at this node.
    Value(usize),
    /// Pop two values and push their product.
    Mul,
    /// Pop two values and push their quotient.
    Div,
    /// Pop two values of equal unit and push their sum.
    Add,
    /// Pop two values of equal unit and push their difference.
    Sub,
    /// Pop a value and push its negation.
    Neg,
    /// Pop a base and a dimensionless exponent and push the power.
    Expon,
    /// Pop a value and push the function at the given index (second field)
    /// of the function table applied to it; the first field is the node.
    Call(usize, usize),
    /// Fail: the expression has an empty slot.
    Incomplete,
    /// Fail: the name at this node denotes nothing.
    UnknownName(usize),
    /// Fail: the name at this node is called but is no function.
    UnsupportedFunction(usize),
}

/// The dimensional condition a step puts on its operands.
#[derive(Clone, Copy, Debug, PartialEq, Eq, Structural)]
pub enum Check {
    /// No condition.
    Free,
    /// The two operands have equal units.
    SameUnits,
    /// The exponent is dimensionless.
    DimensionlessExponent,
    /// The argument is dimensionless.
    DimensionlessArgument,
}

/// The program of a binary operator: both operands in order, then `op`.
pub open spec fn binary(
    nodes: Seq<Instruction>,
    funcs: Seq<Function>,
    i: int,
    fuel: nat,
    op: Step,
) -> Seq<Step>
    decreases fuel, 0nat,
{
    if fuel == 0 || i < 0 || i >= nodes.len() {
        seq![Step::Incomplete]
    } else {
        match nodes[i].children {
            Some((a, b)) => program_of(nodes, funcs, a as int, (fuel - 1) as nat) + program_of(
                nodes,
                funcs,
                b as int,
                (fuel - 1) as nat,
            ) + seq![op],
            None => seq![Step::Incomplete],
        }
    }
}

/// The post-order program of the subtree at `i`, looking at most `fuel`
/// levels down (a tree of `n` nodes is less than `n` levels deep).
pub open spec fn program_of(nodes: Seq<Instruction>, funcs: Seq<Function>, i: int, fuel: nat) -> Seq<Step>
    decreases fuel, 1nat,
{
    if fuel == 0 || i < 0 || i >= nodes.len() {
        seq![Step::Incomplete]
    } else {
        match nodes[i].operator {
            Operator::Working => seq![Step::Incomplete],
            Operator::Number(_) => seq![Step::Value(i as usize)],
            Operator::Head | Operator::Parentheses => match nodes[i].children {
                Some((a, _)) => program_of(nodes, funcs, a as int, (fuel - 1) as nat),
                None => seq![Step::Incomplete],
            },
            Operator::Neg => match nodes[i].children {
                Some((a, _)) => program_of(nodes, funcs, a as int, (fuel - 1) as nat) + seq![Step::Neg],
                None => seq![Step::Incomplete],
            },
            Operator::Mul => binary(nodes, funcs, i, fuel, Step::Mul),
            Operator::Div => binary(nodes, funcs, i, fuel, Step::Div),
            Operator::Add => binary(nodes, funcs, i, fuel, Step::Add),
            Operator::Sub => binary(nodes, funcs, i, fuel, Step::Sub),
            Operator::Expon => binary(nodes, funcs, i, fuel, Step::Expon),
            Operator::Func(name) => match nodes[i].children {
                None => seq![Step::UnknownName(i as usize)],
                Some((a, _)) => match find_function_spec(funcs, name@) {
                    None => seq![Step::UnsupportedFunction(i as usize)],
                    Some(f) => program_of(nodes, funcs, a as int, (fuel - 1) as nat) + seq![
                        Step::Call(i as usize, f as usize),
                    ],
                },
            },
        }
    }
}

/// The condition each step puts on its operands: sums and differences need
/// equal units, powers a dimensionless exponent, functions that scale units
/// by zero a dimensionless argument.
pub open spec fn check_of(step: Step, funcs: Seq<Function>) -> Check {
    match step {
        Step::Add | Step::Sub => Check::SameUnits,
        Step::Expon => Check::DimensionlessExponent,
        Step::Call(_, f) => if 0 <= f < funcs.len() && funcs[f as int].scale_num == 0 {
            Check::DimensionlessArgument
        } else {
            Check::Free
        },
        _ => Check::Free,
    }
}

/// The dimensional condition of `step`.
pub fn check(step: Step, cat: &Catalogs) -> (r: Check)
    ensures
        r == check_of(step, cat.functions@),
{
    match step {
        Step::Add | Step::Sub => Check::SameUnits,
        Step::Expon => Check::DimensionlessExponent,
        Step::Call(_, f) => {
            if f < cat.functions.len() && cat.functions[f].scale_num == 0 {
                Check::DimensionlessArgument
            } else {
                Check::Free
            }
        },
        _ => Check::Free,
    }
}

fn emit_binary(
    nodes: &Vec<Instruction>,
    funcs: &Vec<Function>,
    i: usize,
    fuel: usize,
    op: Step,
    out: &mut Vec<Step>,
)
    requires
        tree_wf(nodes@),
        i < nodes@.len(),
        fuel > 0,
    ensures
        final(out)@ == old(out)@ + binary(nodes@, funcs@, i as int, fuel as nat, op),
    decreases fuel, 0nat,
{
    match nodes[i].children {
        Some((a, b)) => {
            let ghost o0 = out@;
            emit(nodes, funcs, a, fuel - 1, out);
            emit(nodes, funcs, b, fuel - 1, out);
            out.push(op);
            assert(out@ =~= o0 + program_of(nodes@, funcs@, a as int, (fuel - 1) as nat) + program_of(
                nodes@,
                funcs@,
                b as int,
                (fuel - 1) as nat,
            ) + seq![op]);
        },
        None => {
            out.push(Step::Incomplete);
        },
    }
}

/// Appends the program of the subtree at `i` to `out`.
fn emit(nodes: &Vec<Instruction>, funcs: &Vec<Function>, i: usize, fuel: usize, out: &mut Vec<Step>)
    requires
        tree_wf(nodes@),
        i < nodes@.len(),
    ensures
        final(out)@ == old(out)@ + program_of(nodes@, funcs@, i as int, fuel as nat),
    decreases fuel, 1nat,
{
    let ghost o0 = out@;
    if fuel == 0 {
        out.push(Step::Incomplete);
        return;
    }
    match &nodes[i].operator {
        Operator::Working => {
            out.push(Step::Incomplete);
        },
        Operator::Number(_) => {
            out.push(Step::Value(i));
        },
        Operator::Head | Operator::Parentheses => {
            match nodes[i].children {
                Some((a, _)) => {
                    emit(nodes, funcs, a, fuel - 1, out);
                },
                None => {
                    out.push(Step::Incomplete);
                },
            }
        },
        Operator::Neg => {
            match nodes[i].children {
                Some((a, _)) => {
                    emit(nodes, funcs, a, fuel - 1, out);
                    out.push(Step::Neg);
                    assert(out@ =~= o0 + (program_of(nodes@, funcs@, a as int, (fuel - 1) as nat)
                        + seq![Step::Neg]));
                },
                None => {
                    out.push(Step::Incomplete);
                },
            }
        },
        Operator::Mul => emit_binary(nodes, funcs, i, fuel, Step::Mul, out),
        Operator::Div => emit_binary(nodes, funcs, i, fuel, Step::Div, out),
        Operator::Add => emit_binary(nodes, funcs, i, fuel, Step::Add, out),
        Operator::Sub => emit_binary(nodes, funcs, i, fuel, Step::Sub, out),
        Operator::Expon => emit_binary(nodes, funcs, i, fuel, Step::Expon, out),
        Operator::Func(name) => {
            match nodes[i].children {
                None => {
                    out.push(Step::UnknownName(i));
                },
                Some((a, _)) => {
                    match find_function(funcs, name) {
                        None => {
                            out.push(Step::UnsupportedFunction(i));
                        },
                        Some(f) => {
                            emit(nodes, funcs, a, fuel - 1, out);
                            out.push(Step::Call(i, f));
                            assert(out@ =~= o0 + (program_of(
                                nodes@,
                                funcs@,
                                a as int,
                                (fuel - 1) as nat,
                            ) + seq![Step::Call(i, f)]));
                        },
                    }
                },
            }
        },
    }
}

impl Instruction {
    /// The program that evaluates the tree: operands before operators, left
    /// before right, each failure where its subtree would have been
    /// evaluated.
    pub fn program(nodes: &Vec<Instruction>, cat: &Catalogs) -> (r: Vec<Step>)
        requires
            tree_wf(nodes@),
        ensures
            r@ == program_of(nodes@, cat.functions@, 0, nodes@.len() as nat),
    {
        let mut out: Vec<Step> = Vec::new();
        emit(nodes, &cat.functions, 0, nodes.len(), &mut out);
        assert(out@ =~= seq![] + program_of(nodes@, cat.functions@, 0, nodes@.len() as nat));
        out
    }
}

} // verus!
