//! Linearisation of a syntax tree into instructions for the stack machine.
use vstd::prelude::*;
use crate::parser::{Ast, BinOp, Expr};

verus! {

/// One instruction of the stack machine.
#[derive(Debug, PartialEq)]
pub enum Instruction {
    PUSH(String),
    NEG,
    ADD,
    SUB,
    MULT,
    DIV,
    MOD,
    POW,
}

/// The mathematical value of an instruction.
pub enum Instr {
    Push(Seq<char>),
    Neg,
    Binary(BinOp),
}

impl View for Instruction {
    type V = Instr;

    open spec fn view(&self) -> Instr {
        match self {
            Instruction::PUSH(t) => Instr::Push(t@),
            Instruction::NEG => Instr::Neg,
            Instruction::ADD => Instr::Binary(BinOp::Add),
            Instruction::SUB => Instr::Binary(BinOp::Sub),
            Instruction::MULT => Instr::Binary(BinOp::Mult),
            Instruction::DIV => Instr::Binary(BinOp::Div),
            Instruction::MOD => Instr::Binary(BinOp::Mod),
            Instruction::POW => Instr::Binary(BinOp::Pow),
        }
    }
}

pub open spec fn instrs(code: Seq<Instruction>) -> Seq<Instr> {
    code.map_values(|i: Instruction| i@)
}

/// Post-order code of a tree: the operands' code, left then right, and then
/// the operator.
pub open spec fn code_of(e: Expr) -> Seq<Instr>
    decreases e,
{
    match e {
        Expr::Value(t) => seq![Instr::Push(t)],
        Expr::Neg(a) => code_of(*a) + seq![Instr::Neg],
        Expr::Add(l, r) => code_of(*l) + code_of(*r) + seq![Instr::Binary(BinOp::Add)],
        Expr::Sub(l, r) => code_of(*l) + code_of(*r) + seq![Instr::Binary(BinOp::Sub)],
        Expr::Mult(l, r) => code_of(*l) + code_of(*r) + seq![Instr::Binary(BinOp::Mult)],
        Expr::Div(l, r) => code_of(*l) + code_of(*r) + seq![Instr::Binary(BinOp::Div)],
        Expr::Mod(l, r) => code_of(*l) + code_of(*r) + seq![Instr::Binary(BinOp::Mod)],
        Expr::Pow(l, r) => code_of(*l) + code_of(*r) + seq![Instr::Binary(BinOp::Pow)],
    }
}

/// How many values an instruction pops.
pub open spec fn arity(i: Instr) -> int {
    match i {
        Instr::Push(_) => 0,
        Instr::Neg => 1,
        Instr::Binary(_) => 2,
    }
}

/// How an instruction changes the depth of the stack.
pub open spec fn effect(i: Instr) -> int {
    match i {
        Instr::Push(_) => 1,
        Instr::Neg => 0,
        Instr::Binary(_) => -1,
    }
}

/// The change of stack depth over the whole code.
pub open spec fn depth(code: Seq<Instr>) -> int
    decreases code.len(),
{
    if code.len() == 0 {
        0
    } else {
        depth(code.drop_last()) + effect(code.last())
    }
}

/// Started on `d` values, no instruction of the code finds fewer values than
/// it pops.
pub open spec fn never_underflows(code: Seq<Instr>, d: int) -> bool {
    forall|k: int| 0 <= k < code.len() ==> #[trigger] arity(code[k]) <= d + depth(code.take(k))
}

proof fn lemma_depth_concat(a: Seq<Instr>, b: Seq<Instr>)
    ensures
        depth(a + b) == depth(a) + depth(b),
    decreases b.len(),
{
    if b.len() == 0 {
        assert(a + b =~= a);
    } else {
        assert((a + b).drop_last() =~= a + b.drop_last());
        assert((a + b).last() == b.last());
        lemma_depth_concat(a, b.drop_last());
    }
}

proof fn lemma_never_underflows_concat(a: Seq<Instr>, b: Seq<Instr>, d: int)
    requires
        never_underflows(a, d),
        never_underflows(b, d + depth(a)),
    ensures
        never_underflows(a + b, d),
{
    assert forall|k: int| 0 <= k < (a + b).len() implies #[trigger] arity((a + b)[k]) <= d + depth(
        (a + b).take(k),
    ) by {
        if k < a.len() {
            assert((a + b).take(k) =~= a.take(k));
            assert((a + b)[k] == a[k]);
        } else {
            let j = k - a.len();
            assert((a + b).take(k) =~= a + b.take(j));
            lemma_depth_concat(a, b.take(j));
            assert((a + b)[k] == b[j]);
            assert(arity(b[j]) <= d + depth(a) + depth(b.take(j)));
        }
    }
}

proof fn lemma_single(i: Instr, d: int)
    requires
        arity(i) <= d,
    ensures
        depth(seq![i]) == effect(i),
        never_underflows(seq![i], d),
{
    assert(seq![i].drop_last() =~= Seq::<Instr>::empty());
    assert(depth(Seq::<Instr>::empty()) == 0);
    assert(seq![i].last() == i);
    assert(seq![i].take(0) =~= Seq::<Instr>::empty());
}

proof fn lemma_operator_code_depth(cl: Seq<Instr>, cr: Seq<Instr>, op: BinOp, d: int)
    requires
        d >= 0,
        depth(cl) == 1,
        depth(cr) == 1,
        never_underflows(cl, d),
        never_underflows(cr, d + 1),
    ensures
        depth(cl + cr + seq![Instr::Binary(op)]) == 1,
        never_underflows(cl + cr + seq![Instr::Binary(op)], d),
{
    lemma_depth_concat(cl, cr);
    lemma_never_underflows_concat(cl, cr, d);
    lemma_single(Instr::Binary(op), d + 2);
    lemma_depth_concat(cl + cr, seq![Instr::Binary(op)]);
    lemma_never_underflows_concat(cl + cr, seq![Instr::Binary(op)], d);
}

proof fn lemma_code_depth(e: Expr, d: int)
    requires
        d >= 0,
    ensures
        depth(code_of(e)) == 1,
        never_underflows(code_of(e), d),
    decreases e,
{
    match e {
        Expr::Value(t) => lemma_single(Instr::Push(t), d),
        Expr::Neg(a) => {
            lemma_code_depth(*a, d);
            lemma_single(Instr::Neg, d + 1);
            lemma_depth_concat(code_of(*a), seq![Instr::Neg]);
            lemma_never_underflows_concat(code_of(*a), seq![Instr::Neg], d);
        },
        Expr::Add(l, r) => {
            lemma_code_depth(*l, d);
            lemma_code_depth(*r, d + 1);
            lemma_operator_code_depth(code_of(*l), code_of(*r), BinOp::Add, d);
        },
        Expr::Sub(l, r) => {
            lemma_code_depth(*l, d);
            lemma_code_depth(*r, d + 1);
            lemma_operator_code_depth(code_of(*l), code_of(*r), BinOp::Sub, d);
        },
        Expr::Mult(l, r) => {
            lemma_code_depth(*l, d);
            lemma_code_depth(*r, d + 1);
            lemma_operator_code_depth(code_of(*l), code_of(*r), BinOp::Mult, d);
        },
        Expr::Div(l, r) => {
            lemma_code_depth(*l, d);
            lemma_code_depth(*r, d + 1);
            lemma_operator_code_depth(code_of(*l), code_of(*r), BinOp::Div, d);
        },
        Expr::Mod(l, r) => {
            lemma_code_depth(*l, d);
            lemma_code_depth(*r, d + 1);
            lemma_operator_code_depth(code_of(*l), code_of(*r), BinOp::Mod, d);
        },
        Expr::Pow(l, r) => {
            lemma_code_depth(*l, d);
            lemma_code_depth(*r, d + 1);
            lemma_operator_code_depth(code_of(*l), code_of(*r), BinOp::Pow, d);
        },
    }
}

/// Counted by depth alone, the code generated for any tree is not empty,
/// never pops more values than the stack holds, and leaves exactly one.
pub proof fn lemma_generated_code_depth(e: Expr)
    ensures
        code_of(e).len() >= 1,
        depth(code_of(e)) == 1,
        never_underflows(code_of(e), 0),
{
    lemma_code_depth(e, 0);
    if code_of(e).len() == 0 {
        assert(depth(code_of(e)) == 0);
    }
}

/// Generates the instructions of a tree, in post-order.
pub fn generate_bytecode(ast: Ast) -> (r: Vec<Instruction>)
    ensures
        instrs(r@) == code_of(ast@),
{
    let mut bytecode: Vec<Instruction> = Vec::new();
    let ghost e = ast@;
    extend_bytecode(&mut bytecode, ast);
    assert(instrs(Seq::<Instruction>::empty()) + code_of(e) =~= code_of(e));
    bytecode
}

fn push_instruction(bytecode: &mut Vec<Instruction>, i: Instruction)
    ensures
        instrs(final(bytecode)@) == instrs(old(bytecode)@) + seq![i@],
{
    bytecode.push(i);
    assert(instrs(bytecode@) =~= instrs(old(bytecode)@) + seq![i@]);
}

/// Appends the code of the tree: its children's first, the node's own last.
fn extend_bytecode(bytecode: &mut Vec<Instruction>, ast: Ast)
    ensures
        instrs(final(bytecode)@) == instrs(old(bytecode)@) + code_of(ast@),
    decreases ast,
{
    let ghost start = instrs(bytecode@);
    let ghost e = ast@;
    match ast {
        Ast::Value(num) => {
            push_instruction(bytecode, Instruction::PUSH(num));
        },
        Ast::Neg(right) => {
            extend_bytecode(bytecode, *right);
            push_instruction(bytecode, Instruction::NEG);
        },
        Ast::Add(left, right) => {
            extend_bytecode(bytecode, *left);
            extend_bytecode(bytecode, *right);
            push_instruction(bytecode, Instruction::ADD);
        },
        Ast::Sub(left, right) => {
            extend_bytecode(bytecode, *left);
            extend_bytecode(bytecode, *right);
            push_instruction(bytecode, Instruction::SUB);
        },
        Ast::Mult(left, right) => {
            extend_bytecode(bytecode, *left);
            extend_bytecode(bytecode, *right);
            push_instruction(bytecode, Instruction::MULT);
        },
        Ast::Div(left, right) => {
            extend_bytecode(bytecode, *left);
            extend_bytecode(bytecode, *right);
            push_instruction(bytecode, Instruction::DIV);
        },
        Ast::Mod(left, right) => {
            extend_bytecode(bytecode, *left);
            extend_bytecode(bytecode, *right);
            push_instruction(bytecode, Instruction::MOD);
        },
        Ast::Pow(left, right) => {
            extend_bytecode(bytecode, *left);
            extend_bytecode(bytecode, *right);
            push_instruction(bytecode, Instruction::POW);
        },
    }
    assert(instrs(bytecode@) =~= start + code_of(e));
}

} // verus!
