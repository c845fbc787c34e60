//! The stack machine that executes instructions.
//!
//! The machine is generic in its numbers: their arithmetic is supplied by an
//! implementation of [`Arithmetic`], while the machine decides operand order,
//! stack discipline and the division-by-zero error.
use vstd::prelude::*;
use vstd::string::*;
use crate::codegen::{code_of, instrs, Instr, Instruction};
use crate::error::Error;
use crate::parser::{binary, BinOp, Expr};

verus! {

/// The numbers the machine computes with. Each operation is a function of
/// its arguments, named by the corresponding `spec_` function.
///
/// For a type parameter the `spec_` functions are unknown, so what is proved
/// of the machine holds for every implementation. Their bodies are
/// placeholders for implementations written outside verified code; one that
/// is verified states its own.
pub trait Arithmetic: Sized {
    open spec fn spec_literal(text: Seq<char>) -> Self {
        arbitrary()
    }

    open spec fn spec_negate(self) -> Self {
        arbitrary()
    }

    open spec fn spec_apply(op: BinOp, left: Self, right: Self) -> Self {
        arbitrary()
    }

    open spec fn spec_is_zero(self) -> bool {
        arbitrary()
    }

    /// The number a numeral stands for.
    fn literal(text: &String) -> (r: Self)
        ensures
            r == Self::spec_literal(text@),
    ;

    fn negate(self) -> (r: Self)
        ensures
            r == self.spec_negate(),
    ;

    /// `left op right`.
    fn apply(op: BinOp, left: Self, right: Self) -> (r: Self)
        ensures
            r == Self::spec_apply(op, left, right),
    ;

    fn is_zero(&self) -> (r: bool)
        ensures
            r == self.spec_is_zero(),
    ;
}

/// The message of the runtime error.
pub open spec fn division_by_zero_message() -> Seq<char> {
    "Division by zero"@
}

/// Where a run of instructions ends: with a stack, at a division by zero, or
/// at an instruction that finds too few operands.
pub enum Outcome<T> {
    Done(Seq<T>),
    DivisionByZero,
    Underflow,
}

/// One instruction on stack `s`. A binary operator pops the right operand,
/// then the left one, and pushes `left op right`.
pub open spec fn step<T: Arithmetic>(i: Instr, s: Seq<T>) -> Outcome<T> {
    match i {
        Instr::Push(t) => Outcome::Done(s.push(T::spec_literal(t))),
        Instr::Neg => if s.len() == 0 {
            Outcome::Underflow
        } else {
            Outcome::Done(s.drop_last().push(s.last().spec_negate()))
        },
        Instr::Binary(op) => if s.len() < 2 {
            Outcome::Underflow
        } else if op is Div && s.last().spec_is_zero() {
            Outcome::DivisionByZero
        } else {
            Outcome::Done(s.take(s.len() - 2).push(T::spec_apply(op, s[s.len() - 2], s.last())))
        },
    }
}

/// The instructions in order, from stack `s`, up to the first that fails.
pub open spec fn execute<T: Arithmetic>(code: Seq<Instr>, s: Seq<T>) -> Outcome<T>
    decreases code.len(),
{
    if code.len() == 0 {
        Outcome::Done(s)
    } else {
        match step(code[0], s) {
            Outcome::Done(s2) => execute(code.drop_first(), s2),
            other => other,
        }
    }
}

/// A program that, from stack `s`, never lacks an operand and, unless it
/// divides by zero, leaves exactly one value.
pub open spec fn well_formed<T: Arithmetic>(code: Seq<Instr>, s: Seq<T>) -> bool {
    match execute(code, s) {
        Outcome::Done(r) => r.len() == 1,
        Outcome::DivisionByZero => true,
        Outcome::Underflow => false,
    }
}

/// Binary operation on operands that may have failed already.
pub open spec fn combine<T: Arithmetic>(op: BinOp, l: Option<T>, r: Option<T>) -> Option<T> {
    match (l, r) {
        (Some(a), Some(b)) => if op is Div && b.spec_is_zero() {
            None
        } else {
            Some(T::spec_apply(op, a, b))
        },
        _ => None,
    }
}

/// The value of a tree; `None` where it divides by zero.
pub open spec fn eval<T: Arithmetic>(e: Expr) -> Option<T>
    decreases e,
{
    match e {
        Expr::Value(t) => Some(T::spec_literal(t)),
        Expr::Neg(a) => match eval::<T>(*a) {
            Some(v) => Some(v.spec_negate()),
            None => None,
        },
        Expr::Add(l, r) => combine(BinOp::Add, eval::<T>(*l), eval::<T>(*r)),
        Expr::Sub(l, r) => combine(BinOp::Sub, eval::<T>(*l), eval::<T>(*r)),
        Expr::Mult(l, r) => combine(BinOp::Mult, eval::<T>(*l), eval::<T>(*r)),
        Expr::Div(l, r) => combine(BinOp::Div, eval::<T>(*l), eval::<T>(*r)),
        Expr::Mod(l, r) => combine(BinOp::Mod, eval::<T>(*l), eval::<T>(*r)),
        Expr::Pow(l, r) => combine(BinOp::Pow, eval::<T>(*l), eval::<T>(*r)),
    }
}

/// What running code does to stack `s` when it computes `v`, or fails to.
pub open spec fn then_push<T: Arithmetic>(v: Option<T>, rest: Seq<Instr>, s: Seq<T>) -> Outcome<T> {
    match v {
        Some(v) => execute(rest, s.push(v)),
        None => Outcome::DivisionByZero,
    }
}

pub open spec fn size(e: Expr) -> nat
    decreases e,
{
    match e {
        Expr::Value(_) => 1,
        Expr::Neg(a) => 1 + size(*a),
        Expr::Add(l, r) => 1 + size(*l) + size(*r),
        Expr::Sub(l, r) => 1 + size(*l) + size(*r),
        Expr::Mult(l, r) => 1 + size(*l) + size(*r),
        Expr::Div(l, r) => 1 + size(*l) + size(*r),
        Expr::Mod(l, r) => 1 + size(*l) + size(*r),
        Expr::Pow(l, r) => 1 + size(*l) + size(*r),
    }
}

/// Running the code of a tree, followed by any code, from any stack: the
/// tree's value is pushed on that stack, or the run stops at a division by
/// zero.
pub proof fn lemma_code_pushes_value<T: Arithmetic>(e: Expr, rest: Seq<Instr>, s: Seq<T>)
    ensures
        execute(code_of(e) + rest, s) == then_push(eval::<T>(e), rest, s),
    decreases size(e), 1nat,
{
    match e {
        Expr::Value(t) => {
            let code = code_of(e) + rest;
            assert(code[0] == Instr::Push(t));
            assert(code.drop_first() =~= rest);
        },
        Expr::Neg(a) => {
            let tail = seq![Instr::Neg] + rest;
            assert(code_of(e) + rest =~= code_of(*a) + tail);
            lemma_code_pushes_value::<T>(*a, tail, s);
            if let Some(v) = eval::<T>(*a) {
                assert(tail[0] == Instr::Neg);
                assert(tail.drop_first() =~= rest);
                assert(s.push(v).drop_last() =~= s);
            }
        },
        Expr::Add(l, r) => lemma_binary_pushes_value::<T>(BinOp::Add, *l, *r, rest, s),
        Expr::Sub(l, r) => lemma_binary_pushes_value::<T>(BinOp::Sub, *l, *r, rest, s),
        Expr::Mult(l, r) => lemma_binary_pushes_value::<T>(BinOp::Mult, *l, *r, rest, s),
        Expr::Div(l, r) => lemma_binary_pushes_value::<T>(BinOp::Div, *l, *r, rest, s),
        Expr::Mod(l, r) => lemma_binary_pushes_value::<T>(BinOp::Mod, *l, *r, rest, s),
        Expr::Pow(l, r) => lemma_binary_pushes_value::<T>(BinOp::Pow, *l, *r, rest, s),
    }
}

proof fn lemma_binary_pushes_value<T: Arithmetic>(
    op: BinOp,
    l: Expr,
    r: Expr,
    rest: Seq<Instr>,
    s: Seq<T>,
)
    ensures
        execute(code_of(binary(op, l, r)) + rest, s) == then_push(
            combine(op, eval::<T>(l), eval::<T>(r)),
            rest,
            s,
        ),
        eval::<T>(binary(op, l, r)) == combine(op, eval::<T>(l), eval::<T>(r)),
    decreases size(l) + size(r) + 1, 0nat,
{
    let tail = seq![Instr::Binary(op)] + rest;
    let right = code_of(r) + tail;
    assert(code_of(binary(op, l, r)) + rest =~= code_of(l) + right);
    lemma_code_pushes_value::<T>(l, right, s);
    if let Some(vl) = eval::<T>(l) {
        let s1 = s.push(vl);
        lemma_code_pushes_value::<T>(r, tail, s1);
        if let Some(vr) = eval::<T>(r) {
            let s2 = s1.push(vr);
            assert(tail[0] == Instr::Binary(op));
            assert(tail.drop_first() =~= rest);
            assert(s2.take(s2.len() - 2) =~= s);
            assert(s2[s2.len() - 2] == vl);
        }
    }
}

/// The code generated for any tree runs from an empty stack without lacking
/// an operand, and ends with exactly the tree's value on the stack, or at a
/// division by zero.
pub proof fn lemma_generated_code_leaves_one_value<T: Arithmetic>(e: Expr)
    ensures
        well_formed::<T>(code_of(e), seq![]),
        execute::<T>(code_of(e), seq![]) == match eval::<T>(e) {
            Some(v) => Outcome::Done(seq![v]),
            None => Outcome::DivisionByZero,
        },
{
    lemma_code_pushes_value::<T>(e, seq![], Seq::<T>::empty());
    assert(code_of(e) + seq![] =~= code_of(e));
    if let Some(v) = eval::<T>(e) {
        assert(Seq::<T>::empty().push(v) =~= seq![v]);
    }
}

/// Running a program in two parts, the second from the stack the first left,
/// has the outcome of running it at once. The diagnostic run, which shows the
/// stack between instructions, thus ends as the silent one does.
pub proof fn lemma_execute_split<T: Arithmetic>(a: Seq<Instr>, b: Seq<Instr>, s: Seq<T>)
    ensures
        execute(a + b, s) == match execute(a, s) {
            Outcome::Done(s2) => execute(b, s2),
            other => other,
        },
    decreases a.len(),
{
    if a.len() == 0 {
        assert(a + b =~= b);
    } else {
        assert((a + b)[0] == a[0]);
        assert((a + b).drop_first() =~= a.drop_first() + b);
        if let Outcome::Done(s2) = step(a[0], s) {
            lemma_execute_split(a.drop_first(), b, s2);
        }
    }
}

/// The operand stack of one execution.
pub struct Runtime<T> {
    stack: Vec<T>,
}

impl<T> View for Runtime<T> {
    type V = Seq<T>;

    closed spec fn view(&self) -> Seq<T> {
        self.stack@
    }
}

fn binary_op(instr: &Instruction) -> (r: Option<BinOp>)
    ensures
        match instr@ {
            Instr::Binary(op) => r == Some(op),
            _ => r is None,
        },
{
    match instr {
        Instruction::ADD => Some(BinOp::Add),
        Instruction::SUB => Some(BinOp::Sub),
        Instruction::MULT => Some(BinOp::Mult),
        Instruction::DIV => Some(BinOp::Div),
        Instruction::MOD => Some(BinOp::Mod),
        Instruction::POW => Some(BinOp::Pow),
        _ => None,
    }
}

impl<T: Arithmetic> Runtime<T> {
    /// A machine with an empty stack.
    pub fn new() -> (r: Runtime<T>)
        ensures
            r@ == Seq::<T>::empty(),
    {
        Runtime { stack: Vec::new() }
    }

    /// The stack, bottom first.
    pub fn values(&self) -> (r: &Vec<T>)
        ensures
            r@ == self@,
    {
        &self.stack
    }

    /// Whether the stack holds the operands that `instr` takes.
    pub fn can_execute(&self, instr: &Instruction) -> (r: bool)
        ensures
            r == !(step(instr@, self@) is Underflow),
    {
        match instr {
            Instruction::PUSH(_) => true,
            Instruction::NEG => self.stack.len() >= 1,
            _ => self.stack.len() >= 2,
        }
    }

    /// Pops the top value.
    pub fn pop(&mut self) -> (r: T)
        requires
            old(self)@.len() > 0,
        ensures
            r == old(self)@.last(),
            final(self)@ == old(self)@.drop_last(),
    {
        self.stack.pop().unwrap()
    }

    /// Executes one instruction: pushes a value, or pops one or two
    /// operands and pushes the result.
    pub fn run_instruction(&mut self, instr: &Instruction) -> (r: Result<(), Error>)
        requires
            !(step(instr@, old(self)@) is Underflow),
        ensures
            match step(instr@, old(self)@) {
                Outcome::Done(s) => r is Ok && final(self)@ == s,
                _ => r matches Err(e) && e matches Error::RuntimeError(m) && m@
                    == division_by_zero_message(),
            },
    {
        match instr {
            Instruction::PUSH(num) => {
                self.stack.push(T::literal(num));
                Ok(())
            },
            Instruction::NEG => {
                let value = self.pop();
                self.stack.push(value.negate());
                Ok(())
            },
            _ => {
                let op = binary_op(instr).unwrap();
                let ghost s = self@;
                let right = self.pop();
                let left = self.pop();
                assert(self@ =~= s.take(s.len() - 2));
                if matches!(op, BinOp::Div) && right.is_zero() {
                    let message = String::from_str("Division by zero");
                    proof {
                        reveal_strlit("Division by zero");
                    }
                    return Err(Error::RuntimeError(message));
                }
                self.stack.push(T::apply(op, left, right));
                Ok(())
            },
        }
    }

    /// Executes all instructions and returns the value left on the stack.
    pub fn run(&mut self, bytecode: &[Instruction]) -> (r: Result<T, Error>)
        requires
            well_formed(instrs(bytecode@), old(self)@),
        ensures
            match execute(instrs(bytecode@), old(self)@) {
                Outcome::Done(s) => r == Ok::<T, Error>(s.last()) && final(self)@ == s.drop_last(),
                _ => r matches Err(e) && e matches Error::RuntimeError(m) && m@
                    == division_by_zero_message(),
            },
    {
        let ghost code = instrs(bytecode@);
        let ghost start = self@;
        let mut i: usize = 0;
        assert(code.skip(0) =~= code);
        while i < bytecode.len()
            invariant
                code == instrs(bytecode@),
                start == old(self)@,
                i <= bytecode@.len(),
                execute(code, start) == execute(code.skip(i as int), self@),
                well_formed(code, start),
            decreases bytecode@.len() - i,
        {
            assert(code.skip(i as int)[0] == bytecode@[i as int]@);
            assert(code.skip(i as int).drop_first() =~= code.skip(i + 1));
            match self.run_instruction(&bytecode[i]) {
                Ok(()) => {},
                Err(e) => return Err(e),
            }
            i = i + 1;
        }
        assert(code.skip(i as int) =~= Seq::<Instr>::empty());
        Ok(self.pop())
    }
}

/// Executes the instructions on a fresh machine.
pub fn run_bytecode<T: Arithmetic>(bytecode: &[Instruction]) -> (r: Result<T, Error>)
    requires
        well_formed::<T>(instrs(bytecode@), seq![]),
    ensures
        match execute::<T>(instrs(bytecode@), seq![]) {
            Outcome::Done(s) => r == Ok::<T, Error>(s.last()),
            _ => r matches Err(e) && e matches Error::RuntimeError(m) && m@
                == division_by_zero_message(),
        },
{
    let mut runtime = Runtime::new();
    runtime.run(bytecode)
}

} // verus!
