//! The whole pipeline: lexing, parsing, code generation and execution.
use vstd::prelude::*;
use crate::codegen::{code_of, generate_bytecode};
use crate::error::Error;
use crate::lexer::{lex, leftover_message, tokenize};
use crate::parser::{parse, parse_tokens};
use crate::runtime::{
    division_by_zero_message, eval, lemma_generated_code_leaves_one_value, run_bytecode, well_formed, Arithmetic,
};

verus! {

/// What evaluating `input` yields: the first stage that fails gives its
/// error, and otherwise the value of the parsed tree.
pub open spec fn evaluation<T: Arithmetic>(input: Seq<char>, r: Result<T, Error>) -> bool {
    match lex(input) {
        None => r matches Err(e) && e matches Error::LexingError(m) && m@ == leftover_message(input),
        Some(ts) => match parse_tokens(ts) {
            Err(m) => r matches Err(e) && e matches Error::ParsingError(msg) && msg@ == m,
            Ok(tree) => match eval::<T>(tree) {
                Some(v) => r == Ok::<T, Error>(v),
                None => r matches Err(e) && e matches Error::RuntimeError(msg) && msg@
                    == division_by_zero_message(),
            },
        },
    }
}

/// Every text that lexes and parses compiles to code that runs from an
/// empty stack without lacking an operand and leaves exactly one value,
/// unless it divides by zero.
pub proof fn lemma_valid_text_compiles_to_well_formed_code<T: Arithmetic>(input: Seq<char>)
    requires
        lex(input) matches Some(ts) && parse_tokens(ts) is Ok,
    ensures
        well_formed::<T>(code_of(parse_tokens(lex(input)->0)->Ok_0), seq![]),
{
    lemma_generated_code_leaves_one_value::<T>(parse_tokens(lex(input)->0)->Ok_0);
}

/// Holds the text of one expression and evaluates it.
pub struct Interpreter {
    pub input: String,
}

impl Interpreter {
    pub fn new() -> (r: Interpreter)
        ensures
            r.input@ == Seq::<char>::empty(),
    {
        Interpreter { input: String::new() }
    }

    /// Runs the pipeline on the input and returns the value or the error of
    /// the first stage that fails.
    pub fn run<T: Arithmetic>(&self) -> (r: Result<T, Error>)
        ensures
            evaluation(self.input@, r),
    {
        let tokens = match tokenize(self.input.as_str()) {
            Ok(tokens) => tokens,
            Err(e) => return Err(e),
        };
        let ast = match parse(tokens) {
            Ok(ast) => ast,
            Err(e) => return Err(e),
        };
        let ghost tree = ast@;
        let bytecode = generate_bytecode(ast);
        proof {
            lemma_generated_code_leaves_one_value::<T>(tree);
        }
        run_bytecode(bytecode.as_slice())
    }
}

} // verus!
