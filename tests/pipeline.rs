use expr_eval::codegen::{generate_bytecode, Instruction};
use expr_eval::error::Error;
use expr_eval::interpreter::Interpreter;
use expr_eval::lexer::{tokenize, Token};
use expr_eval::parser::{parse, Ast, BinOp};
use expr_eval::runtime::{run_bytecode, Arithmetic, Runtime};

/// Double-precision numbers for the machine.
#[derive(Debug, Clone, Copy, PartialEq)]
struct Num(f64);

impl Arithmetic for Num {
    fn literal(text: &String) -> Num {
        Num(text.parse::<f64>().unwrap())
    }

    fn negate(self) -> Num {
        Num(-self.0)
    }

    fn apply(op: BinOp, left: Num, right: Num) -> Num {
        let (l, r) = (left.0, right.0);
        Num(match op {
            BinOp::Add => l + r,
            BinOp::Sub => l - r,
            BinOp::Mult => l * r,
            BinOp::Div => l / r,
            BinOp::Mod => l.rem_euclid(r),
            BinOp::Pow => l.powf(r),
        })
    }

    fn is_zero(&self) -> bool {
        self.0 == 0.0
    }
}

fn evaluate(text: &str) -> Result<f64, Error> {
    let interpreter = Interpreter {
        input: text.to_string(),
    };
    interpreter.run::<Num>().map(|n| n.0)
}

fn numeral(text: &str) -> Token {
    Token::Numeral(text.to_string())
}

fn value(text: &str) -> Box<Ast> {
    Box::new(Ast::Value(text.to_string()))
}

#[test]
fn numeral_forms_give_one_token() {
    for (text, expected) in [("42", 42.0), ("3.25", 3.25), (".35", 0.35), ("007", 7.0)] {
        let tokens = tokenize(text).unwrap();
        assert_eq!(tokens.len(), 1);
        match &tokens[0] {
            Token::Numeral(t) => assert_eq!(t.parse::<f64>().unwrap(), expected),
            other => panic!("unexpected token {:?}", other),
        }
    }
}

#[test]
fn leading_dot_is_normalized() {
    assert_eq!(tokenize(".35").unwrap(), vec![numeral("0.35")]);
}

#[test]
fn tokens_come_in_order() {
    let tokens = tokenize(" (1.5+2)*-3 ^ 4 % 5 / 6 ").unwrap();
    assert_eq!(
        tokens,
        vec![
            Token::LParen,
            numeral("1.5"),
            Token::Plus,
            numeral("2"),
            Token::RParen,
            Token::Star,
            Token::Minus,
            numeral("3"),
            Token::Caret,
            numeral("4"),
            Token::Percent,
            numeral("5"),
            Token::Slash,
            numeral("6"),
        ]
    );
}

#[test]
fn dot_splits_numerals() {
    assert_eq!(tokenize("1.2.3").unwrap(), vec![numeral("1.2"), numeral("0.3")]);
}

#[test]
fn empty_input_has_no_tokens() {
    assert_eq!(tokenize("").unwrap(), vec![]);
    assert_eq!(tokenize(" \t\n").unwrap(), vec![]);
}

#[test]
fn foreign_characters_are_rejected() {
    for text in ["1 + @", "x", "2 $ 3", "1 + 2 # 3", "3 . 4"] {
        assert!(matches!(tokenize(text), Err(Error::LexingError(_))), "{}", text);
    }
}

#[test]
fn lexing_error_names_leftover() {
    match tokenize("  a 1 b  ") {
        Err(Error::LexingError(m)) => assert_eq!(m, "Unexpected characters: 'a  b'"),
        other => panic!("unexpected {:?}", other),
    }
}

#[test]
fn parses_with_precedence_and_associativity() {
    let ast = parse(tokenize("1 - 2 - 3 * 4 ^ 5 ^ 6").unwrap()).unwrap();
    let expected = Ast::Sub(
        Box::new(Ast::Sub(value("1"), value("2"))),
        Box::new(Ast::Mult(
            value("3"),
            Box::new(Ast::Pow(value("4"), Box::new(Ast::Pow(value("5"), value("6"))))),
        )),
    );
    assert_eq!(ast, expected);
}

#[test]
fn negation_chains_and_binds_tightest() {
    let ast = parse(tokenize("--5").unwrap()).unwrap();
    assert_eq!(ast, Ast::Neg(Box::new(Ast::Neg(value("5")))));
    let ast = parse(tokenize("-2^2").unwrap()).unwrap();
    assert_eq!(ast, Ast::Pow(Box::new(Ast::Neg(value("2"))), value("2")));
}

#[test]
fn division_chain_is_left_associative() {
    let ast = parse(tokenize("8/4/2").unwrap()).unwrap();
    assert_eq!(ast, Ast::Div(Box::new(Ast::Div(value("8"), value("4"))), value("2")));
}

#[test]
fn parse_errors() {
    for text in ["(1 + 2", "", "+", "1 +", "()", "1 * * 2"] {
        assert!(matches!(parse(tokenize(text).unwrap()), Err(Error::ParsingError(_))), "{}", text);
    }
}

#[test]
fn parse_error_messages() {
    match parse(tokenize("(1").unwrap()) {
        Err(Error::ParsingError(m)) => assert_eq!(m, "Expected `)`"),
        other => panic!("unexpected {:?}", other),
    }
    match parse(tokenize("*").unwrap()) {
        Err(Error::ParsingError(m)) => assert_eq!(m, "No rule found for Star"),
        other => panic!("unexpected {:?}", other),
    }
    match parse(vec![]) {
        Err(Error::ParsingError(m)) => assert_eq!(m, "No rule found for EOF"),
        other => panic!("unexpected {:?}", other),
    }
}

#[test]
fn trailing_tokens_are_not_read() {
    let ast = parse(tokenize("1 2").unwrap()).unwrap();
    assert_eq!(ast, Ast::Value("1".to_string()));
}

#[test]
fn code_is_post_order() {
    let ast = parse(tokenize("1 - -2 * 3").unwrap()).unwrap();
    assert_eq!(
        generate_bytecode(ast),
        vec![
            Instruction::PUSH("1".to_string()),
            Instruction::PUSH("2".to_string()),
            Instruction::NEG,
            Instruction::PUSH("3".to_string()),
            Instruction::MULT,
            Instruction::SUB,
        ]
    );
}

#[test]
fn machine_takes_left_operand_from_below() {
    let code = vec![
        Instruction::PUSH("2".to_string()),
        Instruction::PUSH("10".to_string()),
        Instruction::SUB,
        Instruction::PUSH("4".to_string()),
        Instruction::DIV,
    ];
    assert_eq!(run_bytecode::<Num>(&code).unwrap(), Num(-2.0));
}

#[test]
fn machine_division_by_zero() {
    let code = vec![
        Instruction::PUSH("5".to_string()),
        Instruction::PUSH("0".to_string()),
        Instruction::DIV,
    ];
    match run_bytecode::<Num>(&code) {
        Err(Error::RuntimeError(m)) => assert_eq!(m, "Division by zero"),
        other => panic!("unexpected {:?}", other),
    }
}

#[test]
fn subtraction_is_left_associative() {
    assert_eq!(evaluate("8 - 3 - 2").unwrap(), 3.0);
}

#[test]
fn power_is_right_associative() {
    assert_eq!(evaluate("2^3^2").unwrap(), 512.0);
}

#[test]
fn multiplication_binds_tighter_than_addition() {
    assert_eq!(evaluate("2 + 3 * 4").unwrap(), 14.0);
    assert_eq!(evaluate("(2+3)*4").unwrap(), 20.0);
}

#[test]
fn double_negation() {
    assert_eq!(evaluate("--5").unwrap(), 5.0);
}

#[test]
fn negation_applies_to_the_base() {
    // Negation binds tighter than `^`: (-2)^2.
    assert_eq!(evaluate("-2^2").unwrap(), 4.0);
}

#[test]
fn modulo_is_floor_style() {
    assert_eq!(evaluate("-7 % 3").unwrap(), 2.0);
    assert_eq!(evaluate("7 % 3").unwrap(), 1.0);
}

#[test]
fn division_by_zero_is_runtime_error() {
    assert!(matches!(evaluate("5 / 0"), Err(Error::RuntimeError(_))));
    assert!(matches!(evaluate("1 / (2 - 2)"), Err(Error::RuntimeError(_))));
}

#[test]
fn modulo_by_zero_is_not_an_error() {
    assert!(evaluate("5 % 0").unwrap().is_nan());
}

#[test]
fn unclosed_paren_is_parsing_error() {
    assert!(matches!(evaluate("(1 + 2"), Err(Error::ParsingError(_))));
}

#[test]
fn unknown_symbol_is_lexing_error() {
    assert!(matches!(evaluate("1 + @"), Err(Error::LexingError(_))));
}

#[test]
fn fractional_and_negative_powers() {
    assert_eq!(evaluate("4 ^ .5").unwrap(), 2.0);
    assert_eq!(evaluate("2 ^ -1").unwrap(), 0.5);
}

#[test]
fn empty_input_is_parsing_error() {
    assert!(matches!(evaluate(""), Err(Error::ParsingError(_))));
}

#[test]
fn new_interpreter_has_empty_input() {
    assert_eq!(Interpreter::new().input, "");
}

/// Runs the code one instruction at a time, as the diagnostic output does.
fn run_stepwise(code: &[Instruction]) -> Result<f64, Error> {
    let mut runtime: Runtime<Num> = Runtime::new();
    let mut snapshots = Vec::new();
    for instruction in code {
        assert!(runtime.can_execute(instruction));
        runtime.run_instruction(instruction)?;
        snapshots.push(runtime.values().clone());
    }
    assert_eq!(snapshots.last().map(|s| s.len()), Some(1));
    Ok(runtime.values()[0].0)
}

#[test]
fn stepwise_run_matches_silent_run() {
    for text in ["1 + 2 * 3", "2^3^2", "-7 % 3", "5 / 0", "(1 - 4) / 2"] {
        let code = generate_bytecode(parse(tokenize(text).unwrap()).unwrap());
        let silent = run_bytecode::<Num>(&code).map(|n| n.0);
        let stepwise = run_stepwise(&code);
        match (silent, stepwise) {
            (Ok(a), Ok(b)) => assert_eq!(a, b, "{}", text),
            (Err(Error::RuntimeError(_)), Err(Error::RuntimeError(_))) => {}
            other => panic!("{}: {:?}", text, other),
        }
    }
}

#[test]
fn can_execute_checks_operands() {
    let runtime: Runtime<Num> = Runtime::new();
    assert!(runtime.can_execute(&Instruction::PUSH("1".to_string())));
    assert!(!runtime.can_execute(&Instruction::NEG));
    assert!(!runtime.can_execute(&Instruction::ADD));
}

#[test]
fn run_pops_the_result() {
    let code = generate_bytecode(parse(tokenize("1 + 2").unwrap()).unwrap());
    let mut runtime: Runtime<Num> = Runtime::new();
    assert_eq!(runtime.run(&code).unwrap(), Num(3.0));
    assert!(runtime.values().is_empty());
}

#[test]
fn evaluation_error_messages() {
    match evaluate("1 / 0") {
        Err(Error::RuntimeError(m)) => assert_eq!(m, "Division by zero"),
        other => panic!("unexpected {:?}", other),
    }
    match evaluate("(2 * 3") {
        Err(Error::ParsingError(m)) => assert_eq!(m, "Expected `)`"),
        other => panic!("unexpected {:?}", other),
    }
    match evaluate("2 + (") {
        Err(Error::ParsingError(m)) => assert_eq!(m, "No rule found for EOF"),
        other => panic!("unexpected {:?}", other),
    }
}
