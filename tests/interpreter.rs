use miniforth::eval::{command, execute, render, run, same_text, ArithOp, Command};
use miniforth::machine::{Stack, StackError, StackValue};
use miniforth::text::is_space;
use miniforth::token::{classify, tokenize, Token};

fn parse_number(word: &str) -> Option<f64> {
    word.parse::<f64>().ok()
}

fn arith(op: ArithOp, a: f64, b: f64) -> f64 {
    match op {
        ArithOp::Add => a + b,
        ArithOp::Sub => a - b,
        ArithOp::Mul => a * b,
        ArithOp::Div => a / b,
    }
}

fn show(n: f64) -> String {
    n.to_string()
}

fn run_program(source: &str) -> String {
    run(source, parse_number, arith, show)
}

fn execute_program(source: &str) -> (Result<(), StackError>, Stack<f64>) {
    let mut stack = Stack::new();
    let tokens = tokenize(source, parse_number);
    let result = execute(tokens, &mut stack, arith, show);
    (result, stack)
}

#[test]
fn numeric_literals_print_back_their_value() {
    for literal in ["42", "-3.5", "0.25", "1e3", "1.5e2", "-0", "123456789"] {
        let tokens = tokenize(literal, parse_number);
        assert_eq!(tokens.len(), 1);
        let value: f64 = literal.parse().unwrap();
        assert_eq!(tokens[0], Token::Number(value));
        let out = run_program(&format!("{} .", literal));
        assert_eq!(out, format!("{}\n", value));
        assert_eq!(out.trim_end().parse::<f64>().unwrap(), value);
    }
}

#[test]
fn empty_input_has_no_tokens() {
    assert!(tokenize("", parse_number).is_empty());
    assert!(tokenize(" \t\n  ", parse_number).is_empty());
    assert_eq!(run_program(""), "");
}

#[test]
fn unterminated_string_runs_to_the_end() {
    let tokens = tokenize("\"abc def  ", parse_number);
    assert_eq!(tokens, vec![Token::String("abc def  ".to_string())]);
    let tokens = tokenize("1 \"", parse_number);
    assert_eq!(tokens, vec![Token::Number(1.0), Token::String(String::new())]);
}

#[test]
fn strings_keep_their_interior_verbatim() {
    let tokens = tokenize("\"hello world\" \"\" x\"y", parse_number);
    assert_eq!(
        tokens,
        vec![
            Token::String("hello world".to_string()),
            Token::String(String::new()),
            Token::Word("x\"y".to_string()),
        ]
    );
}

#[test]
fn classification_prefers_number_then_boolean_then_word() {
    let tokens = tokenize("true 1 foo 1.5e2 false True .s", parse_number);
    assert_eq!(
        tokens,
        vec![
            Token::Boolean(true),
            Token::Number(1.0),
            Token::Word("foo".to_string()),
            Token::Number(150.0),
            Token::Boolean(false),
            Token::Word("True".to_string()),
            Token::Word(".s".to_string()),
        ]
    );
}

#[test]
fn classify_uses_the_parsed_number_first() {
    assert_eq!(classify("true".to_string(), Some(2.0)), Token::Number(2.0));
    assert_eq!(classify::<f64>("true".to_string(), None), Token::Boolean(true));
    assert_eq!(classify::<f64>("false".to_string(), None), Token::Boolean(false));
    assert_eq!(classify::<f64>("FALSE".to_string(), None), Token::Word("FALSE".to_string()));
}

#[test]
fn print_on_empty_stack_reports_and_goes_on() {
    assert_eq!(run_program("."), "Error: Underflow\n");
    let (result, stack) = execute_program(". 1 .");
    assert_eq!(result, Ok(()));
    assert_eq!(stack.get_output(), "Error: Underflow\n1\n");
}

#[test]
fn peek_on_empty_stack_reports_and_goes_on() {
    assert_eq!(run_program(".s 7 .s"), "Error: Underflow\n7\n");
}

#[test]
fn add_with_string_on_top_aborts() {
    let (result, stack) = execute_program("\"x\" 1 + 5 .");
    assert_eq!(result, Err(StackError::TypeMismatch));
    assert_eq!(stack.get_output(), "");
    assert_eq!(stack.depth(), 0);
    assert_eq!(run_program("\"x\" 1 +"), "Error: TypeMismatch\n");
    assert_eq!(run_program("1 \"x\" + 5 ."), "Error: TypeMismatch\n");
}

#[test]
fn end_to_end_program() {
    let (result, stack) = execute_program("10 5 + .s \"hello world\" .");
    assert_eq!(result, Ok(()));
    assert_eq!(stack.get_output(), "15\nhello world\n");
    // `.s` leaves the sum in place; only the string is popped.
    assert_eq!(stack.depth(), 1);
    assert_eq!(run_program("10 5 + .s \"hello world\" ."), "15\nhello world\n");
}

#[test]
fn unknown_word_aborts_before_later_tokens() {
    let (result, stack) = execute_program("10 foo 20 .");
    assert_eq!(result, Err(StackError::UnknownWord));
    assert_eq!(stack.get_output(), "");
    assert_eq!(stack.depth(), 1);
    assert_eq!(run_program("10 foo 20 ."), "Error: UnknownWord\n");
}

#[test]
fn output_before_an_error_is_kept() {
    assert_eq!(run_program("1 . 2 bar 3 ."), "1\nError: UnknownWord\n");
}

#[test]
fn arithmetic_operators() {
    assert_eq!(run_program("7 2 - ."), "5\n");
    assert_eq!(run_program("3 4 * ."), "12\n");
    assert_eq!(run_program("6 3 / ."), "2\n");
    assert_eq!(run_program("1 2 + 3 * ."), "9\n");
    assert_eq!(run_program("0.5 0.25 + ."), "0.75\n");
}

#[test]
fn division_by_zero_is_not_an_error() {
    assert_eq!(run_program("1 0 / ."), "inf\n");
    assert_eq!(run_program("-1 0 / ."), "-inf\n");
    assert_eq!(run_program("0 0 / ."), "NaN\n");
}

#[test]
fn arithmetic_underflow_aborts() {
    let (result, stack) = execute_program("1 +");
    assert_eq!(result, Err(StackError::Underflow));
    assert_eq!(stack.depth(), 0);
    assert_eq!(run_program("+ 1 ."), "Error: Underflow\n");
    assert_eq!(run_program("1 -"), "Error: Underflow\n");
}

#[test]
fn booleans_print_as_words() {
    assert_eq!(run_program("true . false ."), "true\nfalse\n");
    assert_eq!(run_program("true 1 +"), "Error: TypeMismatch\n");
}

#[test]
fn error_names_and_reports() {
    assert_eq!(StackError::Underflow.name(), "Underflow");
    assert_eq!(StackError::TypeMismatch.name(), "TypeMismatch");
    assert_eq!(StackError::UnknownWord.name(), "UnknownWord");
    assert_eq!(StackError::TypeMismatch.report(), "Error: TypeMismatch");
    assert_eq!(format!("Error: {:?}", StackError::UnknownWord), StackError::UnknownWord.report());
}

#[test]
fn stack_push_pop_peek() {
    let mut stack: Stack<f64> = Stack::new();
    assert_eq!(stack.pop(), Err(StackError::Underflow));
    assert_eq!(stack.peek(), Err(StackError::Underflow));
    stack.push(StackValue::Number(1.0));
    stack.push(StackValue::String("a".to_string()));
    assert_eq!(stack.peek(), Ok(&StackValue::String("a".to_string())));
    assert_eq!(stack.depth(), 2);
    assert_eq!(stack.pop(), Ok(StackValue::String("a".to_string())));
    assert_eq!(stack.pop(), Ok(StackValue::Number(1.0)));
    assert_eq!(stack.depth(), 0);
    stack.write_output("x");
    stack.write_output("y");
    assert_eq!(stack.get_output(), "x\ny\n");
}

#[test]
fn render_values() {
    assert_eq!(render(&StackValue::Number(2.5), &show), "2.5");
    assert_eq!(render(&StackValue::<f64>::String("s t".to_string()), &show), "s t");
    assert_eq!(render(&StackValue::<f64>::Boolean(true), &show), "true");
}

#[test]
fn words_name_commands() {
    assert_eq!(command("."), Command::Print);
    assert_eq!(command(".s"), Command::PrintTop);
    assert_eq!(command("+"), Command::Arith(ArithOp::Add));
    assert_eq!(command("-"), Command::Arith(ArithOp::Sub));
    assert_eq!(command("*"), Command::Arith(ArithOp::Mul));
    assert_eq!(command("/"), Command::Arith(ArithOp::Div));
    assert_eq!(command(".S"), Command::Unknown);
    assert_eq!(command(""), Command::Unknown);
    assert!(same_text("héllo", "héllo"));
    assert!(!same_text("ab", "abc"));
    assert!(!same_text("ab", "ac"));
}

#[test]
fn whitespace_matches_std() {
    for code in 0..=0x10FFFFu32 {
        if let Some(c) = char::from_u32(code) {
            assert_eq!(is_space(c), c.is_whitespace(), "{:?}", c);
        }
    }
}

#[test]
fn unicode_whitespace_separates_tokens() {
    let tokens = tokenize("1\u{3000}2\u{a0}x", parse_number);
    assert_eq!(
        tokens,
        vec![Token::Number(1.0), Token::Number(2.0), Token::Word("x".to_string())]
    );
}
