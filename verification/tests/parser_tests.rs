use equation::evaluate_line;
use equation::lexer::tokenize_stream;
use equation::parser::Parser;
use equation::token::{EvalError, LexError, LineError};

fn parser_for(input: &str) -> Parser {
    Parser::new(tokenize_stream(input).unwrap()).unwrap()
}

#[test]
fn multiplication_binds_tighter_than_addition() {
    assert_eq!(evaluate_line("2+3*4"), Ok(14));
}

#[test]
fn subtraction_is_right_associative() {
    // 10-(3-2), not the conventional (10-3)-2.
    assert_eq!(evaluate_line("10-3-2"), Ok(9));
}

#[test]
fn division_is_right_associative() {
    // 8/(4/2), not (8/4)/2.
    assert_eq!(evaluate_line("8/4/2"), Ok(4));
}

#[test]
fn single_literal_evaluates_to_itself() {
    assert_eq!(evaluate_line("5"), Ok(5));
}

#[test]
fn whitespace_does_not_change_the_result() {
    assert_eq!(evaluate_line(" 1 + 2 "), Ok(3));
}

#[test]
fn assignment_yields_the_assigned_value() {
    let mut p = parser_for("x=7");
    assert_eq!(p.parse(), Ok(7));
    assert_eq!(p.table, vec![('x', 7)]);
}

#[test]
fn assigned_variable_can_be_referenced_in_same_table() {
    let mut first = parser_for("x=7");
    assert_eq!(first.parse(), Ok(7));
    let mut second = Parser::new(tokenize_stream("x").unwrap()).unwrap();
    second.table = first.table.clone();
    assert_eq!(second.parse(), Ok(7));
}

#[test]
fn reassignment_keeps_one_entry_per_identifier() {
    let mut first = parser_for("x=7");
    assert_eq!(first.parse(), Ok(7));
    let mut second = Parser::new(tokenize_stream("x=7+x").unwrap()).unwrap();
    second.table = first.table.clone();
    assert_eq!(second.parse(), Ok(14));
    assert_eq!(second.table, vec![('x', 14)]);
}

#[test]
fn nested_assignment_binds_both_identifiers() {
    let mut p = parser_for("a=b=3");
    assert_eq!(p.parse(), Ok(3));
    let mut table = p.table.clone();
    table.sort();
    assert_eq!(table, vec![('a', 3), ('b', 3)]);
}

#[test]
fn unassigned_variable_fails() {
    assert_eq!(evaluate_line("y"), Err(LineError::Eval(EvalError::UnassignedVariable)));
}

#[test]
fn unassigned_variable_on_right_hand_side_fails() {
    // The right-hand side evaluates before the binding is made.
    assert_eq!(evaluate_line("x=7+x"), Err(LineError::Eval(EvalError::UnassignedVariable)));
}

#[test]
fn division_by_zero_fails() {
    // A literal 0 divisor is dropped by the lexer, so the zero arrives
    // through a variable.
    let mut first = parser_for("z=1-1");
    assert_eq!(first.parse(), Ok(0));
    let mut second = Parser::new(tokenize_stream("6/z").unwrap()).unwrap();
    second.table = first.table.clone();
    assert_eq!(second.parse(), Err(EvalError::DivisionByZero));
}

#[test]
fn division_by_dropped_zero_runs_out_of_tokens() {
    // "6/0" never reaches the division: the zero-valued literal is dropped
    // while tokenizing, which leaves `/` with nothing to consume.
    assert_eq!(evaluate_line("6/0"), Err(LineError::Eval(EvalError::MissingToken)));
}

#[test]
fn empty_input_fails() {
    assert_eq!(evaluate_line(""), Err(LineError::Eval(EvalError::EmptyTokens)));
}

#[test]
fn lone_zero_leaves_no_tokens_to_parse() {
    // The dropped zero-valued literal leaves an empty token sequence.
    assert_eq!(evaluate_line("0"), Err(LineError::Eval(EvalError::EmptyTokens)));
}

#[test]
fn operator_in_literal_position_fails() {
    assert_eq!(evaluate_line("+2"), Err(LineError::Eval(EvalError::UnexpectedToken)));
}

#[test]
fn equal_in_literal_position_fails() {
    assert_eq!(evaluate_line("=5"), Err(LineError::Eval(EvalError::UnexpectedToken)));
}

#[test]
fn trailing_multiplication_fails() {
    assert_eq!(evaluate_line("2*"), Err(LineError::Eval(EvalError::MissingToken)));
}

#[test]
fn trailing_addition_fails() {
    assert_eq!(evaluate_line("2+3+"), Err(LineError::Eval(EvalError::MissingToken)));
}

#[test]
fn assignment_without_right_hand_side_fails() {
    assert_eq!(evaluate_line("x="), Err(LineError::Eval(EvalError::MissingToken)));
}

#[test]
fn addition_overflow_fails() {
    assert_eq!(evaluate_line("2000000000+2000000000"), Err(LineError::Eval(EvalError::Overflow)));
}

#[test]
fn subtraction_overflow_fails() {
    // Negative values need a subtraction; a leading 0 would be dropped by the lexer.
    let mut first = parser_for("a=1-2147483647");
    assert_eq!(first.parse(), Ok(-2147483646));
    let mut second = Parser::new(tokenize_stream("a-3").unwrap()).unwrap();
    second.table = first.table.clone();
    assert_eq!(second.parse(), Err(EvalError::Overflow));
}

#[test]
fn multiplication_overflow_fails() {
    assert_eq!(evaluate_line("65536*65536"), Err(LineError::Eval(EvalError::Overflow)));
}

#[test]
fn division_truncates_toward_zero() {
    let mut first = parser_for("a=3-10");
    assert_eq!(first.parse(), Ok(-7));
    let mut second = Parser::new(tokenize_stream("a/2").unwrap()).unwrap();
    second.table = first.table.clone();
    // Truncating division gives -3; flooring would give -4.
    assert_eq!(second.parse(), Ok(-3));
}

#[test]
fn division_overflow_fails() {
    let mut p = parser_for("a=1-1073741825");
    assert_eq!(p.parse(), Ok(-1073741824));
    let mut q = Parser::new(tokenize_stream("b=a*2").unwrap()).unwrap();
    q.table = p.table.clone();
    assert_eq!(q.parse(), Ok(i32::MIN));
    let mut r = Parser::new(tokenize_stream("c=1-2").unwrap()).unwrap();
    r.table = q.table.clone();
    assert_eq!(r.parse(), Ok(-1));
    let mut s = Parser::new(tokenize_stream("b/c").unwrap()).unwrap();
    s.table = r.table.clone();
    assert_eq!(s.parse(), Err(EvalError::Overflow));
}

#[test]
fn trailing_tokens_are_not_validated() {
    // One `expr` reduction; whatever follows it is left unconsumed.
    assert_eq!(evaluate_line("2 a"), Ok(2));
}

#[test]
fn constructing_a_parser_from_no_tokens_fails() {
    assert_eq!(Parser::new(vec![]).err(), Some(EvalError::EmptyTokens));
}

#[test]
fn lexer_failure_surfaces_as_line_error() {
    assert_eq!(
        evaluate_line("9999999999"),
        Err(LineError::Lex(LexError::LiteralTooLarge))
    );
}
