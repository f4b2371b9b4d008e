use calculator::arith::compute;
use calculator::number::parse_literal;
use calculator::symbols::{is_digit, is_lowercase_letter, is_operator};
use calculator::table::same_bytes;
use calculator::{ArithmeticFault, EvalError, Evaluator, SyntaxFault, VariableTable};

#[test]
fn priorities() {
    assert_eq!(Evaluator::get_priority(b'+'), 0);
    assert_eq!(Evaluator::get_priority(b'-'), 0);
    assert_eq!(Evaluator::get_priority(b'*'), 1);
    assert_eq!(Evaluator::get_priority(b'/'), 1);
}

#[test]
fn byte_classes() {
    for c in 0..=255u8 {
        assert_eq!(is_digit(c), c.is_ascii_digit());
        assert_eq!(is_lowercase_letter(c), c.is_ascii_lowercase());
        assert_eq!(is_operator(c), matches!(c, b'+' | b'-' | b'*' | b'/'));
    }
}

#[test]
fn the_upper_value_is_the_right_operand() {
    let evaluator = Evaluator::new();
    let mut stack = vec![1, 10, 2];
    assert_eq!(evaluator.evaluate_op(&mut stack, b'-'), Ok(()));
    assert_eq!(stack, vec![1, 8]);
    let mut stack = vec![9, 2];
    assert_eq!(evaluator.evaluate_op(&mut stack, b'/'), Ok(()));
    assert_eq!(stack, vec![4]);
    let mut stack = vec![3, 4];
    assert_eq!(evaluator.evaluate_op(&mut stack, b'+'), Ok(()));
    assert_eq!(stack, vec![7]);
    let mut stack = vec![3, 4];
    assert_eq!(evaluator.evaluate_op(&mut stack, b'*'), Ok(()));
    assert_eq!(stack, vec![12]);
}

#[test]
fn a_failed_operation_leaves_the_stack() {
    let evaluator = Evaluator::new();
    let mut stack = vec![5, 7, 0];
    assert_eq!(
        evaluator.evaluate_op(&mut stack, b'/'),
        Err(EvalError::Arithmetic(ArithmeticFault::DivisionByZero))
    );
    assert_eq!(stack, vec![5, 7, 0]);
    let mut stack = vec![i32::MAX, 1];
    assert_eq!(
        evaluator.evaluate_op(&mut stack, b'+'),
        Err(EvalError::Arithmetic(ArithmeticFault::Overflow))
    );
    assert_eq!(stack, vec![i32::MAX, 1]);
    let mut stack = vec![1];
    assert_eq!(
        evaluator.evaluate_op(&mut stack, b'+'),
        Err(EvalError::Syntax(SyntaxFault::MissingOperand))
    );
    assert_eq!(stack, vec![1]);
    let mut stack = vec![1, 2];
    assert_eq!(evaluator.evaluate_op(&mut stack, b'('), Err(EvalError::InternalInvariant));
    assert_eq!(stack, vec![1, 2]);
}

#[test]
fn flushing_a_literal() {
    let evaluator = Evaluator::new();
    let mut stack = vec![1];
    let mut var: Vec<u8> = vec![];
    let mut number = b"042".to_vec();
    assert_eq!(evaluator.apply_value(&mut stack, &mut var, &mut number), Ok(()));
    assert_eq!(stack, vec![1, 42]);
    assert!(var.is_empty());
    assert!(number.is_empty());
}

#[test]
fn flushing_an_identifier() {
    let mut evaluator = Evaluator::new();
    evaluator.add_var("k", -4);
    let mut stack = vec![];
    let mut var = b"k".to_vec();
    let mut number: Vec<u8> = vec![];
    assert_eq!(evaluator.apply_value(&mut stack, &mut var, &mut number), Ok(()));
    assert_eq!(stack, vec![-4]);
    assert!(var.is_empty());
    assert!(number.is_empty());
}

#[test]
fn a_failed_flush_leaves_everything() {
    let evaluator = Evaluator::new();
    let mut stack = vec![3];
    let mut var: Vec<u8> = vec![];
    let mut number: Vec<u8> = vec![];
    assert_eq!(
        evaluator.apply_value(&mut stack, &mut var, &mut number),
        Err(EvalError::Syntax(SyntaxFault::MissingOperand))
    );
    let mut var = b"a".to_vec();
    let mut number = b"1".to_vec();
    assert_eq!(
        evaluator.apply_value(&mut stack, &mut var, &mut number),
        Err(EvalError::Syntax(SyntaxFault::MalformedOperand))
    );
    assert_eq!((var.as_slice(), number.as_slice()), (&b"a"[..], &b"1"[..]));
    let mut none: Vec<u8> = vec![];
    assert_eq!(
        evaluator.apply_value(&mut stack, &mut var, &mut none),
        Err(EvalError::UnknownVariable(b"a".to_vec()))
    );
    assert_eq!(var, b"a".to_vec());
    let mut number = b"4294967296".to_vec();
    assert_eq!(
        evaluator.apply_value(&mut stack, &mut none, &mut number),
        Err(EvalError::NumberFormat)
    );
    let mut number = b"+5".to_vec();
    assert_eq!(
        evaluator.apply_value(&mut stack, &mut none, &mut number),
        Err(EvalError::NumberFormat)
    );
    assert_eq!(number, b"+5".to_vec());
    assert_eq!(stack, vec![3]);
}

#[test]
fn the_four_operations() {
    assert_eq!(compute(b'+', 2, 3), Ok(5));
    assert_eq!(compute(b'-', 2, 3), Ok(-1));
    assert_eq!(compute(b'*', -2, 3), Ok(-6));
    assert_eq!(compute(b'/', -7, 2), Ok(-3));
    assert_eq!(compute(b'/', 7, -2), Ok(-3));
    assert_eq!(compute(b'/', i32::MIN, -1), Err(EvalError::Arithmetic(ArithmeticFault::Overflow)));
    assert_eq!(compute(b'-', i32::MIN, 1), Err(EvalError::Arithmetic(ArithmeticFault::Overflow)));
    assert_eq!(compute(b'*', i32::MIN, -1), Err(EvalError::Arithmetic(ArithmeticFault::Overflow)));
    assert_eq!(compute(b'/', 1, 0), Err(EvalError::Arithmetic(ArithmeticFault::DivisionByZero)));
    assert_eq!(compute(b'%', 1, 1), Err(EvalError::InternalInvariant));
}

#[test]
fn reading_literals() {
    assert_eq!(parse_literal(&b"0".to_vec()), Some(0));
    assert_eq!(parse_literal(&b"907".to_vec()), Some(907));
    assert_eq!(parse_literal(&b"2147483647".to_vec()), Some(i32::MAX));
    assert_eq!(parse_literal(&b"2147483648".to_vec()), None);
    assert_eq!(parse_literal(&b"21474836470".to_vec()), None);
    assert_eq!(parse_literal(&b"".to_vec()), None);
    assert_eq!(parse_literal(&b"12a".to_vec()), None);
    assert_eq!(parse_literal(&b"-1".to_vec()), None);
}

#[test]
fn binding_and_looking_up() {
    let mut table = VariableTable::new();
    assert_eq!(table.lookup(b"a"), None);
    table.bind(b"a".to_vec(), 1);
    table.bind(b"b".to_vec(), 2);
    table.bind(b"ab".to_vec(), 3);
    assert_eq!(table.lookup(b"a"), Some(1));
    assert_eq!(table.lookup(b"b"), Some(2));
    assert_eq!(table.lookup(b"ab"), Some(3));
    assert_eq!(table.lookup(b"ba"), None);
    table.bind(b"a".to_vec(), 10);
    assert_eq!(table.lookup(b"a"), Some(10));
    assert_eq!(table.lookup(b"b"), Some(2));
    assert_eq!(table.lookup(b""), None);
}

#[test]
fn comparing_byte_strings() {
    assert!(same_bytes(b"", b""));
    assert!(same_bytes(b"abc", b"abc"));
    assert!(!same_bytes(b"abc", b"abd"));
    assert!(!same_bytes(b"abc", b"ab"));
    assert!(!same_bytes(b"", b"a"));
}
