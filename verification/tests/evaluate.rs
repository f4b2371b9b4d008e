use calculator::{ArithmeticFault, EvalError, Evaluator, SyntaxFault};

fn eval(expression: &str) -> Result<i32, EvalError> {
    Evaluator::new().evaluate(expression)
}

#[test]
fn bound_variables_in_a_parenthesis() {
    let mut evaluator = Evaluator::new();
    evaluator.add_var("a", 3);
    evaluator.add_var("b", 2);
    assert_eq!(evaluator.evaluate("(a+b)*4"), Ok(20));
}

#[test]
fn multiplication_binds_tighter_than_addition() {
    assert_eq!(eval("2+3*4"), Ok(14));
    assert_eq!(eval("2*3+4"), Ok(10));
    assert_eq!(eval("2+12/4"), Ok(5));
    assert_eq!(eval("20-3*4"), Ok(8));
}

#[test]
fn subtraction_goes_left_to_right() {
    assert_eq!(eval("10-2-3"), Ok(5));
}

#[test]
fn division_goes_left_to_right() {
    assert_eq!(eval("8/2/2"), Ok(2));
}

#[test]
fn nested_parentheses() {
    assert_eq!(eval("(1+(2+3))*2"), Ok(12));
    assert_eq!(eval("((7))"), Ok(7));
    assert_eq!(eval("2*(3+4)*5"), Ok(70));
}

#[test]
fn division_by_zero_is_an_arithmetic_error() {
    assert_eq!(eval("7/0"), Err(EvalError::Arithmetic(ArithmeticFault::DivisionByZero)));
    assert_eq!(eval("1+7/(2-2)"), Err(EvalError::Arithmetic(ArithmeticFault::DivisionByZero)));
    assert_eq!(eval("0/0"), Err(EvalError::Arithmetic(ArithmeticFault::DivisionByZero)));
}

#[test]
fn a_parenthesis_counts_as_its_value() {
    assert_eq!(eval("(1+2)*3"), Ok(9));
    assert_eq!(eval("(1+2)*3"), eval("3*3"));
    assert_eq!(eval("20-(2+3*4)-1"), eval("20-14-1"));
    assert_eq!(eval("20-(2+3*4)-1"), Ok(5));
}

#[test]
fn rebinding_changes_later_evaluations_only() {
    let mut evaluator = Evaluator::new();
    evaluator.add_var("a", 3);
    let first = evaluator.evaluate("a+1");
    assert_eq!(first, Ok(4));
    evaluator.add_var("a", 5);
    assert_eq!(evaluator.evaluate("a+1"), Ok(6));
    assert_eq!(first, Ok(4));
}

#[test]
fn an_unbound_identifier_is_named() {
    assert_eq!(eval("x+1"), Err(EvalError::UnknownVariable(b"x".to_vec())));
    let mut evaluator = Evaluator::new();
    evaluator.add_var("a", 1);
    assert_eq!(evaluator.evaluate("a+ab"), Err(EvalError::UnknownVariable(b"ab".to_vec())));
    assert_eq!(evaluator.evaluate("(a*q)"), Err(EvalError::UnknownVariable(b"q".to_vec())));
}

#[test]
fn unbalanced_parentheses_are_a_syntax_error() {
    let unbalanced = Err(EvalError::Syntax(SyntaxFault::UnbalancedParentheses));
    assert_eq!(eval("(1+2"), unbalanced);
    assert_eq!(eval("1+2)"), unbalanced);
    assert_eq!(eval(")"), unbalanced);
    assert_eq!(eval("("), unbalanced);
    assert_eq!(eval("((1)"), unbalanced);
    assert_eq!(eval("(1))"), unbalanced);
}

#[test]
fn blanks_do_not_count() {
    assert_eq!(eval("1 + 2"), Ok(3));
    assert_eq!(eval("1 + 2"), eval("1+2"));
    assert_eq!(eval("  ( 4 - 1 ) * 2  "), Ok(6));
    assert_eq!(eval("1 2"), Ok(12));
    assert_eq!(eval(" 7 / 0 "), eval("7/0"));
}

#[test]
fn nothing_to_evaluate() {
    assert_eq!(eval(""), Err(EvalError::Syntax(SyntaxFault::EmptyExpression)));
    assert_eq!(eval("   "), Err(EvalError::Syntax(SyntaxFault::EmptyExpression)));
    assert_eq!(eval("()"), Err(EvalError::Syntax(SyntaxFault::EmptyExpression)));
}

#[test]
fn bytes_outside_the_alphabet() {
    assert_eq!(eval("1$2"), Err(EvalError::Syntax(SyntaxFault::UnexpectedCharacter(b'$'))));
    assert_eq!(eval("A"), Err(EvalError::Syntax(SyntaxFault::UnexpectedCharacter(b'A'))));
    assert_eq!(eval("1\t+2"), Err(EvalError::Syntax(SyntaxFault::UnexpectedCharacter(b'\t'))));
    assert_eq!(eval("1.5"), Err(EvalError::Syntax(SyntaxFault::UnexpectedCharacter(b'.'))));
    assert_eq!(eval("1+\u{e9}"), Err(EvalError::Syntax(SyntaxFault::UnexpectedCharacter(0xc3))));
}

#[test]
fn the_first_failure_is_reported() {
    assert_eq!(eval("7/0+$"), Err(EvalError::Arithmetic(ArithmeticFault::DivisionByZero)));
    assert_eq!(eval("$+7/0"), Err(EvalError::Syntax(SyntaxFault::UnexpectedCharacter(b'$'))));
    assert_eq!(eval("x+7/0"), Err(EvalError::UnknownVariable(b"x".to_vec())));
}

#[test]
fn digits_glued_to_letters() {
    assert_eq!(eval("1a+2"), Err(EvalError::Syntax(SyntaxFault::MalformedOperand)));
    assert_eq!(eval("a1"), Err(EvalError::Syntax(SyntaxFault::MalformedOperand)));
}

#[test]
fn operators_without_operands() {
    let missing = Err(EvalError::Syntax(SyntaxFault::MissingOperand));
    assert_eq!(eval("1+"), missing);
    assert_eq!(eval("+1"), missing);
    assert_eq!(eval("1++2"), missing);
    assert_eq!(eval("*"), missing);
    assert_eq!(eval("(1+)"), missing);
}

#[test]
fn literals_beyond_the_integer_width() {
    assert_eq!(eval("2147483647"), Ok(2147483647));
    assert_eq!(eval("2147483648"), Err(EvalError::NumberFormat));
    assert_eq!(eval("99999999999999999999999"), Err(EvalError::NumberFormat));
    assert_eq!(eval("0000000000000000000012"), Ok(12));
}

#[test]
fn results_beyond_the_integer_width() {
    let overflow = Err(EvalError::Arithmetic(ArithmeticFault::Overflow));
    assert_eq!(eval("2147483647+1"), overflow);
    assert_eq!(eval("0-2147483647-2"), overflow);
    assert_eq!(eval("65536*32768"), overflow);
    assert_eq!(eval("0-2147483647-1"), Ok(-2147483648));
    assert_eq!(eval("(0-2147483647-1)/(0-1)"), overflow);
    assert_eq!(eval("(0-2147483647-1)/1"), Ok(-2147483648));
}

#[test]
fn division_rounds_towards_zero() {
    assert_eq!(eval("7/2"), Ok(3));
    assert_eq!(eval("(0-7)/2"), Ok(-3));
    assert_eq!(eval("7/(0-2)"), Ok(-3));
    assert_eq!(eval("(0-7)/(0-2)"), Ok(3));
    assert_eq!(eval("1/2"), Ok(0));
}

#[test]
fn more_than_one_value_left() {
    assert_eq!(eval("(1)(2)"), Err(EvalError::InternalInvariant));
    assert_eq!(eval("(1)2"), Err(EvalError::InternalInvariant));
}

#[test]
fn every_digit_and_letter_is_accepted() {
    assert_eq!(eval("1234567890"), Ok(1234567890));
    let mut evaluator = Evaluator::new();
    evaluator.add_var("z", 26);
    evaluator.add_var("a", 1);
    evaluator.add_var("az", 126);
    assert_eq!(evaluator.evaluate("z-a"), Ok(25));
    assert_eq!(evaluator.evaluate("az"), Ok(126));
    assert_eq!(evaluator.evaluate("9*9"), Ok(81));
}

#[test]
fn at_most_one_pending_operator_is_applied_per_operator() {
    // `2*3` is applied when the second `+` or `-` arrives, the first one is
    // not: it stays pending until the end, below the one that came later.
    assert_eq!(eval("1+2*3+4"), Ok(11));
    assert_eq!(eval("1-2*3+4"), Ok(-9));
    assert_eq!(eval("1-2*3"), Ok(-5));
    assert_eq!(eval("2*3-1+4"), Ok(9));
}

#[test]
fn evaluation_leaves_the_bindings_alone() {
    let mut evaluator = Evaluator::new();
    evaluator.add_var("n", 7);
    assert_eq!(evaluator.evaluate("n*n"), Ok(49));
    assert_eq!(evaluator.evaluate("n/0"), Err(EvalError::Arithmetic(ArithmeticFault::DivisionByZero)));
    assert_eq!(evaluator.evaluate("n*n"), Ok(49));
}

/// Ordinary arithmetic on 32-bit integers, by recursive descent: the value
/// of the expression, or `None` where an operation has no result.
fn reference(text: &[u8]) -> Option<i32> {
    fn atom(text: &[u8], at: &mut usize) -> Option<i32> {
        if text[*at] == b'(' {
            *at += 1;
            let value = sum(text, at)?;
            *at += 1;
            Some(value)
        } else {
            let mut value: i32 = 0;
            while *at < text.len() && text[*at].is_ascii_digit() {
                value = value * 10 + i32::from(text[*at] - b'0');
                *at += 1;
            }
            Some(value)
        }
    }
    fn product(text: &[u8], at: &mut usize) -> Option<i32> {
        let mut value = atom(text, at)?;
        while *at < text.len() && (text[*at] == b'*' || text[*at] == b'/') {
            let op = text[*at];
            *at += 1;
            let right = atom(text, at)?;
            value = if op == b'*' { value.checked_mul(right)? } else { value.checked_div(right)? };
        }
        Some(value)
    }
    fn sum(text: &[u8], at: &mut usize) -> Option<i32> {
        let mut value = product(text, at)?;
        while *at < text.len() && (text[*at] == b'+' || text[*at] == b'-') {
            let op = text[*at];
            *at += 1;
            let right = product(text, at)?;
            value = if op == b'+' { value.checked_add(right)? } else { value.checked_sub(right)? };
        }
        Some(value)
    }
    let mut at = 0;
    sum(text, &mut at)
}

#[test]
fn agrees_with_ordinary_arithmetic() {
    let expressions = [
        "7",
        "1+2",
        "9-4-3-2",
        "2*3*4",
        "100/7/2",
        "100/7*2",
        "2*3+4",
        "2*3-4-5+6",
        "2*3/4+5-6",
        "1+2+3*4",
        "1-2-3*4/5",
        "9/2*3-1+7*8",
        "(1+2)*(3+4)",
        "(1-2*3)+4",
        "1-(2*3)+4",
        "2*(3-4*5)/(6+1)",
        "((2+3)*(4-1)-5)/(1+1)",
        "10-(3-(2-(1-4)))",
        "(8/(4/2))",
        "8/4/2",
        "0-5/2",
        "(0-5)/2",
        "3*(0-5)/2",
        "46341*46341",
        "46340*46340",
        "2147483647-0+1",
        "1/(5-5)+2",
        "6/(1-1*1)",
    ];
    for expression in expressions {
        assert_eq!(eval(expression).ok(), reference(expression.as_bytes()), "{}", expression);
    }
}

#[test]
fn every_small_chain_of_two_operators() {
    let operators = [b'+', b'-', b'*', b'/'];
    for first in operators {
        for second in operators {
            for a in 0..4u8 {
                for b in 0..4u8 {
                    for c in 0..4u8 {
                        let text =
                            [b'0' + a + 5, first, b'0' + b, second, b'0' + c];
                        let expression = String::from_utf8(text.to_vec()).unwrap();
                        assert_eq!(
                            eval(&expression).ok(),
                            reference(&text),
                            "{}",
                            expression
                        );
                    }
                }
            }
        }
    }
}

#[test]
fn a_product_between_two_additive_operators_opens_a_group() {
    assert_eq!(eval("1-2*3+4"), eval("1-(2*3+4)"));
    assert_eq!(eval("1-2*3+4"), Ok(-9));
    assert_eq!(eval("1-2*3+4*5-6"), eval("1-(2*3+(4*5-6))"));
    assert_eq!(eval("1-2*3+4*5-6"), Ok(-19));
    assert_eq!(eval("9-1-2*3-4-5*6"), eval("9-1-(2*3-4-5*6)"));
    assert_eq!(eval("9-1-2*3-4-5*6"), Ok(36));
    assert_eq!(eval("8-2/1-1"), eval("8-(2/1-1)"));
    assert_eq!(eval("8-2/1-1"), Ok(7));
    assert_eq!(eval("(5-2*2-1)*2"), eval("(5-(2*2-1))*2"));
    assert_eq!(eval("(5-2*2-1)*2"), Ok(4));
    assert_eq!(eval("2*3-4*5"), Ok(-14));
    assert_eq!(eval("2*3-4-5*6"), Ok(-28));
}

#[test]
fn the_grouping_decides_whether_a_sum_overflows() {
    assert_eq!(eval("2147483647+1*1-1"), Ok(2147483647));
    assert_eq!(eval("2147483647+1-1"), Err(EvalError::Arithmetic(ArithmeticFault::Overflow)));
    assert_eq!(eval("2147483647+(1*1-1)"), Ok(2147483647));
}

#[test]
fn an_identifier_alone() {
    let mut evaluator = Evaluator::new();
    evaluator.add_var("total", -17);
    assert_eq!(evaluator.evaluate("total"), Ok(-17));
    assert_eq!(evaluator.evaluate("tot al"), Ok(-17));
    assert_eq!(evaluator.evaluate("totals"), Err(EvalError::UnknownVariable(b"totals".to_vec())));
    evaluator.add_var("total", 4);
    assert_eq!(evaluator.evaluate("total"), Ok(4));
}

#[test]
fn a_quotient_of_two_groups_with_a_zero_divisor() {
    let mut evaluator = Evaluator::new();
    evaluator.add_var("n", 5);
    let by_zero = Err(EvalError::Arithmetic(ArithmeticFault::DivisionByZero));
    assert_eq!(evaluator.evaluate("(n*2)/(n-5)"), by_zero);
    assert_eq!(evaluator.evaluate("(1)/(0)"), by_zero);
    assert_eq!(evaluator.evaluate("(0)/(3-1-2)"), by_zero);
    assert_eq!(evaluator.evaluate("(n*2)/(n-4)"), Ok(10));
}

#[test]
fn a_group_among_other_operands() {
    assert_eq!(eval("2*(1+2)-4"), eval("2*3-4"));
    assert_eq!(eval("2*(1+2)-4"), Ok(2));
    assert_eq!(eval("(1+2)"), eval("3"));
    assert_eq!(eval("((1+2)*(3+4))/(2+1)"), eval("(3*7)/3"));
    assert_eq!(eval("( 6 / 2 ) ) + 1"), eval("003 ) + 1"));
}

#[test]
fn a_parenthesis_left_open_after_other_text() {
    let unbalanced = Err(EvalError::Syntax(SyntaxFault::UnbalancedParentheses));
    assert_eq!(eval("1+(2*3"), unbalanced);
    assert_eq!(eval("(4)-((5)"), unbalanced);
    assert_eq!(eval("2*3)+1"), unbalanced);
    assert_eq!(eval("7)$"), unbalanced);
}

#[test]
fn a_failure_before_the_imbalance_is_found_comes_first() {
    assert_eq!(eval("(1/0"), Err(EvalError::Arithmetic(ArithmeticFault::DivisionByZero)));
    assert_eq!(eval("x)"), Err(EvalError::UnknownVariable(b"x".to_vec())));
    assert_eq!(eval("(1+"), Err(EvalError::Syntax(SyntaxFault::MissingOperand)));
}

#[test]
fn an_error_can_be_copied() {
    let error = EvalError::UnknownVariable(b"abc".to_vec());
    assert_eq!(error.clone(), error);
    let error = EvalError::Syntax(SyntaxFault::UnexpectedCharacter(b'?'));
    assert_eq!(error.clone(), error);
    assert_eq!(EvalError::NumberFormat.clone(), EvalError::NumberFormat);
}
