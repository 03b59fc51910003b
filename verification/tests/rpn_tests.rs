use echo_reactor::rpn::{RpnCalculator, RpnError};

#[test]
fn test_ok() {
    let calclulator = RpnCalculator::new(false);
    assert_eq!(calclulator.eval("5").unwrap(), 5);
    assert_eq!(calclulator.eval("50").unwrap(), 50);
    assert_eq!(calclulator.eval("-50").unwrap(), -50);

    assert_eq!(calclulator.eval("2 3 +").unwrap(), 5);
    assert_eq!(calclulator.eval("2 3 -").unwrap(), -1);
    assert_eq!(calclulator.eval("2 3 *").unwrap(), 6);
    assert_eq!(calclulator.eval("2 3 /").unwrap(), 0);
    assert_eq!(calclulator.eval("2 3 %").unwrap(), 2);
}

#[test]
fn test_ng() {
    let calclulator = RpnCalculator::new(false);
    assert!(calclulator.eval("").is_err());
    assert!(calclulator.eval("1 1 1 +").is_err());
    assert!(calclulator.eval("+ 1 1").is_err());
}

#[test]
fn test_error_positions() {
    let calc = RpnCalculator::new(false);
    // an operator with too few operands reports its own 1-based position
    assert_eq!(calc.eval("+ 1 1"), Err(RpnError::InvalidSyntaxAt(1)));
    assert_eq!(calc.eval("1 + 1"), Err(RpnError::InvalidSyntaxAt(2)));
    // an unknown token with two operands available reports its position
    assert_eq!(calc.eval("2 3 &"), Err(RpnError::InvalidTokenAt(3)));
    // a non-numeric token claims its operands before it is classified, so a
    // literal out of the machine's range with a short stack reads as a
    // syntax error, not a token error
    assert_eq!(calc.eval("2147483648"), Err(RpnError::InvalidSyntaxAt(1)));
    assert_eq!(calc.eval("1 2 2147483648"), Err(RpnError::InvalidTokenAt(3)));
    // leftover operands are rejected at the end
    assert_eq!(calc.eval("1 1 1 +"), Err(RpnError::InvalidSyntax));
    assert_eq!(calc.eval(""), Err(RpnError::InvalidSyntax));
    assert_eq!(calc.eval("   "), Err(RpnError::InvalidSyntax));
}

#[test]
fn test_truncating_arithmetic() {
    let calc = RpnCalculator::new(false);
    // division and remainder round toward zero, sign from the dividend
    assert_eq!(calc.eval("-7 2 /").unwrap(), -3);
    assert_eq!(calc.eval("7 -2 /").unwrap(), -3);
    assert_eq!(calc.eval("-7 -2 /").unwrap(), 3);
    assert_eq!(calc.eval("-7 2 %").unwrap(), -1);
    assert_eq!(calc.eval("7 -2 %").unwrap(), 1);
}

#[test]
fn test_boundary_literals() {
    let calc = RpnCalculator::new(false);
    assert_eq!(calc.eval("-2147483648").unwrap(), -2147483648);
    assert_eq!(calc.eval("2147483647").unwrap(), 2147483647);
    assert_eq!(calc.eval("+5").unwrap(), 5);
    // whitespace is only a separator
    assert_eq!(calc.eval("  2\t3 +  ").unwrap(), 5);
    // nested expression evaluated left to right
    assert_eq!(calc.eval("1 2 + 3 4 + *").unwrap(), 21);
}

#[test]
fn test_verbose_flag_kept() {
    // the flag only selects tracing in the host; evaluation is unchanged
    let quiet = RpnCalculator::new(false);
    let loud = RpnCalculator::new(true);
    assert_eq!(quiet.eval("2 3 +").unwrap(), loud.eval("2 3 +").unwrap());
}

#[test]
fn test_eval_aborts_guard() {
    let calc = RpnCalculator::new(false);
    // division and remainder by zero, and out-of-range results
    assert!(calc.eval_aborts("1 0 /"));
    assert!(calc.eval_aborts("1 0 %"));
    assert!(calc.eval_aborts("2147483647 1 +"));
    assert!(calc.eval_aborts("-2147483648 1 -"));
    assert!(calc.eval_aborts("65536 65536 *"));
    assert!(calc.eval_aborts("-2147483648 -1 /"));
    assert!(calc.eval_aborts("-2147483648 -1 %"));
    // ordinary formulas and plain errors do not trip the guard
    assert!(!calc.eval_aborts("2 3 +"));
    assert!(!calc.eval_aborts("+ 1 1"));
    assert!(!calc.eval_aborts(""));
    assert!(!calc.eval_aborts("1 1 1 +"));
    assert!(!calc.eval_aborts("-2147483647 -1 +"));
}

fn words(tokens: &[Vec<char>]) -> Vec<String> {
    tokens.iter().map(|t| t.iter().collect()).collect()
}

#[test]
fn test_eval_trace_steps() {
    let calc = RpnCalculator::new(true);
    // one entry per processed token: remaining tokens (back-to-front) and
    // the stack after the step
    let trace = calc.eval_trace("2 3 +");
    assert_eq!(trace.len(), 3);
    assert_eq!(words(&trace[0].0), vec!["+", "3"]);
    assert_eq!(trace[0].1, vec![2]);
    assert_eq!(words(&trace[1].0), vec!["+"]);
    assert_eq!(trace[1].1, vec![2, 3]);
    assert_eq!(words(&trace[2].0), Vec::<String>::new());
    assert_eq!(trace[2].1, vec![5]);

    // the trace breaks off at the first error
    let trace = calc.eval_trace("2 &");
    assert_eq!(trace.len(), 1);
    assert_eq!(words(&trace[0].0), vec!["&"]);
    assert_eq!(trace[0].1, vec![2]);

    // and where the machine's arithmetic would give up
    let trace = calc.eval_trace("1 0 /");
    assert_eq!(trace.len(), 2);
    assert_eq!(trace[1].1, vec![1, 0]);
}
