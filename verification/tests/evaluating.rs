use grapher::ast::{BinaryOperator, UnaryOperator, Value};
use grapher::errors::EvalError;
use grapher::function::Function;
use grapher::lexer::tokenize;
use grapher::parser::parse;

/// Folds a compiled tree over machine floats: constants through the decimal
/// float conversion their literals were validated for, variables by index,
/// operators by the corresponding IEEE operation. Division and modulo by
/// zero yield the usual special values, not errors.
fn evaluate(v: &Value, variables: &[f64]) -> Result<f64, EvalError> {
    match v {
        Value::Constant(lit) => {
            let text: String = lit.iter().collect();
            Ok(text.parse::<f64>().unwrap())
        }
        Value::Variable(i) => match variables.get(*i as usize) {
            Some(x) => Ok(*x),
            None => Err(EvalError::VariableOutOfRange(*i)),
        },
        Value::UnaryOperator { operator, operand } => {
            let a = evaluate(operand, variables)?;
            match operator {
                UnaryOperator::Negation => Ok(-a),
                UnaryOperator::AbsoluteValue => Ok(a.abs()),
                UnaryOperator::Sin => Ok(a.sin()),
                UnaryOperator::Factorial => {
                    if a < 0.0 {
                        return Err(EvalError::DomainError);
                    }
                    let n = a.round() as i64;
                    let mut product = 1.0f64;
                    let mut k = 1i64;
                    while k <= n {
                        product *= k as f64;
                        k += 1;
                    }
                    Ok(product)
                }
            }
        }
        Value::BinaryOperator { operator, operands } => {
            let lhs = evaluate(&operands.0, variables)?;
            let rhs = evaluate(&operands.1, variables)?;
            Ok(match operator {
                BinaryOperator::Addition => lhs + rhs,
                BinaryOperator::Subtraction => lhs - rhs,
                BinaryOperator::Multiplication => lhs * rhs,
                BinaryOperator::Division => lhs / rhs,
                BinaryOperator::Exponentiation => lhs.powf(rhs),
                BinaryOperator::Modulo => lhs % rhs,
            })
        }
    }
}

fn eval_str(s: &str, variables: &[f64]) -> Result<f64, EvalError> {
    let tree = parse(tokenize(s).unwrap()).unwrap();
    evaluate(&tree, variables)
}

#[test]
fn eval_precedence() {
    assert_eq!(eval_str("3+4*2", &[]).unwrap(), 11.0);
}

#[test]
fn eval_grouping() {
    assert_eq!(eval_str("(3+4)*2", &[]).unwrap(), 14.0);
}

#[test]
fn eval_variable_power() {
    assert_eq!(eval_str("x^2", &[3.0]).unwrap(), 9.0);
}

#[test]
fn eval_decimals() {
    assert_eq!(eval_str("1.5*2", &[]).unwrap(), 3.0);
    assert_eq!(eval_str(".5+2.", &[]).unwrap(), 2.5);
}

#[test]
fn eval_left_associative_exponentiation() {
    assert_eq!(eval_str("2^3^2", &[]).unwrap(), 64.0);
}

#[test]
fn eval_left_associative_subtraction() {
    assert_eq!(eval_str("1-2-3", &[]).unwrap(), -4.0);
}

#[test]
fn eval_twice_is_bit_identical() {
    let tree = parse(tokenize("x^2+3.5*x").unwrap()).unwrap();
    let vars = [1.75f64];
    let first = evaluate(&tree, &vars).unwrap();
    let second = evaluate(&tree, &vars).unwrap();
    assert_eq!(first.to_bits(), second.to_bits());
}

#[test]
fn eval_division_by_zero_is_infinite() {
    let r = eval_str("1/0", &[]).unwrap();
    assert!(r.is_infinite() && r > 0.0);
}

#[test]
fn eval_modulo_by_zero_is_nan() {
    assert!(eval_str("1%0", &[]).unwrap().is_nan());
}

#[test]
fn eval_variable_out_of_range() {
    assert_eq!(
        eval_str("x", &[]).unwrap_err(),
        EvalError::VariableOutOfRange(0)
    );
}

#[test]
fn eval_unary_operators() {
    let negated = Value::UnaryOperator {
        operator: UnaryOperator::Negation,
        operand: Box::new(Value::Constant(vec!['2'])),
    };
    assert_eq!(evaluate(&negated, &[]).unwrap(), -2.0);

    let absolute = Value::UnaryOperator {
        operator: UnaryOperator::AbsoluteValue,
        operand: Box::new(negated),
    };
    assert_eq!(evaluate(&absolute, &[]).unwrap(), 2.0);

    let sine = Value::UnaryOperator {
        operator: UnaryOperator::Sin,
        operand: Box::new(Value::Constant(vec!['0'])),
    };
    assert_eq!(evaluate(&sine, &[]).unwrap(), 0.0);
}

#[test]
fn eval_factorial_rounds_and_multiplies() {
    let factorial = Value::UnaryOperator {
        operator: UnaryOperator::Factorial,
        operand: Box::new(Value::Variable(0)),
    };
    assert_eq!(evaluate(&factorial, &[3.2]).unwrap(), 6.0);
    assert_eq!(evaluate(&factorial, &[0.0]).unwrap(), 1.0);
}

#[test]
fn eval_factorial_of_negative_is_domain_error() {
    let factorial = Value::UnaryOperator {
        operator: UnaryOperator::Factorial,
        operand: Box::new(Value::Variable(0)),
    };
    assert_eq!(evaluate(&factorial, &[-1.0]).unwrap_err(), EvalError::DomainError);
}

#[test]
fn check_variables_reports_first_out_of_range() {
    let tree = parse(tokenize("x+1").unwrap()).unwrap();
    assert_eq!(
        tree.check_variables(0).unwrap_err(),
        EvalError::VariableOutOfRange(0)
    );
    assert!(tree.check_variables(1).is_ok());
}

#[test]
fn function_compiles_and_evaluates() {
    let f = Function::new("x*x").unwrap();
    assert_eq!(evaluate(f.ast(), &[5.0]).unwrap(), 25.0);
}

#[test]
fn function_rejects_bad_input() {
    assert!(Function::new("(3").is_none());
    assert!(Function::new("").is_none());
    assert!(Function::new("1.2.3").is_none());
}
