use calcli::eval::{evaluate_input as start_evaluation, Number, Reply, Request, Step};
use calcli::eval_context::EvalContext;

/// Evaluates `input`, answering the evaluation's requests with `meval`, with
/// `f64` parsing and with the calculator's scientific notation.
fn evaluate_input(ctx: &mut EvalContext, input: &str, _show: bool) -> Result<f64, calcli::error::EvalError> {
    let (mut evaluation, mut step) = start_evaluation(ctx, input);
    loop {
        let reply = match step {
            Step::Done(result) => return result.map(|n| f64::from_bits(n.bits)),
            Step::Continue => Reply::Proceed,
            Step::Pending(Request::Evaluate(expr)) => {
                let mut vars = meval::Context::new();
                for (name, bits) in ctx.defined_vars.iter() {
                    vars.var(name.clone(), f64::from_bits(*bits));
                }
                match expr.parse::<meval::Expr>().and_then(|e| e.eval_with_context(&vars)) {
                    Ok(v) => Reply::Evaluated(Ok(Number { bits: v.to_bits(), text: v.to_string() })),
                    Err(e) => Reply::Evaluated(Err(e.to_string())),
                }
            }
            Step::Pending(Request::ParseNumber(text)) => Reply::Parsed(
                text.parse::<f64>().ok().map(|v| Number { bits: v.to_bits(), text: v.to_string() }),
            ),
            Step::Pending(Request::Scientific(bits, precision)) => {
                Reply::Formatted(convert_to_scientific(f64::from_bits(bits), precision))
            }
        };
        assert!(ctx.counter < usize::MAX);
        step = evaluation.resume(ctx, reply);
    }
}

fn convert_to_scientific(input: f64, precision: usize) -> String {
    if input.is_nan() || input.is_infinite() {
        return input.to_string();
    }
    if input == 0.0 {
        return "0".to_string();
    }
    let exponent = input.abs().log10().floor() as i32;
    let mantissa = input / 10_f64.powi(exponent);
    let decimal_places = if precision > 0 { precision - 1 } else { 0 };
    format!("{:.prec$}e{:+}", mantissa, exponent, prec = decimal_places)
}

fn should_use_scientific(input: f64, digit_threshold: usize) -> bool {
    if input == 0.0 || input.is_nan() || input.is_infinite() {
        return false;
    }
    let abs_val = input.abs();
    if abs_val >= 1.0 {
        let digits = abs_val.log10().floor() as i32 + 1;
        return digits >= digit_threshold as i32;
    }
    let leading_zeros = (-abs_val.log10()).floor() as usize;
    leading_zeros >= digit_threshold
}

/// The session's display of a result, by its settings.
trait FormatResult {
    fn format_result(&self, value: f64) -> String;
}

impl FormatResult for EvalContext {
    fn format_result(&self, value: f64) -> String {
        if self.sci_notation_enabled && should_use_scientific(value, self.digit_threshold) {
            convert_to_scientific(value, self.precision)
        } else {
            value.to_string()
        }
    }
}

// Integration tests for commands

#[test]
fn test_automatic_formatting_large_numbers() {
    let mut ctx = EvalContext::new();
    let result = evaluate_input(&mut ctx, "10000000", true).unwrap();
    assert_eq!(result, 10_000_000.0);
    assert_eq!(ctx.format_result(result), "1.00000e+7");
}

#[test]
fn test_automatic_formatting_small_numbers() {
    let mut ctx = EvalContext::new();
    let result = evaluate_input(&mut ctx, "0.0000001", true).unwrap();
    assert_eq!(result, 0.0000001);
    assert_eq!(ctx.format_result(result), "1.00000e-7");
}

#[test]
fn test_automatic_formatting_normal_numbers() {
    let mut ctx = EvalContext::new();
    let result = evaluate_input(&mut ctx, "123.456", true).unwrap();
    assert_eq!(result, 123.456);
    assert_eq!(ctx.format_result(result), "123.456");
}

#[test]
fn test_sci_toggle_command() {
    let mut ctx = EvalContext::new();

    // Should be enabled by default
    assert!(ctx.sci_notation_enabled);

    // Toggle off
    let result = evaluate_input(&mut ctx, "sci toggle", true);
    assert!(result.is_err());
    assert_eq!(result.unwrap_err().to_string(), "Parse error: Scientific notation disabled");
    assert!(!ctx.sci_notation_enabled);

    // Toggle on
    let result = evaluate_input(&mut ctx, "sci toggle", true);
    assert!(result.is_err());
    assert_eq!(result.unwrap_err().to_string(), "Parse error: Scientific notation enabled");
    assert!(ctx.sci_notation_enabled);
}

#[test]
fn test_sci_toggle_affects_formatting() {
    let mut ctx = EvalContext::new();
    let result = evaluate_input(&mut ctx, "10000000", true).unwrap();

    // Enabled: should use scientific notation
    assert_eq!(ctx.format_result(result), "1.00000e+7");

    // Toggle off
    evaluate_input(&mut ctx, "sci toggle", true).ok();
    assert_eq!(ctx.format_result(result), "10000000");
}

#[test]
fn test_precision_command() {
    let mut ctx = EvalContext::new();

    // Default precision is 6
    assert_eq!(ctx.precision, 6);

    // Set to 3
    let result = evaluate_input(&mut ctx, "precision 3", true);
    assert!(result.is_err());
    assert_eq!(result.unwrap_err().to_string(), "Parse error: Precision set to 3 significant figures");
    assert_eq!(ctx.precision, 3);

    // Set to 10
    let result = evaluate_input(&mut ctx, "precision 10", true);
    assert!(result.is_err());
    assert_eq!(ctx.precision, 10);
}

#[test]
fn test_precision_affects_output() {
    let mut ctx = EvalContext::new();
    let result = evaluate_input(&mut ctx, "1234567", true).unwrap();

    // Default precision (6)
    assert_eq!(ctx.format_result(result), "1.23457e+6");

    // Change to 3
    evaluate_input(&mut ctx, "precision 3", true).ok();
    assert_eq!(ctx.format_result(result), "1.23e+6");

    // Change to 10
    evaluate_input(&mut ctx, "precision 10", true).ok();
    assert_eq!(ctx.format_result(result), "1.234567000e+6");
}

#[test]
fn test_precision_validation() {
    let mut ctx = EvalContext::new();

    // Too low
    let result = evaluate_input(&mut ctx, "precision 0", true);
    assert!(result.is_err());
    assert_eq!(result.unwrap_err().to_string(), "Parse error: Precision must be between 1 and 15");

    // Too high
    let result = evaluate_input(&mut ctx, "precision 20", true);
    assert!(result.is_err());
    assert_eq!(result.unwrap_err().to_string(), "Parse error: Precision must be between 1 and 15");

    // Invalid input
    let result = evaluate_input(&mut ctx, "precision abc", true);
    assert!(result.is_err());
    assert_eq!(result.unwrap_err().to_string(), "Parse error: Usage: precision <number>  (e.g., precision 6)");
}

#[test]
fn test_sci_convert_number() {
    let mut ctx = EvalContext::new();

    let result = evaluate_input(&mut ctx, "sci 42", true);
    assert!(result.is_err());
    assert_eq!(result.unwrap_err().to_string(), "Parse error: 4.20000e+1");
}

#[test]
fn test_sci_convert_expression() {
    let mut ctx = EvalContext::new();

    let result = evaluate_input(&mut ctx, "sci 2+3", true);
    assert!(result.is_err());
    assert_eq!(result.unwrap_err().to_string(), "Parse error: 5.00000e+0");
}

#[test]
fn test_sci_convert_line_reference() {
    let mut ctx = EvalContext::new();

    // Create a result
    evaluate_input(&mut ctx, "123.456", true).unwrap();

    // Convert it
    let result = evaluate_input(&mut ctx, "sci lin_1", true);
    assert!(result.is_err());
    assert_eq!(result.unwrap_err().to_string(), "Parse error: 1.23456e+2");
}

#[test]
fn test_sci_convert_with_custom_precision() {
    let mut ctx = EvalContext::new();

    // Set precision to 3
    evaluate_input(&mut ctx, "precision 3", true).ok();

    // Convert number
    let result = evaluate_input(&mut ctx, "sci 1234567", true);
    assert!(result.is_err());
    assert_eq!(result.unwrap_err().to_string(), "Parse error: 1.23e+6");
}

#[test]
fn test_line_reference_with_sci_notation() {
    let mut ctx = EvalContext::new();

    // Large number stored in lin_1
    let result1 = evaluate_input(&mut ctx, "10000000", true).unwrap();
    assert_eq!(result1, 10_000_000.0);

    // Use lin_1 in calculation
    let result2 = evaluate_input(&mut ctx, "lin_1 * 2", true).unwrap();
    assert_eq!(result2, 20_000_000.0);
    assert_eq!(ctx.format_result(result2), "2.00000e+7");
}

#[test]
fn test_calculations_with_sci_numbers() {
    let mut ctx = EvalContext::new();

    // Calculate with large numbers
    let result = evaluate_input(&mut ctx, "1000000 + 2000000", true).unwrap();
    assert_eq!(result, 3_000_000.0);
    assert_eq!(ctx.format_result(result), "3.00000e+6");

    // Calculate with small numbers
    let result = evaluate_input(&mut ctx, "0.0000001 * 2", true).unwrap();
    assert_eq!(result, 0.0000002);
    assert_eq!(ctx.format_result(result), "2.00000e-7");
}

#[test]
fn test_default_settings() {
    let ctx = EvalContext::new();

    assert_eq!(ctx.sci_notation_enabled, true);
    assert_eq!(ctx.precision, 6);
    assert_eq!(ctx.digit_threshold, 6);
}

#[test]
fn test_negative_numbers_formatting() {
    let mut ctx = EvalContext::new();

    let result = evaluate_input(&mut ctx, "-10000000", true).unwrap();
    assert_eq!(ctx.format_result(result), "-1.00000e+7");

    let result = evaluate_input(&mut ctx, "-0.0000001", true).unwrap();
    assert_eq!(ctx.format_result(result), "-1.00000e-7");
}

#[test]
fn test_zero_formatting() {
    let mut ctx = EvalContext::new();

    let result = evaluate_input(&mut ctx, "0", true).unwrap();
    assert_eq!(ctx.format_result(result), "0");

    let result = evaluate_input(&mut ctx, "10 - 10", true).unwrap();
    assert_eq!(ctx.format_result(result), "0");
}

#[test]
fn test_boundary_values() {
    let mut ctx = EvalContext::new();

    // Threshold is 6 (triggers on 6+ digits)
    // 1,000,000 has 7 digits (should use sci notation)
    let result = evaluate_input(&mut ctx, "1000000", true).unwrap();
    assert_eq!(ctx.format_result(result), "1.00000e+6");

    // 100,000 has 6 digits (should use sci notation)
    let result = evaluate_input(&mut ctx, "100000", true).unwrap();
    assert_eq!(ctx.format_result(result), "1.00000e+5");

    // 99,999 has 5 digits (should not use sci notation)
    let result = evaluate_input(&mut ctx, "99999", true).unwrap();
    assert_eq!(ctx.format_result(result), "99999");

    // 0.0000001 has 7 leading zeros (should use sci notation)
    let result = evaluate_input(&mut ctx, "0.0000001", true).unwrap();
    assert_eq!(ctx.format_result(result), "1.00000e-7");

    // 0.000001 has 6 leading zeros (should use sci notation)
    let result = evaluate_input(&mut ctx, "0.000001", true).unwrap();
    assert_eq!(ctx.format_result(result), "1.00000e-6");

    // 0.00001 has 5 leading zeros (should not use sci notation)
    let result = evaluate_input(&mut ctx, "0.00001", true).unwrap();
    assert_eq!(ctx.format_result(result), "0.00001");
}
