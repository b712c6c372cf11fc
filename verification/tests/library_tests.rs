use calcli::cli::{cli_command, keep_result, CliCommand};
use calcli::constant::{EP_0_BITS, EULER_BITS, PI_BITS, SPEED_OF_LIGHT_BITS};
use calcli::definition_handler::definition::{
    assign_batch, assign_definition, parse_batch_assignment, plan_definitions, tidy_definition_input, Definitions,
};
use calcli::definition_handler::function::Function;
use calcli::definition_handler::parse_function::{is_valid_identifier, parse_function_syntax};
use calcli::definition_handler::variable::valid_variable_name;
use calcli::error::{DefError, EvalError};
use calcli::escape_separator;
use calcli::eval::{evaluate_input, find_function_call, parse_bare_assignment, Evaluation, Number, Reply, Request, Step};
use calcli::eval_context::EvalContext;
use calcli::implicit_multiplication::insert_implicit_multiplication;
use calcli::input_handler::{latex_to_unicode_symbol, InputFormat};
use calcli::parser::{format_variables, format_variables_with_exclusion};
use calcli::tui_handler::selection::TuiSelectionMap;
use calcli::tui_handler::tui_handler::{InputMode, Key, KeyAction, Submission, TuiHandler};
use calcli::vi_inputs::History;

/// Runs an evaluation to its end, answering its requests with `meval` and
/// with `f64` parsing.
fn drive(ctx: &mut EvalContext, start: (Evaluation, Step)) -> Result<Number, EvalError> {
    let (mut evaluation, mut step) = start;
    loop {
        let reply = match step {
            Step::Done(result) => return result,
            Step::Continue => Reply::Proceed,
            Step::Pending(Request::Evaluate(expr)) => {
                let mut vars = meval::Context::new();
                for (name, bits) in ctx.defined_vars.iter() {
                    vars.var(name.clone(), f64::from_bits(*bits));
                }
                match expr.parse::<meval::Expr>().and_then(|e| e.eval_with_context(&vars)) {
                    Ok(v) => Reply::Evaluated(Ok(Number { bits: v.to_bits(), text: v.to_string() })),
                    Err(e) => Reply::Evaluated(Err(e.to_string())),
                }
            }
            Step::Pending(Request::ParseNumber(text)) => Reply::Parsed(
                text.parse::<f64>().ok().map(|v| Number { bits: v.to_bits(), text: v.to_string() }),
            ),
            Step::Pending(Request::Scientific(bits, precision)) => {
                Reply::Formatted(format!("{:.*e}", precision.saturating_sub(1), f64::from_bits(bits)))
            }
        };
        step = evaluation.resume(ctx, reply);
    }
}

fn value(ctx: &mut EvalContext, input: &str) -> Result<f64, EvalError> {
    let start = evaluate_input(ctx, input);
    drive(ctx, start).map(|n| f64::from_bits(n.bits))
}

fn message(r: Result<f64, EvalError>) -> String {
    r.unwrap_err().to_string()
}

fn var(ctx: &EvalContext, name: &str) -> Option<f64> {
    ctx.defined_vars.get(name).map(|b| f64::from_bits(*b))
}

// ---------- constants and the separator ----------

#[test]
fn constants_hold_the_double_values() {
    assert_eq!(f64::from_bits(PI_BITS), std::f64::consts::PI);
    assert_eq!(f64::from_bits(EULER_BITS), std::f64::consts::E);
    assert_eq!(f64::from_bits(EP_0_BITS), 8.8541878176e-13);
    assert_eq!(f64::from_bits(SPEED_OF_LIGHT_BITS), 299792458.0);
}

#[test]
fn separator_needs_no_escape() {
    assert_eq!(escape_separator(), "_");
}

#[test]
fn fresh_context_has_constants_and_functions() {
    let ctx = EvalContext::new();
    let names: Vec<&String> = ctx.defined_vars.keys().collect();
    assert_eq!(names, vec!["pi", "e", "e_0", "c"]);
    let funcs: Vec<&String> = ctx.defined_funcs.keys().collect();
    assert_eq!(funcs, vec!["f", "r"]);
    assert_eq!(ctx.defined_funcs.get("r").unwrap().expr, "(xpi)/180");
    assert_eq!(ctx.counter, 0);
}

// ---------- laws on concrete values ----------

#[test]
fn result_is_kept_as_next_line() {
    let mut ctx = EvalContext::new();
    assert_eq!(value(&mut ctx, "6 * 7").unwrap(), 42.0);
    assert_eq!(ctx.counter, 1);
    assert_eq!(var(&ctx, "lin_1"), Some(42.0));
    assert_eq!(ctx.defined_vars.last().unwrap().0, "lin_1");
}

#[test]
fn redefined_variable_moves_last() {
    let mut ctx = EvalContext::new();
    value(&mut ctx, "let a = 1").unwrap();
    value(&mut ctx, "let b = 2").unwrap();
    value(&mut ctx, "let a = 3").unwrap();
    let last = ctx.defined_vars.last().unwrap();
    assert_eq!(last.0, "a");
    assert_eq!(f64::from_bits(*last.1), 3.0);
    assert_eq!(ctx.defined_vars.keys().filter(|k| k.as_str() == "a").count(), 1);
}

#[test]
fn redefined_function_moves_last() {
    let mut ctx = EvalContext::new();
    value(&mut ctx, "let g(x) = x + 1").unwrap();
    value(&mut ctx, "let f(x) = 3x").unwrap();
    let last = ctx.defined_funcs.last().unwrap();
    assert_eq!(last.0, "f");
    assert_eq!(last.1.expr, "3x");
    assert_eq!(ctx.defined_funcs.len(), 3);
}

#[test]
fn removed_name_is_gone_everywhere() {
    let mut ctx = EvalContext::new();
    value(&mut ctx, "let q = 4").unwrap();
    assert_eq!(value(&mut ctx, "rm q").unwrap(), 0.0);
    assert!(!ctx.defined_vars.contains_key("q"));
    assert_eq!(message(value(&mut ctx, "rm q")), "Parse error: 'q' not found. Cannot remove undefined variable or function.");
    assert!(matches!(value(&mut ctx, "remove  "), Err(EvalError::ParseError(_))));
}

#[test]
fn remove_without_name_gives_usage() {
    let mut ctx = EvalContext::new();
    assert_eq!(message(value(&mut ctx, "rm  x")), "Parse error: 'x' not found. Cannot remove undefined variable or function.");
}

#[test]
fn toggle_twice_restores_setting() {
    let mut ctx = EvalContext::new();
    assert_eq!(message(value(&mut ctx, "  sci toggle ")), "Parse error: Scientific notation disabled");
    assert!(!ctx.sci_notation_enabled);
    assert_eq!(message(value(&mut ctx, "sci toggle")), "Parse error: Scientific notation enabled");
    assert!(ctx.sci_notation_enabled);
}

#[test]
fn precision_stays_between_one_and_fifteen() {
    let mut ctx = EvalContext::new();
    assert_eq!(message(value(&mut ctx, "precision 15")), "Parse error: Precision set to 15 significant figures");
    assert_eq!(ctx.precision, 15);
    assert_eq!(message(value(&mut ctx, "precision 16")), "Parse error: Precision must be between 1 and 15");
    assert_eq!(ctx.precision, 15);
    assert_eq!(message(value(&mut ctx, "precision 1")), "Parse error: Precision set to 1 significant figures");
    assert_eq!(ctx.precision, 1);
}

#[test]
fn every_step_takes_the_reply_it_asks_for() {
    let mut ctx = EvalContext::new();
    value(&mut ctx, "let h(x) = x + 1").unwrap();
    let (mut evaluation, mut step) = evaluate_input(&mut ctx, "h(h(1))");
    let mut steps = 0;
    loop {
        let reply = match step {
            Step::Done(result) => {
                assert_eq!(f64::from_bits(result.unwrap().bits), 3.0);
                break;
            }
            Step::Continue => Reply::Proceed,
            Step::Pending(Request::Evaluate(expr)) => {
                let v: f64 = meval::eval_str(&expr).unwrap();
                Reply::Evaluated(Ok(Number { bits: v.to_bits(), text: v.to_string() }))
            }
            Step::Pending(_) => panic!("no other request expected"),
        };
        steps += 1;
        step = evaluation.resume(&mut ctx, reply);
    }
    assert!(steps > 3);
}

#[test]
fn outside_error_becomes_parse_error() {
    let mut ctx = EvalContext::new();
    let (mut evaluation, step) = evaluate_input(&mut ctx, "1 +");
    assert!(matches!(step, Step::Pending(Request::Evaluate(_))));
    match evaluation.resume(&mut ctx, Reply::Evaluated(Err("boom".to_string()))) {
        Step::Done(Err(e)) => assert_eq!(e.to_string(), "Parse error: boom"),
        _ => panic!("expected the error"),
    }
    assert_eq!(ctx.counter, 0);
}

// ---------- errors ----------

#[test]
fn each_error_kind_has_its_message() {
    let mut ctx = EvalContext::new();
    assert!(matches!(value(&mut ctx, "   "), Err(EvalError::EmptyInput)));
    assert!(matches!(
        value(&mut ctx, "let x 5"),
        Err(EvalError::DefError(DefError::InvalidDefinitionSyntax(_)))
    ));
    assert!(matches!(
        value(&mut ctx, "let [x, y] = [1]"),
        Err(EvalError::DefError(DefError::MismatchedBatch(_)))
    ));
    assert_eq!(
        message(value(&mut ctx, "let [x, y] = [1]")),
        "Mismatch: 2 variable(s) but 1 value(s). Example: let [x, y, z] = [1, 2, 3]"
    );
    assert!(matches!(value(&mut ctx, "x = 5"), Err(EvalError::ParseError(_))));
    assert_eq!(message(value(&mut ctx, "x = 5")), "Parse error: Did you mean: `let x = 5`?");
    assert_eq!(message(value(&mut ctx, "let [x, y = [1, 2]")), "Invalid let syntax: Missing 1 closing bracket(s) ']'. Use: let [x, y] = [1, 2]");
    assert_eq!(message(value(&mut ctx, "let x")), "Invalid let syntax: Missing '=' sign. Use: let x = 5");
}

#[test]
fn variable_names_are_checked() {
    assert!(valid_variable_name(&"x".to_string()).is_ok());
    assert!(valid_variable_name(&"x_12".to_string()).is_ok());
    assert!(matches!(valid_variable_name(&"1x".to_string()), Err(DefError::InvalidDefinitionName(_))));
    assert!(valid_variable_name(&"xy".to_string()).is_err());
    assert!(valid_variable_name(&"x_".to_string()).is_err());
}

#[test]
fn function_syntax_is_read() {
    let (name, param) = parse_function_syntax("f(x)").unwrap();
    assert_eq!((name.as_str(), param.as_str()), ("f", "x"));
    assert!(parse_function_syntax("f()").unwrap_err().to_string().contains("Parameter must be a single letter"));
    assert!(parse_function_syntax("fg(x)").unwrap_err().to_string().contains("Function name must be a single letter"));
    assert!(parse_function_syntax("f(x").unwrap_err().to_string().contains("Invalid function syntax"));
    assert!(is_valid_identifier("g"));
    assert!(is_valid_identifier("g_2"));
    assert!(!is_valid_identifier("2g"));
}

// ---------- parsing pieces ----------

#[test]
fn let_statements_are_planned() {
    match plan_definitions("let [a, f(x)] = [1, x^2]").unwrap() {
        Definitions::Batch(pairs) => {
            assert_eq!(pairs, vec![("a".to_string(), "1".to_string()), ("f(x)".to_string(), "x^2".to_string())]);
        }
        Definitions::Single(_, _) => panic!("expected a batch"),
    }
    match plan_definitions("let  y =  2 + 3 ").unwrap() {
        Definitions::Single(n, v) => assert_eq!((n.as_str(), v.as_str()), ("y", "2 + 3")),
        Definitions::Batch(_) => panic!("expected one definition"),
    }
    assert_eq!(parse_batch_assignment("let [a, b] = [1, 2]"), Some(("a, b".to_string(), "1, 2".to_string())));
    assert_eq!(parse_batch_assignment("let a = 1"), None);
    let (n, v) = tidy_definition_input("let z= 9").unwrap();
    assert_eq!((n.as_str(), v.as_str()), ("z", "9"));
    assert!(tidy_definition_input("z = 9").is_err());
}

#[test]
fn bare_assignments_are_recognised() {
    assert_eq!(parse_bare_assignment("x=5"), Some(("x".to_string(), "5".to_string())));
    assert_eq!(parse_bare_assignment("x == 5"), Some(("x".to_string(), "= 5".to_string())));
    assert_eq!(parse_bare_assignment("2x = 5"), None);
    assert_eq!(parse_bare_assignment("2 + 3"), None);
}

#[test]
fn function_calls_are_found() {
    assert_eq!(
        find_function_call("2 + g(3)").unwrap(),
        Some((4, 8, "g".to_string(), "3".to_string()))
    );
    assert_eq!(find_function_call("2 + 3").unwrap(), None);
}

#[test]
fn implicit_multiplication_is_written_out() {
    assert_eq!(insert_implicit_multiplication("2x"), "2*x");
    assert_eq!(insert_implicit_multiplication(".5"), "0.5");
    assert_eq!(insert_implicit_multiplication("2 (3)"), "2*(3)");
    assert_eq!(insert_implicit_multiplication("(2)(3)"), "(2)*(3)");
    assert_eq!(insert_implicit_multiplication("[x]2"), "[x]*2");
    assert_eq!(insert_implicit_multiplication("1+.5"), "1+0.5");
    assert_eq!(insert_implicit_multiplication("3π"), "3*π");
}

#[test]
fn names_are_bracketed() {
    let mut ctx = EvalContext::new();
    value(&mut ctx, "let x = 2").unwrap();
    assert_eq!(format_variables("lin_1+x".to_string(), &ctx), "[lin_1]+[x]");
    assert_eq!(format_variables("2x".to_string(), &ctx), "2[x]");
    assert_eq!(format_variables("sin(x)".to_string(), &ctx), "[sin([x])]");
    assert_eq!(format_variables_with_exclusion("x_1+x".to_string(), &ctx, Some("x_1")), "[x_1]+[x]");
}

// ---------- entry points of definitions and calls ----------

#[test]
fn assign_batch_defines_in_order() {
    let mut ctx = EvalContext::new();
    let start = assign_batch(&mut ctx, "let [u, v] = [2, u*5]");
    assert_eq!(f64::from_bits(drive(&mut ctx, start).unwrap().bits), 0.0);
    assert_eq!(var(&ctx, "u"), Some(2.0));
    assert_eq!(var(&ctx, "v"), Some(10.0));
    assert_eq!(
        ctx.recently_assigned,
        vec![("u".to_string(), "2".to_string()), ("v".to_string(), "u*5".to_string())]
    );
}

#[test]
fn assign_definition_defines_one() {
    let mut ctx = EvalContext::new();
    let start = assign_definition(&mut ctx, "w", "4 + 4");
    assert_eq!(f64::from_bits(drive(&mut ctx, start).unwrap().bits), 8.0);
    assert_eq!(var(&ctx, "w"), Some(8.0));
    assert!(ctx.recently_assigned.is_empty());
    let start = assign_definition(&mut ctx, "k(t)", "t^3");
    assert_eq!(f64::from_bits(drive(&mut ctx, start).unwrap().bits), 0.0);
    assert_eq!(ctx.defined_funcs.get("k").unwrap().expr, "t^3");
}

#[test]
fn evaluate_func_substitutes_the_argument() {
    let mut ctx = EvalContext::new();
    let cube = Function::new("k".to_string(), "t".to_string(), "t^3".to_string());
    let start = cube.evaluate_func(&mut ctx, "1 + 1");
    assert_eq!(f64::from_bits(drive(&mut ctx, start).unwrap().bits), 8.0);
    let square = Function::define_new("s", "y", "y*y");
    assert_eq!(square.func_name, "s");
    let start = square.evaluate_func(&mut ctx, "3");
    assert_eq!(f64::from_bits(drive(&mut ctx, start).unwrap().bits), 9.0);
}

#[test]
fn sci_command_formats_outside() {
    let mut ctx = EvalContext::new();
    assert_eq!(message(value(&mut ctx, "sci 1500")), "Parse error: 1.50000e3");
    assert_eq!(message(value(&mut ctx, "sci 3*500")), "Parse error: 1.50000e3");
    assert_eq!(message(value(&mut ctx, "sci zz")), "Parse error: Usage: sci <number>, sci <expression>, or sci toggle");
}

// ---------- the line editor ----------

#[test]
fn typing_and_deleting() {
    let mut f = InputFormat::new();
    for c in "1+2".chars() {
        f.enter_char(c);
    }
    assert_eq!(f.input(), "1+2");
    assert_eq!(f.cursor_index(), 3);
    f.move_cursor_left();
    f.enter_char('0');
    assert_eq!(f.input(), "1+02");
    f.delete_char();
    assert_eq!(f.input(), "1+2");
    assert_eq!(f.cursor_index(), 2);
    f.delete_char_indexed();
    assert_eq!(f.input(), "1+");
    assert_eq!(f.byte_index(), 2);
    f.clear();
    assert_eq!(f.input(), "");
    assert_eq!(f.cursor_index(), 0);
}

#[test]
fn backspace_undoes_a_typed_character() {
    let mut f = InputFormat::new();
    f.set_input("ab".to_string());
    f.move_cursor_left();
    f.enter_char('x');
    assert_eq!(f.input(), "axb");
    f.delete_char();
    assert_eq!(f.input(), "ab");
    assert_eq!(f.cursor_index(), 1);
}

#[test]
fn latex_names_become_symbols() {
    let mut f = InputFormat::new();
    for c in "2\\pi ".chars() {
        f.enter_char(c);
    }
    assert_eq!(f.input(), "2π");
    assert_eq!(f.cursor_index(), 2);
    assert_eq!(f.byte_index(), 3);
    let mut g = InputFormat::new();
    for c in "\\foo ".chars() {
        g.enter_char(c);
    }
    assert_eq!(g.input(), "\\foo");
    assert_eq!(latex_to_unicode_symbol("Omega"), Some("Ω"));
    assert_eq!(latex_to_unicode_symbol("omega"), Some("ω"));
    assert_eq!(latex_to_unicode_symbol("pie"), None);
}

#[test]
fn word_moves() {
    let mut f = InputFormat::new();
    f.set_input("ab + cd".to_string());
    f.move_to_beginning_of_word();
    assert_eq!(f.cursor_index(), 5);
    f.move_to_beginning_of_word();
    assert_eq!(f.cursor_index(), 0);
    f.move_to_end_of_word();
    assert_eq!(f.cursor_index(), 1);
    f.move_to_end_of_word();
    assert_eq!(f.cursor_index(), 6);
    f.move_cursor_right();
    f.move_cursor_right();
    assert_eq!(f.cursor_index(), 7);
}

// ---------- typed-line history ----------

#[test]
fn history_walks_back_and_forth() {
    let mut h = History::new();
    assert_eq!(h.get_previous(), None);
    h.add(&"1".to_string());
    h.add(&"2".to_string());
    h.add(&"3".to_string());
    assert_eq!(h.get_last().map(|s| s.as_str()), Some("3"));
    assert_eq!(h.get_previous().map(|s| s.as_str()), Some("3"));
    assert_eq!(h.get_previous().map(|s| s.as_str()), Some("2"));
    assert_eq!(h.get_previous().map(|s| s.as_str()), Some("1"));
    assert_eq!(h.get_previous().map(|s| s.as_str()), Some("1"));
    assert_eq!(h.get_next().map(|s| s.as_str()), Some("2"));
    assert_eq!(h.current().map(|s| s.as_str()), Some("2"));
    assert_eq!(h.get_next().map(|s| s.as_str()), Some("3"));
    assert_eq!(h.get_next(), None);
    assert_eq!(h.current(), None);
    h.get_previous();
    h.reset_navigation();
    assert_eq!(h.current(), None);
}

// ---------- window selection ----------

#[test]
fn selection_moves_over_the_layout() {
    let mut m = TuiSelectionMap::new();
    assert_eq!(m.get_pos(), (0, 0));
    assert!(m.selected("INPUT_WIN"));
    m.move_up();
    assert_eq!(m.get_pos(), (0, 1));
    assert_eq!(m.update_selection(), "RESULT_WIN");
    m.move_right();
    assert_eq!(m.get_pos(), (1, 1));
    assert_eq!(m.update_selection(), "VARIABLE_WIN");
    m.move_up();
    assert_eq!(m.get_pos(), (1, 2));
    assert!(m.selected("FUNCTION_WIN"));
    m.move_up();
    assert_eq!(m.get_pos(), (1, 2));
    m.move_left();
    assert_eq!(m.get_pos(), (0, 2));
    assert!(m.selected("RESULT_WIN"));
    m.move_down();
    assert_eq!(m.get_pos(), (0, 0));
    m.move_down();
    assert_eq!(m.get_pos(), (0, 0));
    m.move_right();
    assert_eq!(m.get_pos(), (0, 1));
    m.reset_selection();
    assert_eq!(m.get_pos(), (0, 0));
}

// ---------- the interface ----------

fn enter(t: &mut TuiHandler) {
    match t.submit_message() {
        Submission::Evaluate(line) => {
            let start = evaluate_input(&mut t.eval_ctx, &line);
            let outcome = drive(&mut t.eval_ctx, start);
            let result_text = match &outcome {
                Ok(n) => f64::from_bits(n.bits).to_string(),
                Err(_) => String::new(),
            };
            let last = t.last_variable_bits().map(|b| f64::from_bits(b).to_string()).unwrap_or_default();
            t.record_evaluation(outcome, &result_text, &last);
        }
        _ => {}
    }
}

fn type_line(t: &mut TuiHandler, s: &str) {
    for c in s.chars() {
        assert!(matches!(t.handle_key(Key::Char(c, false)), KeyAction::Continue));
    }
}

#[test]
fn interface_evaluates_a_typed_line() {
    let mut t = TuiHandler::new();
    assert!(matches!(t.input_mode, InputMode::Normal));
    t.handle_key(Key::Char('i', false));
    assert!(matches!(t.input_mode, InputMode::Insert));
    type_line(&mut t, "2+2");
    assert_eq!(t.input, "2+2");
    assert!(matches!(t.handle_key(Key::Enter), KeyAction::Submit));
    enter(&mut t);
    assert_eq!(t.results, vec!["1) 2+2 = 4".to_string()]);
    assert_eq!(t.results_selected, Some(0));
    assert_eq!(t.input, "");
    assert_eq!(t.character_index, 0);
}

#[test]
fn interface_shows_definitions() {
    let mut t = TuiHandler::new();
    t.handle_key(Key::Char('i', false));
    type_line(&mut t, "let [a, b] = [3, 4]");
    t.handle_key(Key::Enter);
    enter(&mut t);
    assert_eq!(t.results, vec!["1) a = 3".to_string(), "2) b = 4".to_string()]);
    type_line(&mut t, "let h(y) = y+1");
    t.handle_key(Key::Enter);
    enter(&mut t);
    assert_eq!(t.results[2], "2) h(y) = y+1");
    type_line(&mut t, "let d = 5");
    t.handle_key(Key::Enter);
    enter(&mut t);
    assert_eq!(t.results[3], "3) d = 5");
    type_line(&mut t, "1/");
    t.handle_key(Key::Enter);
    enter(&mut t);
    assert!(t.results[4].starts_with("Error: Parse error: "));
    assert_eq!(t.variables_selected, Some(6));
}

#[test]
fn interface_commands() {
    let mut t = TuiHandler::new();
    t.handle_key(Key::Char(':', false));
    assert_eq!(t.input, ":");
    assert!(matches!(t.input_mode, InputMode::Insert));
    type_line(&mut t, "w  ");
    assert!(matches!(t.submit_message(), Submission::Done));
    assert_eq!(t.results[0], "Usage: :w <filename>  —  specify a file to export history to");
    type_line(&mut t, ":export out.json ");
    match t.submit_message() {
        Submission::Export(path) => assert_eq!(path, "out.json"),
        _ => panic!("expected an export"),
    }
    t.export_finished("out.json", Ok(()));
    assert_eq!(t.results[1], "Exported history to out.json");
    type_line(&mut t, ":r in.json");
    match t.submit_message() {
        Submission::Import(path) => assert_eq!(path, "in.json"),
        _ => panic!("expected an import"),
    }
    t.imported_entry(" 3*3 ", Ok(Number { bits: 9f64.to_bits(), text: "9".to_string() }));
    t.imported_entry("oops", Err(EvalError::EmptyInput));
    t.import_finished("in.json");
    assert_eq!(t.results[2], "0) 3*3 = 9");
    assert_eq!(t.results[3], "Import error on 'oops': Empty input");
    assert_eq!(t.results[4], "Imported history from in.json");
    assert_eq!(t.eval_ctx.history_entries, vec![(" 3*3 ".to_string(), 9f64.to_bits())]);
    t.import_failed("no such file");
    assert_eq!(t.results[5], "Import error: no such file");
    type_line(&mut t, "clear");
    assert!(matches!(t.submit_message(), Submission::Done));
    assert!(t.results.is_empty());
}

#[test]
fn preloaded_entries_advance_the_counter() {
    let mut t = TuiHandler::new();
    t.preloaded_entry("1+1", Ok(Number { bits: 2f64.to_bits(), text: "2".to_string() }));
    assert_eq!(t.eval_ctx.counter, 1);
    t.preloaded_entry("bad", Err(EvalError::EmptyInput));
    assert_eq!(t.eval_ctx.counter, 1);
    t.preload_finished("h.json");
    assert_eq!(t.results, vec![
        "0) 1+1 = 2".to_string(),
        "Import error on 'bad': Empty input".to_string(),
        "Imported history from h.json".to_string(),
    ]);
    assert_eq!(t.results_selected, Some(2));
}

#[test]
fn normal_mode_keys() {
    let mut t = TuiHandler::new();
    t.handle_key(Key::Char('i', false));
    type_line(&mut t, "12+3");
    t.handle_key(Key::Enter);
    enter(&mut t);
    assert!(matches!(t.handle_key(Key::Esc), KeyAction::Continue));
    assert!(matches!(t.input_mode, InputMode::Normal));
    // history: k recalls the line, with the cursor at its byte length
    t.handle_key(Key::Char('k', false));
    assert_eq!(t.input, "12+3");
    assert_eq!(t.character_index, 4);
    t.handle_key(Key::Char('b', false));
    assert_eq!(t.character_index, 3);
    t.handle_key(Key::Char('x', false));
    assert_eq!(t.input, "12+");
    t.handle_key(Key::Char('d', false));
    assert_eq!(t.last_key, Some('d'));
    t.handle_key(Key::Char('d', false));
    assert_eq!(t.input, "");
    assert_eq!(t.last_key, None);
    // to the results window and back
    t.handle_key(Key::Char('k', true));
    assert_eq!(t.tui_selection_map.get_pos(), (0, 1));
    t.handle_key(Key::Char('G', false));
    t.handle_key(Key::Char('G', false));
    assert_eq!(t.results_selected, Some(1));
    t.handle_key(Key::Char('g', false));
    t.handle_key(Key::Char('g', false));
    assert_eq!(t.results_selected, Some(0));
    t.handle_key(Key::Char('y', false));
    assert_eq!(t.input, "12+3");
    assert_eq!(t.tui_selection_map.get_pos(), (0, 0));
    assert!(matches!(t.handle_key(Key::Char('q', false)), KeyAction::Quit));
}

#[test]
fn scrolling_lists() {
    let mut t = TuiHandler::new();
    t.handle_key(Key::Char('k', true));
    t.handle_key(Key::Char('l', true));
    assert_eq!(t.tui_selection_map.get_pos(), (1, 1));
    t.handle_key(Key::Down);
    assert_eq!(t.variables_selected, Some(0));
    for _ in 0..10 {
        t.handle_key(Key::Down);
    }
    assert_eq!(t.variables_selected, Some(3));
    t.handle_key(Key::Up);
    assert_eq!(t.variables_selected, Some(2));
    t.handle_key(Key::Char('k', true));
    assert_eq!(t.tui_selection_map.get_pos(), (1, 2));
    for _ in 0..5 {
        t.handle_key(Key::Char('j', false));
    }
    assert_eq!(t.functions_selected, Some(2));
}

#[test]
fn insert_mode_editing() {
    let mut t = TuiHandler::new();
    t.handle_key(Key::Char('a', false));
    type_line(&mut t, "abc");
    t.handle_key(Key::Left);
    t.handle_key(Key::Backspace);
    assert_eq!(t.input, "ac");
    assert_eq!(t.character_index, 1);
    t.handle_key(Key::Right);
    assert_eq!(t.character_index, 2);
    t.handle_key(Key::Char('h', true));
    assert!(matches!(t.input_mode, InputMode::Normal));
    t.handle_key(Key::Char('a', false));
    t.handle_key(Key::Other);
    assert_eq!(t.input, "ac");
}

// ---------- the prompt ----------

#[test]
fn prompt_lines_are_read() {
    assert!(matches!(cli_command("  quit \n"), CliCommand::Quit));
    assert!(matches!(cli_command("q"), CliCommand::Quit));
    match cli_command(":w  out.json\n") {
        CliCommand::Export(p) => assert_eq!(p, "out.json"),
        _ => panic!("expected an export"),
    }
    match cli_command(":import in.json") {
        CliCommand::Import(p) => assert_eq!(p, "in.json"),
        _ => panic!("expected an import"),
    }
    match cli_command(" :w ") {
        CliCommand::Evaluate(t) => assert_eq!(t, ":w"),
        _ => panic!("expected an evaluation"),
    }
    match cli_command(" 1 + 2 \n") {
        CliCommand::Evaluate(t) => assert_eq!(t, "1 + 2"),
        _ => panic!("expected an evaluation"),
    }
}

#[test]
fn kept_results_advance_the_counter() {
    let mut ctx = EvalContext::new();
    assert_eq!(keep_result(&mut ctx, "1+1", 2f64.to_bits()), 0);
    assert_eq!(keep_result(&mut ctx, "2+2", 4f64.to_bits()), 1);
    assert_eq!(ctx.counter, 2);
    assert_eq!(ctx.history_entries[1], ("2+2".to_string(), 4f64.to_bits()));
}

#[test]
fn scroll_keys_of_normal_mode() {
    let mut t = TuiHandler::new();
    t.handle_key(Key::Char('i', false));
    type_line(&mut t, "1");
    t.handle_key(Key::Enter);
    enter(&mut t);
    type_line(&mut t, "2");
    t.handle_key(Key::Enter);
    enter(&mut t);
    t.handle_key(Key::Esc);
    assert_eq!(t.results_selected, Some(1));
    t.handle_key(Key::Char('K', false));
    assert_eq!(t.results_selected, Some(0));
    t.handle_key(Key::Char('K', false));
    assert_eq!(t.results_selected, Some(0));
    t.handle_key(Key::Char('J', false));
    t.handle_key(Key::Char('J', false));
    assert_eq!(t.results_selected, Some(1));
    assert_eq!(t.variables_selected, Some(3));
    t.handle_key(Key::Char('P', false));
    assert_eq!(t.variables_selected, Some(2));
    t.handle_key(Key::Char('N', false));
    t.handle_key(Key::Char('N', false));
    assert_eq!(t.variables_selected, Some(3));
}

// ---------- the examples of the documentation ----------

#[test]
fn documented_examples() {
    let mut ctx = EvalContext::new();
    assert_eq!(value(&mut ctx, "2 + 2").unwrap(), 4.0);
    assert_eq!(value(&mut ctx, "5 * 3").unwrap(), 15.0);
    assert!(value(&mut ctx, "sin(3.14159)").unwrap().abs() < 1e-5);
    assert!((value(&mut ctx, "ln(2.718)").unwrap() - 1.0).abs() < 1e-3);
    value(&mut ctx, "let x = 5").unwrap();
    value(&mut ctx, "let y = x * 2").unwrap();
    assert_eq!(value(&mut ctx, "x + y").unwrap(), 15.0);
    value(&mut ctx, "let f(x) = x^2").unwrap();
    assert_eq!(value(&mut ctx, "f(5)").unwrap(), 25.0);
    value(&mut ctx, "let [a, h(x)] = [5, x+1]").unwrap();
    assert_eq!(value(&mut ctx, "h(a)").unwrap(), 6.0);
    assert_eq!(value(&mut ctx, "3(5+2)").unwrap(), 21.0);
    assert_eq!(value(&mut ctx, "2x").unwrap(), 10.0);
    assert_eq!(value(&mut ctx, "[x]2").unwrap(), 10.0);
    assert_eq!(value(&mut ctx, "17 % 5").unwrap(), 2.0);
    assert_eq!(value(&mut ctx, "2^8").unwrap(), 256.0);
    assert_eq!(value(&mut ctx, "(2+3)*4").unwrap(), 20.0);
    assert_eq!(value(&mut ctx, ".5").unwrap(), 0.5);
    assert_eq!(value(&mut ctx, "2.").unwrap(), 2.0);
    let mut fresh = EvalContext::new();
    value(&mut fresh, "5 + 3").unwrap();
    assert_eq!(value(&mut fresh, "lin_1 * 2").unwrap(), 16.0);
    assert!((value(&mut fresh, "r(180)").unwrap() - std::f64::consts::PI).abs() < 1e-12);
}

#[test]
fn identifiers_take_digits_after_the_separator() {
    assert!(is_valid_identifier("f"));
    assert!(is_valid_identifier("f_2"));
    assert!(is_valid_identifier("x_10"));
    assert!(!is_valid_identifier(""));
    assert!(!is_valid_identifier("F"));
    assert!(!is_valid_identifier("fx"));
    assert!(!is_valid_identifier("f_"));
    assert!(!is_valid_identifier("f_a"));
    assert!(!is_valid_identifier("f_1a"));
    assert!(parse_function_syntax("f_a(x)").unwrap_err().to_string().contains("Function name must be a single letter"));
    assert!(parse_function_syntax("f(x_b)").unwrap_err().to_string().contains("Parameter must be a single letter"));
}

#[test]
fn whitespace_is_the_unicode_white_space_property() {
    for u in 0u32..=0x10FFFF {
        if let Some(c) = char::from_u32(u) {
            assert_eq!(calcli::text::is_whitespace(c), c.is_whitespace(), "code point {:#x}", u);
        }
    }
}

#[test]
fn bracketed_text_comes_back_unchanged() {
    let mut ctx = EvalContext::new();
    value(&mut ctx, "let x = 2").unwrap();
    assert_eq!(format_variables("[x]+2*[y]".to_string(), &ctx), "[x]+2*[y]");
    assert_eq!(format_variables("(1+2)*3".to_string(), &ctx), "(1+2)*3");
    assert_eq!(format_variables_with_exclusion("[[x] 7".to_string(), &ctx, Some("x")), "[[x] 7");
}

#[test]
fn plain_expression_result_is_the_next_line() {
    let mut ctx = EvalContext::new();
    value(&mut ctx, "1").unwrap();
    let (mut evaluation, step) = evaluate_input(&mut ctx, "  2 * 3 ");
    assert!(matches!(step, Step::Pending(Request::Evaluate(_))));
    match evaluation.resume(&mut ctx, Reply::Evaluated(Ok(Number { bits: 6f64.to_bits(), text: "6".to_string() }))) {
        Step::Done(Ok(n)) => assert_eq!(n.text, "6"),
        _ => panic!("expected the value"),
    }
    assert_eq!(ctx.counter, 2);
    assert_eq!(var(&ctx, "lin_2"), Some(6.0));
}

#[test]
fn ascii_letters_and_digits_are_the_ascii_classes() {
    for u in 0u8..0x80 {
        let c = u as char;
        assert_eq!(c.is_alphabetic(), c.is_ascii_alphabetic(), "{:?}", c);
        assert_eq!(c.is_alphanumeric(), c.is_ascii_alphanumeric(), "{:?}", c);
    }
    let ctx = EvalContext::new();
    assert_eq!(format_variables("[pi]*[e]+1".to_string(), &ctx), "[pi]*[e]+1");
}
