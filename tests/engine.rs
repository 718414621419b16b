use runelib::context::{
    conclude_build, report_has_error, DiagnosticReport, RuneheartContext, RuneheartError,
    RuneheartExecutionError, Severity,
};

fn fresh_context() -> RuneheartContext {
    RuneheartContext::new(rune::Module::new()).expect("context")
}

fn tick_u64(context: &mut RuneheartContext) -> u64 {
    let value = context.callback_tick(Vec::new()).expect("tick runs");
    rune::from_value::<u64>(value).expect("an integer")
}

#[test]
fn test_module() {
    let mut context = fresh_context();
    context
        .set_active_script("pub fn tick() { Ok(123) }")
        .unwrap();

    let result = context.callback_tick(Vec::new()).unwrap();
    let resultant = rune::from_value::<Result<u64, rune::Value>>(result).unwrap();
    assert!(matches!(resultant, Ok(123)));
}

#[test]
fn empty_script_is_refused_and_nothing_is_installed() {
    let mut context = fresh_context();
    let r = context.set_active_script("");
    assert!(matches!(r, Err(RuneheartError::EmptyScript)));
    assert!(matches!(
        context.callback_tick(Vec::new()),
        Err(RuneheartExecutionError::NoActiveScript)
    ));
}

#[test]
fn empty_script_keeps_the_active_one() {
    let mut context = fresh_context();
    context.set_active_script("pub fn tick() { 5 }").unwrap();
    assert!(matches!(
        context.set_active_script(""),
        Err(RuneheartError::EmptyScript)
    ));
    assert_eq!(tick_u64(&mut context), 5);
}

#[test]
fn tick_without_script_is_reported() {
    let mut context = fresh_context();
    assert!(matches!(
        context.callback_tick(Vec::new()),
        Err(RuneheartExecutionError::NoActiveScript)
    ));
}

#[test]
fn syntax_error_gives_a_report_and_keeps_the_previous_script() {
    let mut context = fresh_context();
    context.set_active_script("pub fn tick() { 1 }").unwrap();
    match context.set_active_script("pub fn tick( { 2 }") {
        Err(RuneheartError::RuneDiagnosticError(report)) => {
            assert!(!report.severities.is_empty());
            assert!(report.severities.contains(&Severity::Error));
            assert!(!report.text.is_empty());
        }
        other => panic!("expected a diagnostic error, got {:?}", other),
    }
    assert_eq!(tick_u64(&mut context), 1);
}

#[test]
fn second_script_with_bad_syntax_leaves_the_first_running() {
    let mut context = fresh_context();
    context.set_active_script("pub fn tick() { 40 + 2 }").unwrap();
    assert!(context.set_active_script("pub fn tick() { let }").is_err());
    assert_eq!(tick_u64(&mut context), 42);
    assert_eq!(tick_u64(&mut context), 42);
}

#[test]
fn unknown_function_is_a_compile_error() {
    let mut context = fresh_context();
    let r = context.set_active_script("pub fn tick() { no_such_function() }");
    assert!(r.is_err());
    assert!(matches!(
        context.callback_tick(Vec::new()),
        Err(RuneheartExecutionError::NoActiveScript)
    ));
}

#[test]
fn warnings_only_script_replaces_the_active_one() {
    let mut context = fresh_context();
    context.set_active_script("pub fn tick() { 1 }").unwrap();
    context
        .set_active_script("pub fn tick() { let unused = 3; `no expansion`; 7 }")
        .unwrap();
    assert_eq!(tick_u64(&mut context), 7);
}

#[test]
fn successful_replacement_swaps_the_script() {
    let mut context = fresh_context();
    context.set_active_script("pub fn tick() { 1 }").unwrap();
    context.set_active_script("pub fn tick() { 2 }").unwrap();
    assert_eq!(tick_u64(&mut context), 2);
}

#[test]
fn fault_in_tick_keeps_the_script() {
    let mut context = fresh_context();
    context
        .set_active_script("pub fn tick() { panic(\"stop\") }")
        .unwrap();
    assert!(matches!(
        context.callback_tick(Vec::new()),
        Err(RuneheartExecutionError::RuneVmError(_))
    ));
    assert!(matches!(
        context.callback_tick(Vec::new()),
        Err(RuneheartExecutionError::RuneVmError(_))
    ));
}

#[test]
fn tick_passes_its_arguments() {
    let mut context = fresh_context();
    context
        .set_active_script("pub fn tick(a, b) { a * 10 + b }")
        .unwrap();
    let args = vec![
        rune::to_value(4u64).unwrap(),
        rune::to_value(2u64).unwrap(),
    ];
    let value = context.callback_tick(args).unwrap();
    assert_eq!(rune::from_value::<u64>(value).unwrap(), 42);
}

#[test]
fn report_with_an_error_entry_has_error() {
    assert!(!report_has_error(&vec![]));
    assert!(!report_has_error(&vec![Severity::Warning, Severity::Warning]));
    assert!(report_has_error(&vec![Severity::Warning, Severity::Error]));
}

#[test]
fn conclude_build_fails_on_error_entries() {
    let report = DiagnosticReport {
        severities: vec![Severity::Warning, Severity::Error],
        text: "broken".to_string(),
    };
    match conclude_build(Err(rune::BuildError::default()), report) {
        Err(RuneheartError::RuneDiagnosticError(r)) => assert_eq!(r.text, "broken"),
        other => panic!("unexpected {:?}", other.is_ok()),
    }
}

#[test]
fn conclude_build_passes_build_errors_on_without_error_entries() {
    let report = DiagnosticReport {
        severities: vec![Severity::Warning],
        text: String::new(),
    };
    assert!(matches!(
        conclude_build(Err(rune::BuildError::default()), report),
        Err(RuneheartError::RuneBuildError(_))
    ));
}

#[test]
fn conclude_build_keeps_the_unit_with_warnings_only() {
    let report = DiagnosticReport {
        severities: vec![Severity::Warning],
        text: String::new(),
    };
    assert!(conclude_build(Ok(rune::Unit::default()), report).is_ok());
}

#[test]
fn compiling_an_empty_script_is_refused_before_the_compiler() {
    let context = fresh_context();
    assert!(matches!(context.compile_unit(""), Err(RuneheartError::EmptyScript)));
    assert!(context.compile_unit("pub fn tick() { 1 }").is_ok());
    assert!(matches!(
        context.compile_unit("pub fn tick( {"),
        Err(RuneheartError::RuneDiagnosticError(_))
    ));
}
