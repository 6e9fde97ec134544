#![allow(dead_code)]

use std::cell::RefCell;
use std::rc::Rc;

use ktools::kcli::demo::beta::parse_int_or_throw;
use ktools::kcli::demo::programs::{
    core_parser, core_report, executable_name, omega_parser, omega_report, sdk_parser,
};
use ktools::kcli::{CliError, ConfigError, InlineParser, Parser};

#[derive(Debug)]
pub struct TestError(String);

impl From<CliError> for TestError {
    fn from(error: CliError) -> Self {
        TestError(error.message())
    }
}

impl From<ConfigError> for TestError {
    fn from(error: ConfigError) -> Self {
        TestError(error.message())
    }
}

#[derive(Clone, Default)]
struct Recorder(Rc<RefCell<Vec<String>>>);

impl Recorder {
    /// A line sink that appends each line to this recorder.
    fn sink(&self) -> Rc<impl Fn(String) + 'static> {
        let lines = self.0.clone();
        Rc::new(move |line: String| lines.borrow_mut().push(line))
    }
}

impl Recorder {
    fn text(&self) -> String {
        self.0.borrow().join("\n")
    }
}

/// What a demo program prints: handler lines, help listings, then its summary.
fn run(parser: &Parser, recorder: &Recorder, argv: &[&str], report: Vec<String>) -> Result<String, TestError> {
    let help = parser.parse(argv)?;
    let mut out = recorder.text();
    for listing in help {
        out.push_str(&listing);
    }
    out.push('\n');
    out.push_str(&report.join("\n"));
    Ok(out)
}

fn sdk_run(group: Result<InlineParser, ConfigError>, recorder: &Recorder, argv: &[&str], banner: &str) -> Result<String, TestError> {
    let parser = sdk_parser(group?);
    run(&parser, recorder, argv, vec![banner.to_string()])
}

/// The kcli bootstrap program: an empty parser accepts the bare program name.
#[test]
fn kcli_bootstrap_demo_runs() -> Result<(), TestError> {
    let parser = Parser::new();
    let recorder = Recorder::default();
    let output = run(&parser, &recorder, &["bootstrap"], vec!["Bootstrap succeeded.".to_string()])?;
    assert!(output.contains("Bootstrap succeeded."));
    Ok(())
}

#[test]
fn demo_cli_core_demo_processes_alpha_message() -> Result<(), TestError> {
    let recorder = Recorder::default();
    let parser = core_parser(recorder.sink())?;
    let output = run(&parser, &recorder, &["core", "--alpha-message", "hello"], core_report("core"))?;
    assert!(output.contains("Processing --alpha-message with value \"hello\""));
    assert!(output.contains("KCLI rust demo core import/integration check passed"));
    Ok(())
}

#[test]
fn demo_cli_core_demo_prints_alpha_help() -> Result<(), TestError> {
    let recorder = Recorder::default();
    let parser = core_parser(recorder.sink())?;
    let output = run(&parser, &recorder, &["core", "--alpha"], core_report("core"))?;
    assert!(output.contains("Available --alpha-* options:"));
    assert!(output.contains("--alpha-enable [value]"));
    Ok(())
}

#[test]
fn demo_cli_omega_demo_processes_gamma_override() -> Result<(), TestError> {
    let recorder = Recorder::default();
    let parser = omega_parser(recorder.sink())?;
    let output = run(&parser, &recorder, &["omega", "--newgamma-tag", "prod"], omega_report())?;
    assert!(output.contains("Processing --newgamma-tag with value \"prod\""));
    assert!(output.contains("--newgamma (gamma override)"));
    Ok(())
}

#[test]
fn demo_cli_omega_demo_prints_build_help() -> Result<(), TestError> {
    let recorder = Recorder::default();
    let parser = omega_parser(recorder.sink())?;
    let output = run(&parser, &recorder, &["omega", "--build"], omega_report())?;
    assert!(output.contains("Available --build-* options:"));
    assert!(output.contains("--build-profile <value>"));
    assert!(output.contains("--build-clean"));
    Ok(())
}

#[test]
fn demo_cli_sdk_alpha_demo_processes_message() -> Result<(), TestError> {
    let recorder = Recorder::default();
    let output = sdk_run(
        ktools::kcli::demo::sdk_alpha::get_inline_parser(recorder.sink()),
        &recorder,
        &["sdk_alpha", "--alpha-message", "hello"],
        "KCLI rust alpha demo SDK check passed",
    )?;
    assert!(output.contains("Processing --alpha-message with value \"hello\""));
    assert!(output.contains("KCLI rust alpha demo SDK check passed"));
    Ok(())
}

#[test]
fn demo_cli_sdk_beta_demo_processes_workers() -> Result<(), TestError> {
    let recorder = Recorder::default();
    let output = sdk_run(
        ktools::kcli::demo::beta::get_inline_parser(recorder.sink()),
        &recorder,
        &["sdk_beta", "--beta-workers", "8"],
        "KCLI rust beta demo SDK check passed",
    )?;
    assert!(output.contains("Processing --beta-workers with value \"8\""));
    assert!(output.contains("KCLI rust beta demo SDK check passed"));
    Ok(())
}

#[test]
fn demo_cli_sdk_gamma_demo_processes_tag() -> Result<(), TestError> {
    let recorder = Recorder::default();
    let output = sdk_run(
        ktools::kcli::demo::gamma::get_inline_parser(recorder.sink()),
        &recorder,
        &["sdk_gamma", "--gamma-tag", "prod"],
        "KCLI rust gamma demo SDK check passed",
    )?;
    assert!(output.contains("Processing --gamma-tag with value \"prod\""));
    assert!(output.contains("KCLI rust gamma demo SDK check passed"));
    Ok(())
}

#[test]
fn beta_workers_reject_non_integers() -> Result<(), TestError> {
    let recorder = Recorder::default();
    let parser = sdk_parser(ktools::kcli::demo::beta::get_inline_parser(recorder.sink())?);
    let error = parser.parse(&["sdk_beta", "--beta-workers", "eight"]).unwrap_err();
    assert_eq!(error.option(), "--beta-workers");
    assert_eq!(error.message(), "option '--beta-workers': expected an integer");
    let error = parser.parse(&["sdk_beta", "--beta-workers", "99999999999"]).unwrap_err();
    assert_eq!(error.message(), "option '--beta-workers': integer is out of range");
    assert!(recorder.0.borrow().is_empty());
    Ok(())
}

#[test]
fn parse_int_or_throw_follows_i64_parsing() {
    assert_eq!(parse_int_or_throw("8"), Ok(8));
    assert_eq!(parse_int_or_throw("+12"), Ok(12));
    assert_eq!(parse_int_or_throw("-2147483648"), Ok(-2147483648));
    assert_eq!(parse_int_or_throw("2147483647"), Ok(2147483647));
    assert_eq!(parse_int_or_throw("2147483648"), Err("integer is out of range".to_string()));
    assert_eq!(parse_int_or_throw("-9223372036854775808"), Err("integer is out of range".to_string()));
    assert_eq!(parse_int_or_throw("9223372036854775808"), Err("expected an integer".to_string()));
    assert_eq!(parse_int_or_throw(""), Err("expected an integer".to_string()));
    assert_eq!(parse_int_or_throw("-"), Err("expected an integer".to_string()));
    assert_eq!(parse_int_or_throw(" 1"), Err("expected an integer".to_string()));
    assert_eq!(parse_int_or_throw("1x"), Err("expected an integer".to_string()));
    assert_eq!(parse_int_or_throw("007"), Ok(7));
}

#[test]
fn processing_lines_list_several_values() -> Result<(), TestError> {
    let recorder = Recorder::default();
    let parser = sdk_parser(ktools::kcli::demo::alpha::get_inline_parser(recorder.sink())?);
    parser.parse(&["sdk_alpha", "--alpha-enable", "a", "b", "--alpha-enable"])?;
    assert_eq!(
        *recorder.0.borrow(),
        vec![
            "Processing --alpha-enable with values [\"a\",\"b\"]".to_string(),
            "Processing --alpha-enable".to_string(),
        ]
    );
    Ok(())
}

#[test]
fn executable_name_falls_back_to_app() {
    assert_eq!(executable_name(Some("tool")), "tool");
    assert_eq!(executable_name(Some("")), "app");
    assert_eq!(executable_name(None), "app");
}

#[test]
fn core_report_names_the_program() {
    let lines = core_report("core");
    assert_eq!(lines[4], "  core --alpha");
    assert_eq!(lines[5], "  core --output stdout");
    assert_eq!(lines.len(), 10);
}

#[test]
fn failing_handler_keeps_the_help_shown_before_it() -> Result<(), TestError> {
    let recorder = Recorder::default();
    let parser = sdk_parser(ktools::kcli::demo::beta::get_inline_parser(recorder.sink())?);
    let error = match parser.parse(&["app", "--beta", "--beta-workers", "x"]) {
        Ok(_) => return Err(TestError("expected a failure".to_string())),
        Err(e) => e,
    };
    assert_eq!(error.message(), "option '--beta-workers': expected an integer");
    assert_eq!(error.option(), "--beta-workers");
    assert_eq!(error.listings().len(), 1);
    assert!(error.listings()[0].contains("--beta-workers <value>"));
    assert!(recorder.0.borrow().is_empty());
    Ok(())
}

#[test]
fn help_is_shown_between_the_handlers_around_it() -> Result<(), TestError> {
    let recorder = Recorder::default();
    let parser = sdk_parser(ktools::kcli::demo::alpha::get_inline_parser(recorder.sink())?);
    let listings = parser.parse_showing(&["app", "--alpha", "--alpha-message", "hi"], recorder.sink())?;
    assert_eq!(listings.len(), 1);
    let shown = recorder.0.borrow().clone();
    assert_eq!(shown.len(), 2);
    assert_eq!(shown[0], listings[0]);
    assert!(shown[0].contains("--alpha-message <value>"));
    assert_eq!(shown[1], "Processing --alpha-message with value \"hi\"");
    Ok(())
}
