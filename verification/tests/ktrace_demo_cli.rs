use std::cell::RefCell;
use std::rc::Rc;

use ktools::kcli::{CliError, ConfigError, Parser};
use ktools::ktrace::cli::TraceRequest;
use ktools::ktrace::colors::color;
use ktools::ktrace::model::{Severity, SourceLocation, TraceError, DEFAULT_COLOR};
use ktools::ktrace::registry::{Logger, TraceLogger};

#[derive(Debug)]
pub struct TestError(String);

impl From<CliError> for TestError {
    fn from(error: CliError) -> Self {
        TestError(error.message())
    }
}

impl From<ConfigError> for TestError {
    fn from(error: ConfigError) -> Self {
        TestError(error.message())
    }
}

impl From<TraceError> for TestError {
    fn from(error: TraceError) -> Self {
        TestError(error.message())
    }
}

#[derive(Clone)]
struct Shared(Rc<RefCell<Logger>>);

impl Shared {
    fn apply(&self, request: TraceRequest) -> Result<Vec<String>, String> {
        self.0.borrow_mut().apply_request(request)
    }

    /// A control for the `--trace` group that acts on this logger.
    fn control(&self) -> impl Fn(TraceRequest) -> Result<Vec<String>, String> + 'static {
        let shared = self.clone();
        move |request| shared.apply(request)
    }
}

#[derive(Clone, Default)]
struct Recorder(Rc<RefCell<Vec<String>>>);

impl Recorder {
    /// A line sink that appends each line to this recorder.
    fn sink(&self) -> Rc<impl Fn(String) + 'static> {
        let lines = self.0.clone();
        Rc::new(move |line: String| lines.borrow_mut().push(line))
    }

    fn emit(&self, line: String) {
        self.0.borrow_mut().push(line);
    }
}

impl Recorder {
    fn push(&self, line: Option<String>) {
        if let Some(line) = line {
            self.0.borrow_mut().push(line);
        }
    }

    fn text(&self) -> String {
        self.0.borrow().join("\n")
    }
}

fn here(line: u32) -> SourceLocation {
    SourceLocation::new("src/bin/demo.rs", line, "")
}

fn alpha_checks(alpha: &TraceLogger, logger: &Logger, out: &Recorder) -> Result<(), TestError> {
    out.push(alpha.trace_with_location(logger, "net", here(10), "alpha trace test on channel 'net'".to_string())?);
    out.push(alpha.trace_with_location(logger, "cache", here(11), "alpha trace test on channel 'cache'".to_string())?);
    out.push(alpha.log_with_location(logger, Severity::Info, here(12), "alpha info".to_string())?);
    Ok(())
}

fn run_core(argv: &[&str]) -> Result<String, TestError> {
    let logger = Shared(Rc::new(RefCell::new(Logger::new())));
    let out = Recorder::default();
    let mut app = TraceLogger::new("core")?;
    app.add_channel("app", color("BrightCyan")?)?;
    app.add_channel("startup", color("BrightYellow")?)?;
    logger.0.borrow_mut().add_trace_logger(&mut app)?;
    let mut alpha = ktools::ktrace::demo::alpha::get_trace_logger()?;
    logger.0.borrow_mut().add_trace_logger(&mut alpha)?;
    let mut parser = Parser::new();
    parser.add_inline_parser(Logger::make_inline_parser(logger.control(), out.sink(), &app, "trace")?)?;
    logger.0.borrow_mut().enable_channel(".app", app.namespace())?;
    out.push(app.trace_with_location(&logger.0.borrow(), "app", here(30), "core initialized local trace channels".to_string())?);
    for listing in parser.parse(argv)? {
        out.emit(listing);
    }
    out.push(app.trace_with_location(&logger.0.borrow(), "app", here(33), "cli processing enabled, use --trace for options".to_string())?);
    alpha_checks(&alpha, &logger.0.borrow(), &out)?;
    out.push(app.log_with_location(&logger.0.borrow(), Severity::Info, here(46), "KTRACE rust demo core import/integration check passed".to_string())?);
    Ok(out.text())
}

fn run_omega(argv: &[&str]) -> Result<String, TestError> {
    let logger = Shared(Rc::new(RefCell::new(Logger::new())));
    let out = Recorder::default();
    let mut app = TraceLogger::new("omega")?;
    app.add_channel("app", color("BrightCyan")?)?;
    app.add_channel("orchestrator", color("BrightYellow")?)?;
    app.add_channel("deep", DEFAULT_COLOR)?;
    app.add_channel("deep.branch", DEFAULT_COLOR)?;
    app.add_channel("deep.branch.leaf", color("LightSalmon1")?)?;
    logger.0.borrow_mut().add_trace_logger(&mut app)?;
    let mut alpha = ktools::ktrace::demo::alpha::get_trace_logger()?;
    let mut beta = ktools::ktrace::demo::beta::get_trace_logger()?;
    let mut gamma = ktools::ktrace::demo::sdk_gamma::get_trace_logger()?;
    logger.0.borrow_mut().add_trace_logger(&mut alpha)?;
    logger.0.borrow_mut().add_trace_logger(&mut beta)?;
    logger.0.borrow_mut().add_trace_logger(&mut gamma)?;
    let mut parser = Parser::new();
    parser.add_inline_parser(Logger::make_inline_parser(logger.control(), out.sink(), &app, "trace")?)?;
    logger.0.borrow_mut().enable_channel(".app", app.namespace())?;
    out.push(app.trace_with_location(&logger.0.borrow(), "app", here(36), "omega initialized local trace channels".to_string())?);
    logger.0.borrow_mut().disable_channel(".app", app.namespace())?;
    for listing in parser.parse(argv)? {
        out.emit(listing);
    }
    let l = logger.0.borrow();
    out.push(app.trace_with_location(&l, "app", here(40), "cli processing enabled, use --trace for options".to_string())?);
    out.push(app.trace_with_location(&l, "deep.branch.leaf", here(50), "omega trace test on channel 'deep.branch.leaf'".to_string())?);
    alpha_checks(&alpha, &l, &out)?;
    for line in ktools::ktrace::demo::beta::test_trace_logging_channels(&beta, &l)? {
        out.emit(line);
    }
    for line in ktools::ktrace::demo::sdk_gamma::test_trace_logging_channels(&gamma, &l)? {
        out.emit(line);
    }
    Ok(out.text())
}

#[test]
fn core_demo_prints_trace_help() -> Result<(), TestError> {
    let output = run_core(&["core", "--trace"])?;
    assert!(output.contains("Available --trace-* options:"));
    assert!(output.contains("--trace <channels>"));
    Ok(())
}

#[test]
fn omega_demo_prints_trace_namespaces() -> Result<(), TestError> {
    let output = run_omega(&["omega", "--trace-namespaces"])?;
    assert!(output.contains("Available trace namespaces:"));
    assert!(output.contains("alpha"));
    assert!(output.contains("beta"));
    assert!(output.contains("gamma"));
    assert!(output.contains("omega"));
    Ok(())
}

#[test]
fn demo_cli_bootstrap_demo_runs() -> Result<(), TestError> {
    let mut logger = Logger::new();
    let mut trace = TraceLogger::new("bootstrap")?;
    trace.add_channel("bootstrap", color("BrightGreen")?)?;
    logger.add_trace_logger(&mut trace)?;
    logger.enable_channel(".bootstrap", trace.namespace())?;
    let mut output = trace
        .trace_with_location(&logger, "bootstrap", here(11), "ktrace bootstrap compile/link check".to_string())?
        .unwrap_or_default();
    let parser = Parser::new();
    let help = parser.parse(&["bootstrap"])?;
    assert!(help.is_empty());
    output.push_str("\nBootstrap succeeded.");
    assert!(output.contains("Bootstrap succeeded."));
    assert!(output.contains("[bootstrap] [bootstrap]"));
    Ok(())
}

#[test]
fn sdk_alpha_demo_runs() -> Result<(), TestError> {
    let mut logger = Logger::new();
    let mut alpha = ktools::ktrace::demo::alpha::get_trace_logger()?;
    logger.add_trace_logger(&mut alpha)?;
    logger.enable_channels("alpha.*.*.*", "alpha")?;
    let out = Recorder::default();
    alpha_checks(&alpha, &logger, &out)?;
    out.emit("KTRACE rust alpha demo SDK check passed".to_string());
    let output = out.text();
    assert!(output.contains("KTRACE rust alpha demo SDK check passed"));
    assert!(output.contains("[alpha] [net]"));
    assert!(output.contains("[alpha] [info]"));
    Ok(())
}

#[test]
fn omega_demo_traces_imported_namespaces() -> Result<(), TestError> {
    let output = run_omega(&["omega", "--trace", "*.*.*.*"])?;
    assert!(output.contains("[omega] [deep.branch.leaf]"));
    assert!(output.contains("[alpha] [net]"));
    assert!(output.contains("[beta] [io]"));
    assert!(output.contains("[gamma] [physics]"));
    Ok(())
}

#[test]
fn omega_tracing_is_quiet_without_selectors() -> Result<(), TestError> {
    let output = run_omega(&["omega"])?;
    assert!(output.contains("[omega] [app] omega initialized local trace channels"));
    assert!(!output.contains("[omega] [deep.branch.leaf]"));
    assert!(!output.contains("[beta] [io]"));
    assert!(output.contains("[alpha] [info] alpha info"));
    Ok(())
}
