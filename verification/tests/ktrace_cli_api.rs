use std::cell::RefCell;
use std::rc::Rc;

use ktools::kcli::{CliError, ConfigError, Parser};
use ktools::ktrace::cli::{trace_examples, TraceRequest};
use ktools::ktrace::colors::color;
use ktools::ktrace::model::{OutputOptions, TraceError};
use ktools::ktrace::registry::{Logger, TraceLogger};

#[derive(Debug)]
pub struct TestError(String);

impl From<CliError> for TestError {
    fn from(error: CliError) -> Self {
        TestError(error.message())
    }
}

impl From<ConfigError> for TestError {
    fn from(error: ConfigError) -> Self {
        TestError(error.message())
    }
}

impl From<TraceError> for TestError {
    fn from(error: TraceError) -> Self {
        TestError(error.message())
    }
}

#[derive(Clone)]
struct Shared(Rc<RefCell<Logger>>);

impl Shared {
    fn apply(&self, request: TraceRequest) -> Result<Vec<String>, String> {
        self.0.borrow_mut().apply_request(request)
    }

    /// A control for the `--trace` group that acts on this logger.
    fn control(&self) -> impl Fn(TraceRequest) -> Result<Vec<String>, String> + 'static {
        let shared = self.clone();
        move |request| shared.apply(request)
    }
}

#[derive(Clone, Default)]
struct Recorder(Rc<RefCell<Vec<String>>>);

impl Recorder {
    /// A line sink that appends each line to this recorder.
    fn sink(&self) -> Rc<impl Fn(String) + 'static> {
        let lines = self.0.clone();
        Rc::new(move |line: String| lines.borrow_mut().push(line))
    }
}

fn make_parser(logger: &Shared, local_trace: &TraceLogger, recorder: &Recorder) -> Result<Parser, TestError> {
    let mut parser = Parser::new();
    parser.add_inline_parser(Logger::make_inline_parser(logger.control(),
        recorder.sink(),
        local_trace,
        "trace",
    )?)?;
    Ok(parser)
}

#[test]
fn trace_examples_include_reference_selector_patterns() -> Result<(), TestError> {
    let logger = Shared(Rc::new(RefCell::new(Logger::new())));
    let mut app = TraceLogger::new("core")?;
    app.add_channel("app", color("BrightCyan")?)?;
    logger.0.borrow_mut().add_trace_logger(&mut app)?;
    let recorder = Recorder::default();
    let parser = make_parser(&logger, &app, &recorder)?;
    parser.parse(&["core", "--trace-examples"])?;
    let output = recorder.0.borrow().join("\n");

    assert!(output.contains("'.abc.xyz'"));
    assert!(output.contains("'*.scheduler.tick'"));
    assert!(output.contains("'{alpha,beta}.*'"));
    assert!(output.contains("'beta.{io,scheduler}.packet'"));
    assert!(output.contains("'{alpha,beta}.net'"));
    Ok(())
}

#[test]
fn inline_parser_resolves_local_namespace_selectors() -> Result<(), TestError> {
    let logger = Shared(Rc::new(RefCell::new(Logger::new())));
    let mut local_trace = TraceLogger::new("app")?;
    local_trace.add_channel("startup", color("BrightCyan")?)?;
    let mut other_trace = TraceLogger::new("other")?;
    other_trace.add_channel("startup", color("BrightYellow")?)?;

    logger.0.borrow_mut().add_trace_logger(&mut local_trace)?;
    logger.0.borrow_mut().add_trace_logger(&mut other_trace)?;

    let recorder = Recorder::default();
    let parser = make_parser(&logger, &local_trace, &recorder)?;
    let argv = vec!["app", "--trace", ".startup"];
    parser.parse(&argv)?;

    assert!(logger.0.borrow().should_trace_channel("app.startup", ""));
    assert!(!logger.0.borrow().should_trace_channel("other.startup", ""));
    Ok(())
}

#[test]
fn inline_parser_output_flags_update_logger_options() -> Result<(), TestError> {
    let logger = Shared(Rc::new(RefCell::new(Logger::new())));
    let mut trace = TraceLogger::new("app")?;
    trace.add_channel("startup", color("BrightCyan")?)?;
    logger.0.borrow_mut().add_trace_logger(&mut trace)?;

    let recorder = Recorder::default();
    let parser = make_parser(&logger, &trace, &recorder)?;
    let argv = vec!["app", "--trace-files", "--trace-functions", "--trace-timestamps"];
    parser.parse(&argv)?;

    assert_eq!(
        logger.0.borrow().get_output_options()?,
        OutputOptions {
            filenames: true,
            line_numbers: true,
            function_names: true,
            timestamps: true,
        }
    );
    Ok(())
}

#[test]
fn trace_option_errors_become_parse_errors() -> Result<(), TestError> {
    let logger = Shared(Rc::new(RefCell::new(Logger::new())));
    let mut trace = TraceLogger::new("app")?;
    logger.0.borrow_mut().add_trace_logger(&mut trace)?;
    let recorder = Recorder::default();
    let parser = make_parser(&logger, &trace, &recorder)?;
    let error = parser.parse(&["app", "--trace", "nodot"]).unwrap_err();
    assert_eq!(error.option(), "--trace");
    assert_eq!(
        error.message(),
        "option '--trace': Invalid trace selector(s): 'nodot (did you mean '.*'?)'"
    );
    Ok(())
}

#[test]
fn listing_options_print_their_lines() -> Result<(), TestError> {
    let logger = Shared(Rc::new(RefCell::new(Logger::new())));
    let recorder = Recorder::default();
    let placeholder = TraceLogger::new("app")?;
    let parser = make_parser(&logger, &placeholder, &recorder)?;
    parser.parse(&["app", "--trace-namespaces", "--trace-channels"])?;
    assert_eq!(
        *recorder.0.borrow(),
        vec![
            "No trace namespaces defined.".to_string(),
            String::new(),
            "No trace channels defined.".to_string(),
            String::new(),
        ]
    );
    let mut app = TraceLogger::new("app")?;
    app.add_channel("net", 1)?;
    logger.0.borrow_mut().add_trace_logger(&mut app)?;
    recorder.0.borrow_mut().clear();
    parser.parse(&["app", "--trace-channels"])?;
    assert_eq!(
        *recorder.0.borrow(),
        vec![
            String::new(),
            "Available trace channels:".to_string(),
            "  app.net".to_string(),
            String::new(),
        ]
    );
    recorder.0.borrow_mut().clear();
    parser.parse(&["app", "--trace-colors"])?;
    let colors = recorder.0.borrow().clone();
    assert_eq!(colors[1], "Available trace colors:");
    assert!(colors.contains(&"  Default".to_string()));
    assert!(!colors.contains(&"  default".to_string()));
    Ok(())
}

#[test]
fn trace_root_can_be_renamed() -> Result<(), TestError> {
    let logger = Shared(Rc::new(RefCell::new(Logger::new())));
    let recorder = Recorder::default();
    let mut trace = TraceLogger::new("app")?;
    let inline = Logger::make_inline_parser(logger.control(), recorder.sink(), &trace, "--log")?;
    let mut parser = Parser::new();
    parser.add_inline_parser(inline)?;
    let help = parser.parse(&["app", "--log"])?;
    assert!(help[0].contains("Available --log-* options:"));
    assert!(help[0].contains("--log <channels>"));
    let error = match Logger::make_inline_parser(logger.control(), recorder.sink(), &trace, "-bad") {
        Ok(_) => panic!("expected an invalid root to be refused"),
        Err(error) => error,
    };
    assert_eq!(error.message(), "kcli root must use '--root' or 'root'");
    assert_eq!(trace_examples("--x")[2], "  --x <namespace>.<channel>[.<subchannel>[.<subchannel>]]");
    Ok(())
}

#[test]
fn trace_options_hand_their_requests_to_the_control() -> Result<(), TestError> {
    let seen: Rc<RefCell<Vec<String>>> = Rc::new(RefCell::new(Vec::new()));
    let record = Rc::clone(&seen);
    let control = move |request: TraceRequest| -> Result<Vec<String>, String> {
        let label = match request {
            TraceRequest::Enable { selectors, local_namespace } => format!("enable {selectors} in {local_namespace}"),
            TraceRequest::Namespaces => "namespaces".to_string(),
            TraceRequest::Channels => "channels".to_string(),
            TraceRequest::Output(flag) => format!("output {flag:?}"),
            TraceRequest::Examples { option_root } => format!("examples {option_root}"),
            TraceRequest::Colors => "colors".to_string(),
        };
        record.borrow_mut().push(label);
        Ok(Vec::new())
    };
    let recorder = Recorder::default();
    let trace = TraceLogger::new("app")?;
    let mut parser = Parser::new();
    parser.add_inline_parser(Logger::make_inline_parser(control, recorder.sink(), &trace, "trace")?)?;
    parser.parse(&[
        "app",
        "--trace-files",
        "--trace",
        ".net",
        "--trace-namespaces",
        "--trace-timestamps",
        "--trace-examples",
        "--trace-colors",
    ])?;
    assert_eq!(
        *seen.borrow(),
        vec![
            "output Files".to_string(),
            "enable .net in app".to_string(),
            "namespaces".to_string(),
            "output Timestamps".to_string(),
            "examples --trace".to_string(),
            "colors".to_string(),
        ]
    );
    Ok(())
}

#[test]
fn a_refused_trace_request_fails_the_parse() -> Result<(), TestError> {
    let control = |_request: TraceRequest| -> Result<Vec<String>, String> { Err("no logger here".to_string()) };
    let trace = TraceLogger::new("app")?;
    let mut parser = Parser::new();
    parser.add_inline_parser(Logger::make_inline_parser(control, Recorder::default().sink(), &trace, "trace")?)?;
    let error = parser.parse(&["app", "--trace-channels"]).unwrap_err();
    assert_eq!(error.option(), "--trace-channels");
    assert!(error.message().contains("no logger here"));
    Ok(())
}
