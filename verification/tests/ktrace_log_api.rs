use ktools::ktrace::colors::color;
use ktools::ktrace::model::{OutputOptions, Severity, SourceLocation, TraceError};
use ktools::ktrace::registry::{Logger, TraceLogger};

#[test]
fn info_warn_and_error_messages_are_emitted() -> Result<(), TraceError> {
    let mut logger = Logger::new();
    let mut trace = TraceLogger::new("tests")?;
    logger.add_trace_logger(&mut trace)?;
    logger.set_output_options(OutputOptions {
        filenames: true,
        line_numbers: true,
        function_names: false,
        timestamps: false,
    })?;

    let mut output = String::new();
    for (severity, line, message) in [
        (Severity::Info, 18u32, "info message"),
        (Severity::Warning, 19u32, "warn value 7"),
        (Severity::Error, 20u32, "error message"),
    ] {
        let text = trace
            .log_with_location(&logger, severity, SourceLocation::new("tests/log_api.rs", line, ""), message.to_string())?
            .expect("message should log");
        output.push_str(&text);
        output.push('\n');
    }

    assert!(output.starts_with("[tests] [info] "));
    assert!(output.contains("\n[tests] [warning] "));
    assert!(output.contains("\n[tests] [error] "));
    assert!(output.contains("info message"));
    assert!(output.contains("warn value 7"));
    assert!(output.contains("error message"));
    assert!(output.contains("log_api:"));
    Ok(())
}

#[test]
fn trace_output_respects_channel_enablement() -> Result<(), TraceError> {
    let mut logger = Logger::new();
    let mut trace = TraceLogger::new("tests")?;
    trace.add_channel("trace", color("BrightCyan")?)?;
    logger.add_trace_logger(&mut trace)?;
    logger.enable_channel("tests.trace", "")?;

    let output = trace
        .trace_with_location(&logger, "trace", SourceLocation::new("tests/log_api.rs", 42, ""), "member 42 {ok}".to_string())?
        .expect("trace should log");

    assert!(output.contains("[tests] [trace]"));
    assert!(output.contains("member 42 {ok}"));

    logger.disable_channel("tests.trace", "")?;
    let silent = trace.trace_with_location(&logger, "trace", SourceLocation::new("tests/log_api.rs", 50, ""), "hidden".to_string())?;
    assert!(silent.is_none());
    assert!(!trace.should_trace_channel(&logger, " trace "));
    Ok(())
}

#[test]
fn unregistered_trace_loggers_log_nothing() -> Result<(), TraceError> {
    let logger = Logger::new();
    let mut trace = TraceLogger::new("tests")?;
    let line = trace.log_with_location(&logger, Severity::Info, SourceLocation::new("", 0, ""), "quiet".to_string())?;
    assert!(line.is_none());
    Ok(())
}
