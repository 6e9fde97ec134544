use ktools::ktrace::colors::color;
use ktools::ktrace::model::{SourceLocation, TraceError};
use ktools::ktrace::registry::{Logger, TraceLogger};

fn make_trace() -> Result<(Logger, TraceLogger), TraceError> {
    let mut logger = Logger::new();
    let mut trace = TraceLogger::new("tests")?;
    trace.add_channel("changed", color("BrightYellow")?)?;
    logger.add_trace_logger(&mut trace)?;
    logger.enable_channel("tests.changed", "")?;
    Ok((logger, trace))
}

fn emit_changed(trace: &mut TraceLogger, logger: &Logger, key: &str, output: &mut String) {
    let line = trace
        .trace_changed_with_location(
            logger,
            "changed",
            key.to_string(),
            SourceLocation::new("tests/changed_api.rs", 15, "changed_api::emit_changed"),
            format!("changed {}", key),
        )
        .expect("trace_changed should log");
    if let Some(line) = line {
        output.push_str(&line);
        output.push('\n');
    }
}

#[test]
fn trace_changed_suppresses_duplicates_at_the_same_call_site() -> Result<(), TraceError> {
    let (logger, mut trace) = make_trace()?;

    let mut output = String::new();
    emit_changed(&mut trace, &logger, "alpha", &mut output);
    emit_changed(&mut trace, &logger, "alpha", &mut output);
    emit_changed(&mut trace, &logger, "beta", &mut output);
    emit_changed(&mut trace, &logger, "beta", &mut output);

    assert_eq!(output.matches("changed alpha").count(), 1);
    assert_eq!(output.matches("changed beta").count(), 1);
    Ok(())
}

#[test]
fn trace_changed_uses_call_site_as_part_of_the_deduplication_key() -> Result<(), TraceError> {
    let (logger, mut trace) = make_trace()?;

    let mut output = String::new();
    for (line, message) in [(40u32, "first call site"), (42u32, "second call site")] {
        if let Some(text) = trace.trace_changed_with_location(
            &logger,
            "changed",
            "same".to_string(),
            SourceLocation::new("tests/changed_api.rs", line, "changed_api"),
            message.to_string(),
        )? {
            output.push_str(&text);
        }
    }

    assert_eq!(output.matches("first call site").count(), 1);
    assert_eq!(output.matches("second call site").count(), 1);
    Ok(())
}

#[test]
fn trace_changed_records_keys_even_when_silent() -> Result<(), TraceError> {
    let (mut logger, mut trace) = make_trace()?;
    logger.disable_channel("tests.changed", "")?;
    let mut output = String::new();
    emit_changed(&mut trace, &logger, "alpha", &mut output);
    logger.enable_channel("tests.changed", "")?;
    emit_changed(&mut trace, &logger, "alpha", &mut output);
    emit_changed(&mut trace, &logger, "gamma", &mut output);
    assert_eq!(output, "[tests] [changed] changed gamma\n");
    let error = trace
        .trace_changed_with_location(&logger, "bad channel", "k".to_string(), SourceLocation::new("f.rs", 1, ""), String::new())
        .unwrap_err();
    assert_eq!(error.message(), "invalid trace channel 'bad channel'");
    Ok(())
}
