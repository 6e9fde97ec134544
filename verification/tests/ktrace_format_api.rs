use ktools::ktrace::colors::color;
use ktools::ktrace::format::{build_prefix, format_function_label, format_source_label, format_timestamp, timestamp_label};
use ktools::ktrace::model::{OutputOptions, Severity, SourceLocation, TraceError};
use ktools::ktrace::registry::{Logger, TraceLogger};

#[test]
fn warn_macro_uses_rust_formatting_and_source_location() -> Result<(), TraceError> {
    let mut logger = Logger::new();
    let mut trace = TraceLogger::new("tests")?;
    logger.add_trace_logger(&mut trace)?;
    logger.set_output_options(OutputOptions {
        filenames: true,
        line_numbers: true,
        function_names: false,
        timestamps: false,
    })?;

    let warn_line = 24;
    let output = trace
        .log_with_location(
            &logger,
            Severity::Warning,
            SourceLocation::new("tests/format_api.rs", warn_line, "format_api::warn_macro"),
            format!("escaped {{}} {}", 7),
        )?
        .expect("warn should log");

    assert!(output.contains("escaped {} 7"));
    assert!(output.contains(&format!("format_api:{warn_line}")));
    Ok(())
}

#[test]
fn trace_macro_formats_enabled_channel_output() -> Result<(), TraceError> {
    let mut logger = Logger::new();
    let mut trace = TraceLogger::new("tests")?;
    trace.add_channel("trace", color("BrightCyan")?)?;
    logger.add_trace_logger(&mut trace)?;
    logger.enable_channel("tests.trace", "")?;

    let output = trace
        .trace_with_location(
            &logger,
            "trace",
            SourceLocation::new("tests/format_api.rs", 45, "format_api"),
            format!("member {} {{ok}}", 42),
        )?
        .expect("trace should log");

    assert!(output.contains("[tests] [trace]"));
    assert!(output.contains("member 42 {ok}"));
    Ok(())
}

#[test]
fn source_labels_drop_directories_and_extensions() {
    assert_eq!(format_source_label("src/bin/core.rs"), "core");
    assert_eq!(format_source_label("C:\\work\\main.rs.rs"), "main");
    assert_eq!(format_source_label("plain"), "plain");
    assert_eq!(format_source_label("dir/"), "");
    assert_eq!(format_function_label("a::b::run"), "run");
    assert_eq!(format_function_label("run"), "run");
    assert_eq!(format_function_label("a::"), "");
}

#[test]
fn prefixes_follow_the_output_options() {
    let location = SourceLocation::new("src/app/main.rs", 12, "app::main::start");
    let all = OutputOptions { filenames: true, line_numbers: true, function_names: true, timestamps: false };
    assert_eq!(build_prefix("ns", "chan", location, all), "[ns] [chan] [main:12:start]");
    let files = OutputOptions { filenames: true, line_numbers: false, function_names: false, timestamps: false };
    assert_eq!(build_prefix("ns", "chan", location, files), "[ns] [chan] [main]");
    let none = OutputOptions::default();
    assert_eq!(build_prefix("", "info", location, none), "[info]");
    let timed = OutputOptions { filenames: false, line_numbers: false, function_names: false, timestamps: true };
    let prefix = build_prefix("ns", "chan", location, timed);
    assert!(prefix.starts_with("[ns] ["));
    assert!(prefix.ends_with("] [chan]"));
    let stamp = &prefix[5..prefix.len() - 7];
    let (secs, micros) = stamp.trim_start_matches('[').trim_end_matches(']').split_once('.').unwrap();
    assert!(secs.parse::<u64>().is_ok());
    assert_eq!(micros.len(), 6);
}

#[test]
fn stored_options_need_file_names() -> Result<(), TraceError> {
    let mut logger = Logger::new();
    logger.set_output_options(OutputOptions { filenames: false, line_numbers: true, function_names: true, timestamps: true })?;
    assert_eq!(
        logger.get_output_options()?,
        OutputOptions { filenames: false, line_numbers: false, function_names: false, timestamps: true }
    );
    Ok(())
}

#[test]
fn timestamps_show_seconds_and_six_digit_microseconds() {
    assert_eq!(format_timestamp(12, 345), "[12.000345]");
    assert_eq!(format_timestamp(0, 999_999), "[0.999999]");
    assert_eq!(format_timestamp(1_700_000_000, 0), "[1700000000.000000]");
    let now = timestamp_label();
    let (secs, micros) = now.trim_start_matches('[').trim_end_matches(']').split_once('.').unwrap();
    assert!(secs.parse::<u64>().unwrap() > 0);
    assert_eq!(micros.len(), 6);
}

#[test]
fn every_listed_color_name_is_accepted() {
    let names = ktools::ktrace::colors::available_color_names();
    assert!(!names.is_empty());
    for name in names {
        assert!(color(name).is_ok(), "{name}");
    }
    assert!(color("default").is_ok());
    assert!(!ktools::ktrace::colors::available_color_names().contains(&"default"));
}
