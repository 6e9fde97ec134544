use ktools::ktrace::colors::color;
use ktools::ktrace::model::TraceError;
use ktools::ktrace::registry::{Logger, TraceLogger};

fn add_test_channels(logger: &mut Logger) -> Result<(), TraceError> {
    let mut trace = TraceLogger::new("tests")?;
    trace.add_channel("net", color("DeepSkyBlue1")?)?;
    trace.add_channel("cache", color("Gold3")?)?;
    trace.add_channel("store", color("BrightBlue")?)?;
    trace.add_channel("store.requests", color("BrightBlue")?)?;
    logger.add_trace_logger(&mut trace)?;
    Ok(())
}

#[test]
fn explicit_enable_disable_semantics_work() -> Result<(), TraceError> {
    let mut logger = Logger::new();
    add_test_channels(&mut logger)?;

    logger.enable_channels("tests.*", "tests")?;
    assert!(logger.should_trace_channel("tests.net", ""));
    assert!(logger.should_trace_channel("tests.cache", ""));

    logger.disable_channels("tests.*", "tests")?;
    assert!(!logger.should_trace_channel("tests.net", ""));
    assert!(!logger.should_trace_channel("tests.cache", ""));

    logger.enable_channel("tests.net", "")?;
    assert!(logger.should_trace_channel("tests.net", ""));
    assert!(!logger.should_trace_channel("tests.cache", ""));

    logger.disable_channel("tests.net", "")?;
    assert!(!logger.should_trace_channel("tests.net", ""));
    Ok(())
}

#[test]
fn selector_lists_only_enable_registered_channels() -> Result<(), TraceError> {
    let mut logger = Logger::new();
    add_test_channels(&mut logger)?;

    logger.enable_channels("*.*.*", "tests")?;
    assert!(logger.should_trace_channel("tests.store.requests", ""));
    assert!(logger.should_trace_channel("tests.net", ""));
    assert!(!logger.should_trace_channel("tests.missing.child", ""));

    logger.disable_channels("*.{net,cache}", "tests")?;
    assert!(!logger.should_trace_channel("tests.net", ""));
    assert!(!logger.should_trace_channel("tests.cache", ""));
    assert!(logger.should_trace_channel("tests.store.requests", ""));
    Ok(())
}

#[test]
fn duplicate_namespaces_merge_but_conflicting_colors_fail() -> Result<(), TraceError> {
    let mut logger = Logger::new();

    let mut first = TraceLogger::new("tests")?;
    first.add_channel("net", color("Gold3")?)?;
    logger.add_trace_logger(&mut first)?;

    let mut second = TraceLogger::new("tests")?;
    second.add_channel("net", color("Gold3")?)?;
    logger.add_trace_logger(&mut second)?;

    let mut third = TraceLogger::new("tests")?;
    third.add_channel("net", color("Orange3")?)?;
    let error = logger.add_trace_logger(&mut third).unwrap_err();
    assert!(error
        .message()
        .contains("conflicting trace color for 'tests.net'"));
    Ok(())
}

#[test]
fn unregistered_channel_is_warned_about_and_ignored() -> Result<(), TraceError> {
    let mut logger = Logger::new();
    add_test_channels(&mut logger)?;
    let warnings = logger.enable_channel(".missing", "tests")?;
    assert_eq!(warnings, vec![
        "[tests] [warning] enable ignored channel 'tests.missing' because it is not registered".to_string()
    ]);
    assert!(!logger.should_trace_channel("tests.missing", ""));
    let warnings = logger.disable_channels("other.*, tests.net", "bad name")?;
    assert_eq!(warnings, vec![
        "[ktrace] [warning] disable ignored channel selector 'other.*' because it matched no registered channels".to_string()
    ]);
    Ok(())
}

#[test]
fn malformed_selectors_are_refused() -> Result<(), TraceError> {
    let mut logger = Logger::new();
    add_test_channels(&mut logger)?;
    let error = logger.enable_channels("  ", "tests").unwrap_err();
    assert_eq!(error.message(), "EnableChannels requires one or more selectors");
    let error = logger.disable_channels("", "tests").unwrap_err();
    assert_eq!(error.message(), "DisableChannels requires one or more selectors");
    let error = logger.enable_channels("net,, {a", "tests").unwrap_err();
    assert_eq!(error.message(), "invalid trace selector 'net,, {a' (unmatched '{')");
    let error = logger.enable_channels("net,,x.{a,}", "tests").unwrap_err();
    assert_eq!(
        error.message(),
        "Invalid trace selector(s): 'net (did you mean '.*'?)', '<empty>', 'x.{a,} (empty brace alternative)'"
    );
    let error = logger.enable_channel("tests", "").unwrap_err();
    assert_eq!(
        error.message(),
        "invalid channel selector 'tests' (expected namespace.channel or .channel)"
    );
    let error = logger.enable_channel(".net", "  ").unwrap_err();
    assert_eq!(error.message(), "invalid trace namespace ''");
    let error = logger.enable_channel("tests.a.b.c.d", "").unwrap_err();
    assert_eq!(error.message(), "invalid trace channel 'a.b.c.d'");
    assert!(!logger.should_trace_channel("tests.net", ""));
    Ok(())
}

#[test]
fn namespaces_and_channels_are_listed_sorted() -> Result<(), TraceError> {
    let mut logger = Logger::new();
    let mut zeta = TraceLogger::new("zeta")?;
    zeta.add_channel("b", color("Red")?)?;
    zeta.add_channel("a", color("Red")?)?;
    zeta.add_channel("a.x", color("default")?)?;
    logger.add_trace_logger(&mut zeta)?;
    logger.add_trace_logger(&mut TraceLogger::new(" alpha ")?)?;
    assert_eq!(logger.get_namespaces()?, vec!["alpha".to_string(), "zeta".to_string()]);
    assert_eq!(
        logger.get_channels(" zeta")?,
        vec!["a".to_string(), "a.x".to_string(), "b".to_string()]
    );
    assert!(logger.get_channels("alpha")?.is_empty());
    assert_eq!(logger.get_channels("no way").unwrap_err().message(), "invalid trace namespace 'no way'");
    Ok(())
}

#[test]
fn channels_need_their_parent_and_a_valid_color() -> Result<(), TraceError> {
    let mut trace = TraceLogger::new("tests")?;
    let error = trace.add_channel("a.b", 1).unwrap_err();
    assert_eq!(
        error.message(),
        "cannot add unparented trace channel 'a.b' (missing parent 'a')"
    );
    let error = trace.add_channel("a", 300).unwrap_err();
    assert_eq!(error.message(), "invalid trace color id '300'");
    let error = trace.add_channel("a..b", 1).unwrap_err();
    assert_eq!(error.message(), "invalid trace channel 'a..b'");
    trace.add_channel("a", 7)?;
    trace.add_channel("a", ktools::ktrace::model::DEFAULT_COLOR)?;
    let error = trace.add_channel("a", 8).unwrap_err();
    assert_eq!(error.message(), "conflicting trace color for 'tests.a'");
    assert!(TraceLogger::new("bad name").is_err());
    Ok(())
}

#[test]
fn failed_registration_drops_the_namespace_channels() -> Result<(), TraceError> {
    let mut logger = Logger::new();
    let mut first = TraceLogger::new("tests")?;
    first.add_channel("net", color("Gold3")?)?;
    first.add_channel("io", color("Red")?)?;
    logger.add_trace_logger(&mut first)?;
    let mut second = TraceLogger::new("tests")?;
    second.add_channel("net", color("Red")?)?;
    assert!(logger.add_trace_logger(&mut second).is_err());
    assert_eq!(logger.get_namespaces()?, vec!["tests".to_string()]);
    assert!(logger.get_channels("tests")?.is_empty());
    Ok(())
}

#[test]
fn registering_a_trace_logger_twice_changes_nothing() -> Result<(), TraceError> {
    let mut trace = TraceLogger::new("tests")?;
    trace.add_channel("net", color("DeepSkyBlue1")?)?;
    trace.add_channel("store", ktools::ktrace::model::DEFAULT_COLOR)?;
    trace.add_channel("store.requests", color("BrightBlue")?)?;
    let mut logger = Logger::new();
    logger.add_trace_logger(&mut trace)?;
    logger.enable_channel("tests.net", "")?;
    let channels = logger.get_channels("tests")?;
    let namespaces = logger.get_namespaces()?;
    logger.add_trace_logger(&mut trace)?;
    assert_eq!(logger.get_channels("tests")?, channels);
    assert_eq!(logger.get_namespaces()?, namespaces);
    assert!(logger.should_trace_channel("tests.net", ""));
    assert!(!logger.should_trace_channel("tests.store", ""));
    Ok(())
}

#[test]
fn a_trace_logger_joins_only_one_logger() -> Result<(), TraceError> {
    let mut first = Logger::new();
    let mut second = Logger::new();
    let mut trace = TraceLogger::new("app")?;
    trace.add_channel("net", ktools::ktrace::model::DEFAULT_COLOR)?;
    first.add_trace_logger(&mut trace)?;
    first.add_trace_logger(&mut trace)?;
    assert_eq!(first.get_channels("app")?, vec!["net".to_string()]);
    let error = second.add_trace_logger(&mut trace).unwrap_err();
    assert_eq!(error.message(), "trace logger is already attached to another logger");
    assert!(second.get_namespaces()?.is_empty());
    second.enable_channel("app.net", "")?;
    first.enable_channel("app.net", "")?;
    assert!(trace.should_trace_channel(&first, "net"));
    assert!(!trace.should_trace_channel(&second, "net"));
    Ok(())
}

#[test]
fn a_trace_logger_that_joined_nothing_prints_nothing() -> Result<(), TraceError> {
    let mut logger = Logger::new();
    let mut joined = TraceLogger::new("app")?;
    joined.add_channel("net", ktools::ktrace::model::DEFAULT_COLOR)?;
    let mut stray = TraceLogger::new("app")?;
    stray.add_channel("net", ktools::ktrace::model::DEFAULT_COLOR)?;
    logger.add_trace_logger(&mut joined)?;
    logger.enable_channel("app.net", "")?;
    assert!(joined.should_trace_channel(&logger, "net"));
    assert!(!stray.should_trace_channel(&logger, "net"));
    let location = ktools::ktrace::model::SourceLocation::new("src/main.rs", 3, "");
    assert_eq!(stray.trace_with_location(&logger, "net", location, "hello".to_string())?, None);
    assert!(joined.trace_with_location(&logger, "net", location, "hello".to_string())?.is_some());
    assert!(stray.trace_with_location(&logger, "bad name", location, "x".to_string()).is_err());
    Ok(())
}

#[test]
fn trace_logger_answers_as_its_logger_does() -> Result<(), TraceError> {
    let mut logger = Logger::new();
    let mut trace = TraceLogger::new("tests")?;
    trace.add_channel("net", color("DeepSkyBlue1")?)?;
    trace.add_channel("store", color("BrightBlue")?)?;
    trace.add_channel("store.requests", color("BrightBlue")?)?;
    let mut stray = TraceLogger::new("tests")?;
    stray.add_channel("net", color("DeepSkyBlue1")?)?;
    logger.add_trace_logger(&mut trace)?;
    logger.enable_channel("tests.net", "")?;

    assert!(trace.should_trace_channel(&logger, " net "));
    assert_eq!(trace.should_trace_channel(&logger, "net"), logger.should_trace_channel("tests.net", "other"));
    assert!(!trace.should_trace_channel(&logger, "store.requests"));
    assert!(!logger.should_trace_channel("tests.store.requests", ""));
    assert!(!trace.should_trace_channel(&logger, "a..b"));
    assert!(!stray.should_trace_channel(&logger, "net"));
    Ok(())
}
