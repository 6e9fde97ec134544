#![allow(dead_code)]

use ktools::kcli::backend::{
    set_inline_flag_handler, set_inline_root, set_inline_value_handler,
    set_root_value_handler_with_help,
};
use ktools::kcli::model::{ConfigError, HandlerContext, HandlerResult, InlineParserData};
use ktools::kcli::process::help::{build_help_rows, render_help};

#[derive(Debug)]
pub struct TestError(String);

impl From<ConfigError> for TestError {
    fn from(error: ConfigError) -> Self {
        TestError(error.message())
    }
}

fn noop_flag(_context: &HandlerContext) -> HandlerResult {
    Ok(())
}

fn noop_value(_context: &HandlerContext, _value: &str) -> HandlerResult {
    Ok(())
}

#[test]
fn help_rows_include_registered_inline_options() -> Result<(), TestError> {
    let mut parser = InlineParserData::new();
    set_inline_root(&mut parser, "build")?;
    set_inline_flag_handler(&mut parser, "-flag", Box::new(noop_flag), "Enable build flag.")?;
    set_inline_value_handler(&mut parser, "-value", Box::new(noop_value), "Set build value.")?;

    let rows = build_help_rows(&parser);

    assert_eq!(
        rows,
        vec![
            ("--build-flag".to_string(), "Enable build flag.".to_string()),
            ("--build-value <value>".to_string(), "Set build value.".to_string()),
        ]
    );
    Ok(())
}

#[test]
fn help_rows_include_root_value_help_when_present() -> Result<(), TestError> {
    let mut parser = InlineParserData::new();
    set_inline_root(&mut parser, "build")?;
    set_root_value_handler_with_help(
        &mut parser,
        Box::new(noop_value),
        "<selector>",
        "Select build targets.",
    )?;
    set_inline_flag_handler(&mut parser, "-flag", Box::new(noop_flag), "Enable build flag.")?;

    let rows = build_help_rows(&parser);

    assert_eq!(
        rows[0],
        ("--build <selector>".to_string(), "Select build targets.".to_string())
    );
    assert_eq!(rows[1], ("--build-flag".to_string(), "Enable build flag.".to_string()));
    Ok(())
}

#[test]
fn help_rows_without_root_help_skip_the_root_row() -> Result<(), TestError> {
    let mut parser = InlineParserData::new();
    set_inline_root(&mut parser, "--build")?;
    set_inline_value_handler(&mut parser, "--build-opt", Box::new(noop_value), "  Opt.  ")?;
    let rows = build_help_rows(&parser);
    assert_eq!(rows, vec![("--build-opt <value>".to_string(), "Opt.".to_string())]);
    Ok(())
}

#[test]
fn help_text_pads_option_column() {
    let rows = vec![
        ("--b-x".to_string(), "First.".to_string()),
        ("--b-long <value>".to_string(), "Second.".to_string()),
    ];
    let text = render_help("b", &rows);
    assert_eq!(
        text,
        "\nAvailable --b-* options:\n  --b-x             First.\n  --b-long <value>  Second.\n\n"
    );
}

#[test]
fn help_text_without_rows_says_so() {
    let text = render_help("b", &[]);
    assert_eq!(text, "\nAvailable --b-* options:\n  (no options registered)\n\n");
}
