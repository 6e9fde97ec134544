//! Normalization of the names given when a parser is configured.
use vstd::prelude::*;
use crate::kcli::model::{config_view, ConfigError};
use crate::text::{has_ws, has_ws_spec, string_of, to_chars, trim_bounds, trim_spec};

verus! {

/// The text starts with `--`.
pub open spec fn has_double_dash(s: Seq<char>) -> bool {
    s.len() >= 2 && s[0] == '-' && s[1] == '-'
}

/// The text starts with `-`.
pub open spec fn has_dash(s: Seq<char>) -> bool {
    s.len() >= 1 && s[0] == '-'
}

pub open spec fn normalize_root_name_spec(raw: Seq<char>) -> Result<Seq<char>, Seq<char>> {
    let root = trim_spec(raw);
    if root.len() == 0 {
        Err("kcli root must not be empty"@)
    } else if has_dash(root) {
        Err("kcli root must not begin with '-'"@)
    } else if has_ws_spec(root) {
        Err("kcli root is invalid"@)
    } else {
        Ok(root)
    }
}

pub open spec fn normalize_inline_root_option_spec(raw: Seq<char>) -> Result<Seq<char>, Seq<char>> {
    let root = trim_spec(raw);
    if root.len() == 0 {
        Err("kcli root must not be empty"@)
    } else if has_double_dash(root) {
        normalize_root_name_spec(root.subrange(2, root.len() as int))
    } else if has_dash(root) {
        Err("kcli root must use '--root' or 'root'"@)
    } else {
        normalize_root_name_spec(root)
    }
}

/// Checks shared by both kinds of handler option once the prefix is stripped.
pub open spec fn command_name_spec(name: Seq<char>) -> Result<Seq<char>, Seq<char>> {
    if name.len() == 0 {
        Err("kcli command must not be empty"@)
    } else if has_dash(name) {
        Err("kcli command must not start with '-'"@)
    } else if has_ws_spec(name) {
        Err("kcli command must not contain whitespace"@)
    } else {
        Ok(name)
    }
}

pub open spec fn inline_form_message(root_name: Seq<char>) -> Seq<char> {
    "kcli inline handler option must use '-name' or '--"@ + root_name + "-name'"@
}

pub open spec fn normalize_inline_handler_option_spec(
    raw: Seq<char>,
    root_name: Seq<char>,
) -> Result<Seq<char>, Seq<char>> {
    let option = trim_spec(raw);
    if option.len() == 0 {
        Err("kcli inline handler option must not be empty"@)
    } else if has_double_dash(option) {
        let stripped = option.subrange(2, option.len() as int);
        let full_prefix = root_name.push('-');
        if crate::text::starts_with_spec(stripped, full_prefix) {
            command_name_spec(stripped.subrange(full_prefix.len() as int, stripped.len() as int))
        } else {
            Err(inline_form_message(root_name))
        }
    } else if has_dash(option) {
        command_name_spec(option.subrange(1, option.len() as int))
    } else {
        Err(inline_form_message(root_name))
    }
}

pub open spec fn normalize_primary_handler_option_spec(raw: Seq<char>) -> Result<Seq<char>, Seq<char>> {
    let option = trim_spec(raw);
    if option.len() == 0 {
        Err("kcli end-user handler option must not be empty"@)
    } else if has_double_dash(option) {
        command_name_spec(option.subrange(2, option.len() as int))
    } else if has_dash(option) {
        Err("kcli end-user handler option must use '--name' or 'name'"@)
    } else {
        command_name_spec(option)
    }
}

pub open spec fn normalize_alias_spec(raw: Seq<char>) -> Result<Seq<char>, Seq<char>> {
    let alias = trim_spec(raw);
    if alias.len() < 2 || !has_dash(alias) || has_double_dash(alias) || has_ws_spec(alias) {
        Err("kcli alias must use single-dash form, e.g. '-v'"@)
    } else {
        Ok(alias)
    }
}

pub open spec fn normalize_alias_target_option_spec(raw: Seq<char>) -> Result<Seq<char>, Seq<char>> {
    let target = trim_spec(raw);
    if target.len() < 3 || !has_double_dash(target) || has_ws_spec(target) || target[2] == '-' {
        Err("kcli alias target must use double-dash form, e.g. '--verbose'"@)
    } else {
        Ok(target)
    }
}

pub open spec fn normalize_help_placeholder_spec(raw: Seq<char>) -> Result<Seq<char>, Seq<char>> {
    if trim_spec(raw).len() == 0 {
        Err("kcli help placeholder must not be empty"@)
    } else {
        Ok(trim_spec(raw))
    }
}

pub open spec fn normalize_description_spec(raw: Seq<char>) -> Result<Seq<char>, Seq<char>> {
    if trim_spec(raw).len() == 0 {
        Err("kcli command description must not be empty"@)
    } else {
        Ok(trim_spec(raw))
    }
}

fn err(message: &str) -> (r: Result<String, ConfigError>)
    ensures
        config_view(r) == Err::<Seq<char>, Seq<char>>(message@),
{
    Err(ConfigError::new(message))
}

fn has_dash_at(v: &[char], i: usize) -> (r: bool)
    ensures
        r == (i < v@.len() && v@[i as int] == '-'),
{
    i < v.len() && v[i] == '-'
}

/// Root names must be non-empty, must not begin with `-` and hold no white space.
pub fn normalize_root_name(raw_root: &[char]) -> (r: Result<String, ConfigError>)
    ensures
        config_view(r) == normalize_root_name_spec(raw_root@),
{
    let (a, b) = trim_bounds(raw_root);
    let root = string_of(raw_root, a, b);
    let chars = to_chars(root.as_str());
    if chars.len() == 0 {
        return err("kcli root must not be empty");
    }
    if has_dash_at(chars.as_slice(), 0) {
        return err("kcli root must not begin with '-'");
    }
    if has_ws(chars.as_slice()) {
        return err("kcli root is invalid");
    }
    Ok(root)
}

/// A root given as `--name` or `name`.
pub fn normalize_inline_root_option(raw_root: &str) -> (r: Result<String, ConfigError>)
    ensures
        config_view(r) == normalize_inline_root_option_spec(raw_root@),
{
    let raw = to_chars(raw_root);
    let (a, b) = trim_bounds(raw.as_slice());
    let root = string_of(raw.as_slice(), a, b);
    let chars = to_chars(root.as_str());
    if chars.len() == 0 {
        return err("kcli root must not be empty");
    }
    if has_dash_at(chars.as_slice(), 0) && has_dash_at(chars.as_slice(), 1) {
        let rest = string_of(chars.as_slice(), 2, chars.len());
        let rest_chars = to_chars(rest.as_str());
        return normalize_root_name(rest_chars.as_slice());
    }
    if has_dash_at(chars.as_slice(), 0) {
        return err("kcli root must use '--root' or 'root'");
    }
    normalize_root_name(chars.as_slice())
}

fn check_command_name(name: String) -> (r: Result<String, ConfigError>)
    ensures
        config_view(r) == command_name_spec(name@),
{
    let chars = to_chars(name.as_str());
    if chars.len() == 0 {
        return err("kcli command must not be empty");
    }
    if has_dash_at(chars.as_slice(), 0) {
        return err("kcli command must not start with '-'");
    }
    if has_ws(chars.as_slice()) {
        return err("kcli command must not contain whitespace");
    }
    Ok(name)
}

fn inline_form_error(root_name: &str) -> (r: Result<String, ConfigError>)
    ensures
        config_view(r) == Err::<Seq<char>, Seq<char>>(inline_form_message(root_name@)),
{
    let message = crate::text::concat3(
        "kcli inline handler option must use '-name' or '--",
        root_name,
        "-name'",
    );
    Err(ConfigError::from_string(message))
}

/// A command of an inline parser given as `-name` or `--<root>-name`.
pub fn normalize_inline_handler_option(raw_option: &str, root_name: &str) -> (r: Result<
    String,
    ConfigError,
>)
    ensures
        config_view(r) == normalize_inline_handler_option_spec(raw_option@, root_name@),
{
    let raw = to_chars(raw_option);
    let (a, b) = trim_bounds(raw.as_slice());
    let option = string_of(raw.as_slice(), a, b);
    let chars = to_chars(option.as_str());
    if chars.len() == 0 {
        return err("kcli inline handler option must not be empty");
    }
    if has_dash_at(chars.as_slice(), 0) && has_dash_at(chars.as_slice(), 1) {
        let stripped = string_of(chars.as_slice(), 2, chars.len());
        let stripped_chars = to_chars(stripped.as_str());
        let mut prefix = to_chars(root_name);
        prefix.push('-');
        if !crate::text::starts_with(stripped_chars.as_slice(), prefix.as_slice()) {
            return inline_form_error(root_name);
        }
        let name = string_of(stripped_chars.as_slice(), prefix.len(), stripped_chars.len());
        return check_command_name(name);
    }
    if has_dash_at(chars.as_slice(), 0) {
        let name = string_of(chars.as_slice(), 1, chars.len());
        return check_command_name(name);
    }
    inline_form_error(root_name)
}

/// An end-user option given as `--name` or `name`.
pub fn normalize_primary_handler_option(raw_option: &str) -> (r: Result<String, ConfigError>)
    ensures
        config_view(r) == normalize_primary_handler_option_spec(raw_option@),
{
    let raw = to_chars(raw_option);
    let (a, b) = trim_bounds(raw.as_slice());
    let option = string_of(raw.as_slice(), a, b);
    let chars = to_chars(option.as_str());
    if chars.len() == 0 {
        return err("kcli end-user handler option must not be empty");
    }
    if has_dash_at(chars.as_slice(), 0) && has_dash_at(chars.as_slice(), 1) {
        let name = string_of(chars.as_slice(), 2, chars.len());
        return check_command_name(name);
    }
    if has_dash_at(chars.as_slice(), 0) {
        return err("kcli end-user handler option must use '--name' or 'name'");
    }
    check_command_name(option)
}

/// An alias in single-dash form such as `-v`.
pub fn normalize_alias(raw_alias: &str) -> (r: Result<String, ConfigError>)
    ensures
        config_view(r) == normalize_alias_spec(raw_alias@),
{
    let raw = to_chars(raw_alias);
    let (a, b) = trim_bounds(raw.as_slice());
    let alias = string_of(raw.as_slice(), a, b);
    let chars = to_chars(alias.as_str());
    if chars.len() < 2 || !has_dash_at(chars.as_slice(), 0) || has_dash_at(chars.as_slice(), 1)
        || has_ws(chars.as_slice()) {
        return err("kcli alias must use single-dash form, e.g. '-v'");
    }
    Ok(alias)
}

/// An alias target in double-dash form such as `--verbose`.
pub fn normalize_alias_target_option(raw_target: &str) -> (r: Result<String, ConfigError>)
    ensures
        config_view(r) == normalize_alias_target_option_spec(raw_target@),
{
    let raw = to_chars(raw_target);
    let (a, b) = trim_bounds(raw.as_slice());
    let target = string_of(raw.as_slice(), a, b);
    let chars = to_chars(target.as_str());
    if chars.len() < 3 || !has_dash_at(chars.as_slice(), 0) || !has_dash_at(chars.as_slice(), 1)
        || has_ws(chars.as_slice()) || has_dash_at(chars.as_slice(), 2) {
        return err("kcli alias target must use double-dash form, e.g. '--verbose'");
    }
    Ok(target)
}

pub fn normalize_help_placeholder(raw_placeholder: &str) -> (r: Result<String, ConfigError>)
    ensures
        config_view(r) == normalize_help_placeholder_spec(raw_placeholder@),
{
    let placeholder = crate::text::trim_str(raw_placeholder);
    if placeholder.as_str().is_empty() {
        return err("kcli help placeholder must not be empty");
    }
    Ok(placeholder)
}

pub fn normalize_description(raw_description: &str) -> (r: Result<String, ConfigError>)
    ensures
        config_view(r) == normalize_description_spec(raw_description@),
{
    let description = crate::text::trim_str(raw_description);
    if description.as_str().is_empty() {
        return err("kcli command description must not be empty");
    }
    Ok(description)
}

} // verus!
