use ktools::ktrace::model::Selector;
use ktools::ktrace::selectors::{
    expand_brace_expression, format_selector, is_selector_identifier, is_valid_channel_path,
    make_qualified_channel_key, matches_selector, merge_color, parse_exact_selector,
    parse_selector_list, split_by_top_level_commas, split_channel_path,
};

fn chars(s: &str) -> Vec<char> {
    s.chars().collect()
}

fn selector(list: &str, local: &str) -> Selector {
    let mut parsed = parse_selector_list(list, local).expect("selector should parse");
    assert_eq!(parsed.len(), 1);
    parsed.remove(0)
}

#[test]
fn identifiers_and_channel_paths() {
    assert!(is_selector_identifier("alpha_1-x"));
    assert!(!is_selector_identifier(""));
    assert!(!is_selector_identifier("a.b"));
    assert!(is_valid_channel_path("a.b.c"));
    assert!(!is_valid_channel_path("a.b.c.d"));
    assert!(!is_valid_channel_path("a..b"));
    assert!(!is_valid_channel_path(""));
    assert_eq!(split_channel_path("net.io"), Some(vec!["net".to_string(), "io".to_string()]));
    assert_eq!(make_qualified_channel_key("ns", "a.b"), "ns.a.b");
    assert_eq!(make_qualified_channel_key("", "a"), "");
}

#[test]
fn top_level_commas_split_outside_braces() {
    assert_eq!(
        split_by_top_level_commas(&chars(" a , {b,c}.d ,")),
        Ok(vec!["a".to_string(), "{b,c}.d".to_string(), String::new()])
    );
    assert_eq!(split_by_top_level_commas(&chars("a}")), Err("unmatched '}'".to_string()));
    assert_eq!(split_by_top_level_commas(&chars("{a")), Err("unmatched '{'".to_string()));
}

#[test]
fn braces_expand_in_order() {
    assert_eq!(
        expand_brace_expression(&chars("{alpha,beta}.{net,io}")),
        Ok(vec![
            "alpha.net".to_string(),
            "alpha.io".to_string(),
            "beta.net".to_string(),
            "beta.io".to_string(),
        ])
    );
    assert_eq!(
        expand_brace_expression(&chars("beta.{io,{a,b}}.packet")),
        Ok(vec!["beta.io.packet".to_string(), "beta.a.packet".to_string(), "beta.b.packet".to_string()])
    );
    assert_eq!(expand_brace_expression(&chars("x.{}")), Err("empty brace group".to_string()));
    assert_eq!(expand_brace_expression(&chars("x.{a")), Err("unmatched '{'".to_string()));
    assert_eq!(expand_brace_expression(&chars("plain")), Ok(vec!["plain".to_string()]));
}

#[test]
fn selectors_match_by_depth() {
    let any_top = selector("*.*", "");
    assert!(matches_selector(&any_top, "ns", "net"));
    assert!(!matches_selector(&any_top, "ns", "net.io"));
    let two = selector("*.*.*", "");
    assert!(matches_selector(&two, "ns", "net.io"));
    assert!(matches_selector(&two, "ns", "net"));
    assert!(!matches_selector(&any_top, "ns", "a.b.c"));
    let all = selector("*.*.*.*", "");
    assert!(matches_selector(&all, "x", "a.b.c"));
    let local = selector(".net.*", "app");
    assert!(matches_selector(&local, "app", "net.io"));
    assert!(!matches_selector(&local, "other", "net.io"));
    assert!(!matches_selector(&local, "app", "net"));
    let one = selector("alpha.*", "");
    assert!(matches_selector(&one, "alpha", "cache"));
    assert!(!matches_selector(&one, "alpha", "cache.x"));
    assert_eq!(format_selector(&selector("*.{net}.x", "")), "*.net.x");
    assert_eq!(format_selector(&selector(" .a ", "ns")), "ns.a");
}

#[test]
fn selector_errors_name_the_token() {
    let error = parse_selector_list("a.b.c.d.e", "").unwrap_err();
    assert_eq!(error.message(), "Invalid trace selector(s): 'a.b.c.d.e (channel depth exceeds 3)'");
    let error = parse_selector_list("bad ns.x, .x", "").unwrap_err();
    assert_eq!(
        error.message(),
        "Invalid trace selector(s): 'bad ns.x (invalid namespace 'bad ns')', '.x (missing namespace)'"
    );
    let error = parse_selector_list("a.", "").unwrap_err();
    assert_eq!(error.message(), "Invalid trace selector(s): 'a. (missing channel expression)'");
    let error = parse_selector_list("a.b!", "").unwrap_err();
    assert_eq!(error.message(), "Invalid trace selector(s): 'a.b! (invalid channel token)'");
}

#[test]
fn exact_selectors_and_colors() {
    assert_eq!(
        parse_exact_selector(" .net ", " app ").map_err(|e| e.message()),
        Ok(("app".to_string(), "net".to_string()))
    );
    assert_eq!(parse_exact_selector("x.y.z", "").map_err(|e| e.message()), Ok(("x".to_string(), "y.z".to_string())));
    assert_eq!(merge_color(5, 0xFFFF, "n.c").map_err(|e| e.message()), Ok(5));
    assert_eq!(merge_color(0xFFFF, 9, "n.c").map_err(|e| e.message()), Ok(9));
    assert_eq!(merge_color(9, 9, "n.c").map_err(|e| e.message()), Ok(9));
    assert_eq!(merge_color(9, 10, "n.c").map_err(|e| e.message()), Err("conflicting trace color for 'n.c'".to_string()));
    assert_eq!(merge_color(9, 256, "n.c").map_err(|e| e.message()), Err("invalid trace color id '256'".to_string()));
    assert_eq!(ktools::ktrace::colors::color(" Gold3 ").map_err(|e| e.message()), Ok(142));
    assert_eq!(ktools::ktrace::colors::color("").map_err(|e| e.message()), Err("trace color name must not be empty".to_string()));
    assert_eq!(ktools::ktrace::colors::color("Pink").map_err(|e| e.message()), Err("unknown trace color 'Pink'".to_string()));
    let names = ktools::ktrace::colors::available_color_names();
    assert_eq!(names[0], "Black");
    assert!(names.windows(2).all(|w| w[0] < w[1]));
}

#[test]
fn brace_search_counts_bytes_before_the_brace() {
    assert_eq!(expand_brace_expression(&chars("é.{a}")), Err("unmatched '{'".to_string()));
    assert_eq!(expand_brace_expression(&chars("x.{a,b}")), Ok(vec!["x.a".to_string(), "x.b".to_string()]));
}
