use luabundler::scan::{scan_requires, CallSite};

fn scan(src: &[u8]) -> Vec<CallSite> {
    scan_requires(src)
}

#[test]
fn call_form_simple() {
    let sites = scan(b"require(\"b.ext\")");
    assert_eq!(sites.len(), 1);
    assert_eq!(sites[0].matched_text, b"require(\"b.ext\")".to_vec());
    assert_eq!(sites[0].required_path, b"b.ext".to_vec());
    assert_eq!(sites[0].forwarded_args, Vec::<u8>::new());
    assert_eq!(sites[0].call_suffix, Vec::<u8>::new());
}

#[test]
fn call_form_with_arguments() {
    let sites = scan(b"require(\"b.ext\", x, y)");
    assert_eq!(sites.len(), 1);
    assert_eq!(sites[0].matched_text, b"require(\"b.ext\", x, y)".to_vec());
    assert_eq!(sites[0].required_path, b"b.ext".to_vec());
    assert_eq!(sites[0].forwarded_args, b"x, y".to_vec());
}

#[test]
fn call_form_with_semicolon() {
    let sites = scan(b"require(\"m.lua\");");
    assert_eq!(sites.len(), 1);
    assert_eq!(sites[0].matched_text, b"require(\"m.lua\");".to_vec());
}

#[test]
fn call_form_with_suffix() {
    let sites = scan(b"local v = require(\"a.lua\").field");
    assert_eq!(sites.len(), 1);
    assert_eq!(sites[0].matched_text, b"require(\"a.lua\").field".to_vec());
    assert_eq!(sites[0].call_suffix, b".field".to_vec());
}

#[test]
fn call_form_with_invocation_suffix() {
    let sites = scan(b"require(\"a.lua\")(1)");
    assert_eq!(sites.len(), 1);
    assert_eq!(sites[0].call_suffix, b"(1)".to_vec());
}

#[test]
fn bare_form() {
    let sites = scan(b"require\"m.lua\"");
    assert_eq!(sites.len(), 1);
    assert_eq!(sites[0].matched_text, b"require\"m.lua\"".to_vec());
    assert_eq!(sites[0].required_path, b"m.lua".to_vec());
    assert_eq!(sites[0].forwarded_args, Vec::<u8>::new());
}

#[test]
fn bare_form_with_space_and_semicolon() {
    let sites = scan(b"require \"m.lua\";");
    assert_eq!(sites.len(), 1);
    assert_eq!(sites[0].matched_text, b"require \"m.lua\";".to_vec());
    assert_eq!(sites[0].required_path, b"m.lua".to_vec());
}

#[test]
fn string_embedded_form_with_escaped_quotes() {
    let sites = scan(b"\"require(\\\"b.ext\\\")\"");
    assert_eq!(sites.len(), 1);
    assert_eq!(sites[0].matched_text, b"\"require(\\\"b.ext\\\")\"".to_vec());
    assert_eq!(sites[0].required_path, b"b.ext".to_vec());
}

#[test]
fn string_embedded_form_single_quotes() {
    let sites = scan(b"local s = 'require(\"b.ext\")'");
    assert_eq!(sites.len(), 1);
    assert_eq!(sites[0].matched_text, b"'require(\"b.ext\")'".to_vec());
    assert_eq!(sites[0].required_path, b"b.ext".to_vec());
}

#[test]
fn no_statement_yields_empty() {
    assert_eq!(scan(b"print(1)").len(), 0);
    assert_eq!(scan(b"").len(), 0);
}

#[test]
fn sites_in_source_order() {
    let sites = scan(b"require(\"a\")\nrequire\"b\"");
    assert_eq!(sites.len(), 2);
    assert_eq!(sites[0].required_path, b"a".to_vec());
    assert_eq!(sites[1].required_path, b"b".to_vec());
}

#[test]
fn multiline_call_form() {
    let sites = scan(b"require\n(\"x.lua\")");
    assert_eq!(sites.len(), 1);
    assert_eq!(sites[0].matched_text, b"require\n(\"x.lua\")".to_vec());
    assert_eq!(sites[0].required_path, b"x.lua".to_vec());
}

#[test]
fn newline_after_comma_in_arguments() {
    let sites = scan(b"require(\"x\",\n a, b)");
    assert_eq!(sites.len(), 1);
    assert_eq!(sites[0].forwarded_args, b"a, b".to_vec());
}

#[test]
fn path_is_trimmed() {
    let sites = scan(b"require(\" m.lua \")");
    assert_eq!(sites.len(), 1);
    assert_eq!(sites[0].required_path, b"m.lua".to_vec());
}

#[test]
fn unclosed_call_is_no_match() {
    assert_eq!(scan(b"require(\"a.lua\"").len(), 0);
}
