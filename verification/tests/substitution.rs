use luabundler::comments::remove_comments;
use luabundler::scan::scan_requires;
use luabundler::subst::{replace_all, replace_requires};

fn contains(haystack: &[u8], needle: &[u8]) -> bool {
    if needle.is_empty() || needle.len() > haystack.len() {
        return needle.is_empty();
    }
    (0..=haystack.len() - needle.len()).any(|i| &haystack[i..i + needle.len()] == needle)
}

/// Bundles `entry` against the sites its own text names, each resolved to
/// the given module texts (in site order).
fn bundle_text(entry: &[u8], modules: Vec<&[u8]>) -> Vec<u8> {
    let stripped = remove_comments(entry);
    let sites = scan_requires(&stripped);
    assert_eq!(sites.len(), modules.len());
    let owned: Vec<Vec<u8>> = modules.into_iter().map(|m| m.to_vec()).collect();
    replace_requires(&stripped, &sites, &owned)
}

#[test]
fn replace_all_every_occurrence() {
    assert_eq!(replace_all(b"abcabc", b"b", b"X"), b"aXcaXc".to_vec());
}

#[test]
fn replace_all_resumes_after_replacement() {
    assert_eq!(replace_all(b"aaa", b"aa", b"b"), b"ba".to_vec());
}

#[test]
fn replace_all_no_occurrence() {
    assert_eq!(replace_all(b"abc", b"z", b"X"), b"abc".to_vec());
}

#[test]
fn no_dependency_statement_yields_stripped_input() {
    let entry = b"local a = 1 -- doc\nprint(a)";
    let out = bundle_text(entry, vec![]);
    assert_eq!(out, remove_comments(entry));
}

#[test]
fn single_require_becomes_invoked_closure() {
    let out = bundle_text(b"require(\"b.ext\")", vec![b"return 1"]);
    assert_eq!(out, b"(function(...)\n\treturn 1\nend)();".to_vec());
    assert!(!contains(&out, b"require(\"b.ext\")"));
}

#[test]
fn forwarded_arguments_declared_and_passed_in_order() {
    let out = bundle_text(b"require(\"b.ext\", x, y)", vec![b"return x + y"]);
    assert_eq!(out, b"(function(x, y)\n\treturn x + y\nend)(x, y);".to_vec());
}

#[test]
fn string_embedded_statement_becomes_long_bracket_literal() {
    let out = bundle_text(b"local s = 'require(\"b.ext\")'", vec![b"return 1"]);
    assert_eq!(
        out,
        b"local s = [[(function(...)\n\treturn 1\nend)();]]".to_vec()
    );
    assert!(!contains(&out, b"'"));
}

#[test]
fn multiline_statement_is_reindented() {
    let out = bundle_text(b"require\n(\"b.ext\")", vec![b"return 1"]);
    assert_eq!(
        out,
        b"    (function(...)\n    \treturn 1\n    end)();".to_vec()
    );
}

#[test]
fn call_suffix_replaces_terminator() {
    let out = bundle_text(b"local v = require(\"b.ext\").x", vec![b"return { x = 1 }"]);
    assert_eq!(
        out,
        b"local v = (function(...)\n\treturn { x = 1 }\nend)().x".to_vec()
    );
}

#[test]
fn chain_of_three_nests_two_closures_leaf_innermost() {
    // The entry requires `b`, whose text requires `c`: the flattened site
    // list is [b, c], and module texts are read relative to the entry.
    let entry = b"require(\"b\")";
    let b_text: &[u8] = b"require(\"c\")";
    let c_text: &[u8] = b"return 3";
    let stripped = remove_comments(entry);
    let mut sites = scan_requires(&stripped);
    sites.extend(scan_requires(&remove_comments(b_text)));
    let modules: Vec<Vec<u8>> = vec![b_text.to_vec(), c_text.to_vec()];
    let out = replace_requires(&stripped, &sites, &modules);
    assert_eq!(
        out,
        b"(function(...)\n\t(function(...)\n\treturn 3\nend)();\nend)();".to_vec()
    );
    assert!(!contains(&out, b"require"));
}

#[test]
fn every_occurrence_of_matched_text_is_replaced() {
    let out = bundle_text(
        b"require(\"b.ext\")\nrequire(\"b.ext\")",
        vec![b"return 1", b"return 1"],
    );
    assert!(!contains(&out, b"require"));
}

#[test]
fn comments_are_stripped_before_substitution() {
    let out = bundle_text(b"-- header\nrequire(\"b.ext\")", vec![b"return 1"]);
    assert_eq!(out, b"\n(function(...)\n\treturn 1\nend)();".to_vec());
}
