use luabundler::comments::remove_comments;

fn strip(src: &[u8]) -> Vec<u8> {
    remove_comments(src)
}

#[test]
fn strip_is_idempotent_on_samples() {
    let samples: Vec<&[u8]> = vec![
        b"a = 1 -- note\nb = 2",
        b"a--[[ x ]]b",
        b"s = \"-- keep\"",
        b"x--[==[ multi\nline ]==]y",
        b"-- only a comment",
        b"plain text, nothing else",
        b"'unterminated string -- inside",
        b"a --[[ unterminated block",
    ];
    for sample in samples {
        let once = strip(sample);
        let twice = strip(&once);
        assert_eq!(twice, once);
    }
}

#[test]
fn line_comment_dropped_newline_kept() {
    assert_eq!(strip(b"a = 1 -- note\nb = 2"), b"a = 1 \nb = 2".to_vec());
}

#[test]
fn line_comment_at_end_of_buffer() {
    assert_eq!(strip(b"a -- x"), b"a ".to_vec());
}

#[test]
fn block_comment_dropped() {
    assert_eq!(strip(b"a--[[ x ]]b"), b"ab".to_vec());
}

#[test]
fn block_comment_with_level_dropped() {
    assert_eq!(strip(b"a--[==[ x ]] y ]==]b"), b"ab".to_vec());
}

#[test]
fn block_close_needs_matching_level() {
    // `]]` does not close a level-two block comment.
    assert_eq!(strip(b"a--[==[ x ]] y"), b"a".to_vec());
}

#[test]
fn marker_inside_double_quoted_string_kept() {
    assert_eq!(strip(b"s = \"-- keep\""), b"s = \"-- keep\"".to_vec());
}

#[test]
fn marker_inside_single_quoted_string_kept() {
    assert_eq!(strip(b"s = '--[[ keep ]]'"), b"s = '--[[ keep ]]'".to_vec());
}

#[test]
fn escaped_quote_does_not_close_string() {
    assert_eq!(strip(b"s = \"a\\\"--b\""), b"s = \"a\\\"--b\"".to_vec());
}

#[test]
fn unterminated_block_comment_consumes_to_end() {
    assert_eq!(strip(b"a--[[ x"), b"a".to_vec());
}

#[test]
fn three_dashes_start_a_line_comment() {
    // `---[[x]]` is a line comment, not a block comment.
    assert_eq!(strip(b"---[[x]]\nz"), b"\nz".to_vec());
}

#[test]
fn comment_between_statements() {
    assert_eq!(
        strip(b"local a = 1\n--[[ doc ]]\nlocal b = 2"),
        b"local a = 1\n\nlocal b = 2".to_vec()
    );
}

#[test]
fn empty_input_stays_empty() {
    assert_eq!(strip(b""), Vec::<u8>::new());
}
