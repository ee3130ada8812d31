use fusion::combiner::rtf::combiner::{combine, extract_file_content, pattern_position};

#[test]
fn two_documents_are_joined_with_a_page_break() {
    let first = br"{\rtf1...\widowctrl BODY1}".to_vec();
    let second = br"HDR2\widowctrl BODY2}".to_vec();
    let out = combine(&vec![first, second]);
    assert_eq!(out, br"{\rtf1...\widowctrl BODY1{\page\par}\widowctrl BODY2}".to_vec());
}

#[test]
fn three_documents_have_two_page_breaks_and_one_closing_brace() {
    let files = vec![
        br"{H1\widowctrl one}".to_vec(),
        br"{H2\widowctrl two}".to_vec(),
        br"{H3\widowctrl three}".to_vec(),
    ];
    let out = combine(&files);
    assert_eq!(
        out,
        br"{H1\widowctrl one{\page\par}\widowctrl two{\page\par}\widowctrl three}".to_vec()
    );
}

#[test]
fn no_document_gives_the_closing_brace_alone() {
    assert_eq!(combine(&vec![]), b"}".to_vec());
}

#[test]
fn a_document_without_mark_or_brace_is_left_out() {
    let files = vec![
        b"no mark and no brace".to_vec(),
        br"{H\widowctrl body}".to_vec(),
        br"\widowctrl but no brace".to_vec(),
        br"{H2\widowctrl last}".to_vec(),
    ];
    let out = combine(&files);
    // The header comes from the first document that has one.
    assert_eq!(out, br"{H\widowctrl body{\page\par}\widowctrl last}".to_vec());
}

#[test]
fn a_page_break_follows_a_body_that_is_not_the_last_file() {
    let files = vec![br"{H\widowctrl body}".to_vec(), b"broken".to_vec()];
    assert_eq!(combine(&files), br"{H\widowctrl body{\page\par}}".to_vec());
}

#[test]
fn test_pattern_position() {
    let content = br"{\fonttbl{\f1\froman\fprq2\fcharset0 SimSun;}".to_vec();
    let pattern = br"\fonttbl".to_vec();
    let result = pattern_position(&pattern, &content, 0).unwrap();
    assert_eq!(&content[result.0..result.1], pattern.as_slice());
    let pattern = br"\test".to_vec();
    assert_eq!(pattern_position(&pattern, &content, 0), None);
}

#[test]
fn pattern_position_starts_at_the_pointer() {
    let source = b"abcabcabc";
    assert_eq!(pattern_position(b"abc", source, 0), Some((0, 3)));
    assert_eq!(pattern_position(b"abc", source, 1), Some((3, 6)));
    assert_eq!(pattern_position(b"abc", source, 6), Some((6, 9)));
    assert_eq!(pattern_position(b"abc", source, 7), None);
    assert_eq!(pattern_position(b"abc", source, 100), None);
    assert_eq!(pattern_position(b"toolongpattern", b"short", 0), None);
}

#[test]
fn extract_test() {
    let data = br"\widowctrl\test}}";
    assert_eq!(extract_file_content(data), Some((0, data.len() - 1)));
}

#[test]
fn extract_needs_the_brace_behind_the_mark() {
    assert_eq!(extract_file_content(br"}\widowctrl"), None);
    assert_eq!(extract_file_content(br"\widowctrl"), None);
    assert_eq!(extract_file_content(b"}"), None);
    assert_eq!(extract_file_content(b""), None);
    assert_eq!(extract_file_content(br"ab\widowctrl}"), Some((2, 12)));
}

#[test]
fn the_body_runs_from_the_first_mark_to_the_last_brace() {
    let data = br"{H}\widowctrl a}\widowctrl b}}";
    assert_eq!(extract_file_content(data), Some((3, data.len() - 1)));
    let out = combine(&vec![data.to_vec()]);
    assert_eq!(out, br"{H}\widowctrl a}\widowctrl b}}".to_vec());
}
