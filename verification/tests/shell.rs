use page_stream::shell::{split, Shell, ShellError, BODY_MARKER};

fn halves(document: &str, marker: &str) -> (String, String) {
    let shell = split(document, marker).expect("the marker occurs");
    (shell.prefix, shell.suffix)
}

#[test]
fn body_marker_opens_the_body() {
    assert_eq!(BODY_MARKER, "<body>");
    let (prefix, suffix) = halves("<html><body><main></main></body></html>", BODY_MARKER);
    assert_eq!(prefix, "<html><body>");
    assert_eq!(suffix, "<main></main></body></html>");
}

#[test]
fn split_keeps_marker_in_prefix() {
    let (prefix, suffix) = halves("<html><body>MARK</body></html>", "<body>");
    assert_eq!(prefix, "<html><body>");
    assert_eq!(suffix, "MARK</body></html>");
}

#[test]
fn split_round_trip_single_marker() {
    let document = "<!DOCTYPE html><html><head><title>t</title></head><body><div id=\"app\"></div></body></html>";
    let (prefix, suffix) = halves(document, "<body>");
    assert!(prefix.ends_with("<body>"));
    assert_eq!(format!("{}{}", prefix, suffix), document);
    assert_eq!(format!("{}{}{}", &prefix[..prefix.len() - "<body>".len()], "<body>", suffix), document);
}

#[test]
fn split_without_marker_fails() {
    assert_eq!(split("<html></html>", "<body>"), Err(ShellError::MarkerNotFound));
    assert_eq!(split("", "<body>"), Err(ShellError::MarkerNotFound));
    assert_eq!(split("<body", "<body>"), Err(ShellError::MarkerNotFound));
    assert_eq!(split("body>", "<body>"), Err(ShellError::MarkerNotFound));
}

#[test]
fn split_marker_longer_than_document_fails() {
    assert_eq!(split("<b>", "<body>"), Err(ShellError::MarkerNotFound));
}

#[test]
fn split_takes_first_of_several_markers() {
    let (prefix, suffix) = halves("a<body>b<body>c", "<body>");
    assert_eq!(prefix, "a<body>");
    assert_eq!(suffix, "b<body>c");
}

#[test]
fn split_finds_marker_after_false_start() {
    let (prefix, suffix) = halves("<bo<body>x", "<body>");
    assert_eq!(prefix, "<bo<body>");
    assert_eq!(suffix, "x");
    let (prefix, suffix) = halves("aaab", "aab");
    assert_eq!(prefix, "aaab");
    assert_eq!(suffix, "");
}

#[test]
fn split_marker_at_either_end() {
    assert_eq!(
        split("<body>rest", "<body>"),
        Ok(Shell { prefix: "<body>".to_string(), suffix: "rest".to_string() })
    );
    assert_eq!(
        split("head<body>", "<body>"),
        Ok(Shell { prefix: "head<body>".to_string(), suffix: String::new() })
    );
    assert_eq!(
        split("<body>", "<body>"),
        Ok(Shell { prefix: "<body>".to_string(), suffix: String::new() })
    );
}

#[test]
fn split_empty_marker_stands_at_the_start() {
    assert_eq!(
        split("abc", ""),
        Ok(Shell { prefix: String::new(), suffix: "abc".to_string() })
    );
    assert_eq!(split("", ""), Ok(Shell { prefix: String::new(), suffix: String::new() }));
}

#[test]
fn split_counts_characters_not_bytes() {
    let document = "h\u{e9}llo \u{4e16}\u{754c}<body>w\u{f6}rld \u{1f600}";
    let (prefix, suffix) = halves(document, "<body>");
    assert_eq!(prefix, "h\u{e9}llo \u{4e16}\u{754c}<body>");
    assert_eq!(suffix, "w\u{f6}rld \u{1f600}");
    let (prefix, suffix) = halves(document, "\u{4e16}\u{754c}");
    assert_eq!(prefix, "h\u{e9}llo \u{4e16}\u{754c}");
    assert_eq!(suffix, "<body>w\u{f6}rld \u{1f600}");
}

#[test]
fn split_agrees_with_split_once() {
    let documents = [
        "",
        "<body>",
        "<html><body></body></html>",
        "<html><body>MARK</body></html>",
        "x<body>y<body>z",
        "<<body>>",
        "<body<body<body>",
        "no marker here",
        "caf\u{e9}<body>\u{1f600}",
    ];
    let markers = ["<body>", "<", ">", "body", "", "\u{e9}<", "zz"];
    for document in documents {
        for marker in markers {
            let expected = document
                .split_once(marker)
                .map(|(before, after)| (format!("{}{}", before, marker), after.to_string()));
            let actual = split(document, marker).ok().map(|shell| (shell.prefix, shell.suffix));
            assert_eq!(actual, expected);
        }
    }
}
