use chatlog::parsetxt;

#[test]
fn test_empty_input_yields_no_messages() {
    let result = parsetxt(String::new());
    assert!(result.is_empty());
}

#[test]
fn test_header_count_matches_messages() {
    // Three headers among stray and continuation lines: exactly three messages.
    let input = "\
stray before anything
01.01.24, 00:01 - a: one
continuation
01.01.24, 00:02 - two without sender
01.01.24, 00:03 - b: three"
        .to_string();
    let result = parsetxt(input);
    assert_eq!(result.len(), 3);
}

#[test]
fn test_stray_text_before_first_header_dropped() {
    let input = "stray text\n08.05.24, 12:14 - sammy: hi".to_string();
    let result = parsetxt(input);
    assert_eq!(result.len(), 1);
    assert_eq!(result[0].sender, "sammy");
    assert_eq!(result[0].message, "hi");
}

#[test]
fn test_senderless_header_keeps_full_remainder() {
    let input = "11.10.23, 15:44 - Ende-zu-Ende-verschlüsselt.".to_string();
    let result = parsetxt(input);
    assert_eq!(result.len(), 1);
    assert_eq!(result[0].sender, "");
    assert_eq!(result[0].message, "Ende-zu-Ende-verschlüsselt.");
}

#[test]
fn test_multiline_body_keeps_order() {
    let input = "01.02.23, 10:00 - amy: line1\nline2\nline3".to_string();
    let result = parsetxt(input);
    assert_eq!(result.len(), 1);
    assert_eq!(result[0].message, "line1\nline2\nline3");
}

#[test]
fn test_trailing_continuations_keep_last_message() {
    let input = "01.02.23, 10:00 - amy: hello\nstill hers\nalso hers".to_string();
    let result = parsetxt(input);
    assert_eq!(result.len(), 1);
    assert_eq!(result[0].message, "hello\nstill hers\nalso hers");
}

#[test]
fn test_datetime_is_date_comma_time() {
    let input = "08.05.24, 12:14 - sammy: hi".to_string();
    let result = parsetxt(input);
    assert_eq!(result.len(), 1);
    assert_eq!(result[0].date, "08.05.24");
    assert_eq!(result[0].datetime, "08.05.24, 12:14");
}

#[test]
fn test_split_at_first_colon_space_only() {
    let input = "08.05.24, 12:14 - amy: note: remember".to_string();
    let result = parsetxt(input);
    assert_eq!(result.len(), 1);
    assert_eq!(result[0].sender, "amy");
    assert_eq!(result[0].message, "note: remember");
}

#[test]
fn test_empty_remainder_header() {
    let input = "08.05.24, 12:14 - ".to_string();
    let result = parsetxt(input);
    assert_eq!(result.len(), 1);
    assert_eq!(result[0].sender, "");
    assert_eq!(result[0].message, "");
    assert_eq!(result[0].datetime, "08.05.24, 12:14");
}

#[test]
fn test_crlf_line_endings_stripped() {
    let input = "08.05.24, 12:14 - sammy: hi\r\nmore text\r\n".to_string();
    let result = parsetxt(input);
    assert_eq!(result.len(), 1);
    assert_eq!(result[0].message, "hi\nmore text");
}

#[test]
fn test_trailing_newline_adds_no_line() {
    let with_nl = parsetxt("08.05.24, 12:14 - sammy: hi\n".to_string());
    let without_nl = parsetxt("08.05.24, 12:14 - sammy: hi".to_string());
    assert_eq!(with_nl, without_nl);
    assert_eq!(with_nl.len(), 1);
    assert_eq!(with_nl[0].message, "hi");
}

#[test]
fn test_malformed_timestamp_is_continuation() {
    // A one-digit day does not match the header shape, so the line continues
    // the previous message.
    let input = "08.05.24, 12:14 - sammy: hi\n8.05.24, 12:15 - Ole: nope".to_string();
    let result = parsetxt(input);
    assert_eq!(result.len(), 1);
    assert_eq!(result[0].message, "hi\n8.05.24, 12:15 - Ole: nope");
}

#[test]
fn test_header_with_empty_body_after_sender() {
    let input = "08.05.24, 12:14 - sammy: ".to_string();
    let result = parsetxt(input);
    assert_eq!(result.len(), 1);
    assert_eq!(result[0].sender, "sammy");
    assert_eq!(result[0].message, "");
}
