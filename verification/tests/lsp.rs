use termedit::lsp::{ExitStatus, FrameMessage, HeaderLine, ParseHeaderLine, RustAnalyzer, RustEvents};

#[test]
fn message_is_framed_with_its_byte_length() {
    assert_eq!(FrameMessage("hello"), "Content-Length: 5\r\n\r\nhello");
    assert_eq!(FrameMessage(""), "Content-Length: 0\r\n\r\n");
}

#[test]
fn frame_counts_bytes_not_chars() {
    assert_eq!(FrameMessage("é€"), "Content-Length: 5\r\n\r\né€");
}

#[test]
fn header_lines_are_read() {
    assert_eq!(ParseHeaderLine(&"Content-Length: 42\r\n".to_string()), HeaderLine::Length(42));
    assert_eq!(ParseHeaderLine(&"\r\n".to_string()), HeaderLine::End);
    assert_eq!(ParseHeaderLine(&"".to_string()), HeaderLine::End);
    assert_eq!(ParseHeaderLine(&"Content-Type: text".to_string()), HeaderLine::Other);
    assert_eq!(ParseHeaderLine(&"Content-Length: lots".to_string()), HeaderLine::Length(0));
}

#[test]
fn request_names_the_open_file() {
    let mut r = RustAnalyzer::new("/proj".to_string(), "src/main.rs".to_string());
    let req = r.GetRequest(&RustEvents::UpdatedLines(1, 2, 3, String::new()));
    assert!(req.contains("\"uri\": \"file://src/main.rs\""));
    assert!(req.contains("\"version\": 2"));
    assert_eq!(r.GetRequest(&RustEvents::Lint), "");
}

#[test]
fn events_are_taken_last_first() {
    let mut r = RustAnalyzer::new("/p".to_string(), "f.rs".to_string());
    assert_eq!(r.NextEvent(), None);
    r.NewEvent(RustEvents::Lint);
    r.NewEvent(RustEvents::Hover(3, 4));
    r.NewEventBack(RustEvents::Synchronize);
    assert_eq!(r.NextEvent(), Some(RustEvents::Hover(3, 4)));
    assert_eq!(r.NextEvent(), Some(RustEvents::Lint));
    assert_eq!(r.NextEvent(), Some(RustEvents::Synchronize));
    assert_eq!(r.NextEvent(), None);
    assert_eq!(r.PopResponse(), None);
}

#[test]
fn missing_answers_time_out() {
    let mut r = RustAnalyzer::new("/p".to_string(), "f.rs".to_string());
    assert_eq!(r.HandleResponses(RustEvents::Lint, vec![]), Some(ExitStatus::ResponseTimeOut(RustEvents::Lint)));
    assert_eq!(r.HandleResponses(RustEvents::Lint, vec!["{}".to_string()]), None);
    assert!(r.responses.is_empty());
}
