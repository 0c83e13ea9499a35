use robar::client::{frame_request, hide_bar, parse_show_line, parse_u8, show, stop};
use robar::error::{Error, ErrorKind};
use robar::request::{Request, END_OF_REQUEST_SEPARATOR};

#[test]
fn show_frames() {
    assert_eq!(
        show("low".to_string(), 30).unwrap(),
        vec![0, 1, 14, b'l', b'o', b'w', END_OF_REQUEST_SEPARATOR]
    );
    assert_eq!(hide_bar(), vec![1, END_OF_REQUEST_SEPARATOR]);
    assert_eq!(stop(), vec![2, END_OF_REQUEST_SEPARATOR]);
    assert_eq!(frame_request(&Request::Empty), vec![3, END_OF_REQUEST_SEPARATOR]);
}

#[test]
fn show_out_of_range() {
    assert_eq!(show("low".to_string(), 101).unwrap_err().kind, ErrorKind::OutOfRange);
    assert!(show("low".to_string(), 100).is_ok());
}

#[test]
fn show_profile_too_long() {
    let fits = "p".repeat(29);
    assert_eq!(show(fits, 1).unwrap().len(), 33);
    let too_long = "p".repeat(30);
    assert_eq!(show(too_long, 1).unwrap_err().kind, ErrorKind::FrameTooLarge);
}

#[test]
fn stream_lines() {
    assert_eq!(
        parse_show_line("low 30").unwrap(),
        Request::Show { profile: "low".to_string(), value: 30 }
    );
    assert_eq!(
        parse_show_line("ünï +7").unwrap(),
        Request::Show { profile: "ünï".to_string(), value: 7 }
    );
    assert_eq!(
        parse_show_line(" 0").unwrap(),
        Request::Show { profile: "".to_string(), value: 0 }
    );
    assert_eq!(parse_show_line("low 101").unwrap_err().kind, ErrorKind::OutOfRange);
    let e = parse_show_line("low").unwrap_err();
    assert_eq!(e.kind, ErrorKind::Other);
    assert_eq!(e.description, "Expected each line to be in format `profile value`");
    assert_eq!(parse_show_line("low 3 4").unwrap_err().kind, ErrorKind::Other);
    assert_eq!(parse_show_line("low 30 ").unwrap_err().kind, ErrorKind::Other);
    let e = parse_show_line("low x").unwrap_err();
    assert_eq!(e.description, "Expected `value` to be a u8");
    assert_eq!(parse_show_line("low 256").unwrap_err().kind, ErrorKind::Other);
    assert_eq!(parse_show_line("low 256").unwrap_err().context, "reading stream");
    assert_eq!(parse_show_line("low 101").unwrap_err().description, "Expected `value` in [0, 100].");
    assert_eq!(parse_show_line("low ").unwrap_err().kind, ErrorKind::Other);
}

#[test]
fn u8_parsing() {
    assert_eq!(parse_u8("0"), Some(0));
    assert_eq!(parse_u8("255"), Some(255));
    assert_eq!(parse_u8("0255"), Some(255));
    assert_eq!(parse_u8("+12"), Some(12));
    assert_eq!(parse_u8("256"), None);
    assert_eq!(parse_u8("1000"), None);
    assert_eq!(parse_u8(""), None);
    assert_eq!(parse_u8("+"), None);
    assert_eq!(parse_u8("-1"), None);
    assert_eq!(parse_u8("1a"), None);
    for text in ["0", "7", "42", "+9", "255", "256", "", "+", "-0", "x", "1 "] {
        assert_eq!(parse_u8(text), text.parse::<u8>().ok(), "{:?}", text);
    }
}

#[test]
fn error_messages() {
    let e = Error::from_description("processing request", "bad");
    assert_eq!(e.kind, ErrorKind::Other);
    assert_eq!(e.message(), "Error in processing request - bad");
    let io = std::io::Error::new(std::io::ErrorKind::Other, "boom");
    let e = Error::new("reading from socket", &io);
    assert_eq!(e.kind, ErrorKind::Io);
    assert_eq!(e.context, "reading from socket");
    assert_eq!(e.description, "boom");
    assert_eq!(Error::out_of_range().message(), "Error in processing request - Expected `value` in [0, 100].");
}

#[test]
fn error_texts_of_show() {
    let e = show("low".to_string(), 150).unwrap_err();
    assert_eq!(e.context, "processing request");
    assert_eq!(e.description, "Expected `value` in [0, 100].");
    let e = show("p".repeat(40), 1).unwrap_err();
    assert_eq!(e.context, "reading from socket");
    assert_eq!(e.description, "request body exceeded max request size");
    let e = Error::from_description("processing request", "Expected `value` in [0, 100].");
    assert_eq!(e.context, "processing request");
    assert_eq!(e.description, "Expected `value` in [0, 100].");
}
