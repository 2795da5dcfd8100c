use zed_intellij::frame::{write_frame, FrameError, FrameReader};

#[test]
fn roundtrip() {
    let mut buf = Vec::new();
    write_frame(&mut buf, br#"{"jsonrpc":"2.0","id":1}"#);
    write_frame(&mut buf, b"{}");
    let mut reader = FrameReader::new(buf);
    assert_eq!(reader.read_frame().unwrap().unwrap(), br#"{"jsonrpc":"2.0","id":1}"#);
    assert_eq!(reader.read_frame().unwrap().unwrap(), b"{}");
    assert!(reader.read_frame().unwrap().is_none());
}

#[test]
fn ignores_other_headers() {
    let data = b"Content-Type: application/vscode-jsonrpc; charset=utf-8\r\nContent-Length: 2\r\n\r\n{}";
    let mut reader = FrameReader::new(data.to_vec());
    assert_eq!(reader.read_frame().unwrap().unwrap(), b"{}");
}

#[test]
fn writes_the_header_then_the_body() {
    let mut buf = Vec::new();
    write_frame(&mut buf, b"hello");
    assert_eq!(buf, b"Content-Length: 5\r\n\r\nhello".to_vec());
    let mut empty = Vec::new();
    write_frame(&mut empty, b"");
    assert_eq!(empty, b"Content-Length: 0\r\n\r\n".to_vec());
}

#[test]
fn header_name_is_case_insensitive_and_value_trimmed() {
    let data = b"content-length:   3  \r\n\r\nabc";
    let mut reader = FrameReader::new(data.to_vec());
    assert_eq!(reader.read_frame().unwrap().unwrap(), b"abc");
}

#[test]
fn missing_content_length_is_an_error() {
    let data = b"Content-Type: x\r\n\r\n{}";
    let mut reader = FrameReader::new(data.to_vec());
    assert_eq!(reader.read_frame(), Err(FrameError::MissingContentLength));
}

#[test]
fn truncated_body_and_headers() {
    let mut reader = FrameReader::new(b"Content-Length: 10\r\n\r\nabc".to_vec());
    assert_eq!(reader.read_frame(), Err(FrameError::TruncatedBody));
    let mut reader = FrameReader::new(b"Content-Length: 10\r\n".to_vec());
    assert_eq!(reader.read_frame(), Err(FrameError::EofInHeaders));
}

#[test]
fn streaming_waits_for_more_input() {
    let mut reader = FrameReader::streaming();
    reader.feed(b"Content-Len");
    assert_eq!(reader.read_frame(), Err(FrameError::NeedMoreInput));
    reader.feed(b"gth: 2\r\n\r\n{");
    assert_eq!(reader.read_frame(), Err(FrameError::NeedMoreInput));
    reader.feed(b"}");
    assert_eq!(reader.read_frame().unwrap().unwrap(), b"{}");
    assert_eq!(reader.read_frame(), Err(FrameError::NeedMoreInput));
    reader.close();
    assert_eq!(reader.read_frame(), Ok(None));
}
