use cli_print::diagnostic::{error_message, error_span, position, shows_traceback, SourceKind};

#[test]
fn positions() {
    assert_eq!(position(&b"42".to_vec()), Some(42));
    assert_eq!(position(&b"+7".to_vec()), Some(7));
    assert_eq!(position(&b"".to_vec()), None);
    assert_eq!(position(&b"4x".to_vec()), None);
    assert_eq!(position(&b"4294967296".to_vec()), None);
    assert_eq!(position(&vec![0xc3, 0xa9]), None);
}

#[test]
fn spans() {
    let s = error_span(&SourceKind::File(10), 15, 20, None).unwrap();
    assert_eq!((s.start, s.end, s.eof), (5, 10, false));
    assert!(error_span(&SourceKind::File(16), 15, 20, None).is_none());
    let s = error_span(&SourceKind::Semicolon, 15, 20, Some(33)).unwrap();
    assert_eq!((s.start, s.end, s.eof), (33, 33, true));
    assert!(error_span(&SourceKind::Semicolon, 15, 20, None).is_none());
    assert!(error_span(&SourceKind::Other, 15, 20, Some(1)).is_none());
}

#[test]
fn messages() {
    assert_eq!(error_message(true, "boom"), "Unexpected end of file");
    assert_eq!(error_message(false, "boom"), "boom");
    assert!(shows_traceback(0x0100_0000));
    assert!(!shows_traceback(0x0100_0001));
}
