use partty::clip::Clip;

#[test]
fn wrap_brackets() {
    assert_eq!(Clip::wrap("hi", true), b"\x1b[2004~hi\x1b[201~");
    assert_eq!(Clip::wrap("hi", false), b"hi");
}

#[test]
fn wrap_keeps_utf8() {
    assert_eq!(Clip::wrap("سلام", false), "سلام".as_bytes());
    assert_eq!(Clip::wrap("", true), b"\x1b[2004~\x1b[201~");
}
