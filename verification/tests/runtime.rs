use compiler::runtime::Runtime;

#[test]
fn equal_texts_compare_equal() {
    let mut rt = Runtime::new();
    assert!(rt.compare_str(b"hello\0", b"hello\0"));
    assert!(rt.compare_str(b"\0", b"\0"));
}

#[test]
fn different_texts_compare_unequal() {
    let mut rt = Runtime::new();
    assert!(!rt.compare_str(b"hello\0", b"hellp\0"));
    assert!(!rt.compare_str(b"hell\0", b"hello\0"));
    assert!(!rt.compare_str(b"\0", b"a\0"));
}

#[test]
fn bytes_after_the_nul_do_not_count() {
    let mut rt = Runtime::new();
    assert!(rt.compare_str(b"ab\0xyz", b"ab\0q"));
    assert!(!rt.compare_str(b"ab\0", b"abc\0ab"));
}

#[test]
fn print_writes_the_text_and_a_newline() {
    let mut rt = Runtime::new();
    assert_eq!(rt.print(b"work\0"), b"work\n".to_vec());
    assert_eq!(rt.print(b"\0"), b"\n".to_vec());
    assert_eq!(rt.print(b"ee\0tail"), b"ee\n".to_vec());
}
